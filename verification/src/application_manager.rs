//! Application loader and executor.
//!
//! Accepts a streamed application image byte by byte into a fixed-capacity
//! arena, verifies it against a 4-byte CRC-32 trailer, extracts the two
//! entry-point addresses embedded in the image header, and tracks the
//! load / run lifecycle. Invoking a raw address as native code is the
//! caller's sole unsafe operation and lives outside this library; this
//! module decides *which* address to invoke and records the outcome.
//!
//! Image layout: bytes 0..4 hold the setup-function address and bytes 4..8
//! the service-function address, both little-endian; the rest is opaque
//! code and data. Addresses are absolute — no relocation is performed.

use vstd::prelude::*;

verus! {

/// Errors reported by the application loader.
#[derive(Debug, Clone, Copy, PartialEq, Eq, Structural)]
pub enum Error {
    /// Reserved for future use.
    Executing,
    /// The assembled checksum trailer did not match the image's CRC-32.
    ChecksumFailed,
    /// No successfully verified image is loaded.
    NoApplication,
    /// No service function has been stored by a successful `execute`.
    InvalidServiceFn,
    /// A write would run past the image buffer or the 4-byte trailer.
    BufferOverflow,
    /// A frame's payload would run past the fixed payload bound.
    PayloadOverflow,
}

/// Snapshot of the loader's externally visible state.
#[derive(Debug, Clone, Copy, PartialEq, Eq, Structural)]
pub struct Status {
    pub is_loaded: bool,
    pub is_running: bool,
    pub ram_used: usize,
    pub service_result: i32,
}

/// The status of a freshly constructed (or fully stopped) loader.
pub open spec fn fresh_status() -> Status {
    Status { is_loaded: false, is_running: false, ram_used: 0, service_result: -1i32 }
}

impl Default for Status {
    fn default() -> (s: Status)
        ensures
            s == fresh_status(),
    {
        Status { is_loaded: false, is_running: false, ram_used: 0, service_result: -1i32 }
    }
}

/// The IEEE CRC-32 of a byte sequence, as the `crc` crate computes it.
pub uninterp spec fn crc32_of(data: Seq<u8>) -> u32;

/// Relies on `crc::Crc::<u32>::checksum` with the `CRC_32_ISO_HDLC`
/// algorithm (the IEEE CRC-32): the result is a function of the bytes alone.
#[verifier::external_body]
fn crc32_checksum(data: &Vec<u8>) -> (r: u32)
    ensures
        r == crc32_of(data@),
{
    crc::Crc::<u32>::new(&crc::CRC_32_ISO_HDLC).checksum(data.as_slice())
}

/// A 32-bit value assembled big-endian from four bytes: byte 0 is the
/// most significant, byte 3 the least. This is the trailer's byte order.
pub open spec fn assemble_be(b: Seq<u8>) -> u32
    recommends
        b.len() == 4,
{
    (((b[0] as u32) << 24) | ((b[1] as u32) << 16) | ((b[2] as u32) << 8) | (b[3] as u32))
}

/// A 32-bit value read little-endian from four bytes: byte 0 is the least
/// significant. This is the byte order of the header's embedded addresses.
pub open spec fn le32(b: Seq<u8>) -> u32
    recommends
        b.len() == 4,
{
    (((b[3] as u32) << 24) | ((b[2] as u32) << 16) | ((b[1] as u32) << 8) | (b[0] as u32))
}

/// The four big-endian bytes of a 32-bit value, most significant first:
/// the trailer an uploader sends for a checksum `c`.
pub open spec fn be_bytes_of(c: u32) -> Seq<u8> {
    seq![(c >> 24) as u8, (c >> 16) as u8, (c >> 8) as u8, c as u8]
}

/// Assembling the four big-endian bytes of a value gives the value back.
/// With the acceptance condition of `verify`, this says that uploading any
/// image followed by the four bytes of its true CRC-32, most significant
/// first, always verifies.
pub proof fn lemma_true_trailer_assembles(c: u32)
    ensures
        assemble_be(be_bytes_of(c)) == c,
{
    let b = be_bytes_of(c);
    assert(b[0] == (c >> 24) as u8 && b[1] == (c >> 16) as u8 && b[2] == (c >> 8) as u8 && b[3]
        == c as u8);
    assert(((((c >> 24) as u8) as u32) << 24) | ((((c >> 16) as u8) as u32) << 16) | ((((c
        >> 8) as u8) as u32) << 8) | ((c as u8) as u32) == c) by (bit_vector);
}

/// For any image, a trailer holding the image's true CRC-32 satisfies the
/// exact acceptance condition stated by `verify`.
pub proof fn lemma_upload_then_verify(image: Seq<u8>)
    ensures
        assemble_be(be_bytes_of(crc32_of(image))) == crc32_of(image),
{
    lemma_true_trailer_assembles(crc32_of(image));
}

/// Loader for a single application image.
pub struct ApplicationManager {
    /// The fixed arena the image is streamed into; never grows or shrinks.
    ram: Vec<u8>,
    /// Write cursor into `ram`: bytes `[0, ram_idx)` are the image so far.
    ram_idx: usize,
    /// The 4-byte checksum trailer buffer.
    target_cs: Vec<u8>,
    /// Write cursor into `target_cs`.
    target_cs_idx: usize,
    /// Address of the service function, stored by a successful `execute`.
    service_fn: Option<u32>,
    status: Status,
}

impl ApplicationManager {
    /// Internal consistency: the cursors stay within their buffers, the
    /// trailer buffer is exactly four bytes, the arena holds at least the
    /// 8-byte header, and the status mirrors the image cursor.
    pub closed spec fn wf(&self) -> bool {
        &&& self.ram_idx <= self.ram@.len()
        &&& self.ram@.len() >= 8
        &&& self.target_cs@.len() == 4
        &&& self.target_cs_idx <= 4
        &&& self.status.ram_used == self.ram_idx
    }

    /// The whole arena, stale bytes past the image cursor included.
    pub closed spec fn arena(&self) -> Seq<u8> {
        self.ram@
    }

    /// The arena's fixed capacity in bytes.
    pub open spec fn capacity(&self) -> nat {
        self.arena().len()
    }

    /// The loader's status record, as `status` returns it.
    pub closed spec fn spec_status(&self) -> Status {
        self.status
    }

    /// The image streamed in so far: the written prefix of the arena.
    pub open spec fn image(&self) -> Seq<u8> {
        self.arena().take(self.spec_status().ram_used as int)
    }

    /// The 4-byte trailer buffer, stale bytes past its cursor included.
    pub closed spec fn trailer(&self) -> Seq<u8> {
        self.target_cs@
    }

    /// How many trailer bytes have been written since the last stop.
    pub closed spec fn trailer_written(&self) -> nat {
        self.target_cs_idx as nat
    }

    /// The stored service-function address, if `execute` has stored one.
    pub closed spec fn service_addr_opt(&self) -> Option<u32> {
        self.service_fn
    }

    /// Creates an empty loader over a zeroed arena of `capacity` bytes.
    pub fn new(capacity: usize) -> (r: Self)
        requires
            capacity >= 8,
        ensures
            r.wf(),
            r.capacity() == capacity,
            r.arena() == Seq::new(capacity as nat, |i: int| 0u8),
            r.trailer() == Seq::new(4, |i: int| 0u8),
            r.trailer_written() == 0,
            r.service_addr_opt() is None,
            r.spec_status() == fresh_status(),
    {
        let mut ram: Vec<u8> = Vec::new();
        while ram.len() < capacity
            invariant
                ram@ =~= Seq::new(ram@.len(), |i: int| 0u8),
                ram@.len() <= capacity,
            decreases capacity - ram@.len(),
        {
            ram.push(0u8);
        }
        let mut target_cs: Vec<u8> = Vec::new();
        target_cs.push(0u8);
        target_cs.push(0u8);
        target_cs.push(0u8);
        target_cs.push(0u8);
        proof {
            assert(ram@ =~= Seq::new(capacity as nat, |i: int| 0u8));
            assert(target_cs@ =~= Seq::new(4, |i: int| 0u8));
        }
        ApplicationManager {
            ram,
            ram_idx: 0,
            target_cs,
            target_cs_idx: 0,
            service_fn: None,
            status: Status::default(),
        }
    }

    /// Appends one byte of the image at the write cursor. Fails with
    /// `BufferOverflow` once the arena is full, leaving the loader unchanged.
    pub fn write_byte(&mut self, byte: u8) -> (r: Result<(), Error>)
        requires
            old(self).wf(),
        ensures
            final(self).wf(),
            old(self).spec_status().ram_used < old(self).capacity() ==> {
                &&& r is Ok
                &&& final(self).arena() == old(self).arena().update(
                    old(self).spec_status().ram_used as int,
                    byte,
                )
                &&& final(self).image() == old(self).image().push(byte)
                &&& final(self).spec_status() == (Status {
                    ram_used: (old(self).spec_status().ram_used + 1) as usize,
                    ..old(self).spec_status()
                })
            },
            old(self).spec_status().ram_used >= old(self).capacity() ==> {
                &&& r == Err::<(), Error>(Error::BufferOverflow)
                &&& *final(self) == *old(self)
            },
            final(self).trailer() == old(self).trailer(),
            final(self).trailer_written() == old(self).trailer_written(),
            final(self).service_addr_opt() == old(self).service_addr_opt(),
            final(self).capacity() == old(self).capacity(),
    {
        if self.ram_idx < self.ram.len() {
            self.ram[self.ram_idx] = byte;
            self.ram_idx = self.ram_idx + 1;
            self.status.ram_used = self.ram_idx;
            proof {
                assert(self.arena().take(self.ram_idx as int) =~= old(self).arena().take(
                    old(self).ram_idx as int,
                ).push(byte));
            }
            Ok(())
        } else {
            Err(Error::BufferOverflow)
        }
    }

    /// Appends one byte of the checksum trailer. Fails with `BufferOverflow`
    /// once all four trailer bytes are present, leaving the loader unchanged.
    pub fn write_checksum_byte(&mut self, byte: u8) -> (r: Result<(), Error>)
        requires
            old(self).wf(),
        ensures
            final(self).wf(),
            old(self).trailer_written() < 4 ==> {
                &&& r is Ok
                &&& final(self).trailer() == old(self).trailer().update(
                    old(self).trailer_written() as int,
                    byte,
                )
                &&& final(self).trailer_written() == old(self).trailer_written() + 1
            },
            old(self).trailer_written() >= 4 ==> {
                &&& r == Err::<(), Error>(Error::BufferOverflow)
                &&& *final(self) == *old(self)
            },
            final(self).arena() == old(self).arena(),
            final(self).spec_status() == old(self).spec_status(),
            final(self).service_addr_opt() == old(self).service_addr_opt(),
    {
        if self.target_cs_idx < 4 {
            self.target_cs[self.target_cs_idx] = byte;
            self.target_cs_idx = self.target_cs_idx + 1;
            Ok(())
        } else {
            Err(Error::BufferOverflow)
        }
    }

    /// Assembles the trailer big-endian and compares it with the IEEE CRC-32
    /// of the image streamed in so far. On a match the image becomes loaded;
    /// on a mismatch the loader reports `ChecksumFailed` and keeps the image
    /// bytes, so the caller may retry the trailer or restart the upload.
    pub fn verify(&mut self) -> (r: Result<(), Error>)
        requires
            old(self).wf(),
        ensures
            final(self).wf(),
            assemble_be(old(self).trailer()) == crc32_of(old(self).image()) ==> {
                &&& r is Ok
                &&& final(self).spec_status() == (Status {
                    is_loaded: true,
                    ..old(self).spec_status()
                })
            },
            assemble_be(old(self).trailer()) != crc32_of(old(self).image()) ==> {
                &&& r == Err::<(), Error>(Error::ChecksumFailed)
                &&& final(self).spec_status() == old(self).spec_status()
            },
            final(self).arena() == old(self).arena(),
            final(self).trailer() == old(self).trailer(),
            final(self).trailer_written() == old(self).trailer_written(),
            final(self).service_addr_opt() == old(self).service_addr_opt(),
            final(self).capacity() == old(self).capacity(),
    {
        let mut data: Vec<u8> = Vec::new();
        let mut i: usize = 0;
        while i < self.ram_idx
            invariant
                *self == *old(self),
                old(self).wf(),
                i <= self.ram_idx,
                data@ =~= self.ram@.take(i as int),
            decreases self.ram_idx - i,
        {
            data.push(self.ram[i]);
            i = i + 1;
        }
        proof {
            assert(data@ =~= old(self).image());
        }
        let self_cs = crc32_checksum(&data);
        let b0 = self.target_cs[0];
        let b1 = self.target_cs[1];
        let b2 = self.target_cs[2];
        let b3 = self.target_cs[3];
        let digest: u32 = ((b0 as u32) << 24u32) | ((b1 as u32) << 16u32) | ((b2 as u32) << 8u32)
            | (b3 as u32);
        if digest == self_cs {
            self.status.is_loaded = true;
            Ok(())
        } else {
            Err(Error::ChecksumFailed)
        }
    }

    /// Reads the 32-bit little-endian value at `offset` in the arena.
    fn le32_at(ram: &Vec<u8>, offset: usize) -> (r: u32)
        requires
            offset + 4 <= ram.len(),
        ensures
            r == le32(ram@.subrange(offset as int, offset as int + 4)),
    {
        let b0 = ram[offset];
        let b1 = ram[offset + 1];
        let b2 = ram[offset + 2];
        let b3 = ram[offset + 3];
        proof {
            let s = ram@.subrange(offset as int, offset as int + 4);
            assert(s[0] == b0 && s[1] == b1 && s[2] == b2 && s[3] == b3);
        }
        ((b3 as u32) << 24u32) | ((b2 as u32) << 16u32) | ((b1 as u32) << 8u32) | (b0 as u32)
    }

    /// Requires a loaded image; otherwise fails with `NoApplication` and
    /// changes nothing. Reads the setup-function address from arena bytes
    /// 0..4 and the service-function address from bytes 4..8 (little-endian,
    /// absolute, unrelocated), stores the service address, marks the loader
    /// running, and returns the setup address for the caller to invoke once.
    pub fn execute(&mut self) -> (r: Result<u32, Error>)
        requires
            old(self).wf(),
        ensures
            final(self).wf(),
            !old(self).spec_status().is_loaded ==> {
                &&& r == Err::<u32, Error>(Error::NoApplication)
                &&& *final(self) == *old(self)
            },
            old(self).spec_status().is_loaded ==> {
                &&& r == Ok::<u32, Error>(le32(old(self).arena().subrange(0, 4)))
                &&& final(self).service_addr_opt() == Some(
                    le32(old(self).arena().subrange(4, 8)),
                )
                &&& final(self).spec_status() == (Status {
                    is_running: true,
                    ..old(self).spec_status()
                })
            },
            final(self).arena() == old(self).arena(),
            final(self).trailer() == old(self).trailer(),
            final(self).trailer_written() == old(self).trailer_written(),
            final(self).capacity() == old(self).capacity(),
    {
        if !self.status.is_loaded {
            return Err(Error::NoApplication);
        }
        let setup_addr = Self::le32_at(&self.ram, 0);
        let service_addr = Self::le32_at(&self.ram, 4);
        self.service_fn = Some(service_addr);
        self.status.is_running = true;
        Ok(setup_addr)
    }

    /// The address to give processing time to: the stored service function.
    /// Fails with `InvalidServiceFn` when no successful `execute` has stored
    /// one. The caller invokes the address with its display context and then
    /// hands the returned code to `record_service_result`.
    pub fn service_addr(&self) -> (r: Result<u32, Error>)
        ensures
            self.service_addr_opt() is Some ==> r == Ok::<u32, Error>(
                self.service_addr_opt()->0,
            ),
            self.service_addr_opt() is None ==> r == Err::<u32, Error>(Error::InvalidServiceFn),
    {
        match self.service_fn {
            Some(addr) => Ok(addr),
            None => Err(Error::InvalidServiceFn),
        }
    }

    /// Records the status code the service function returned on this tick.
    pub fn record_service_result(&mut self, result: i32)
        requires
            old(self).wf(),
        ensures
            final(self).wf(),
            final(self).spec_status() == (Status {
                service_result: result,
                ..old(self).spec_status()
            }),
            final(self).arena() == old(self).arena(),
            final(self).trailer() == old(self).trailer(),
            final(self).trailer_written() == old(self).trailer_written(),
            final(self).service_addr_opt() == old(self).service_addr_opt(),
    {
        self.status.service_result = result;
    }

    /// Marks the application paused. The stored service function and the
    /// loaded image are kept, so a later service tick still runs it.
    pub fn pause(&mut self)
        requires
            old(self).wf(),
        ensures
            final(self).wf(),
            final(self).spec_status() == (Status {
                is_running: false,
                ..old(self).spec_status()
            }),
            final(self).arena() == old(self).arena(),
            final(self).trailer() == old(self).trailer(),
            final(self).trailer_written() == old(self).trailer_written(),
            final(self).service_addr_opt() == old(self).service_addr_opt(),
    {
        self.status.is_running = false;
    }

    /// Resets both write cursors and returns the status to the values of a
    /// freshly constructed loader. The arena bytes are not zeroed: the
    /// cursors bound every later read.
    pub fn stop(&mut self) -> (r: Result<(), Error>)
        requires
            old(self).wf(),
        ensures
            final(self).wf(),
            r is Ok,
            final(self).spec_status() == fresh_status(),
            final(self).image() == Seq::<u8>::empty(),
            final(self).trailer_written() == 0,
            final(self).arena() == old(self).arena(),
            final(self).capacity() == old(self).capacity(),
            final(self).service_addr_opt() == old(self).service_addr_opt(),
    {
        self.ram_idx = 0;
        self.target_cs_idx = 0;
        self.status.is_loaded = false;
        self.status.is_running = false;
        self.status.ram_used = 0;
        self.status.service_result = -1i32;
        proof {
            assert(self.arena().take(0) =~= Seq::<u8>::empty());
        }
        Ok(())
    }

    /// A copy of the current status record.
    pub fn status(&self) -> (r: Status)
        ensures
            r == self.spec_status(),
    {
        self.status
    }
}

} // verus!
