use mwatch_core::application_manager::{ApplicationManager, Error, Status};

const CRC32: crc::Crc<u32> = crc::Crc::<u32>::new(&crc::CRC_32_ISO_HDLC);

/// Builds a loader of the given capacity with `image` streamed in and the
/// image's true CRC-32 written as the four trailer bytes, MSB first.
fn upload(capacity: usize, image: &[u8]) -> ApplicationManager {
    let mut am = ApplicationManager::new(capacity);
    for &b in image {
        am.write_byte(b).unwrap();
    }
    let cs = CRC32.checksum(image);
    for b in cs.to_be_bytes() {
        am.write_checksum_byte(b).unwrap();
    }
    am
}

#[test]
fn fresh_status_values() {
    let am = ApplicationManager::new(64);
    let s = am.status();
    assert_eq!(s.is_loaded, false);
    assert_eq!(s.is_running, false);
    assert_eq!(s.ram_used, 0);
    assert_eq!(s.service_result, -1);
}

#[test]
fn upload_true_crc_verifies() {
    let image: Vec<u8> = (0u8..100).collect();
    let mut am = upload(128, &image);
    assert!(am.verify().is_ok());
    assert_eq!(am.status().is_loaded, true);
}

#[test]
fn single_bit_flip_fails_verify() {
    let image: Vec<u8> = (0u8..100).collect();
    for flip in [0usize, 13, 99] {
        let mut corrupted = image.clone();
        corrupted[flip] ^= 0x01;
        let mut am = ApplicationManager::new(128);
        for &b in &corrupted {
            am.write_byte(b).unwrap();
        }
        // Trailer holds the CRC of the original image, not the corrupted one.
        for b in CRC32.checksum(&image).to_be_bytes() {
            am.write_checksum_byte(b).unwrap();
        }
        assert!(matches!(am.verify(), Err(Error::ChecksumFailed)));
        assert_eq!(am.status().is_loaded, false);
    }
}

#[test]
fn execute_without_verify_is_no_application() {
    let mut am = ApplicationManager::new(64);
    assert!(matches!(am.execute(), Err(Error::NoApplication)));
    assert_eq!(am.status().is_running, false);
}

#[test]
fn execute_after_stop_is_no_application_again() {
    let image = [0x10, 0x20, 0x30, 0x40, 0x50, 0x60, 0x70, 0x80, 0xAA];
    let mut am = upload(64, &image);
    am.verify().unwrap();
    assert!(am.execute().is_ok());
    am.stop().unwrap();
    assert!(matches!(am.execute(), Err(Error::NoApplication)));
}

#[test]
fn execute_reads_little_endian_header() {
    let mut image = vec![0x78, 0x56, 0x34, 0x12, 0xEF, 0xCD, 0xAB, 0x89];
    image.extend_from_slice(b"body");
    let mut am = upload(64, &image);
    am.verify().unwrap();
    let setup = am.execute().unwrap();
    assert_eq!(setup, 0x1234_5678);
    assert_eq!(am.service_addr().unwrap(), 0x89AB_CDEF);
    assert_eq!(am.status().is_running, true);
}

#[test]
fn service_before_execute_is_invalid_service_fn() {
    let am = ApplicationManager::new(64);
    assert!(matches!(am.service_addr(), Err(Error::InvalidServiceFn)));
}

#[test]
fn service_result_is_recorded() {
    let image = [1, 0, 0, 0, 2, 0, 0, 0];
    let mut am = upload(64, &image);
    am.verify().unwrap();
    am.execute().unwrap();
    am.record_service_result(42);
    assert_eq!(am.status().service_result, 42);
}

#[test]
fn pause_keeps_service_fn() {
    let image = [1, 0, 0, 0, 2, 0, 0, 0];
    let mut am = upload(64, &image);
    am.verify().unwrap();
    am.execute().unwrap();
    am.pause();
    assert_eq!(am.status().is_running, false);
    // The stored service function survives a pause: the next tick still runs.
    assert_eq!(am.service_addr().unwrap(), 2);
}

#[test]
fn stop_restores_fresh_status() {
    let image = [9, 8, 7, 6, 5, 4, 3, 2, 1];
    let mut am = upload(64, &image);
    am.verify().unwrap();
    am.execute().unwrap();
    am.record_service_result(7);
    am.stop().unwrap();
    let fresh = ApplicationManager::new(64);
    assert_eq!(am.status(), fresh.status());
}

#[test]
fn stop_enables_full_reupload() {
    let first = [1, 0, 0, 0, 2, 0, 0, 0, 0xAA, 0xBB];
    let mut am = upload(64, &first);
    am.verify().unwrap();
    am.stop().unwrap();
    // Stream a second image into the same loader; stale bytes are overwritten.
    let second = [3, 0, 0, 0, 4, 0, 0, 0, 0xCC];
    for &b in &second {
        am.write_byte(b).unwrap();
    }
    for b in CRC32.checksum(&second).to_be_bytes() {
        am.write_checksum_byte(b).unwrap();
    }
    assert!(am.verify().is_ok());
    assert_eq!(am.status().ram_used, second.len());
}

#[test]
fn image_overflow_is_buffer_overflow() {
    let mut am = ApplicationManager::new(8);
    for i in 0..8u8 {
        am.write_byte(i).unwrap();
    }
    assert!(matches!(am.write_byte(0xFF), Err(Error::BufferOverflow)));
    assert_eq!(am.status().ram_used, 8);
}

#[test]
fn trailer_overflow_is_buffer_overflow() {
    let mut am = ApplicationManager::new(16);
    for _ in 0..4 {
        am.write_checksum_byte(0).unwrap();
    }
    assert!(matches!(am.write_checksum_byte(0), Err(Error::BufferOverflow)));
}

#[test]
fn failed_verify_keeps_image_for_trailer_retry() {
    let image = [8, 0, 0, 0, 9, 0, 0, 0, 1, 2, 3];
    let mut am = ApplicationManager::new(64);
    for &b in &image {
        am.write_byte(b).unwrap();
    }
    for b in [0u8; 4] {
        am.write_checksum_byte(b).unwrap();
    }
    assert!(matches!(am.verify(), Err(Error::ChecksumFailed)));
    // A stop resets the trailer cursor; the retry streams everything anew.
    am.stop().unwrap();
    for &b in &image {
        am.write_byte(b).unwrap();
    }
    for b in CRC32.checksum(&image).to_be_bytes() {
        am.write_checksum_byte(b).unwrap();
    }
    assert!(am.verify().is_ok());
}

#[test]
fn end_to_end_260_byte_image() {
    let mut image = vec![0x00, 0x10, 0x00, 0x20, 0x04, 0x10, 0x00, 0x20];
    for i in 0..252u32 {
        image.push((i % 251) as u8);
    }
    assert_eq!(image.len(), 260);
    let mut am = upload(512, &image);
    assert!(am.verify().is_ok());
    assert!(am.execute().is_ok());
    let s: Status = am.status();
    assert_eq!(s.is_loaded, true);
    assert_eq!(s.is_running, true);
    assert_eq!(s.ram_used, 260);
}

#[test]
fn end_to_end_corrupted_body_byte() {
    let mut image = vec![0x00, 0x10, 0x00, 0x20, 0x04, 0x10, 0x00, 0x20];
    for i in 0..252u32 {
        image.push((i % 251) as u8);
    }
    let cs = CRC32.checksum(&image);
    let last = image.len() - 1;
    image[last] ^= 0x80;
    let mut am = ApplicationManager::new(512);
    for &b in &image {
        am.write_byte(b).unwrap();
    }
    for b in cs.to_be_bytes() {
        am.write_checksum_byte(b).unwrap();
    }
    assert!(matches!(am.verify(), Err(Error::ChecksumFailed)));
    assert_eq!(am.status().is_loaded, false);
}
