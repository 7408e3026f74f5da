use rk_boot::uefi::{
    file_size_in, EfiStatus, EFI_BUFFER_TOO_SMALL, EFI_HTTP_ERROR, EFI_LOAD_ERROR, EFI_NOT_FOUND,
    EFI_SUCCESS, EFI_WARN_RESET_REQUIRED, EFI_WARN_UNKNOWN_GLYPH, ERROR_BIT,
};

#[test]
fn status_error_bit() {
    assert!(!EfiStatus(EFI_SUCCESS).is_error());
    assert!(!EfiStatus(EFI_WARN_UNKNOWN_GLYPH).is_error());
    assert!(!EfiStatus(EFI_WARN_RESET_REQUIRED).is_error());
    assert!(EfiStatus(EFI_LOAD_ERROR).is_error());
    assert!(EfiStatus(EFI_BUFFER_TOO_SMALL).is_error());
    assert!(EfiStatus(ERROR_BIT).is_error());
    assert!(!EfiStatus(ERROR_BIT - 1).is_error());
    assert!(EfiStatus(u64::MAX).is_error());
}

#[test]
fn status_codes() {
    assert_eq!(ERROR_BIT, 1 << 63);
    assert_eq!(EFI_BUFFER_TOO_SMALL, (1 << 63) | 5);
    assert_eq!(EFI_NOT_FOUND, (1 << 63) | 14);
    assert_eq!(EFI_HTTP_ERROR, (1 << 63) | 35);
}

#[test]
fn status_names() {
    assert_eq!(EfiStatus(EFI_SUCCESS).name(), Some("EFI_SUCCESS"));
    assert_eq!(EfiStatus(4).name(), Some("EFI_WARN_BUFFER_TOO_SMALL"));
    assert_eq!(EfiStatus(EFI_BUFFER_TOO_SMALL).name(), Some("EFI_BUFFER_TOO_SMALL"));
    assert_eq!(EfiStatus((1 << 63) | 31).name(), Some("EFI_END_OF_FILE"));
    assert_eq!(EfiStatus(EFI_HTTP_ERROR).name(), Some("EFI_HTTP_ERROR"));
    // Codes without a name.
    assert_eq!(EfiStatus(8).name(), None);
    assert_eq!(EfiStatus((1 << 63) | 29).name(), None);
    assert_eq!(EfiStatus(1 << 63).name(), None);
}

#[test]
fn file_size_lies_behind_the_record_size() {
    let mut record = vec![0u8; 80];
    record[..8].copy_from_slice(&80u64.to_le_bytes());
    record[8..16].copy_from_slice(&0x12_3456u64.to_le_bytes());
    record[16..24].copy_from_slice(&0x20_0000u64.to_le_bytes());
    assert_eq!(file_size_in(&record), Some(0x12_3456));
    assert_eq!(file_size_in(&record[..16]), Some(0x12_3456));
    assert_eq!(file_size_in(&record[..15]), None);
    assert_eq!(file_size_in(&[]), None);
}
