//! Data types of the firmware interface.
//!
//! These are the plain values that the loader exchanges with the firmware:
//! status codes, memory types, characters, and the records that the
//! firmware fills in. The calls themselves are not made here.

use vstd::prelude::*;

verus! {

/// A 1-byte character using the ISO-Latin-1 character set.
#[derive(Copy, Clone, Debug, PartialEq, Eq, Structural)]
pub struct Char8(pub u8);

/// A 2-byte character stored in the UCS-2 encoding format.
#[derive(Copy, Clone, Debug, PartialEq, Eq, Structural)]
pub struct Char16(pub u16);

/// A 128-bit identifier of a protocol or of a kind of information.
#[derive(Copy, Clone, Debug)]
pub struct EfiGuid(pub u32, pub u16, pub u16, pub [u8; 8]);

/// The high bit of a status code, indicating an error status if set.
pub const ERROR_BIT: u64 = 0x8000_0000_0000_0000;

// Success Codes
pub const EFI_SUCCESS: u64 = 0;

// Warning Codes
pub const EFI_WARN_UNKNOWN_GLYPH: u64 = 1;

pub const EFI_WARN_DELETE_FAILURE: u64 = 2;

pub const EFI_WARN_WRITE_FAILURE: u64 = 3;

pub const EFI_WARN_BUFFER_TOO_SMALL: u64 = 4;

pub const EFI_WARN_STALE_DATA: u64 = 5;

pub const EFI_WARN_FILE_SYSTEM: u64 = 6;

pub const EFI_WARN_RESET_REQUIRED: u64 = 7;

// Error Codes
pub const EFI_LOAD_ERROR: u64 = 0x8000_0000_0000_0001;

pub const EFI_INVALID_PARAMETER: u64 = 0x8000_0000_0000_0002;

pub const EFI_UNSUPPORTED: u64 = 0x8000_0000_0000_0003;

pub const EFI_BAD_BUFFER_SIZE: u64 = 0x8000_0000_0000_0004;

pub const EFI_BUFFER_TOO_SMALL: u64 = 0x8000_0000_0000_0005;

pub const EFI_NOT_READY: u64 = 0x8000_0000_0000_0006;

pub const EFI_DEVICE_ERROR: u64 = 0x8000_0000_0000_0007;

pub const EFI_WRITE_PROTECTED: u64 = 0x8000_0000_0000_0008;

pub const EFI_OUT_OF_RESOURCES: u64 = 0x8000_0000_0000_0009;

pub const EFI_VOLUME_CORRUPTED: u64 = 0x8000_0000_0000_000a;

pub const EFI_VOLUME_FULL: u64 = 0x8000_0000_0000_000b;

pub const EFI_NO_MEDIA: u64 = 0x8000_0000_0000_000c;

pub const EFI_MEDIA_CHANGED: u64 = 0x8000_0000_0000_000d;

pub const EFI_NOT_FOUND: u64 = 0x8000_0000_0000_000e;

pub const EFI_ACCESS_DENIED: u64 = 0x8000_0000_0000_000f;

pub const EFI_NO_RESPONSE: u64 = 0x8000_0000_0000_0010;

pub const EFI_NO_MAPPING: u64 = 0x8000_0000_0000_0011;

pub const EFI_TIMEOUT: u64 = 0x8000_0000_0000_0012;

pub const EFI_NOT_STARTED: u64 = 0x8000_0000_0000_0013;

pub const EFI_ALREADY_STARTED: u64 = 0x8000_0000_0000_0014;

pub const EFI_ABORTED: u64 = 0x8000_0000_0000_0015;

pub const EFI_ICMP_ERROR: u64 = 0x8000_0000_0000_0016;

pub const EFI_TFTP_ERROR: u64 = 0x8000_0000_0000_0017;

pub const EFI_PROTOCOL_ERROR: u64 = 0x8000_0000_0000_0018;

pub const EFI_INCOMPATIBLE_VERSION: u64 = 0x8000_0000_0000_0019;

pub const EFI_SECURITY_VIOLATION: u64 = 0x8000_0000_0000_001a;

pub const EFI_CRC_ERROR: u64 = 0x8000_0000_0000_001b;

pub const EFI_END_OF_MEDIA: u64 = 0x8000_0000_0000_001c;

pub const EFI_END_OF_FILE: u64 = 0x8000_0000_0000_001f;

pub const EFI_INVALID_LANGUAGE: u64 = 0x8000_0000_0000_0020;

pub const EFI_COMPROMISED_DATA: u64 = 0x8000_0000_0000_0021;

pub const EFI_IP_ADDRESS_CONFLICT: u64 = 0x8000_0000_0000_0022;

pub const EFI_HTTP_ERROR: u64 = 0x8000_0000_0000_0023;

/// Whether the status code `code` indicates an error: its high bit is set.
pub open spec fn code_is_error(code: u64) -> bool {
    code & ERROR_BIT != 0
}

/// The name of the status code `code`, if it is one of the codes that
/// have a name.
pub open spec fn status_name(code: u64) -> Option<Seq<char>> {
    if code == EFI_SUCCESS {
        Some("EFI_SUCCESS"@)
    } else if code == EFI_WARN_UNKNOWN_GLYPH {
        Some("EFI_WARN_UNKNOWN_GLYPH"@)
    } else if code == EFI_WARN_DELETE_FAILURE {
        Some("EFI_WARN_DELETE_FAILURE"@)
    } else if code == EFI_WARN_WRITE_FAILURE {
        Some("EFI_WARN_WRITE_FAILURE"@)
    } else if code == EFI_WARN_BUFFER_TOO_SMALL {
        Some("EFI_WARN_BUFFER_TOO_SMALL"@)
    } else if code == EFI_WARN_STALE_DATA {
        Some("EFI_WARN_STALE_DATA"@)
    } else if code == EFI_WARN_FILE_SYSTEM {
        Some("EFI_WARN_FILE_SYSTEM"@)
    } else if code == EFI_WARN_RESET_REQUIRED {
        Some("EFI_WARN_RESET_REQUIRED"@)
    } else if code == EFI_LOAD_ERROR {
        Some("EFI_LOAD_ERROR"@)
    } else if code == EFI_INVALID_PARAMETER {
        Some("EFI_INVALID_PARAMETER"@)
    } else if code == EFI_UNSUPPORTED {
        Some("EFI_UNSUPPORTED"@)
    } else if code == EFI_BAD_BUFFER_SIZE {
        Some("EFI_BAD_BUFFER_SIZE"@)
    } else if code == EFI_BUFFER_TOO_SMALL {
        Some("EFI_BUFFER_TOO_SMALL"@)
    } else if code == EFI_NOT_READY {
        Some("EFI_NOT_READY"@)
    } else if code == EFI_DEVICE_ERROR {
        Some("EFI_DEVICE_ERROR"@)
    } else if code == EFI_WRITE_PROTECTED {
        Some("EFI_WRITE_PROTECTED"@)
    } else if code == EFI_OUT_OF_RESOURCES {
        Some("EFI_OUT_OF_RESOURCES"@)
    } else if code == EFI_VOLUME_CORRUPTED {
        Some("EFI_VOLUME_CORRUPTED"@)
    } else if code == EFI_VOLUME_FULL {
        Some("EFI_VOLUME_FULL"@)
    } else if code == EFI_NO_MEDIA {
        Some("EFI_NO_MEDIA"@)
    } else if code == EFI_MEDIA_CHANGED {
        Some("EFI_MEDIA_CHANGED"@)
    } else if code == EFI_NOT_FOUND {
        Some("EFI_NOT_FOUND"@)
    } else if code == EFI_ACCESS_DENIED {
        Some("EFI_ACCESS_DENIED"@)
    } else if code == EFI_NO_RESPONSE {
        Some("EFI_NO_RESPONSE"@)
    } else if code == EFI_NO_MAPPING {
        Some("EFI_NO_MAPPING"@)
    } else if code == EFI_TIMEOUT {
        Some("EFI_TIMEOUT"@)
    } else if code == EFI_NOT_STARTED {
        Some("EFI_NOT_STARTED"@)
    } else if code == EFI_ALREADY_STARTED {
        Some("EFI_ALREADY_STARTED"@)
    } else if code == EFI_ABORTED {
        Some("EFI_ABORTED"@)
    } else if code == EFI_ICMP_ERROR {
        Some("EFI_ICMP_ERROR"@)
    } else if code == EFI_TFTP_ERROR {
        Some("EFI_TFTP_ERROR"@)
    } else if code == EFI_PROTOCOL_ERROR {
        Some("EFI_PROTOCOL_ERROR"@)
    } else if code == EFI_INCOMPATIBLE_VERSION {
        Some("EFI_INCOMPATIBLE_VERSION"@)
    } else if code == EFI_SECURITY_VIOLATION {
        Some("EFI_SECURITY_VIOLATION"@)
    } else if code == EFI_CRC_ERROR {
        Some("EFI_CRC_ERROR"@)
    } else if code == EFI_END_OF_MEDIA {
        Some("EFI_END_OF_MEDIA"@)
    } else if code == EFI_END_OF_FILE {
        Some("EFI_END_OF_FILE"@)
    } else if code == EFI_INVALID_LANGUAGE {
        Some("EFI_INVALID_LANGUAGE"@)
    } else if code == EFI_COMPROMISED_DATA {
        Some("EFI_COMPROMISED_DATA"@)
    } else if code == EFI_IP_ADDRESS_CONFLICT {
        Some("EFI_IP_ADDRESS_CONFLICT"@)
    } else if code == EFI_HTTP_ERROR {
        Some("EFI_HTTP_ERROR"@)
    } else {
        None
    }
}

/// A status code of the firmware, as it is on a 64-bit system.
#[derive(Copy, Clone, Debug, PartialEq, Eq, Structural)]
pub struct EfiStatus(pub u64);

impl EfiStatus {
    /// Returns whether the status code indicates an error.
    pub fn is_error(self) -> (error: bool)
        ensures
            error == code_is_error(self.0),
    {
        // Check if the error bit is set
        self.0 & ERROR_BIT != 0
    }

    /// The name of the status code, if it is one of the codes that have a
    /// name.
    pub fn name(self) -> (name: Option<&'static str>)
        ensures
            match status_name(self.0) {
                Some(text) => name is Some && name->0@ == text,
                None => name is None,
            },
    {
        let code = self.0;
        if code == EFI_SUCCESS {
            Some("EFI_SUCCESS")
        } else if code == EFI_WARN_UNKNOWN_GLYPH {
            Some("EFI_WARN_UNKNOWN_GLYPH")
        } else if code == EFI_WARN_DELETE_FAILURE {
            Some("EFI_WARN_DELETE_FAILURE")
        } else if code == EFI_WARN_WRITE_FAILURE {
            Some("EFI_WARN_WRITE_FAILURE")
        } else if code == EFI_WARN_BUFFER_TOO_SMALL {
            Some("EFI_WARN_BUFFER_TOO_SMALL")
        } else if code == EFI_WARN_STALE_DATA {
            Some("EFI_WARN_STALE_DATA")
        } else if code == EFI_WARN_FILE_SYSTEM {
            Some("EFI_WARN_FILE_SYSTEM")
        } else if code == EFI_WARN_RESET_REQUIRED {
            Some("EFI_WARN_RESET_REQUIRED")
        } else if code == EFI_LOAD_ERROR {
            Some("EFI_LOAD_ERROR")
        } else if code == EFI_INVALID_PARAMETER {
            Some("EFI_INVALID_PARAMETER")
        } else if code == EFI_UNSUPPORTED {
            Some("EFI_UNSUPPORTED")
        } else if code == EFI_BAD_BUFFER_SIZE {
            Some("EFI_BAD_BUFFER_SIZE")
        } else if code == EFI_BUFFER_TOO_SMALL {
            Some("EFI_BUFFER_TOO_SMALL")
        } else if code == EFI_NOT_READY {
            Some("EFI_NOT_READY")
        } else if code == EFI_DEVICE_ERROR {
            Some("EFI_DEVICE_ERROR")
        } else if code == EFI_WRITE_PROTECTED {
            Some("EFI_WRITE_PROTECTED")
        } else if code == EFI_OUT_OF_RESOURCES {
            Some("EFI_OUT_OF_RESOURCES")
        } else if code == EFI_VOLUME_CORRUPTED {
            Some("EFI_VOLUME_CORRUPTED")
        } else if code == EFI_VOLUME_FULL {
            Some("EFI_VOLUME_FULL")
        } else if code == EFI_NO_MEDIA {
            Some("EFI_NO_MEDIA")
        } else if code == EFI_MEDIA_CHANGED {
            Some("EFI_MEDIA_CHANGED")
        } else if code == EFI_NOT_FOUND {
            Some("EFI_NOT_FOUND")
        } else if code == EFI_ACCESS_DENIED {
            Some("EFI_ACCESS_DENIED")
        } else if code == EFI_NO_RESPONSE {
            Some("EFI_NO_RESPONSE")
        } else if code == EFI_NO_MAPPING {
            Some("EFI_NO_MAPPING")
        } else if code == EFI_TIMEOUT {
            Some("EFI_TIMEOUT")
        } else if code == EFI_NOT_STARTED {
            Some("EFI_NOT_STARTED")
        } else if code == EFI_ALREADY_STARTED {
            Some("EFI_ALREADY_STARTED")
        } else if code == EFI_ABORTED {
            Some("EFI_ABORTED")
        } else if code == EFI_ICMP_ERROR {
            Some("EFI_ICMP_ERROR")
        } else if code == EFI_TFTP_ERROR {
            Some("EFI_TFTP_ERROR")
        } else if code == EFI_PROTOCOL_ERROR {
            Some("EFI_PROTOCOL_ERROR")
        } else if code == EFI_INCOMPATIBLE_VERSION {
            Some("EFI_INCOMPATIBLE_VERSION")
        } else if code == EFI_SECURITY_VIOLATION {
            Some("EFI_SECURITY_VIOLATION")
        } else if code == EFI_CRC_ERROR {
            Some("EFI_CRC_ERROR")
        } else if code == EFI_END_OF_MEDIA {
            Some("EFI_END_OF_MEDIA")
        } else if code == EFI_END_OF_FILE {
            Some("EFI_END_OF_FILE")
        } else if code == EFI_INVALID_LANGUAGE {
            Some("EFI_INVALID_LANGUAGE")
        } else if code == EFI_COMPROMISED_DATA {
            Some("EFI_COMPROMISED_DATA")
        } else if code == EFI_IP_ADDRESS_CONFLICT {
            Some("EFI_IP_ADDRESS_CONFLICT")
        } else if code == EFI_HTTP_ERROR {
            Some("EFI_HTTP_ERROR")
        } else {
            None
        }
    }
}

/// The error bit is the high bit: the codes from it on are the errors, and
/// `EFI_BUFFER_TOO_SMALL` is one of them.
pub proof fn lemma_error_codes(code: u64)
    ensures
        code_is_error(code) <==> code >= ERROR_BIT,
{
    assert((code & 0x8000_0000_0000_0000 != 0) <==> code >= 0x8000_0000_0000_0000)
        by (bit_vector);
}

/// A handle of the task priority level.
#[derive(Copy, Clone, Debug, PartialEq, Eq, Structural)]
pub struct EfiTpl(pub u64);

/// How the firmware is to choose the pages of an allocation.
#[derive(Copy, Clone, Debug, PartialEq, Eq, Structural)]
pub enum EfiAllocateType {
    AllocateAnyPages,
    AllocateMaxAddress,
    AllocateAddress,
    MaxAllocateType,
}

/// What a range of memory is used for.
#[derive(Copy, Clone, Debug, PartialEq, Eq, Structural)]
pub enum EfiMemoryType {
    EfiReservedMemoryType,
    EfiLoaderCode,
    EfiLoaderData,
    EfiBootServicesCode,
    EfiBootServicesData,
    EfiRuntimeServicesCode,
    EfiRuntimeServicesData,
    EfiConventionalMemory,
    EfiUnusableMemory,
    EfiACPIReclaimMemory,
    EfiACPIMemoryNVS,
    EfiMemoryMappedIO,
    EfiMemoryMappedIOPortSpace,
    EfiPalCode,
    EfiPersistentMemory,
    EfiMaxMemoryType,
}

/// A physical address as the firmware hands it out.
#[derive(Copy, Clone, Debug, PartialEq, Eq, Structural)]
pub struct EfiPhysicalAddress(pub u64);

/// A virtual address as the firmware records it.
#[derive(Copy, Clone, Debug, PartialEq, Eq, Structural)]
pub struct EfiVirtualAddress(pub u64);

/// An entry of the firmware's memory map.
#[derive(Copy, Clone, Debug, PartialEq, Eq, Structural)]
pub struct EfiMemoryDescriptor {
    pub type1: u32,
    pub physical_start: EfiPhysicalAddress,
    pub virtual_start: EfiVirtualAddress,
    pub number_of_pages: u64,
    pub attribute: u64,
}

/// A point in time as the firmware records it.
#[derive(Copy, Clone, Debug, PartialEq, Eq, Structural)]
pub struct EfiTime {
    pub year: u16,
    pub month: u8,
    pub day: u8,
    pub hour: u8,
    pub minute: u8,
    pub second: u8,
    pub nanosecond: u32,
    pub time_zone: i16,
    pub daylight: u8,
}

/// Data structure that precedes all of the standard EFI table types.
#[derive(Copy, Clone, Debug, PartialEq, Eq, Structural)]
pub struct EfiTableHeader {
    pub signature: u64,
    pub revision: u32,
    pub header_size: u32,
    pub crc32: u32,
}

/// Contains a table header and pointers to all of the runtime services.
#[derive(Copy, Clone, Debug, PartialEq, Eq, Structural)]
pub struct EfiRuntimeServices {
    pub hdr: EfiTableHeader,
}

/// A key stroke as the console reports it.
#[derive(Copy, Clone, Debug, PartialEq, Eq, Structural)]
pub struct EfiInputKey {
    pub scan_code: u16,
    pub unicode_char: u16,
}

/// The state of a text console.
#[derive(Copy, Clone, Debug, PartialEq, Eq, Structural)]
pub struct EfiSimpleTextOutputMode {
    pub max_mode: i32,
    pub mode: i32,
    pub attribute: i32,
    pub cursor_column: i32,
    pub cursor_row: i32,
    pub cursor_visible: bool,
}

/// The bits of a pixel that hold each colour.
#[derive(Copy, Clone, Debug, PartialEq, Eq, Structural)]
pub struct EfiPixelBitmask {
    pub red_mask: u32,
    pub green_mask: u32,
    pub blue_mask: u32,
    pub reserved_mask: u32,
}

/// How the pixels of a frame buffer are laid out.
#[derive(Copy, Clone, Debug, PartialEq, Eq, Structural)]
pub enum EfiGraphicsPixelFormat {
    PixelRedGreenBlueReserved8BitPerColor,
    PixelBlueGreenRedReserved8BitPerColor,
    PixelBitMask,
    PixelBltOnly,
    PixelFormatMax,
}

/// The geometry of a graphics mode.
#[derive(Copy, Clone, Debug, PartialEq, Eq, Structural)]
pub struct EfiGraphicsOutputModeInformation {
    pub version: u32,
    pub horizontal_resolution: u32,
    pub vertical_resolution: u32,
    pub pixel_format: EfiGraphicsPixelFormat,
    pub pixel_information: EfiPixelBitmask,
    pub pixels_per_scan_line: u32,
}

/// The current graphics mode and its frame buffer.
#[derive(Copy, Clone, Debug, PartialEq, Eq, Structural)]
pub struct EfiGraphicsOutputProtocolMode {
    pub max_mode: u32,
    pub mode: u32,
    pub info: EfiGraphicsOutputModeInformation,
    pub size_of_info: u64,
    pub frame_buffer_base: EfiPhysicalAddress,
    pub frame_buffer_size: u64,
}

/// What the firmware records of a file.
#[derive(Copy, Clone, Debug)]
pub struct EfiFileInfo {
    pub size: u64,
    pub file_size: u64,
    pub physical_size: u64,
    pub create_time: EfiTime,
    pub last_access_time: EfiTime,
    pub modification_time: EfiTime,
    pub attribute: u64,
    pub file_name: [Char16; 50],
}

/// Where the size of the file lies in the record that the firmware fills
/// in for a file: behind the size of the record itself.
pub const FILE_SIZE_OFFSET: usize = 8;

/// The size of the file in the record `record` that the firmware has
/// filled in for a file, if the record is long enough to hold it.
pub fn file_size_in(record: &[u8]) -> (size: Option<u64>)
    ensures
        record@.len() >= 16 ==> size == Some(crate::elf::le_u64(record@, 8)),
        record@.len() < 16 ==> size is None,
{
    if record.len() < 16 {
        None
    } else {
        Some(crate::elf::read_u64(record, FILE_SIZE_OFFSET))
    }
}

/// What the firmware records of a volume.
#[derive(Copy, Clone, Debug)]
pub struct EfiFileSystemInfo {
    pub size: u64,
    pub read_only: bool,
    pub volume_size: u64,
    pub free_space: u64,
    pub block_size: u32,
    pub volume_label: [Char16; 50],
}

pub const EFI_FILE_MODE_READ: u64 = 1;

pub const EFI_FILE_MODE_WRITE: u64 = 0x2;

pub const EFI_FILE_MODE_CREATE: u64 = 0x8000_0000_0000_0000;

pub const EFI_FILE_READ_ONLY: u64 = 0x1;

pub const EFI_FILE_HIDDEN: u64 = 0x2;

pub const EFI_FILE_SYSTEM: u64 = 0x4;

pub const EFI_FILE_RESERVED: u64 = 0x8;

pub const EFI_FILE_DIRECTORY: u64 = 0x10;

pub const EFI_FILE_ARCHIVE: u64 = 0x20;

pub const EFI_FILE_VALID_ATTR: u64 = 0x37;

} // verus!
