use vstd::prelude::*;

verus! {

/// The error kinds that the library reports.
///
/// `SchemaViolation` covers bad magic numbers, bad checksums, inconsistent
/// filesystem ids and out-of-range record sizes; `NotMapped` means a virtual
/// address has no covering chunk or the covering chunk's stripes reference no
/// supplied device; `Unsupported` means a checksum algorithm other than CRC32C
/// was encountered; `Bounds` means a requested access would straddle a block
/// or extend past a device's length.
#[derive(Clone, Copy, Debug, PartialEq, Eq, Structural)]
pub enum BtrfsError {
    SchemaViolation,
    NotMapped,
    Unsupported,
    Bounds,
}

impl BtrfsError {
    /// A short human-readable description of the error kind.
    pub fn describe(&self) -> String {
        match self {
            BtrfsError::SchemaViolation => "on-disk structure violates the schema".to_string(),
            BtrfsError::NotMapped => "virtual address not found among available chunks/devices".to_string(),
            BtrfsError::Unsupported => "only crc32c checksums are implemented".to_string(),
            BtrfsError::Bounds => "access beyond the end of a block or device".to_string(),
        }
    }
}

} // verus!
