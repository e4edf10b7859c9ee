//! A bounds-aware view of a mapped executable image and the header checks
//! that locate its export directory.
use vstd::prelude::*;

verus! {

/// Magic value of the legacy header that starts every image ("MZ").
pub const DOS_MAGIC: u16 = 0x5A4D;

/// Offset, in the legacy header, of the 4-byte offset of the image header.
pub const LFANEW_OFFSET: usize = 0x3C;

/// Magic value that starts the image header ("PE\0\0").
pub const NT_SIGNATURE: u32 = 0x4550;

/// Offset of the 8-byte declared image base, from the start of the image header.
pub const IMAGE_BASE_OFFSET: usize = 48;

/// Offset of the export entry of the data-directory table, from the start of
/// the image header.
pub const EXPORT_ENTRY_OFFSET: usize = 136;

/// Size of the export directory structure.
pub const EXPORT_DIR_SIZE: usize = 40;

/// Errors of the lookup pipeline. A catalog lookup that finds nothing
/// returns `None` rather than an error.
#[derive(Debug, Clone, Copy, PartialEq, Eq, Structural)]
pub enum DumpError {
    /// The loader anchor's segment offset has no known mapping.
    UnsupportedArchitecture,
    /// The loader list was walked to its tail without a match.
    ModuleNotFound,
    /// A header magic did not match, or a structure lies outside the image.
    InvalidImage,
    /// The export directory declares no functions.
    EmptyExportTable,
}

/// The bytes of a mapped image, `bytes[k]` being the byte at address `base + k`.
pub struct ImageView {
    pub base: usize,
    pub bytes: Vec<u8>,
}

/// True when `width` bytes starting at `off` lie inside `b`.
pub open spec fn fits(b: Seq<u8>, off: int, width: int) -> bool {
    0 <= off && off + width <= b.len()
}

/// Little-endian 16-bit value at `off`.
pub open spec fn le16(b: Seq<u8>, off: int) -> int {
    b[off] as int + b[off + 1] as int * 256
}

/// Little-endian 32-bit value at `off`.
pub open spec fn le32(b: Seq<u8>, off: int) -> int {
    le16(b, off) + le16(b, off + 2) * 65536
}

/// Little-endian 64-bit value at `off`.
pub open spec fn le64(b: Seq<u8>, off: int) -> int {
    le32(b, off) + le32(b, off + 4) * 0x1_0000_0000
}

/// Reads a little-endian `u16` at `off`, or `None` when it lies outside `b`.
pub fn read_u16(b: &[u8], off: usize) -> (r: Option<u16>)
    ensures
        r is Some <==> fits(b@, off as int, 2),
        r matches Some(v) ==> v == le16(b@, off as int),
{
    if off > b.len() || b.len() - off < 2 {
        return None;
    }
    let lo = b[off] as u16;
    let hi = b[off + 1] as u16;
    Some(lo + hi * 256)
}

/// Reads a little-endian `u32` at `off`, or `None` when it lies outside `b`.
pub fn read_u32(b: &[u8], off: usize) -> (r: Option<u32>)
    ensures
        r is Some <==> fits(b@, off as int, 4),
        r matches Some(v) ==> v == le32(b@, off as int),
{
    if off > b.len() || b.len() - off < 4 {
        return None;
    }
    let lo = read_u16(b, off).unwrap() as u32;
    let hi = read_u16(b, off + 2).unwrap() as u32;
    Some(lo + hi * 65536)
}

/// Reads a little-endian `u64` at `off`, or `None` when it lies outside `b`.
pub fn read_u64(b: &[u8], off: usize) -> (r: Option<u64>)
    ensures
        r is Some <==> fits(b@, off as int, 8),
        r matches Some(v) ==> v == le64(b@, off as int),
{
    if off > b.len() || b.len() - off < 8 {
        return None;
    }
    let lo = read_u32(b, off).unwrap() as u64;
    let hi = read_u32(b, off + 4).unwrap() as u64;
    Some(lo + hi * 0x1_0000_0000)
}

/// The fields of the export directory that enumeration needs, with the
/// image base that the image header declares.
#[derive(Debug, Clone, Copy, PartialEq, Eq, Structural)]
pub struct ExportDirectory {
    pub image_base: u64,
    pub number_of_functions: u32,
    pub address_of_functions: u32,
    pub address_of_names: u32,
    pub address_of_name_ordinals: u32,
}

/// Offset of the image header, as the legacy header gives it.
pub open spec fn nt_offset(b: Seq<u8>) -> int {
    le32(b, LFANEW_OFFSET as int)
}

/// Offset of the export directory, as the image header's data directory gives it.
pub open spec fn export_offset(b: Seq<u8>) -> int {
    le32(b, nt_offset(b) + EXPORT_ENTRY_OFFSET as int)
}

/// The legacy header is present and carries its magic value.
pub open spec fn legacy_header_ok(b: Seq<u8>) -> bool {
    &&& fits(b, 0, 2)
    &&& le16(b, 0) == DOS_MAGIC
    &&& fits(b, LFANEW_OFFSET as int, 4)
}

/// The image header is present, carries its magic value, and holds the
/// declared image base and the export entry of its data directory.
pub open spec fn image_header_ok(b: Seq<u8>) -> bool {
    &&& fits(b, nt_offset(b), 4)
    &&& le32(b, nt_offset(b)) == NT_SIGNATURE
    &&& fits(b, nt_offset(b) + IMAGE_BASE_OFFSET, 8)
    &&& fits(b, nt_offset(b) + EXPORT_ENTRY_OFFSET, 4)
}

/// Both headers check out and the export directory lies inside the image.
pub open spec fn headers_ok(b: Seq<u8>) -> bool {
    &&& legacy_header_ok(b)
    &&& image_header_ok(b)
    &&& fits(b, export_offset(b), EXPORT_DIR_SIZE as int)
}

/// The export directory that a well-formed image declares.
pub open spec fn declared_directory(b: Seq<u8>) -> ExportDirectory {
    let d = export_offset(b);
    ExportDirectory {
        image_base: le64(b, nt_offset(b) + IMAGE_BASE_OFFSET) as u64,
        number_of_functions: le32(b, d + 20) as u32,
        address_of_functions: le32(b, d + 28) as u32,
        address_of_names: le32(b, d + 32) as u32,
        address_of_name_ordinals: le32(b, d + 36) as u32,
    }
}

impl ImageView {
    pub fn new(base: usize, bytes: Vec<u8>) -> (r: ImageView)
        ensures
            r.base == base,
            r.bytes@ == bytes@,
    {
        ImageView { base, bytes }
    }

    /// Checks both header magics and locates the export directory.
    pub fn export_directory(&self) -> (r: Result<ExportDirectory, DumpError>)
        ensures
            r == Err::<ExportDirectory, DumpError>(DumpError::InvalidImage) <==> !headers_ok(self.bytes@),
            r == Err::<ExportDirectory, DumpError>(DumpError::EmptyExportTable) <==> headers_ok(self.bytes@)
                && declared_directory(self.bytes@).number_of_functions == 0,
            r is Ok <==> headers_ok(self.bytes@) && declared_directory(self.bytes@).number_of_functions != 0,
            r matches Ok(d) ==> d == declared_directory(self.bytes@),
    {
        let b = self.bytes.as_slice();
        match read_u16(b, 0) {
            Some(m) if m == DOS_MAGIC => {},
            _ => return Err(DumpError::InvalidImage),
        }
        let nt = match read_u32(b, LFANEW_OFFSET) {
            Some(v) => v as usize,
            None => return Err(DumpError::InvalidImage),
        };
        match read_u32(b, nt) {
            Some(sig) if sig == NT_SIGNATURE => {},
            _ => return Err(DumpError::InvalidImage),
        }
        if b.len() - nt < EXPORT_ENTRY_OFFSET + 4 {
            return Err(DumpError::InvalidImage);
        }
        let image_base = match read_u64(b, nt + IMAGE_BASE_OFFSET) {
            Some(v) => v,
            None => return Err(DumpError::InvalidImage),
        };
        let dir = match read_u32(b, nt + EXPORT_ENTRY_OFFSET) {
            Some(v) => v as usize,
            None => return Err(DumpError::InvalidImage),
        };
        if dir > b.len() || b.len() - dir < EXPORT_DIR_SIZE {
            return Err(DumpError::InvalidImage);
        }
        let count = read_u32(b, dir + 20).unwrap();
        let funcs = read_u32(b, dir + 28).unwrap();
        let names = read_u32(b, dir + 32).unwrap();
        let ords = read_u32(b, dir + 36).unwrap();
        if count == 0 {
            return Err(DumpError::EmptyExportTable);
        }
        Ok(ExportDirectory {
            image_base,
            number_of_functions: count,
            address_of_functions: funcs,
            address_of_names: names,
            address_of_name_ordinals: ords,
        })
    }
}

} // verus!
