//! Recognition of system-call stubs by the bytes at the start of a function,
//! and the identifier read near a function that is not one.
//!
//! This is a static byte-pattern match, not disassembly: a stub written with a
//! different but equivalent encoding is reported as `NotAStub`.
use vstd::prelude::*;
use crate::image::{fits, le32, DumpError, ImageView, read_u32};

verus! {

/// The first four bytes of a canonical stub, read little-endian:
/// `mov r10, rcx` followed by the opcode of `mov eax, imm32`.
pub const STUB_PROLOGUE: u32 = 0xB8D1_8B4C;

/// Call numbers are the low twelve bits of the immediate.
pub const CALL_NUMBER_MODULUS: u32 = 4096;

/// Outcome of classifying a function's first bytes.
#[derive(Debug, Clone, Copy, PartialEq, Eq, Structural)]
pub enum StubClass {
    SyscallStub(u32),
    NotAStub,
}

/// The code at `address`, in an image mapped at `base`, starts with the stub
/// prologue: the address is 4-byte aligned and the four bytes there, read
/// little-endian, are `STUB_PROLOGUE`. A misaligned address is never read.
pub open spec fn stub_at(b: Seq<u8>, base: int, address: int) -> bool {
    &&& address % 4 == 0
    &&& fits(b, address - base, 4)
    &&& le32(b, address - base) == STUB_PROLOGUE
}

/// The call-number immediate that follows the prologue lies inside the image.
pub open spec fn call_number_readable(b: Seq<u8>, base: int, address: int) -> bool {
    fits(b, address - base + 4, 4)
}

/// The call number of the stub at `address`: the low twelve bits of the
/// immediate that follows the prologue.
pub open spec fn call_number(b: Seq<u8>, base: int, address: int) -> int {
    le32(b, address - base + 4) % CALL_NUMBER_MODULUS as int
}

/// Classification of the code at `address`: not a stub unless the prologue
/// is there; a stub with its call number when the immediate can be read; and
/// `InvalidImage` for a prologue whose immediate runs past the image's end.
pub open spec fn stub_class(b: Seq<u8>, base: int, address: int) -> Result<StubClass, DumpError> {
    if !stub_at(b, base, address) {
        Ok(StubClass::NotAStub)
    } else if call_number_readable(b, base, address) {
        Ok(StubClass::SyscallStub(call_number(b, base, address) as u32))
    } else {
        Err(DumpError::InvalidImage)
    }
}

/// The identifier given to a function outside stub-only enumeration: the low
/// twelve bits of the upper half of the 8-byte word that follows the 8-byte
/// aligned word holding `address`; zero when that word lies outside the image.
pub open spec fn fallback_identifier(b: Seq<u8>, base: int, address: int) -> int {
    let off = address - address % 8 + 8 - base;
    if fits(b, off, 8) {
        le32(b, off + 4) % CALL_NUMBER_MODULUS as int
    } else {
        0
    }
}

/// Whether the code at `address` starts with the stub prologue.
pub fn is_stub(image: &ImageView, address: usize) -> (r: bool)
    ensures
        r == stub_at(image.bytes@, image.base as int, address as int),
        address % 4 != 0 ==> !r,
{
    if address % 4 != 0 || address < image.base {
        return false;
    }
    match read_u32(image.bytes.as_slice(), address - image.base) {
        Some(head) => head == STUB_PROLOGUE,
        None => false,
    }
}

/// Decides whether the function at `address` is a system-call stub and, if
/// so, extracts its call number; fails with `InvalidImage` when the prologue
/// is there but the call number lies outside the image.
pub fn classify(image: &ImageView, address: usize) -> (r: Result<StubClass, DumpError>)
    ensures
        r == stub_class(image.bytes@, image.base as int, address as int),
        address % 4 != 0 ==> r == Ok::<StubClass, DumpError>(StubClass::NotAStub),
        r matches Ok(StubClass::SyscallStub(n)) ==> n < CALL_NUMBER_MODULUS,
{
    if !is_stub(image, address) {
        return Ok(StubClass::NotAStub);
    }
    let off = address - image.base;
    let b = image.bytes.as_slice();
    if b.len() - off < 8 {
        return Err(DumpError::InvalidImage);
    }
    let imm = read_u32(b, off + 4).unwrap();
    Ok(StubClass::SyscallStub(imm % CALL_NUMBER_MODULUS))
}

/// Reads the identifier that a function gets outside stub-only enumeration.
pub fn fallback_id(image: &ImageView, address: usize) -> (r: u32)
    ensures
        r == fallback_identifier(image.bytes@, image.base as int, address as int),
        r < CALL_NUMBER_MODULUS,
{
    let word = address - address % 8;
    let b = image.bytes.as_slice();
    // Offset of the word that follows, which may start at or after `base`
    // even when `word` is below it.
    let off: usize = if word < image.base {
        let gap = image.base - word;
        if gap > 8 {
            return 0;
        }
        8 - gap
    } else {
        let rel = word - image.base;
        if rel > b.len() || b.len() - rel < 16 {
            return 0;
        }
        rel + 8
    };
    if off > b.len() || b.len() - off < 8 {
        return 0;
    }
    let upper = read_u32(b, off + 4).unwrap();
    upper % CALL_NUMBER_MODULUS
}

/// Whether an address holds a stub depends on nothing but its alignment and
/// the four bytes found there: two images that agree on those bytes classify
/// the address alike. Where they also agree on the four bytes that follow,
/// the classification, call number included, is the same.
pub proof fn lemma_classification_is_local(
    b1: Seq<u8>,
    base1: int,
    a1: int,
    b2: Seq<u8>,
    base2: int,
    a2: int,
)
    requires
        a1 % 4 == 0,
        a2 % 4 == 0,
        fits(b1, a1 - base1, 4),
        fits(b2, a2 - base2, 4),
        b1.subrange(a1 - base1, a1 - base1 + 4) == b2.subrange(a2 - base2, a2 - base2 + 4),
    ensures
        stub_at(b1, base1, a1) == stub_at(b2, base2, a2),
        fits(b1, a1 - base1, 8) && fits(b2, a2 - base2, 8) && b1.subrange(a1 - base1, a1 - base1 + 8)
            == b2.subrange(a2 - base2, a2 - base2 + 8) ==> stub_class(b1, base1, a1) == stub_class(
            b2,
            base2,
            a2,
        ),
{
    let o1 = a1 - base1;
    let o2 = a2 - base2;
    let s1 = b1.subrange(o1, o1 + 4);
    let s2 = b2.subrange(o2, o2 + 4);
    assert(b1[o1] == s1[0] && b1[o1 + 1] == s1[1] && b1[o1 + 2] == s1[2] && b1[o1 + 3] == s1[3]);
    assert(b2[o2] == s2[0] && b2[o2 + 1] == s2[1] && b2[o2 + 2] == s2[2] && b2[o2 + 3] == s2[3]);
    if fits(b1, o1, 8) && fits(b2, o2, 8) && b1.subrange(o1, o1 + 8) == b2.subrange(o2, o2 + 8) {
        let t1 = b1.subrange(o1, o1 + 8);
        let t2 = b2.subrange(o2, o2 + 8);
        assert(b1[o1 + 4] == t1[4] && b1[o1 + 5] == t1[5] && b1[o1 + 6] == t1[6] && b1[o1 + 7]
            == t1[7]);
        assert(b2[o2 + 4] == t2[4] && b2[o2 + 5] == t2[5] && b2[o2 + 6] == t2[6] && b2[o2 + 7]
            == t2[7]);
    }
}

/// Misaligned addresses are never classified as stubs, whatever the image holds.
pub proof fn lemma_misaligned_is_not_a_stub(b: Seq<u8>, base: int, address: int)
    requires
        address % 4 != 0,
    ensures
        !stub_at(b, base, address),
        stub_class(b, base, address) == Ok::<StubClass, DumpError>(StubClass::NotAStub),
{
}

} // verus!
