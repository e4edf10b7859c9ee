//! Enumeration of an image's export directory: its three parallel arrays
//! (function offsets, name offsets, name-to-function index) yield one record
//! per exported symbol.
use vstd::prelude::*;
use vstd::utf8::{decode_utf8, valid_utf8};
use crate::image::{fits, le16, le32, DumpError, ExportDirectory, ImageView, read_u16, read_u32};
use crate::stub::{classify, fallback_id, fallback_identifier, stub_class, StubClass};

verus! {

/// One exported symbol.
///
/// `ord` holds the extracted call number for records produced by stub-only
/// enumeration, and the fallback identifier otherwise; `number` is the
/// symbol's position in the export directory.
#[derive(Debug, Clone)]
pub struct Function {
    name: String,
    addr: usize,
    number: u32,
    ord: usize,
    rva: usize,
}

/// What a `Function` holds.
pub struct ExportRecord {
    pub name: Seq<char>,
    pub addr: usize,
    pub number: u32,
    pub ord: usize,
    pub rva: usize,
}

impl View for Function {
    type V = ExportRecord;

    closed spec fn view(&self) -> ExportRecord {
        ExportRecord {
            name: self.name@,
            addr: self.addr,
            number: self.number,
            ord: self.ord,
            rva: self.rva,
        }
    }
}

impl Function {
    pub fn get_name(&self) -> (r: &str)
        ensures
            r@ == self@.name,
    {
        self.name.as_str()
    }

    /// The absolute address of the function's code.
    pub fn get_addr(&self) -> (r: usize)
        ensures
            r == self@.addr,
    {
        self.addr
    }

    /// The position of the symbol in the export directory.
    pub fn get_number(&self) -> (r: u32)
        ensures
            r == self@.number,
    {
        self.number
    }

    /// The call number of a stub, or the fallback identifier.
    pub fn get_ord(&self) -> (r: usize)
        ensures
            r == self@.ord,
    {
        self.ord
    }

    /// The address less the image base that the header declares.
    pub fn get_rva(&self) -> (r: usize)
        ensures
            r == self@.rva,
    {
        self.rva
    }

    /// A copy of this record.
    pub fn duplicate(&self) -> (r: Function)
        ensures
            r@ == self@,
    {
        Function {
            name: self.name.clone(),
            addr: self.addr,
            number: self.number,
            ord: self.ord,
            rva: self.rva,
        }
    }
}

/// The records that a sequence of functions holds.
pub open spec fn records(v: Seq<Function>) -> Seq<ExportRecord> {
    v.map_values(|f: Function| f@)
}

/// The name string at `start` ends with a zero byte at `start + k`.
pub open spec fn terminated_at(b: Seq<u8>, start: int, k: int) -> bool {
    &&& 0 <= k
    &&& fits(b, start, k + 1)
    &&& b[start + k] == 0
    &&& forall|j: int| 0 <= j < k ==> #[trigger] b[start + j] != 0
}

/// The text of the zero-terminated name at `start`: empty when it has no
/// terminator inside the image or its bytes are not valid UTF-8.
pub open spec fn name_text(b: Seq<u8>, start: int) -> Seq<char> {
    if exists|k: int| terminated_at(b, start, k) {
        let k = choose|k: int| terminated_at(b, start, k);
        let raw = b.subrange(start, start + k);
        if valid_utf8(raw) {
            decode_utf8(raw)
        } else {
            Seq::empty()
        }
    } else {
        Seq::empty()
    }
}

/// The function index that the name-to-function array gives for entry `i`.
pub open spec fn function_index(b: Seq<u8>, d: ExportDirectory, i: int) -> int {
    le16(b, d.address_of_name_ordinals + 2 * i)
}

/// Entry `i` of the three arrays lies inside the image and its function
/// index is within the declared count.
pub open spec fn entry_readable(b: Seq<u8>, d: ExportDirectory, i: int) -> bool {
    &&& fits(b, d.address_of_names + 4 * i, 4)
    &&& fits(b, d.address_of_name_ordinals + 2 * i, 2)
    &&& function_index(b, d, i) < d.number_of_functions
    &&& fits(b, d.address_of_functions + 4 * function_index(b, d, i), 4)
}


/// Absolute address of the function of entry `i`, in an image mapped at `base`.
pub open spec fn function_address(b: Seq<u8>, base: usize, d: ExportDirectory, i: int) -> usize {
    base.wrapping_add(le32(b, d.address_of_functions + 4 * function_index(b, d, i)) as usize)
}

/// Entry `i` can be enumerated: its arrays can be read and, in stub-only
/// enumeration, a stub's call number lies inside the image.
pub open spec fn entry_ok(
    b: Seq<u8>,
    base: usize,
    d: ExportDirectory,
    syscalls_only: bool,
    i: int,
) -> bool {
    &&& entry_readable(b, d, i)
    &&& syscalls_only ==> stub_class(b, base as int, function_address(b, base, d, i) as int) is Ok
}

/// Every declared entry can be enumerated.
pub open spec fn table_ok(b: Seq<u8>, base: usize, d: ExportDirectory, syscalls_only: bool) -> bool {
    forall|i: int| 0 <= i < d.number_of_functions ==> #[trigger] entry_ok(b, base, d, syscalls_only, i)
}

/// Offset of `address` from the image base that the header declares.
pub open spec fn declared_rva(address: usize, d: ExportDirectory) -> usize {
    address.wrapping_sub(d.image_base as usize)
}

/// The record of entry `i`, with `ord` as its identifier.
pub open spec fn export_record(
    b: Seq<u8>,
    base: usize,
    d: ExportDirectory,
    i: int,
    ord: int,
) -> ExportRecord {
    let address = function_address(b, base, d, i);
    ExportRecord {
        name: name_text(b, le32(b, d.address_of_names + 4 * i)),
        addr: address,
        number: i as u32,
        ord: ord as usize,
        rva: declared_rva(address, d),
    }
}

/// The records of the first `k` entries: in stub-only enumeration, those of
/// the stubs with their call numbers; otherwise all of them, with their
/// fallback identifiers.
pub open spec fn expected_exports(
    b: Seq<u8>,
    base: usize,
    d: ExportDirectory,
    syscalls_only: bool,
    k: nat,
) -> Seq<ExportRecord>
    decreases k,
{
    if k == 0 {
        Seq::empty()
    } else {
        let i = k - 1;
        let prev = expected_exports(b, base, d, syscalls_only, (k - 1) as nat);
        let address = function_address(b, base, d, i);
        if syscalls_only {
            match stub_class(b, base as int, address as int) {
                Ok(StubClass::SyscallStub(n)) => prev.push(export_record(b, base, d, i, n as int)),
                _ => prev,
            }
        } else {
            prev.push(
                export_record(b, base, d, i, fallback_identifier(b, base as int, address as int)),
            )
        }
    }
}

/// Relies on std::str::from_utf8: it accepts exactly the valid UTF-8 byte
/// strings and then yields the characters that they encode.
#[verifier::external_body]
fn utf8_text(bytes: &[u8]) -> (r: Option<String>)
    ensures
        r is Some <==> valid_utf8(bytes@),
        r matches Some(s) ==> s@ == decode_utf8(bytes@),
{
    std::str::from_utf8(bytes).ok().map(String::from)
}

/// Reads the zero-terminated name at `start`, degrading to an empty name.
pub fn read_name(b: &[u8], start: usize) -> (r: String)
    ensures
        r@ == name_text(b@, start as int),
{
    if start > b.len() {
        proof {
            assert(!exists|k: int| terminated_at(b@, start as int, k));
        }
        return String::new();
    }
    let mut raw: Vec<u8> = Vec::new();
    let mut k: usize = 0;
    while start + k < b.len() && b[start + k] != 0
        invariant
            start <= b.len(),
            start + k <= b.len(),
            raw@ == b@.subrange(start as int, start + k),
            forall|j: int| 0 <= j < k ==> #[trigger] b@[start + j] != 0,
        decreases b.len() - start - k,
    {
        raw.push(b[start + k]);
        k = k + 1;
        assert(raw@ =~= b@.subrange(start as int, start + k));
    }
    if start + k == b.len() {
        proof {
            assert forall|k2: int| !terminated_at(b@, start as int, k2) by {
                if terminated_at(b@, start as int, k2) {
                    assert(b@[start + k2] != 0);
                }
            }
        }
        return String::new();
    }
    proof {
        assert(terminated_at(b@, start as int, k as int));
        let kc = choose|k2: int| terminated_at(b@, start as int, k2);
        if kc < k {
            assert(b@[start + kc] != 0);
        } else if kc > k {
            assert(b@[start + k as int] != 0);
        }
        assert(kc == k);
    }
    match utf8_text(raw.as_slice()) {
        Some(s) => s,
        None => String::new(),
    }
}

/// Offset of element `index` of an array of `width`-byte elements at
/// `start`, when that element lies inside an image of `len` bytes.
fn element_offset(start: u32, index: u32, width: u32, len: usize) -> (r: Option<usize>)
    requires
        width <= 4,
    ensures
        r is Some <==> start + index * width + width <= len,
        r matches Some(o) ==> o == start + index * width,
{
    assert(index as u64 * width as u64 <= 0xffff_ffffu64 * 4) by (nonlinear_arith)
        requires
            index <= 0xffff_ffffu32,
            width <= 4,
    ;
    let off: u64 = start as u64 + index as u64 * width as u64;
    if off + width as u64 > len as u64 {
        None
    } else {
        Some(off as usize)
    }
}

/// Walks the export directory's arrays and builds the records, in directory
/// order. With `syscalls_only`, only the stubs are kept, each carrying its
/// call number as `ord`; otherwise every entry is kept with its fallback
/// identifier. Fails with `InvalidImage` when an entry cannot be read, or,
/// in stub-only enumeration, when a stub's call number lies outside the image.
pub fn enumerate(image: &ImageView, dir: &ExportDirectory, syscalls_only: bool) -> (r: Result<
    Vec<Function>,
    DumpError,
>)
    ensures
        r is Err <==> !table_ok(image.bytes@, image.base, *dir, syscalls_only),
        r is Err ==> r == Err::<Vec<Function>, DumpError>(DumpError::InvalidImage),
        r matches Ok(v) ==> records(v@) == expected_exports(
            image.bytes@,
            image.base,
            *dir,
            syscalls_only,
            dir.number_of_functions as nat,
        ),
{
    let b = image.bytes.as_slice();
    let n = dir.number_of_functions;
    let mut out: Vec<Function> = Vec::new();
    let mut i: u32 = 0;
    while i < n
        invariant
            b@ == image.bytes@,
            n == dir.number_of_functions,
            i <= n,
            forall|j: int| 0 <= j < i ==> #[trigger] entry_ok(b@, image.base, *dir, syscalls_only, j),
            records(out@) == expected_exports(b@, image.base, *dir, syscalls_only, i as nat),
        decreases n - i,
    {
        let name_off = match element_offset(dir.address_of_names, i, 4, b.len()) {
            Some(o) => o,
            None => {
                assert(!entry_ok(b@, image.base, *dir, syscalls_only, i as int));
                return Err(DumpError::InvalidImage);
            },
        };
        let ord_off = match element_offset(dir.address_of_name_ordinals, i, 2, b.len()) {
            Some(o) => o,
            None => {
                assert(!entry_ok(b@, image.base, *dir, syscalls_only, i as int));
                return Err(DumpError::InvalidImage);
            },
        };
        let index = read_u16(b, ord_off).unwrap();
        if index as u32 >= n {
            assert(!entry_ok(b@, image.base, *dir, syscalls_only, i as int));
            return Err(DumpError::InvalidImage);
        }
        let func_off = match element_offset(dir.address_of_functions, index as u32, 4, b.len()) {
            Some(o) => o,
            None => {
                assert(!entry_ok(b@, image.base, *dir, syscalls_only, i as int));
                return Err(DumpError::InvalidImage);
            },
        };
        let func_rva = read_u32(b, func_off).unwrap();
        let address = image.base.wrapping_add(func_rva as usize);
        let declared_base = #[verifier::truncate] (dir.image_base as usize);
        let rva = address.wrapping_sub(declared_base);
        assert(entry_readable(b@, *dir, i as int));
        let ghost prev = records(out@);
        if syscalls_only {
            match classify(image, address) {
                Err(e) => {
                    assert(!entry_ok(b@, image.base, *dir, syscalls_only, i as int));
                    return Err(e);
                },
                Ok(StubClass::SyscallStub(call)) => {
                    let name_rva = read_u32(b, name_off).unwrap();
                    let name = read_name(b, name_rva as usize);
                    out.push(Function { name, addr: address, number: i, ord: call as usize, rva });
                    assert(records(out@) =~= prev.push(
                        export_record(b@, image.base, *dir, i as int, call as int),
                    ));
                },
                Ok(StubClass::NotAStub) => {},
            }
        } else {
            let id = fallback_id(image, address);
            let name_rva = read_u32(b, name_off).unwrap();
            let name = read_name(b, name_rva as usize);
            out.push(Function { name, addr: address, number: i, ord: id as usize, rva });
            assert(records(out@) =~= prev.push(
                export_record(b@, image.base, *dir, i as int, id as int),
            ));
        }
        i = i + 1;
    }
    Ok(out)
}

/// Full enumeration keeps one record per declared entry.
pub proof fn lemma_full_enumeration_count(b: Seq<u8>, base: usize, d: ExportDirectory, k: nat)
    ensures
        expected_exports(b, base, d, false, k).len() == k,
    decreases k,
{
    if k > 0 {
        lemma_full_enumeration_count(b, base, d, (k - 1) as nat);
    }
}

/// Every record's `rva` is its address less the declared image base, modulo
/// the address width; and where the image is mapped at its declared base,
/// the address is that base plus the `rva`.
pub proof fn lemma_record_offsets(
    b: Seq<u8>,
    base: usize,
    d: ExportDirectory,
    syscalls_only: bool,
    k: nat,
)
    ensures
        forall|i: int|
            0 <= i < expected_exports(b, base, d, syscalls_only, k).len() ==> {
                let e = #[trigger] expected_exports(b, base, d, syscalls_only, k)[i];
                &&& e.rva == e.addr.wrapping_sub(d.image_base as usize)
                &&& base == d.image_base as usize ==> e.addr == base.wrapping_add(e.rva)
            },
    decreases k,
{
    if k > 0 {
        lemma_record_offsets(b, base, d, syscalls_only, (k - 1) as nat);
        let prev = expected_exports(b, base, d, syscalls_only, (k - 1) as nat);
        let cur = expected_exports(b, base, d, syscalls_only, k);
        assert forall|i: int| 0 <= i < cur.len() implies {
            let e = #[trigger] cur[i];
            &&& e.rva == e.addr.wrapping_sub(d.image_base as usize)
            &&& base == d.image_base as usize ==> e.addr == base.wrapping_add(e.rva)
        } by {
            if i < prev.len() {
                assert(cur[i] == prev[i]);
            }
        }
    }
}

} // verus!
