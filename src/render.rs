//! The catalog as a fixed-width text table.
use vstd::prelude::*;
use crate::catalog::{CatalogModel, DumpMod};
use crate::exports::{records, ExportRecord, Function};

verus! {

/// Column width of the numeric columns.
pub const COLUMN_WIDTH: usize = 15;

/// The character for digit value `d` (0 to 15), lower case.
pub open spec fn digit_char(d: nat) -> char {
    "0123456789abcdef"@[d as int]
}

/// The digits of `n` in base `radix`, most significant first, without leading zeros.
pub open spec fn digits(n: nat, radix: nat) -> Seq<char>
    recommends
        2 <= radix <= 16,
    decreases n,
    via digits_decreases
{
    if radix < 2 || n < radix {
        seq![digit_char(n)]
    } else {
        digits(n / radix, radix).push(digit_char(n % radix))
    }
}

#[via_fn]
proof fn digits_decreases(n: nat, radix: nat) {
    if !(radix < 2 || n < radix) {
        assert(n / radix < n) by (nonlinear_arith)
            requires
                radix >= 2,
                n >= radix,
        ;
    }
}

/// `s` followed by spaces up to `width` characters.
pub open spec fn pad_right(s: Seq<char>, width: nat) -> Seq<char> {
    if s.len() >= width {
        s
    } else {
        s + Seq::new((width - s.len()) as nat, |k: int| ' ')
    }
}

/// The table's first line, without its line break.
pub open spec fn header_text() -> Seq<char> {
    "addr           ordinal         RVA             number          name"@
}

/// One record's line, without its line break: address, identifier, offset
/// from the declared image base, position in the directory, name.
pub open spec fn row_text(e: ExportRecord) -> Seq<char> {
    "0x"@ + digits(e.addr as nat, 16) + " "@ + pad_right(digits(e.ord as nat, 10), 15) + " 0x"@
        + pad_right(digits(e.rva as nat, 16), 15) + " 0x"@ + pad_right(
        digits(e.number as nat, 16),
        15,
    ) + " "@ + e.name
}

/// The lines of the given records, each with its line break.
pub open spec fn rows_text(s: Seq<ExportRecord>) -> Seq<char>
    decreases s.len(),
{
    if s.len() == 0 {
        Seq::empty()
    } else {
        rows_text(s.drop_last()) + row_text(s.last()) + "\n"@
    }
}

/// The whole table: header, one line per record, and a line naming the
/// module and its base address.
pub open spec fn catalog_text(m: CatalogModel) -> Seq<char> {
    header_text() + "\n"@ + rows_text(m.exports) + "Module name: "@ + m.name + " base address: 0x"@
        + digits(m.handle as nat, 16) + "\n"@
}

/// Appends the digits of `n` in base `radix`.
fn push_digits(out: &mut String, n: u64, radix: u64)
    requires
        2 <= radix <= 16,
    ensures
        final(out)@ == old(out)@ + digits(n as nat, radix as nat),
    decreases n,
{
    if n >= radix {
        assert(n / radix < n) by (nonlinear_arith)
            requires
                radix >= 2,
                n >= radix,
        ;
        push_digits(out, n / radix, radix);
    }
    let table = "0123456789abcdef";
    proof {
        reveal_strlit("0123456789abcdef");
    }
    let d = (n % radix) as usize;
    out.append(table.substring_char(d, d + 1));
    assert(table@.subrange(d as int, d + 1) =~= seq![digit_char(d as nat)]);
    proof {
        if n < radix {
            vstd::arithmetic::div_mod::lemma_small_mod(n as nat, radix as nat);
        }
    }
}

/// Appends `text` followed by spaces up to `width` characters.
fn push_padded(out: &mut String, text: &str, width: usize)
    ensures
        final(out)@ == old(out)@ + pad_right(text@, width as nat),
{
    out.append(text);
    let n = text.unicode_len();
    if n >= width {
        return;
    }
    let mut k: usize = n;
    let ghost start = old(out)@;
    proof {
        reveal_strlit(" ");
        assert(text@ + Seq::new((k - n) as nat, |j: int| ' ') =~= text@);
    }
    while k < width
        invariant
            n <= k <= width,
            n == text@.len(),
            out@ == start + text@ + Seq::new((k - n) as nat, |j: int| ' '),
        decreases width - k,
    {
        out.append(" ");
        proof {
            reveal_strlit(" ");
        }
        k = k + 1;
        assert(out@ =~= start + text@ + Seq::new((k - n) as nat, |j: int| ' '));
    }
    assert(out@ =~= start + pad_right(text@, width as nat));
}

/// The digits of `n` in base `radix`.
fn digits_string(n: u64, radix: u64) -> (r: String)
    requires
        2 <= radix <= 16,
    ensures
        r@ == digits(n as nat, radix as nat),
{
    let mut s = String::new();
    push_digits(&mut s, n, radix);
    assert(s@ =~= digits(n as nat, radix as nat));
    s
}

/// Appends one record's line, without its line break.
fn push_row(out: &mut String, f: &Function)
    ensures
        final(out)@ == old(out)@ + row_text(f@),
{
    let ghost start = old(out)@;
    out.append("0x");
    push_digits(out, f.get_addr() as u64, 16);
    out.append(" ");
    let ord = digits_string(f.get_ord() as u64, 10);
    push_padded(out, ord.as_str(), COLUMN_WIDTH);
    out.append(" 0x");
    let rva = digits_string(f.get_rva() as u64, 16);
    push_padded(out, rva.as_str(), COLUMN_WIDTH);
    out.append(" 0x");
    let number = digits_string(f.get_number() as u64, 16);
    push_padded(out, number.as_str(), COLUMN_WIDTH);
    out.append(" ");
    out.append(f.get_name());
    assert(out@ =~= start + row_text(f@));
}

impl Function {
    /// Renders this record as one table line, without its line break.
    pub fn render(&self) -> (r: String)
        ensures
            r@ == row_text(self@),
    {
        let mut out = String::new();
        push_row(&mut out, self);
        assert(out@ =~= row_text(self@));
        out
    }
}

impl DumpMod {
    /// Renders the catalog as a table; the text depends on the catalog alone.
    pub fn render(&self) -> (r: String)
        ensures
            r@ == catalog_text(self@),
    {
        let mut out = String::new();
        out.append("addr           ordinal         RVA             number          name");
        out.append("\n");
        let exports = self.get_exports();
        let ghost recs = records(exports@);
        let ghost head = out@;
        assert(recs.subrange(0, 0) =~= Seq::<ExportRecord>::empty());
        let mut i: usize = 0;
        while i < exports.len()
            invariant
                i <= exports@.len(),
                recs == records(exports@),
                out@ == head + rows_text(recs.subrange(0, i as int)),
            decreases exports@.len() - i,
        {
            push_row(&mut out, &exports[i]);
            out.append("\n");
            assert(recs.subrange(0, i + 1).drop_last() =~= recs.subrange(0, i as int));
            assert(recs[i as int] == exports@[i as int]@);
            i = i + 1;
            assert(out@ =~= head + rows_text(recs.subrange(0, i as int)));
        }
        assert(recs.subrange(0, i as int) =~= recs);
        out.append("Module name: ");
        out.append(self.get_name());
        out.append(" base address: 0x");
        push_digits(&mut out, self.get_handle() as u64, 16);
        out.append("\n");
        assert(out@ =~= catalog_text(self@));
        out
    }
}

} // verus!
