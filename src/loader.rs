//! Finding a module's base address in the process loader list.
//!
//! The live list is walked by the caller, one entry at a time, with
//! [`walk_step`] deciding after each read; [`LoaderList`] is a snapshot of the
//! same structure that [`locate`] walks with the same decisions. The walk ends
//! when the entry just examined is the one that the list anchor records as
//! its tail, never after an assumed count. In a snapshot it also ends after as
//! many entries as the snapshot holds, and allowing it more changes nothing.
use vstd::prelude::*;
use crate::image::DumpError;

verus! {

/// What `String::from_utf16_lossy` makes of a sequence of UTF-16 code units.
pub uninterp spec fn lossy_utf16(units: Seq<u16>) -> Seq<char>;

/// What `str::to_lowercase` makes of a text.
pub uninterp spec fn lower_of(s: Seq<char>) -> Seq<char>;

/// Relies on String::from_utf16_lossy: the text depends on the code units alone.
#[verifier::external_body]
fn decode_path(units: &[u16]) -> (r: String)
    ensures
        r@ == lossy_utf16(units@),
{
    String::from_utf16_lossy(units)
}

/// Relies on str::to_lowercase: the result depends on the characters alone.
#[verifier::external_body]
fn lowercase(s: &str) -> (r: String)
    ensures
        r@ == lower_of(s@),
{
    s.to_lowercase()
}

/// The segment register through which the loader anchor is reached.
#[derive(Debug, Clone, Copy, PartialEq, Eq, Structural)]
pub enum SegmentRegister {
    Fs,
    Gs,
}

/// Where the pointer to the process environment block, which holds the
/// loader anchor, is found: a segment register and an offset in its segment.
#[derive(Debug, Clone, Copy, PartialEq, Eq, Structural)]
pub struct AnchorSlot {
    pub segment: SegmentRegister,
    pub offset: u32,
}

/// The anchor slot for an address space of `pointer_width` bits: one entry
/// per supported width.
pub open spec fn anchor_slot_for(pointer_width: u32) -> Option<AnchorSlot> {
    if pointer_width == 32 {
        Some(AnchorSlot { segment: SegmentRegister::Fs, offset: 0x30 })
    } else if pointer_width == 64 {
        Some(AnchorSlot { segment: SegmentRegister::Gs, offset: 0x60 })
    } else {
        None
    }
}

/// Looks up the anchor slot for `pointer_width`; any other width is
/// `UnsupportedArchitecture`.
pub fn anchor_slot(pointer_width: u32) -> (r: Result<AnchorSlot, DumpError>)
    ensures
        r matches Ok(s) ==> anchor_slot_for(pointer_width) == Some(s),
        r is Err <==> anchor_slot_for(pointer_width) is None,
        r is Err ==> r == Err::<AnchorSlot, DumpError>(DumpError::UnsupportedArchitecture),
{
    if pointer_width == 32 {
        Ok(AnchorSlot { segment: SegmentRegister::Fs, offset: 0x30 })
    } else if pointer_width == 64 {
        Ok(AnchorSlot { segment: SegmentRegister::Gs, offset: 0x60 })
    } else {
        Err(DumpError::UnsupportedArchitecture)
    }
}

/// `p` is a prefix of `s`.
pub open spec fn has_prefix(s: Seq<char>, p: Seq<char>) -> bool {
    p.len() <= s.len() && s.subrange(0, p.len() as int) == p
}

/// A module path matches an already case-folded name fragment when its own
/// case-folded text starts with the fragment.
pub open spec fn path_matches(path: Seq<u16>, folded_fragment: Seq<char>) -> bool {
    has_prefix(lower_of(lossy_utf16(path)), folded_fragment)
}

/// Whether `text` starts with `prefix`.
pub fn starts_with_text(text: &str, prefix: &str) -> (r: bool)
    ensures
        r == has_prefix(text@, prefix@),
{
    let n = text.unicode_len();
    let m = prefix.unicode_len();
    if m > n {
        return false;
    }
    let mut i: usize = 0;
    while i < m
        invariant
            m <= n,
            n == text@.len(),
            m == prefix@.len(),
            i <= m,
            forall|j: int| 0 <= j < i ==> text@[j] == prefix@[j],
        decreases m - i,
    {
        if text.get_char(i) != prefix.get_char(i) {
            assert(text@.subrange(0, m as int)[i as int] != prefix@[i as int]);
            return false;
        }
        i = i + 1;
    }
    assert(text@.subrange(0, m as int) =~= prefix@);
    true
}

/// Case-folds a name fragment, as the walk compares it.
pub fn fold_name(fragment: &str) -> (r: String)
    ensures
        r@ == lower_of(fragment@),
{
    lowercase(fragment)
}

/// Whether a module path, given as UTF-16 code units, matches a case-folded fragment.
pub fn entry_matches(path: &[u16], folded_fragment: &str) -> (r: bool)
    ensures
        r == path_matches(path@, folded_fragment@),
{
    let text = decode_path(path);
    let folded = lowercase(text.as_str());
    starts_with_text(folded.as_str(), folded_fragment)
}

/// The decision taken after reading one entry of the list.
#[derive(Debug, Clone, Copy, PartialEq, Eq, Structural)]
pub enum WalkStep {
    /// The entry matches: this is the module's base address.
    Found(usize),
    /// The entry was the tail and did not match.
    NotFound,
    /// Read the entry at this link next.
    Next(usize),
}

/// The decision for an entry at `link`, with module `path` and `base`, whose
/// forward link is `next`, in a list whose anchor records `tail`.
pub open spec fn step_outcome(
    folded_fragment: Seq<char>,
    path: Seq<u16>,
    base: usize,
    link: usize,
    next: usize,
    tail: usize,
) -> WalkStep {
    if path_matches(path, folded_fragment) {
        WalkStep::Found(base)
    } else if link == tail {
        WalkStep::NotFound
    } else {
        WalkStep::Next(next)
    }
}

/// Decides what follows the reading of one loader entry.
pub fn walk_step(
    folded_fragment: &str,
    path: &[u16],
    base: usize,
    link: usize,
    next: usize,
    tail: usize,
) -> (r: WalkStep)
    ensures
        r == step_outcome(folded_fragment@, path@, base, link, next, tail),
{
    if entry_matches(path, folded_fragment) {
        WalkStep::Found(base)
    } else if link == tail {
        WalkStep::NotFound
    } else {
        WalkStep::Next(next)
    }
}

/// One entry of a loader-list snapshot. In a snapshot an entry's link is its
/// index, and `next` is the index of the entry that its forward link reaches.
pub struct LoaderEntry {
    pub full_path: Vec<u16>,
    pub base: usize,
    pub next: usize,
}

/// A snapshot of the loader list: the entries, the index that the anchor's
/// forward link reaches, and the index that its back link records as the tail.
pub struct LoaderList {
    pub entries: Vec<LoaderEntry>,
    pub first: usize,
    pub tail: usize,
}

/// The outcome of walking a snapshot from index `cur`, with at most `fuel`
/// further entries to examine. A link that leaves the snapshot ends the walk.
pub open spec fn walk_from(
    entries: Seq<LoaderEntry>,
    folded_fragment: Seq<char>,
    tail: usize,
    cur: int,
    fuel: nat,
) -> Result<usize, DumpError>
    decreases fuel,
{
    if fuel == 0 || !(0 <= cur < entries.len()) {
        Err(DumpError::ModuleNotFound)
    } else {
        let e = entries[cur];
        match step_outcome(folded_fragment, e.full_path@, e.base, cur as usize, e.next, tail) {
            WalkStep::Found(b) => Ok(b),
            WalkStep::NotFound => Err(DumpError::ModuleNotFound),
            WalkStep::Next(n) => walk_from(entries, folded_fragment, tail, n as int, (fuel - 1) as nat),
        }
    }
}

/// Finds the base address of the first module, walking from the anchor's
/// forward link, whose case-folded path starts with the case-folded
/// `fragment`; `ModuleNotFound` once the tail or a dangling link is reached,
/// or after as many entries as the snapshot holds.
pub fn locate(list: &LoaderList, fragment: &str) -> (r: Result<usize, DumpError>)
    ensures
        r == walk_from(
            list.entries@,
            lower_of(fragment@),
            list.tail,
            list.first as int,
            list.entries@.len(),
        ),
{
    let folded = fold_name(fragment);
    let n = list.entries.len();
    let mut cur = list.first;
    let mut fuel = n;
    while fuel > 0
        invariant
            fuel <= n,
            n == list.entries@.len(),
            folded@ == lower_of(fragment@),
            walk_from(list.entries@, folded@, list.tail, cur as int, fuel as nat) == walk_from(
                list.entries@,
                folded@,
                list.tail,
                list.first as int,
                n as nat,
            ),
        decreases fuel,
    {
        if cur >= n {
            return Err(DumpError::ModuleNotFound);
        }
        let e = &list.entries[cur];
        match walk_step(folded.as_str(), e.full_path.as_slice(), e.base, cur, e.next, list.tail) {
            WalkStep::Found(b) => return Ok(b),
            WalkStep::NotFound => return Err(DumpError::ModuleNotFound),
            WalkStep::Next(next) => {
                cur = next;
            },
        }
        fuel = fuel - 1;
    }
    Err(DumpError::ModuleNotFound)
}

/// A walk that succeeds stops at an entry of the snapshot whose path matches
/// the fragment, reached within the given number of steps from `cur`.
pub proof fn lemma_found_entry_matches(
    entries: Seq<LoaderEntry>,
    folded_fragment: Seq<char>,
    tail: usize,
    cur: int,
    fuel: nat,
    b: usize,
)
    requires
        walk_from(entries, folded_fragment, tail, cur, fuel) == Ok::<usize, DumpError>(b),
    ensures
        exists|k: int|
            0 <= k < entries.len() && #[trigger] entries[k].base == b && path_matches(
                entries[k].full_path@,
                folded_fragment,
            ),
    decreases fuel,
{
    let e = entries[cur];
    if path_matches(e.full_path@, folded_fragment) {
        assert(entries[cur].base == b);
    } else {
        lemma_found_entry_matches(entries, folded_fragment, tail, e.next as int, (fuel - 1) as nat, b);
    }
}

/// The index reached from `cur` after following `k` forward links; -1 once
/// a link leaves the snapshot.
pub open spec fn walk_node(entries: Seq<LoaderEntry>, cur: int, k: nat) -> int
    decreases k,
{
    if k == 0 {
        cur
    } else if 0 <= cur < entries.len() {
        walk_node(entries, entries[cur].next as int, (k - 1) as nat)
    } else {
        -1
    }
}

/// The walk reads the entry at `p` and moves on: it is in the snapshot, does
/// not match, and is not the tail.
pub open spec fn passes(entries: Seq<LoaderEntry>, f: Seq<char>, tail: usize, p: int) -> bool {
    &&& 0 <= p < entries.len()
    &&& !path_matches(entries[p].full_path@, f)
    &&& p as usize != tail
}

proof fn lemma_walk_node_out(entries: Seq<LoaderEntry>, k: nat)
    ensures
        walk_node(entries, -1, k) == -1,
    decreases k,
{
}

proof fn lemma_walk_node_add(entries: Seq<LoaderEntry>, cur: int, a: nat, b: nat)
    ensures
        walk_node(entries, cur, a + b) == walk_node(entries, walk_node(entries, cur, a), b),
    decreases a,
{
    if a > 0 {
        if 0 <= cur < entries.len() {
            lemma_walk_node_add(entries, entries[cur].next as int, (a - 1) as nat, b);
            assert((a - 1) as nat + b == (a + b - 1) as nat);
        } else {
            lemma_walk_node_out(entries, b);
        }
    }
}

/// After `k` entries that the walk passes, it goes on from the `k`-th node.
proof fn lemma_walk_skip(
    entries: Seq<LoaderEntry>,
    f: Seq<char>,
    tail: usize,
    cur: int,
    k: nat,
    m: nat,
)
    requires
        forall|j: nat| j < k ==> passes(entries, f, tail, #[trigger] walk_node(entries, cur, j)),
    ensures
        walk_from(entries, f, tail, cur, k + m) == walk_from(
            entries,
            f,
            tail,
            walk_node(entries, cur, k),
            m,
        ),
    decreases k,
{
    if k > 0 {
        assert(passes(entries, f, tail, walk_node(entries, cur, 0)));
        let next = entries[cur].next as int;
        assert forall|j: nat| j < (k - 1) as nat implies passes(
            entries,
            f,
            tail,
            #[trigger] walk_node(entries, next, j),
        ) by {
            assert(walk_node(entries, cur, j + 1) == walk_node(entries, next, j));
            assert(passes(entries, f, tail, walk_node(entries, cur, j + 1)));
        }
        lemma_walk_skip(entries, f, tail, next, (k - 1) as nat, m);
        assert((k - 1) as nat + m == (k + m - 1) as nat);
        assert(!path_matches(entries[cur].full_path@, f));
        assert(cur as usize != tail);
        assert(walk_from(entries, f, tail, cur, k + m) == walk_from(
            entries,
            f,
            tail,
            next,
            (k + m - 1) as nat,
        ));
        assert(walk_node(entries, cur, k) == walk_node(entries, next, (k - 1) as nat));
    }
}

/// Either the walk passes the first `k` nodes, or there is a first node
/// before `k` at which it stops.
proof fn lemma_first_stop(entries: Seq<LoaderEntry>, f: Seq<char>, tail: usize, cur: int, k: nat)
    ensures
        (forall|j: nat| j < k ==> passes(entries, f, tail, #[trigger] walk_node(entries, cur, j)))
            || exists|s: nat|
            s < k && !passes(entries, f, tail, #[trigger] walk_node(entries, cur, s)) && forall|
                j: nat,
            | j < s ==> passes(entries, f, tail, #[trigger] walk_node(entries, cur, j)),
    decreases k,
{
    if k > 0 {
        lemma_first_stop(entries, f, tail, cur, (k - 1) as nat);
        if forall|j: nat| j < (k - 1) as nat ==> passes(entries, f, tail, #[trigger] walk_node(entries, cur, j)) {
            if passes(entries, f, tail, walk_node(entries, cur, (k - 1) as nat)) {
                assert forall|j: nat| j < k implies passes(
                    entries,
                    f,
                    tail,
                    #[trigger] walk_node(entries, cur, j),
                ) by {
                    if j < (k - 1) as nat {
                    }
                }
            }
        }
    }
}

/// Among `n + 1` nodes that all lie in a snapshot of `n` entries, two coincide.
proof fn lemma_repeat(entries: Seq<LoaderEntry>, cur: int)
    requires
        forall|j: nat| j <= entries.len() ==> 0 <= #[trigger] walk_node(entries, cur, j) < entries.len(),
    ensures
        exists|i: nat, j: nat|
            i < j <= entries.len() && #[trigger] walk_node(entries, cur, i) == #[trigger] walk_node(
                entries,
                cur,
                j,
            ),
{
    let n = entries.len() as int;
    let steps = vstd::set_lib::set_int_range(0, n + 1);
    let g = |k: int| walk_node(entries, cur, k as nat);
    let reached = steps.map(g);
    vstd::set_lib::lemma_int_range(0, n + 1);
    vstd::set_lib::lemma_int_range(0, n);
    assert(reached.subset_of(vstd::set_lib::set_int_range(0, n))) by {
        assert forall|x: int| reached.contains(x) implies vstd::set_lib::set_int_range(0, n).contains(x) by {
            let k = choose|k: int| steps.contains(k) && g(k) == x;
            assert(0 <= walk_node(entries, cur, k as nat) < n);
        }
    }
    vstd::set_lib::lemma_len_subset(reached, vstd::set_lib::set_int_range(0, n));
    if !exists|i: nat, j: nat|
        i < j <= entries.len() && #[trigger] walk_node(entries, cur, i) == #[trigger] walk_node(entries, cur, j) {
        assert(vstd::relations::injective_on(g, steps)) by {
            assert forall|a: int, b: int|
                steps.contains(a) && steps.contains(b) && #[trigger] g(a) == #[trigger] g(b) implies a == b by {
                if a < b {
                    assert(walk_node(entries, cur, a as nat) == walk_node(entries, cur, b as nat));
                } else if b < a {
                    assert(walk_node(entries, cur, b as nat) == walk_node(entries, cur, a as nat));
                }
            }
        }
        vstd::set_lib::lemma_map_size(steps, reached, g);
        assert(false);
    }
}

/// The walk of a snapshot is bounded by the snapshot's length: allowing it
/// to examine more entries than the snapshot holds changes nothing, whether
/// or not the module is present.
pub proof fn lemma_walk_bounded_by_length(
    entries: Seq<LoaderEntry>,
    f: Seq<char>,
    tail: usize,
    first: int,
    extra: nat,
)
    ensures
        walk_from(entries, f, tail, first, entries.len() + extra) == walk_from(
            entries,
            f,
            tail,
            first,
            entries.len(),
        ),
{
    let n = entries.len();
    lemma_first_stop(entries, f, tail, first, n);
    if exists|s: nat|
        s < n && !passes(entries, f, tail, #[trigger] walk_node(entries, first, s)) && forall|j: nat|
            j < s ==> passes(entries, f, tail, #[trigger] walk_node(entries, first, j)) {
        let s = choose|s: nat|
            s < n && !passes(entries, f, tail, #[trigger] walk_node(entries, first, s)) && forall|
                j: nat,
            | j < s ==> passes(entries, f, tail, #[trigger] walk_node(entries, first, j));
        lemma_walk_skip(entries, f, tail, first, s, (n + extra - s) as nat);
        lemma_walk_skip(entries, f, tail, first, s, (n - s) as nat);
        assert(s + (n + extra - s) as nat == n + extra);
        assert(s + (n - s) as nat == n);
    } else {
        let last = walk_node(entries, first, n);
        lemma_walk_skip(entries, f, tail, first, n, 0);
        if 0 <= last < n {
            assert forall|j: nat| j <= n implies 0 <= #[trigger] walk_node(entries, first, j) < n by {
                if j < n {
                    assert(passes(entries, f, tail, walk_node(entries, first, j)));
                }
            }
            lemma_repeat(entries, first);
            let (i, j) = choose|i: nat, j: nat|
                i < j <= entries.len() && #[trigger] walk_node(entries, first, i) == #[trigger] walk_node(
                    entries,
                    first,
                    j,
                );
            assert forall|m: nat| m < n + extra implies passes(entries, f, tail, #[trigger] walk_node(entries, first, m)) by {
                lemma_passes_periodic(entries, f, tail, first, i, j, m);
            }
            lemma_walk_skip(entries, f, tail, first, n + extra, 0);
        } else {
            lemma_walk_skip(entries, f, tail, first, n, extra);
            if extra > 0 {
                assert(walk_from(entries, f, tail, last, extra) == Err::<usize, DumpError>(DumpError::ModuleNotFound));
            }
        }
    }
}

/// Once two nodes coincide, every later node repeats one of the passed nodes.
proof fn lemma_passes_periodic(
    entries: Seq<LoaderEntry>,
    f: Seq<char>,
    tail: usize,
    cur: int,
    i: nat,
    j: nat,
    m: nat,
)
    requires
        i < j,
        walk_node(entries, cur, i) == walk_node(entries, cur, j),
        forall|k: nat| k < j ==> passes(entries, f, tail, #[trigger] walk_node(entries, cur, k)),
    ensures
        passes(entries, f, tail, walk_node(entries, cur, m)),
    decreases m,
{
    if m >= j {
        let back = (m - (j - i)) as nat;
        lemma_walk_node_add(entries, cur, j, (m - j) as nat);
        lemma_walk_node_add(entries, cur, i, (m - j) as nat);
        assert(j + (m - j) as nat == m);
        assert(i + (m - j) as nat == back);
        lemma_passes_periodic(entries, f, tail, cur, i, j, back);
    }
}

} // verus!
