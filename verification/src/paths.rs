//! Path inspection (through `std::path`) and the stable ordering of directory listings.
use vstd::prelude::*;

use crate::text::{
    chars_of, decimal, decimal_string, eq_ignore_ascii_case, is_whitespace, is_ws, occurs_at_exec,
    range_eq_ignore_ascii_case, skip_whitespace, skip_ws, starts_with, str_eq, str_starts_with,
    string_from_range,
};

verus! {

/// What `Path::file_name` followed by `OsStr::to_str` gives for a path written as a string.
pub uninterp spec fn path_file_name(path: Seq<char>) -> Option<Seq<char>>;

/// What `Path::file_stem` followed by `OsStr::to_str` gives for a path written as a string.
pub uninterp spec fn path_file_stem(path: Seq<char>) -> Option<Seq<char>>;

/// What `Path::extension` followed by `OsStr::to_str` gives for a path written as a string.
pub uninterp spec fn path_extension(path: Seq<char>) -> Option<Seq<char>>;

/// What `Path::components().count()` gives for a path written as a string.
pub uninterp spec fn path_component_count(path: Seq<char>) -> nat;

/// Calls `Path::file_name`; the contract claims only that the result is the named
/// function of the path's characters.
#[verifier::external_body]
pub(crate) fn file_name_of(path: &str) -> (r: Option<String>)
    ensures
        match r {
            Some(n) => path_file_name(path@) == Some(n@),
            None => path_file_name(path@) is None,
        },
{
    std::path::Path::new(path).file_name().and_then(|n| n.to_str()).map(|n| n.to_owned())
}

/// Calls `Path::file_stem`; the contract claims only that the result is the named
/// function of the path's characters.
#[verifier::external_body]
pub(crate) fn file_stem_of(path: &str) -> (r: Option<String>)
    ensures
        match r {
            Some(n) => path_file_stem(path@) == Some(n@),
            None => path_file_stem(path@) is None,
        },
{
    std::path::Path::new(path).file_stem().and_then(|n| n.to_str()).map(|n| n.to_owned())
}

/// Calls `Path::extension`; the contract claims only that the result is the named
/// function of the path's characters.
#[verifier::external_body]
pub(crate) fn extension_of(path: &str) -> (r: Option<String>)
    ensures
        match r {
            Some(n) => path_extension(path@) == Some(n@),
            None => path_extension(path@) is None,
        },
{
    std::path::Path::new(path).extension().and_then(|n| n.to_str()).map(|n| n.to_owned())
}

/// Calls `Path::components` and counts them; the contract claims only that the count is
/// the named function of the path's characters.
#[verifier::external_body]
pub(crate) fn component_count_of(path: &str) -> (r: usize)
    ensures
        r as nat == path_component_count(path@),
{
    std::path::Path::new(path).components().count()
}

/// Whether the path's extension equals `extension`, ignoring ASCII case.
pub open spec fn has_extension(path: Seq<char>, extension: Seq<char>) -> bool {
    match path_extension(path) {
        Some(e) => eq_ignore_ascii_case(e, extension),
        None => false,
    }
}

/// Tests a path's extension against `extension`, ignoring ASCII case.
pub fn has_extension_ignore_case(path: &str, extension: &str) -> (r: bool)
    ensures
        r == has_extension(path@, extension@),
{
    match extension_of(path) {
        Some(e) => {
            let cs = chars_of(e.as_str());
            assert(cs@.subrange(0, cs@.len() as int) =~= cs@);
            range_eq_ignore_ascii_case(cs.as_slice(), 0, cs.len(), extension)
        },
        None => false,
    }
}

// ---------------------------------------------------------------------------
// Ordering of names
// ---------------------------------------------------------------------------

/// Lexicographic order on character sequences, as `Ord for str` compares
/// (UTF-8 byte order agrees with code point order).
pub open spec fn seq_le(a: Seq<char>, b: Seq<char>) -> bool
    decreases a.len(),
{
    if a.len() == 0 {
        true
    } else if b.len() == 0 {
        false
    } else if (a[0] as u32) < (b[0] as u32) {
        true
    } else if (a[0] as u32) > (b[0] as u32) {
        false
    } else {
        seq_le(a.drop_first(), b.drop_first())
    }
}

pub proof fn lemma_seq_le_total(a: Seq<char>, b: Seq<char>)
    ensures
        seq_le(a, b) || seq_le(b, a),
    decreases a.len(),
{
    if a.len() > 0 && b.len() > 0 && (a[0] as u32) == (b[0] as u32) {
        lemma_seq_le_total(a.drop_first(), b.drop_first());
    }
}

pub proof fn lemma_seq_le_transitive(a: Seq<char>, b: Seq<char>, c: Seq<char>)
    requires
        seq_le(a, b),
        seq_le(b, c),
    ensures
        seq_le(a, c),
    decreases a.len(),
{
    if a.len() > 0 && b.len() > 0 && c.len() > 0 && (a[0] as u32) == (b[0] as u32) && (b[0] as u32)
        == (c[0] as u32) {
        lemma_seq_le_transitive(a.drop_first(), b.drop_first(), c.drop_first());
    }
}

/// Compares two strings in `Ord for str` order.
pub fn str_le(a: &str, b: &str) -> (r: bool)
    ensures
        r == seq_le(a@, b@),
{
    let x = chars_of(a);
    let y = chars_of(b);
    let mut i: usize = 0;
    proof {
        assert(x@.subrange(0, x@.len() as int) =~= x@);
        assert(y@.subrange(0, y@.len() as int) =~= y@);
    }
    while i < x.len() && i < y.len() && (x[i] as u32) == (y[i] as u32)
        invariant
            i <= x@.len(),
            i <= y@.len(),
            seq_le(x@, y@) == seq_le(x@.subrange(i as int, x@.len() as int), y@.subrange(i as int, y@.len() as int)),
        decreases x@.len() - i,
    {
        proof {
            let xs = x@.subrange(i as int, x@.len() as int);
            let ys = y@.subrange(i as int, y@.len() as int);
            assert(xs.drop_first() =~= x@.subrange(i + 1, x@.len() as int));
            assert(ys.drop_first() =~= y@.subrange(i + 1, y@.len() as int));
        }
        i = i + 1;
    }
    if i == x.len() {
        true
    } else if i == y.len() {
        false
    } else {
        (x[i] as u32) < (y[i] as u32)
    }
}

/// Whether the strings are in non-decreasing `Ord for str` order.
pub open spec fn sorted_strings(s: Seq<String>) -> bool {
    forall|i: int, j: int| 0 <= i < j < s.len() ==> seq_le(s[i]@, s[j]@)
}

/// Sorts strings in `Ord for str` order (the order `sort` gives them).
pub fn sort_strings(v: Vec<String>) -> (r: Vec<String>)
    ensures
        sorted_strings(r@),
        r@.to_multiset() == v@.to_multiset(),
        r@.len() == v@.len(),
{
    let mut out: Vec<String> = Vec::new();
    let mut rest = v;
    let ghost given = rest@;
    proof {
        assert(given.subrange(0, 0) =~= Seq::<String>::empty());
    }
    let mut k: usize = 0;
    let n = rest.len();
    while k < n
        invariant
            n == given.len(),
            rest@ == given,
            k <= n,
            sorted_strings(out@),
            out@.to_multiset() == given.subrange(0, k as int).to_multiset(),
            out@.len() == k,
        decreases n - k,
    {
        let item = rest[k].clone();
        // find insertion point: first position whose element is greater than `item`
        let mut p: usize = 0;
        while p < out.len() && str_le(out[p].as_str(), item.as_str())
            invariant
                p <= out@.len(),
                forall|j: int| 0 <= j < p ==> seq_le(out@[j]@, item@),
            decreases out@.len() - p,
        {
            p = p + 1;
        }
        proof {
            if p < out@.len() {
                lemma_seq_le_total(out@[p as int]@, item@);
            }
        }
        let ghost before = out@;
        out.insert(p, item);
        proof {
            assert forall|i: int, j: int| 0 <= i < j < out@.len() implies seq_le(out@[i]@, out@[j]@) by {
                if i == p && j > p {
                    // item <= before[p] <= before[j - 1]
                    if j - 1 > p {
                        lemma_seq_le_transitive(item@, before[p as int]@, before[j - 1]@);
                    }
                }
            }
            assert(given.subrange(0, k + 1) =~= given.subrange(0, k as int).push(given[k as int]));
            assert(out@ =~= before.insert(p as int, given[k as int]));
            vstd::seq_lib::to_multiset_insert(before, p as int, given[k as int]);
            vstd::seq_lib::to_multiset_build(given.subrange(0, k as int), given[k as int]);
        }
        k = k + 1;
    }
    proof {
        assert(given.subrange(0, n as int) =~= given);
        vstd::seq_lib::to_multiset_len(out@);
        vstd::seq_lib::to_multiset_len(given);
    }
    out
}

} // verus!
