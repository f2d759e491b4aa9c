//! Which files of the bundle's directories the application uses: model files, prompt
//! profiles and stored sessions, in a stable order, and where such files live.
use vstd::prelude::*;

use crate::model::{AvailableModel, AvailableModelSpec};
use crate::paths::{
    component_count_of, file_stem_of, has_extension, has_extension_ignore_case,
    lemma_seq_le_total, lemma_seq_le_transitive, path_component_count, path_file_name,
    path_file_stem, seq_le, sort_strings, sorted_strings, str_le,
};
use crate::session::strings_view;
use crate::text::{decimal, push_decimal};

verus! {

/// One entry of a directory listing: its path when the path is valid Unicode, and whether
/// it is a regular file.
pub struct DirEntry {
    pub path: Option<String>,
    pub is_file: bool,
}

/// The directory of the bundled models.
pub const MODELS_DIRECTORY: &'static str = "models";

/// The directory of prompt profiles.
pub const PROFILES_DIRECTORY: &'static str = "prompts/profiles";

/// The directory of stored sessions.
pub const SESSIONS_DIRECTORY: &'static str = "sessions";

// ---------------------------------------------------------------------------
// Models
// ---------------------------------------------------------------------------

/// The model an entry provides: a regular file with a `.gguf` extension (ASCII case
/// ignored) whose file name is valid Unicode.
pub open spec fn entry_model(e: DirEntry) -> Option<AvailableModelSpec> {
    match e.path {
        Some(p) => if e.is_file && has_extension(p@, "gguf"@) {
            match path_file_name(p@) {
                Some(name) => Some(AvailableModelSpec { name, path: p@ }),
                None => None,
            }
        } else {
            None
        },
        None => None,
    }
}

/// The models of a listing, in listing order.
pub open spec fn listed_models(entries: Seq<DirEntry>) -> Seq<AvailableModelSpec>
    decreases entries.len(),
{
    if entries.len() == 0 {
        Seq::empty()
    } else {
        let before = listed_models(entries.drop_last());
        match entry_model(entries.last()) {
            Some(m) => before.push(m),
            None => before,
        }
    }
}

/// The views of a sequence of models.
pub open spec fn models_view(ms: Seq<AvailableModel>) -> Seq<AvailableModelSpec> {
    ms.map_values(|m: AvailableModel| m@)
}

/// Whether models are in non-decreasing order of their names.
pub open spec fn sorted_by_name(ms: Seq<AvailableModelSpec>) -> bool {
    forall|i: int, j: int| 0 <= i < j < ms.len() ==> seq_le(ms[i].name, ms[j].name)
}

/// Finds the usable models among the entries of the models directory, sorted by name.
pub fn usable_models(entries: &[DirEntry]) -> (r: Vec<AvailableModel>)
    ensures
        sorted_by_name(models_view(r@)),
        models_view(r@).to_multiset() == listed_models(entries@).to_multiset(),
{
    let mut found: Vec<AvailableModel> = Vec::new();
    let mut i: usize = 0;
    proof {
        assert(models_view(found@) =~= listed_models(entries@.subrange(0, 0)));
    }
    while i < entries.len()
        invariant
            i <= entries@.len(),
            models_view(found@) == listed_models(entries@.subrange(0, i as int)),
        decreases entries@.len() - i,
    {
        proof {
            assert(entries@.subrange(0, i + 1).drop_last() =~= entries@.subrange(0, i as int));
        }
        let e = &entries[i];
        let ghost before = found@;
        if let Some(p) = &e.path {
            if e.is_file && has_extension_ignore_case(p.as_str(), "gguf") {
                proof {
                    reveal_strlit("gguf");
                }
                match AvailableModel::new(p.as_str()) {
                    Some(m) => {
                        found.push(m);
                        proof {
                            assert(models_view(found@) =~= models_view(before).push(m@));
                        }
                    },
                    None => {},
                }
            } else {
                proof {
                    reveal_strlit("gguf");
                }
            }
        }
        i = i + 1;
    }
    proof {
        assert(entries@.subrange(0, entries@.len() as int) =~= entries@);
    }
    sort_models(found)
}

/// Sorts models by name, keeping them all.
fn sort_models(v: Vec<AvailableModel>) -> (r: Vec<AvailableModel>)
    ensures
        sorted_by_name(models_view(r@)),
        models_view(r@).to_multiset() == models_view(v@).to_multiset(),
{
    let mut out: Vec<AvailableModel> = Vec::new();
    let ghost original = models_view(v@);
    let n = v.len();
    let mut k: usize = 0;
    proof {
        assert(models_view(out@) =~= original.subrange(0, 0));
    }
    while k < n
        invariant
            n == v@.len() == original.len(),
            original == models_view(v@),
            k <= n,
            sorted_by_name(models_view(out@)),
            models_view(out@).to_multiset() == original.subrange(0, k as int).to_multiset(),
        decreases n - k,
    {
        let item = v[k].duplicate();
        let mut p: usize = 0;
        while p < out.len() && str_le(out[p].name(), item.name())
            invariant
                p <= out@.len(),
                forall|j: int| 0 <= j < p ==> seq_le(out@[j]@.name, item@.name),
            decreases out@.len() - p,
        {
            p = p + 1;
        }
        proof {
            if p < out@.len() {
                lemma_seq_le_total(out@[p as int]@.name, item@.name);
            }
        }
        let ghost before = models_view(out@);
        out.insert(p, item);
        proof {
            let after = models_view(out@);
            assert(after =~= before.insert(p as int, item@));
            assert forall|i: int, j: int| 0 <= i < j < after.len() implies seq_le(after[i].name, after[j].name) by {
                if i == p && j > p {
                    if j - 1 > p {
                        lemma_seq_le_transitive(item@.name, before[p as int].name, before[j - 1].name);
                    }
                } else if j == p && i < p {
                } else {
                }
            }
            assert(original.subrange(0, k + 1) =~= original.subrange(0, k as int).push(original[k as int]));
            assert(original[k as int] == item@);
            vstd::seq_lib::to_multiset_insert(before, p as int, item@);
            vstd::seq_lib::to_multiset_build(original.subrange(0, k as int), original[k as int]);
        }
        k = k + 1;
    }
    proof {
        assert(original.subrange(0, n as int) =~= original);
    }
    out
}

// ---------------------------------------------------------------------------
// Profiles and stored sessions
// ---------------------------------------------------------------------------

/// The profile an entry provides: the file stem of a regular Markdown file (`.md`, ASCII
/// case ignored) whose stem is valid Unicode.
pub open spec fn entry_profile(e: DirEntry) -> Option<Seq<char>> {
    match e.path {
        Some(p) => if e.is_file && has_extension(p@, "md"@) {
            path_file_stem(p@)
        } else {
            None
        },
        None => None,
    }
}

/// The profile names of a listing, in listing order.
pub open spec fn listed_profiles(entries: Seq<DirEntry>) -> Seq<Seq<char>>
    decreases entries.len(),
{
    if entries.len() == 0 {
        Seq::empty()
    } else {
        let before = listed_profiles(entries.drop_last());
        match entry_profile(entries.last()) {
            Some(name) => before.push(name),
            None => before,
        }
    }
}

/// Lists the profile names backed by regular Markdown files, in a stable order.
pub fn profile_names(entries: &[DirEntry]) -> (r: Vec<String>)
    ensures
        sorted_strings(r@),
        strings_view(r@).to_multiset() == listed_profiles(entries@).to_multiset(),
{
    let mut found: Vec<String> = Vec::new();
    let mut i: usize = 0;
    proof {
        assert(strings_view(found@) =~= listed_profiles(entries@.subrange(0, 0)));
    }
    while i < entries.len()
        invariant
            i <= entries@.len(),
            strings_view(found@) == listed_profiles(entries@.subrange(0, i as int)),
        decreases entries@.len() - i,
    {
        proof {
            assert(entries@.subrange(0, i + 1).drop_last() =~= entries@.subrange(0, i as int));
            reveal_strlit("md");
        }
        let e = &entries[i];
        let ghost before = found@;
        if let Some(p) = &e.path {
            if e.is_file && has_extension_ignore_case(p.as_str(), "md") {
                match file_stem_of(p.as_str()) {
                    Some(stem) => {
                        found.push(stem);
                        proof {
                            assert(strings_view(found@) =~= strings_view(before).push(stem@));
                        }
                    },
                    None => {},
                }
            }
        }
        i = i + 1;
    }
    proof {
        assert(entries@.subrange(0, entries@.len() as int) =~= entries@);
    }
    let ghost unsorted = found@;
    let r = sort_strings(found);
    proof {
        lemma_strings_view_multiset(r@, unsorted);
    }
    r
}

/// Strings with the same multiset have views with the same multiset.
proof fn lemma_strings_view_multiset(a: Seq<String>, b: Seq<String>)
    requires
        a.to_multiset() == b.to_multiset(),
    ensures
        strings_view(a).to_multiset() == strings_view(b).to_multiset(),
{
    assert forall|x: Seq<char>| #[trigger] strings_view(a).to_multiset().count(x) == strings_view(b).to_multiset().count(x) by {
        lemma_view_count(a, x);
        lemma_view_count(b, x);
        lemma_count_by_view(a, b, x);
    }
    assert(strings_view(a).to_multiset() =~= strings_view(b).to_multiset());
}

/// The number of strings whose view is `x`.
spec fn count_view(a: Seq<String>, x: Seq<char>) -> nat
    decreases a.len(),
{
    if a.len() == 0 {
        0
    } else {
        count_view(a.drop_last(), x) + if a.last()@ == x { 1nat } else { 0 }
    }
}

proof fn lemma_view_count(a: Seq<String>, x: Seq<char>)
    ensures
        strings_view(a).to_multiset().count(x) == count_view(a, x),
    decreases a.len(),
{
    broadcast use vstd::multiset::group_multiset_axioms;

    if a.len() == 0 {
        assert(strings_view(a) =~= Seq::<Seq<char>>::empty());
        vstd::seq_lib::to_multiset_len(strings_view(a));
    } else {
        lemma_view_count(a.drop_last(), x);
        assert(strings_view(a) =~= strings_view(a.drop_last()).push(a.last()@));
        vstd::seq_lib::to_multiset_build(strings_view(a.drop_last()), a.last()@);
    }
}

proof fn lemma_count_by_view(a: Seq<String>, b: Seq<String>, x: Seq<char>)
    requires
        a.to_multiset() == b.to_multiset(),
    ensures
        count_view(a, x) == count_view(b, x),
    decreases a.len(),
{
    vstd::seq_lib::to_multiset_len(a);
    vstd::seq_lib::to_multiset_len(b);
    if a.len() > 0 {
        let s = a.last();
        assert(a.to_multiset().count(s) > 0) by {
            vstd::seq_lib::to_multiset_build(a.drop_last(), s);
            assert(a =~= a.drop_last().push(s));
        }
        vstd::seq_lib::to_multiset_contains(b, s);
        let k = choose|k: int| 0 <= k < b.len() && b[k] == s;
        let b2 = b.remove(k);
        vstd::seq_lib::to_multiset_remove(b, k);
        vstd::seq_lib::to_multiset_build(a.drop_last(), s);
        assert(a =~= a.drop_last().push(s));
        assert(a.drop_last().to_multiset() =~= b2.to_multiset());
        lemma_count_by_view(a.drop_last(), b2, x);
        lemma_count_remove(b, k, x);
    }
}

proof fn lemma_count_remove(b: Seq<String>, k: int, x: Seq<char>)
    requires
        0 <= k < b.len(),
    ensures
        count_view(b, x) == count_view(b.remove(k), x) + if b[k]@ == x { 1nat } else { 0 },
    decreases b.len(),
{
    if k == b.len() - 1 {
        assert(b.remove(k) =~= b.drop_last());
    } else {
        lemma_count_remove(b.drop_last(), k, x);
        assert(b.remove(k).drop_last() =~= b.drop_last().remove(k));
        assert(b.remove(k).last() == b.last());
    }
}

/// The sessions an entry may hold: a regular JSON file (`.json`, ASCII case ignored).
pub open spec fn entry_json(path: Seq<char>, is_file: bool) -> bool {
    is_file && has_extension(path, "json"@)
}

/// Lists the regular JSON files of a directory listing (paths and whether each is a
/// regular file) in a stable order.
pub fn json_files(entries: &[(String, bool)]) -> (r: Vec<String>)
    ensures
        sorted_strings(r@),
        strings_view(r@).to_multiset() == entries@.filter(|e: (String, bool)| entry_json(e.0@, e.1)).map_values(
            |e: (String, bool)| e.0@,
        ).to_multiset(),
{
    let mut found: Vec<String> = Vec::new();
    let ghost pred = |e: (String, bool)| entry_json(e.0@, e.1);
    let ghost name = |e: (String, bool)| e.0@;
    let mut i: usize = 0;
    proof {
        assert(entries@.subrange(0, 0).filter(pred) =~= Seq::<(String, bool)>::empty());
        assert(strings_view(found@) =~= entries@.subrange(0, 0).filter(pred).map_values(name));
    }
    while i < entries.len()
        invariant
            i <= entries@.len(),
            pred == (|e: (String, bool)| entry_json(e.0@, e.1)),
            name == (|e: (String, bool)| e.0@),
            strings_view(found@) == entries@.subrange(0, i as int).filter(pred).map_values(name),
        decreases entries@.len() - i,
    {
        proof {
            reveal_strlit("json");
            let s1 = entries@.subrange(0, i + 1);
            assert(s1.drop_last() =~= entries@.subrange(0, i as int));
            entries@.subrange(0, i as int).lemma_filter_push(entries@[i as int], pred);
            assert(s1 =~= entries@.subrange(0, i as int).push(entries@[i as int]));
        }
        let ghost before = found@;
        let (path, is_file) = &entries[i];
        if *is_file && has_extension_ignore_case(path.as_str(), "json") {
            found.push(path.clone());
            proof {
                assert(strings_view(found@) =~= strings_view(before).push(path@));
                let f0 = entries@.subrange(0, i as int).filter(pred);
                assert(entries@.subrange(0, i + 1).filter(pred) == f0.push(entries@[i as int]));
                assert(f0.push(entries@[i as int]).map_values(name) =~= f0.map_values(name).push(path@));
            }
        }
        i = i + 1;
    }
    proof {
        assert(entries@.subrange(0, entries@.len() as int) =~= entries@);
    }
    let ghost unsorted = found@;
    let r = sort_strings(found);
    proof {
        lemma_strings_view_multiset(r@, unsorted);
    }
    r
}

/// Whether a profile name names one file: it is not empty and is a single path component.
pub open spec fn valid_profile_name(name: Seq<char>) -> bool {
    name.len() > 0 && path_component_count(name) == 1
}

/// Tests a profile name before its file is read.
pub fn profile_name_is_valid(name: &str) -> (r: bool)
    ensures
        r == valid_profile_name(name@),
{
    name.unicode_len() > 0 && component_count_of(name) == 1
}

/// The file of a profile.
pub fn profile_path(name: &str) -> (r: String)
    ensures
        r@ == "prompts/profiles/"@ + name@ + ".md"@,
{
    let mut out = String::from_str("prompts/profiles/");
    out.append(name);
    out.append(".md");
    out
}

/// The name of the temporary file that a JSON file named `name` is first written to:
/// hidden, and distinct per process and attempt.
pub fn temporary_file_name(name: &str, process_id: u32, attempt: u32) -> (r: String)
    ensures
        r@ == "."@ + name@ + "."@ + decimal(process_id as nat) + "."@ + decimal(attempt as nat) + ".tmp"@,
{
    let mut out = String::from_str(".");
    out.append(name);
    out.append(".");
    push_decimal(&mut out, process_id as u128);
    out.append(".");
    push_decimal(&mut out, attempt as u128);
    out.append(".tmp");
    out
}

/// The file of a stored session.
pub fn session_path(id: &str) -> (r: String)
    ensures
        r@ == "sessions/"@ + id@ + ".json"@,
{
    let mut out = String::from_str("sessions/");
    out.append(id);
    out.append(".json");
    out
}

} // verus!
