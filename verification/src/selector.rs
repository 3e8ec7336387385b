//! Selection of the highest-version executable among directory entries.
//!
//! The surrounding binary lists the working directory and hands over, for
//! each entry, its filename, whether it is a regular file, and its POSIX
//! permission bits. The selector keeps the entries that are regular files,
//! carry at least one execute bit, and whose names parse as versions, and
//! picks the one with the highest version. Ties in version value between
//! distinct filenames are broken by scan order: the entry seen first wins,
//! and since directory iteration order is unspecified, which filename that
//! is may vary across filesystems.

use vstd::prelude::*;

use crate::version::Version;
use crate::version::parse_version;
use crate::version::parse_version_spec;
use crate::version::version_less;
use crate::version::version_lt;

verus! {

/// What the directory scan reports of one entry: its filename, whether it
/// is a regular file, and its POSIX permission bits.
pub struct EntryInfo {
    pub name: String,
    pub is_file: bool,
    pub mode: u32,
}

/// At least one of the owner, group or other execute bits is set.
pub open spec fn is_executable_mode(mode: u32) -> bool {
    mode & 0o111u32 != 0u32
}

/// A candidate entry: a regular file with an execute bit whose name
/// matches the version grammar.
pub open spec fn is_candidate(e: EntryInfo) -> bool {
    e.is_file && is_executable_mode(e.mode) && parse_version_spec(e.name@) is Some
}

/// The version a candidate's name parses to.
pub open spec fn entry_version(e: EntryInfo) -> Version {
    parse_version_spec(e.name@).unwrap()
}

/// The index of the selected entry: among the candidates, the first one
/// whose version no later candidate strictly exceeds. Nothing is selected
/// when no entry is a candidate.
pub open spec fn best_index(s: Seq<EntryInfo>) -> Option<int>
    decreases s.len(),
{
    if s.len() == 0 {
        None
    } else {
        let i = s.len() - 1;
        let prev = best_index(s.drop_last());
        if is_candidate(s[i as int]) {
            match prev {
                Some(j) => if version_lt(entry_version(s[j]), entry_version(s[i as int])) {
                    Some(i as int)
                } else {
                    Some(j)
                },
                None => Some(i as int),
            }
        } else {
            prev
        }
    }
}

/// The selected index is a candidate of maximal version, and the first
/// entry of that version in scan order; nothing is selected exactly when
/// no entry qualifies.
pub proof fn lemma_best_index_correct(s: Seq<EntryInfo>)
    ensures
        match best_index(s) {
            None => forall|i: int| 0 <= i < s.len() ==> !is_candidate(s[i]),
            Some(b) => 0 <= b < s.len() && is_candidate(s[b]) && (forall|i: int|
                0 <= i < s.len() && is_candidate(s[i]) ==> !version_lt(
                    entry_version(s[b]),
                    entry_version(s[i]),
                )) && (forall|i: int|
                0 <= i < b && is_candidate(s[i]) ==> version_lt(
                    entry_version(s[i]),
                    entry_version(s[b]),
                )),
        },
    decreases s.len(),
{
    if s.len() > 0 {
        let prefix = s.drop_last();
        lemma_best_index_correct(prefix);
        assert(forall|j: int| 0 <= j < prefix.len() ==> prefix[j] == s[j]);
    }
}

/// With exactly one candidate present, the selector picks it, whatever
/// else the directory holds.
pub proof fn lemma_single_candidate(s: Seq<EntryInfo>, k: int)
    requires
        0 <= k < s.len(),
        is_candidate(s[k]),
        forall|i: int| 0 <= i < s.len() && i != k ==> !is_candidate(s[i]),
    ensures
        best_index(s) == Some(k),
    decreases s.len(),
{
    let prefix = s.drop_last();
    assert(forall|j: int| 0 <= j < prefix.len() ==> prefix[j] == s[j]);
    if k == s.len() - 1 {
        lemma_best_index_correct(prefix);
    } else {
        lemma_single_candidate(prefix, k);
    }
}

/// With no candidate among the entries, nothing is selected, on every scan.
pub proof fn lemma_no_candidates_no_selection(s: Seq<EntryInfo>)
    requires
        forall|i: int| 0 <= i < s.len() ==> !is_candidate(s[i]),
    ensures
        best_index(s) is None,
{
    lemma_best_index_correct(s);
}

/// The selection is a function of the scanned entries alone: two scans
/// that report the same entries select the same index.
pub proof fn lemma_selection_deterministic(s1: Seq<EntryInfo>, s2: Seq<EntryInfo>)
    requires
        s1 == s2,
    ensures
        best_index(s1) == best_index(s2),
{
}

/// Returns the filename of the highest-version executable among the given
/// directory entries, or nothing when no entry is a regular executable
/// file named after a version.
pub fn select_candidate(entries: &Vec<EntryInfo>) -> (r: Option<String>)
    ensures
        r is Some <==> best_index(entries@) is Some,
        r is Some ==> r.unwrap()@ == entries@[best_index(entries@).unwrap()].name@,
{
    let ghost s = entries@;
    let mut best: Option<(usize, Version)> = None;
    let mut i: usize = 0;
    while i < entries.len()
        invariant
            0 <= i <= entries.len(),
            s == entries@,
            match best {
                Some((j, v)) => best_index(s.subrange(0, i as int)) == Some(j as int) && j < i
                    && v == entry_version(s[j as int]),
                None => best_index(s.subrange(0, i as int)) is None,
            },
        decreases entries.len() - i,
    {
        proof {
            assert(s.subrange(0, i + 1).drop_last() =~= s.subrange(0, i as int));
            assert(s.subrange(0, i + 1).last() == s[i as int]);
        }
        let e = &entries[i];
        if e.is_file && (e.mode & 0o111u32) != 0u32 {
            if let Some(v) = parse_version(e.name.as_str()) {
                assert(is_candidate(s[i as int]));
                match best {
                    Some((j, w)) => {
                        if version_less(&w, &v) {
                            best = Some((i, v));
                        }
                    },
                    None => {
                        best = Some((i, v));
                    },
                }
            } else {
                assert(!is_candidate(s[i as int]));
            }
        } else {
            assert(!is_candidate(s[i as int]));
        }
        i = i + 1;
    }
    proof {
        assert(s.subrange(0, entries@.len() as int) =~= s);
    }
    match best {
        Some((j, _)) => Some(entries[j].name.clone()),
        None => None,
    }
}

} // verus!
