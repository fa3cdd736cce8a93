//! Classification of remote stack status strings.
//!
//! The remote system may introduce new status values at any time, so the
//! classes are decided by substring membership alone, never by a hard-coded
//! enumeration.

use vstd::prelude::*;
use crate::text::chars_of;

verus! {

/// The three classes a status string falls into. A status that names both
/// an in-progress and a rollback condition counts as in progress: the poll
/// loop must keep watching it until it settles.
#[derive(Debug, PartialEq, Eq, Structural, Clone, Copy)]
pub enum StatusClass {
    InProgress,
    FailedOrRolledBack,
    Stable,
}

/// Whether `needle` occurs contiguously somewhere in `hay`.
pub open spec fn contains_seq(hay: Seq<char>, needle: Seq<char>) -> bool {
    exists|i: int|
        0 <= i && i + needle.len() <= hay.len() && #[trigger] hay.subrange(i, i + needle.len())
            == needle
}

pub open spec fn in_progress_marker() -> Seq<char> {
    "IN_PROGRESS"@
}

pub open spec fn fail_marker() -> Seq<char> {
    "FAIL"@
}

pub open spec fn rollback_marker() -> Seq<char> {
    "ROLLBACK"@
}

/// The class of a status string: in progress while it contains
/// `IN_PROGRESS`; otherwise failed or rolled back when it contains `FAIL`
/// or `ROLLBACK`; stable otherwise.
pub open spec fn classify_spec(s: Seq<char>) -> StatusClass {
    if contains_seq(s, in_progress_marker()) {
        StatusClass::InProgress
    } else if contains_seq(s, fail_marker()) || contains_seq(s, rollback_marker()) {
        StatusClass::FailedOrRolledBack
    } else {
        StatusClass::Stable
    }
}

/// For every status string exactly one class applies, decided solely by
/// membership of the three marker substrings.
pub proof fn lemma_status_classes_partition(s: Seq<char>)
    ensures
        (classify_spec(s) == StatusClass::InProgress) <==> contains_seq(s, in_progress_marker()),
        (classify_spec(s) == StatusClass::FailedOrRolledBack) <==> (!contains_seq(
            s,
            in_progress_marker(),
        ) && (contains_seq(s, fail_marker()) || contains_seq(s, rollback_marker()))),
        (classify_spec(s) == StatusClass::Stable) <==> (!contains_seq(s, in_progress_marker())
            && !contains_seq(s, fail_marker()) && !contains_seq(s, rollback_marker())),
{
}

/// Whether `needle` stands in `hay` at position `i`.
fn matches_at(hay: &Vec<char>, needle: &Vec<char>, i: usize) -> (r: bool)
    requires
        i + needle@.len() <= hay@.len(),
    ensures
        r == (hay@.subrange(i as int, i + needle@.len()) == needle@),
{
    let hlen = hay.len();
    let mut j: usize = 0;
    while j < needle.len()
        invariant
            0 <= j <= needle@.len(),
            i + needle@.len() <= hay@.len(),
            hay@.len() == hlen,
            forall|m: int| 0 <= m < j ==> hay@[i + m] == needle@[m],
        decreases needle@.len() - j,
    {
        if hay[i + j] != needle[j] {
            assert(hay@.subrange(i as int, i + needle@.len())[j as int] != needle@[j as int]);
            return false;
        }
        j = j + 1;
    }
    assert(hay@.subrange(i as int, i + needle@.len()) =~= needle@);
    true
}

/// Whether `needle` occurs contiguously somewhere in `hay`.
fn contains_chars(hay: &Vec<char>, needle: &Vec<char>) -> (r: bool)
    ensures
        r == contains_seq(hay@, needle@),
{
    if needle.len() > hay.len() {
        assert(!contains_seq(hay@, needle@));
        return false;
    }
    if needle.len() == 0 {
        assert(contains_seq(hay@, needle@)) by {
            let z: int = 0;
            assert(hay@.subrange(z, z + needle@.len()) =~= needle@);
        }
        return true;
    }
    let hlen = hay.len();
    let last = hay.len() - needle.len();
    let mut i: usize = 0;
    while i <= last
        invariant
            0 <= i <= last + 1,
            last == hay@.len() - needle@.len(),
            needle@.len() >= 1,
            hay@.len() == hlen,
            forall|m: int|
                0 <= m < i ==> #[trigger] hay@.subrange(m, m + needle@.len()) != needle@,
        decreases last + 1 - i,
    {
        if matches_at(hay, needle, i) {
            assert(contains_seq(hay@, needle@)) by {
                assert(hay@.subrange(i as int, i + needle@.len()) == needle@);
            }
            return true;
        }
        i = i + 1;
    }
    assert(!contains_seq(hay@, needle@));
    false
}

/// Classify one status string by its marker substrings.
pub fn classify(status: &str) -> (r: StatusClass)
    ensures
        r == classify_spec(status@),
{
    let hay = chars_of(status);
    let in_progress = chars_of("IN_PROGRESS");
    if contains_chars(&hay, &in_progress) {
        return StatusClass::InProgress;
    }
    let fail = chars_of("FAIL");
    let rollback = chars_of("ROLLBACK");
    if contains_chars(&hay, &fail) || contains_chars(&hay, &rollback) {
        return StatusClass::FailedOrRolledBack;
    }
    StatusClass::Stable
}

} // verus!
