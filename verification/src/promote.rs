//! The promotion engine: rewrites the expected baseline to match the
//! actual output, one verdict at a time.

use vstd::prelude::*;
use crate::filesystem::{
    FakeFileSystem, FileSystem, FsError, FsStore, store_del, store_get, store_has, store_put,
};
use crate::paths::join_view;
use crate::results::ResultKind;
use vstd::string::StringExecFns;

verus! {

/// What one promoted copy leaves behind: on a present source, the
/// baseline now holds the actual contents and the action reports it;
/// on an absent source, a failure and an untouched store.
pub open spec fn promote_copy_post(
    s0: Seq<(Seq<char>, Seq<u8>)>,
    s1: Seq<(Seq<char>, Seq<u8>)>,
    root: Seq<char>,
    actual: Seq<char>,
    expected: Seq<char>,
    r: Result<String, FsError>,
) -> bool {
    &&& store_has(s0, join_view(root, actual)) ==> r is Ok && r->Ok_0@ == "moved "@ + actual
        + " -> "@ + expected && s1 == store_put(
        s0,
        join_view(root, expected),
        store_get(s0, join_view(root, actual)),
    )
    &&& !store_has(s0, join_view(root, actual)) ==> r is Err && s1 == s0
}

/// Maps a verdict's kind to its action against the store: clean and
/// failed comparisons need nothing, a missing baseline or a difference
/// copies actual over expected, a stale baseline is removed. The
/// description says what was done; a copy from a missing source is the
/// one failure.
pub fn promote(result: &ResultKind, filesystem: FakeFileSystem, store: &mut FsStore) -> (r:
    Result<String, FsError>)
    requires
        old(store).wf(),
    ensures
        final(store).wf(),
        result@ is Matched || result@ is IoError ==> r is Ok && r->Ok_0@ == "Nothing to do"@
            && final(store)@ == old(store)@,
        result@ is ExpectedNotFound ==> promote_copy_post(
            old(store)@,
            final(store)@,
            filesystem.root_view(),
            result@->ExpectedNotFound_actual,
            result@->ExpectedNotFound_expected,
            r,
        ),
        result@ is Difference ==> promote_copy_post(
            old(store)@,
            final(store)@,
            filesystem.root_view(),
            result@->Difference_actual,
            result@->Difference_expected,
            r,
        ),
        result@ is ActualNotFound ==> r is Ok && r->Ok_0@ == "removed "@
            + result@->ActualNotFound_expected && final(store)@ == store_del(
            old(store)@,
            join_view(filesystem.root_view(), result@->ActualNotFound_expected),
        ),
{
    match result {
        ResultKind::IoError(_) => Ok("Nothing to do".to_owned()),
        ResultKind::Matched => Ok("Nothing to do".to_owned()),
        ResultKind::ExpectedNotFound(double) => {
            match filesystem.copy(store, double.actual.as_str(), double.expected.as_str()) {
                Ok(()) => {
                    let mut m = "moved ".to_owned();
                    m.append(double.actual.as_str());
                    m.append(" -> ");
                    m.append(double.expected.as_str());
                    Ok(m)
                },
                Err(e) => Err(e),
            }
        },
        ResultKind::ActualNotFound(double) => {
            filesystem.remove(store, double.expected.as_str());
            let mut m = "removed ".to_owned();
            m.append(double.expected.as_str());
            Ok(m)
        },
        ResultKind::Difference(triple) => {
            match filesystem.copy(store, triple.actual.as_str(), triple.expected.as_str()) {
                Ok(()) => {
                    let mut m = "moved ".to_owned();
                    m.append(triple.actual.as_str());
                    m.append(" -> ");
                    m.append(triple.expected.as_str());
                    Ok(m)
                },
                Err(e) => Err(e),
            }
        },
    }
}

/// The disk action a verdict's kind calls for, for a rim that performs
/// promotion against a real tree: the same mapping `promote` applies to
/// the in-memory store.
#[derive(Debug, Clone, PartialEq)]
pub enum PromoteAction {
    Nothing,
    Copy { from: String, to: String },
    Remove { path: String },
}

pub fn promote_action(result: &ResultKind) -> (r: PromoteAction)
    ensures
        result@ is Matched || result@ is IoError ==> r is Nothing,
        result@ is ExpectedNotFound ==> r is Copy && r->Copy_from@ == result@->ExpectedNotFound_actual
            && r->Copy_to@ == result@->ExpectedNotFound_expected,
        result@ is Difference ==> r is Copy && r->Copy_from@ == result@->Difference_actual
            && r->Copy_to@ == result@->Difference_expected,
        result@ is ActualNotFound ==> r is Remove && r->Remove_path@
            == result@->ActualNotFound_expected,
{
    match result {
        ResultKind::Matched => PromoteAction::Nothing,
        ResultKind::IoError(_) => PromoteAction::Nothing,
        ResultKind::ExpectedNotFound(double) => PromoteAction::Copy {
            from: double.actual.clone(),
            to: double.expected.clone(),
        },
        ResultKind::ActualNotFound(double) => PromoteAction::Remove {
            path: double.expected.clone(),
        },
        ResultKind::Difference(triple) => PromoteAction::Copy {
            from: triple.actual.clone(),
            to: triple.expected.clone(),
        },
    }
}

} // verus!
