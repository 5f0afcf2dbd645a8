//! Verdicts: the classified outcome of comparing one artifact.

use vstd::prelude::*;

verus! {

/// A pair of resolved paths: where the actual artifact lives and where
/// the expected baseline lives.
#[derive(Debug, Clone, PartialEq)]
pub struct Double {
    pub actual: String,
    pub expected: String,
}

/// The two resolved paths plus the diff artifacts a generator wrote.
#[derive(Debug, Clone, PartialEq)]
pub struct Tripple {
    pub actual: String,
    pub expected: String,
    pub diffs: Vec<String>,
}

/// The closed set of verdict kinds.
#[derive(Debug, Clone, PartialEq)]
pub enum ResultKind {
    Matched,
    ExpectedNotFound(Double),
    ActualNotFound(Double),
    Difference(Tripple),
    IoError(String),
}

/// One reported outcome: which test, which declared artifact, what happened.
#[derive(Debug, Clone, PartialEq)]
pub struct Verdict {
    pub test_name: String,
    pub file_name: String,
    pub kind: ResultKind,
}

/// The mathematical value of a `ResultKind`.
#[verifier::ext_equal]
pub enum KindView {
    Matched,
    ExpectedNotFound { actual: Seq<char>, expected: Seq<char> },
    ActualNotFound { actual: Seq<char>, expected: Seq<char> },
    Difference { actual: Seq<char>, expected: Seq<char>, diffs: Seq<Seq<char>> },
    IoError { message: Seq<char> },
}

/// The mathematical value of a `Verdict`.
#[verifier::ext_equal]
pub struct VerdictView {
    pub test_name: Seq<char>,
    pub file_name: Seq<char>,
    pub kind: KindView,
}

impl View for ResultKind {
    type V = KindView;

    open spec fn view(&self) -> KindView {
        match self {
            ResultKind::Matched => KindView::Matched,
            ResultKind::ExpectedNotFound(d) => KindView::ExpectedNotFound {
                actual: d.actual@,
                expected: d.expected@,
            },
            ResultKind::ActualNotFound(d) => KindView::ActualNotFound {
                actual: d.actual@,
                expected: d.expected@,
            },
            ResultKind::Difference(t) => KindView::Difference {
                actual: t.actual@,
                expected: t.expected@,
                diffs: t.diffs@.map_values(|p: String| p@),
            },
            ResultKind::IoError(m) => KindView::IoError { message: m@ },
        }
    }
}

impl View for Verdict {
    type V = VerdictView;

    open spec fn view(&self) -> VerdictView {
        VerdictView { test_name: self.test_name@, file_name: self.file_name@, kind: self.kind@ }
    }
}

impl Verdict {
    /// True when this verdict reports a clean comparison.
    pub fn is_ok(&self) -> (r: bool)
        ensures
            r == (self@.kind is Matched),
    {
        match &self.kind {
            ResultKind::Matched => true,
            _ => false,
        }
    }

    /// The verdict for an artifact whose actual and expected contents agree.
    pub fn ok(name: &str, file: &str) -> (r: Verdict)
        ensures
            r@ == (VerdictView { test_name: name@, file_name: file@, kind: KindView::Matched }),
    {
        Verdict { test_name: name.to_owned(), file_name: file.to_owned(), kind: ResultKind::Matched }
    }

    /// The verdict for an artifact that was produced but has no baseline yet.
    pub fn expected_not_found(name: &str, file: &str, actual: String, expected: String) -> (r:
        Verdict)
        ensures
            r@ == (VerdictView {
                test_name: name@,
                file_name: file@,
                kind: KindView::ExpectedNotFound { actual: actual@, expected: expected@ },
            }),
    {
        Verdict {
            test_name: name.to_owned(),
            file_name: file.to_owned(),
            kind: ResultKind::ExpectedNotFound(Double { actual, expected }),
        }
    }

    /// The verdict for a baseline whose actual artifact was never produced.
    pub fn actual_not_found(name: &str, file: &str, actual: String, expected: String) -> (r:
        Verdict)
        ensures
            r@ == (VerdictView {
                test_name: name@,
                file_name: file@,
                kind: KindView::ActualNotFound { actual: actual@, expected: expected@ },
            }),
    {
        Verdict {
            test_name: name.to_owned(),
            file_name: file.to_owned(),
            kind: ResultKind::ActualNotFound(Double { actual, expected }),
        }
    }

    /// The verdict for an artifact whose contents differ from its baseline,
    /// carrying the diff artifacts that were generated.
    pub fn difference(
        name: &str,
        file: &str,
        actual: String,
        expected: String,
        diffs: Vec<String>,
    ) -> (r: Verdict)
        ensures
            r@ == (VerdictView {
                test_name: name@,
                file_name: file@,
                kind: KindView::Difference {
                    actual: actual@,
                    expected: expected@,
                    diffs: diffs@.map_values(|p: String| p@),
                },
            }),
    {
        Verdict {
            test_name: name.to_owned(),
            file_name: file.to_owned(),
            kind: ResultKind::Difference(Tripple { actual, expected, diffs }),
        }
    }

    /// The verdict for a filesystem operation that failed while comparing.
    pub fn io_error(name: &str, file: &str, message: String) -> (r: Verdict)
        ensures
            r@ == (VerdictView {
                test_name: name@,
                file_name: file@,
                kind: KindView::IoError { message: message@ },
            }),
    {
        Verdict {
            test_name: name.to_owned(),
            file_name: file.to_owned(),
            kind: ResultKind::IoError(message),
        }
    }
}

} // verus!
