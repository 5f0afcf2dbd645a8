//! The two built-in comparison methods: byte equality with a byte-dump
//! diff artifact, and text equality with a line-diff artifact.

use vstd::prelude::*;
use vstd::string::StrSliceExecFns;
use vstd::string::StringExecFns;
use vstd::utf8::{valid_utf8, decode_utf8, encode_utf8};
use crate::filesystem::{FsError, FsStore, store_put};
use crate::paths::{
    add_extension, add_extension_view, file_name_view, join_view, path_file_name,
};
use crate::provider::{ComparisonView, DiffMethod, Provider, Registry, WriteRequester, Writer};

verus! {

/// One fragment of a computed line diff.
#[derive(Debug, Clone, PartialEq)]
pub enum LineEdit {
    /// A line that only the actual text holds.
    Left(String),
    /// A line both texts hold.
    Both(String, String),
    /// A line that only the expected text holds.
    Right(String),
}

/// The mathematical value of a `LineEdit`.
pub enum LineEditView {
    Left(Seq<char>),
    Both(Seq<char>, Seq<char>),
    Right(Seq<char>),
}

impl View for LineEdit {
    type V = LineEditView;

    open spec fn view(&self) -> LineEditView {
        match self {
            LineEdit::Left(l) => LineEditView::Left(l@),
            LineEdit::Both(l, r) => LineEditView::Both(l@, r@),
            LineEdit::Right(r) => LineEditView::Right(r@),
        }
    }
}

/// The line diff of two texts, as the line-diff algorithm computes it:
/// a function of the two texts alone.
pub uninterp spec fn line_diff_of(a: Seq<char>, b: Seq<char>) -> Seq<LineEditView>;

/// Relies on diff::lines: an LCS line diff computed from the two
/// strings alone, deterministically.
#[verifier::external_body]
fn diff_lines(a: &str, b: &str) -> (r: Vec<LineEdit>)
    ensures
        r@.map_values(|e: LineEdit| e@) == line_diff_of(a@, b@),
{
    diff::lines(a, b)
        .into_iter()
        .map(|d| match d {
            diff::Result::Left(l) => LineEdit::Left(l.to_owned()),
            diff::Result::Both(l, r) => LineEdit::Both(l.to_owned(), r.to_owned()),
            diff::Result::Right(r) => LineEdit::Right(r.to_owned()),
        })
        .collect()
}

/// Relies on String::from_utf8: decodes exactly the valid UTF-8 byte
/// strings, to the character sequence the bytes encode.
#[verifier::external_body]
fn bytes_to_string(b: &Vec<u8>) -> (r: Option<String>)
    ensures
        r is Some <==> valid_utf8(b@),
        r is Some ==> r->0@ == decode_utf8(b@),
{
    String::from_utf8(b.clone()).ok()
}

/// True when the two byte strings are equal: the equality predicate of
/// both built-in comparison methods.
pub fn byte_for_byte_equality(a: &Vec<u8>, b: &Vec<u8>) -> (r: bool)
    ensures
        r == (a@ == b@),
{
    if a.len() != b.len() {
        return false;
    }
    let n = a.len();
    let mut i: usize = 0;
    while i < n
        invariant
            n == a@.len(),
            n == b@.len(),
            0 <= i <= n,
            forall|j: int| 0 <= j < i ==> a@[j] == b@[j],
        decreases n - i,
    {
        if a[i] != b[i] {
            return false;
        }
        i = i + 1;
    }
    proof {
        assert(a@ =~= b@);
    }
    true
}

/// True when the two texts are equal byte for byte: the text method
/// compares contents, not renderings.
pub fn text_eq(a: &Vec<u8>, b: &Vec<u8>) -> (r: bool)
    ensures
        r == (a@ == b@),
{
    byte_for_byte_equality(a, b)
}

/// The characters of one decimal digit.
pub open spec fn digit_chars(d: u8) -> Seq<char> {
    if d == 0 {
        "0"@
    } else if d == 1 {
        "1"@
    } else if d == 2 {
        "2"@
    } else if d == 3 {
        "3"@
    } else if d == 4 {
        "4"@
    } else if d == 5 {
        "5"@
    } else if d == 6 {
        "6"@
    } else if d == 7 {
        "7"@
    } else if d == 8 {
        "8"@
    } else {
        "9"@
    }
}

/// The decimal rendering of one byte.
pub open spec fn dec_u8_chars(v: u8) -> Seq<char> {
    if v < 10 {
        digit_chars(v)
    } else if v < 100 {
        digit_chars((v / 10) as u8) + digit_chars((v % 10) as u8)
    } else {
        digit_chars((v / 100) as u8) + digit_chars(((v / 10) % 10) as u8) + digit_chars(
            (v % 10) as u8,
        )
    }
}

/// The renderings of the bytes after the first, each preceded by the
/// list separator.
pub open spec fn byte_items_rest(bs: Seq<u8>) -> Seq<char>
    decreases bs.len(),
{
    if bs.len() == 0 {
        Seq::<char>::empty()
    } else {
        ", "@ + dec_u8_chars(bs[0]) + byte_items_rest(bs.drop_first())
    }
}

/// The rendering of a byte string as a bracketed decimal list.
pub open spec fn debug_bytes_chars(bs: Seq<u8>) -> Seq<char> {
    if bs.len() == 0 {
        "["@ + "]"@
    } else {
        "["@ + dec_u8_chars(bs[0]) + byte_items_rest(bs.drop_first()) + "]"@
    }
}

/// What the byte method writes as its diff artifact: both byte strings,
/// labelled, one per line.
pub open spec fn byte_diff_chars(a: Seq<u8>, e: Seq<u8>) -> Seq<char> {
    "actual: \n"@ + debug_bytes_chars(a) + "\n"@ + "expected: \n"@ + debug_bytes_chars(e) + "\n"@
}

/// The declared path of the byte method's diff artifact: the file name
/// with `.diff` appended.
pub open spec fn byte_diff_rel(path: Seq<char>) -> Seq<char> {
    file_name_view(path) + ".diff"@
}

fn digit_str(d: u8) -> (r: &'static str)
    requires
        d < 10,
    ensures
        r@ == digit_chars(d),
{
    if d == 0 {
        "0"
    } else if d == 1 {
        "1"
    } else if d == 2 {
        "2"
    } else if d == 3 {
        "3"
    } else if d == 4 {
        "4"
    } else if d == 5 {
        "5"
    } else if d == 6 {
        "6"
    } else if d == 7 {
        "7"
    } else if d == 8 {
        "8"
    } else {
        "9"
    }
}

fn append_dec_u8(s: &mut String, v: u8)
    ensures
        final(s)@ == old(s)@ + dec_u8_chars(v),
{
    if v < 10 {
        s.append(digit_str(v));
    } else if v < 100 {
        s.append(digit_str(v / 10));
        s.append(digit_str(v % 10));
    } else {
        s.append(digit_str(v / 100));
        s.append(digit_str((v / 10) % 10));
        s.append(digit_str(v % 10));
    }
}

proof fn lemma_byte_items_rest_push(bs: Seq<u8>, v: u8)
    ensures
        byte_items_rest(bs.push(v)) == byte_items_rest(bs) + ", "@ + dec_u8_chars(v),
    decreases bs.len(),
{
    if bs.len() == 0 {
        assert(bs.push(v).drop_first() =~= Seq::<u8>::empty());
        assert(byte_items_rest(Seq::<u8>::empty()) =~= Seq::<char>::empty());
        assert(byte_items_rest(bs.push(v)) =~= byte_items_rest(bs) + ", "@ + dec_u8_chars(v));
    } else {
        lemma_byte_items_rest_push(bs.drop_first(), v);
        assert(bs.push(v).drop_first() =~= bs.drop_first().push(v));
        assert(byte_items_rest(bs.push(v)) =~= byte_items_rest(bs) + ", "@ + dec_u8_chars(v));
    }
}

fn append_debug_bytes(s: &mut String, bs: &Vec<u8>)
    ensures
        final(s)@ == old(s)@ + debug_bytes_chars(bs@),
{
    s.append("[");
    if bs.len() > 0 {
        append_dec_u8(s, bs[0]);
        let n = bs.len();
        let mut i: usize = 1;
        while i < n
            invariant
                n == bs@.len(),
                1 <= i <= n,
                s@ == old(s)@ + "["@ + dec_u8_chars(bs@[0]) + byte_items_rest(
                    bs@.subrange(1, i as int),
                ),
            decreases n - i,
        {
            s.append(", ");
            append_dec_u8(s, bs[i]);
            proof {
                lemma_byte_items_rest_push(bs@.subrange(1, i as int), bs@[i as int]);
                assert(bs@.subrange(1, i + 1) =~= bs@.subrange(1, i as int).push(bs@[i as int]));
                assert(s@ =~= old(s)@ + "["@ + dec_u8_chars(bs@[0]) + byte_items_rest(
                    bs@.subrange(1, i + 1),
                ));
            }
            i = i + 1;
        }
        proof {
            assert(bs@.subrange(1, n as int) =~= bs@.drop_first());
        }
        s.append("]");
        proof {
            assert(s@ =~= old(s)@ + debug_bytes_chars(bs@));
        }
    } else {
        s.append("]");
        proof {
            assert(s@ =~= old(s)@ + debug_bytes_chars(bs@));
        }
    }
}

/// Generates the byte method's diff artifact: writes one file beside
/// the comparison, named after its file name, holding both byte strings.
pub fn byte_for_byte_diff(
    a: &Vec<u8>,
    e: &Vec<u8>,
    name: &str,
    w: &mut WriteRequester,
    store: &mut FsStore,
)
    requires
        old(store).wf(),
    ensures
        final(w).files_view() == old(w).files_view() + seq![
            join_view(old(w).root_view(), byte_diff_rel(name@)),
        ],
        final(w).root_view() == old(w).root_view(),
        final(store)@ == store_put(
            old(store)@,
            join_view(old(w).root_view(), byte_diff_rel(name@)),
            encode_utf8(byte_diff_chars(a@, e@)),
        ),
        final(store).wf(),
{
    let mut rel = path_file_name(name);
    rel.append(".diff");
    let mut content = String::new();
    content.append("actual: \n");
    append_debug_bytes(&mut content, a);
    content.append("\n");
    content.append("expected: \n");
    append_debug_bytes(&mut content, e);
    content.append("\n");
    proof {
        assert(content@ =~= byte_diff_chars(a@, e@));
    }
    let bytes = content.as_str().as_bytes_vec();
    w.request(store, rel.as_str(), bytes);
}

/// The rendering of one line-diff fragment: a marker, the line, a newline.
pub open spec fn render_edit(e: LineEditView) -> Seq<char> {
    match e {
        LineEditView::Left(l) => "+"@ + l + "\n"@,
        LineEditView::Both(l, _r) => " "@ + l + "\n"@,
        LineEditView::Right(r) => "-"@ + r + "\n"@,
    }
}

/// The rendering of a whole line diff, fragment by fragment.
pub open spec fn render_edits(es: Seq<LineEditView>) -> Seq<char>
    decreases es.len(),
{
    if es.len() == 0 {
        Seq::<char>::empty()
    } else {
        render_edit(es[0]) + render_edits(es.drop_first())
    }
}

proof fn lemma_render_edits_push(es: Seq<LineEditView>, e: LineEditView)
    ensures
        render_edits(es.push(e)) == render_edits(es) + render_edit(e),
    decreases es.len(),
{
    if es.len() == 0 {
        assert(es.push(e).drop_first() =~= Seq::<LineEditView>::empty());
        assert(render_edits(Seq::<LineEditView>::empty()) =~= Seq::<char>::empty());
        assert(render_edits(es.push(e)) =~= render_edits(es) + render_edit(e));
    } else {
        lemma_render_edits_push(es.drop_first(), e);
        assert(es.push(e).drop_first() =~= es.drop_first().push(e));
        assert(render_edits(es.push(e)) =~= render_edits(es) + render_edit(e));
    }
}

/// Renders a computed line diff as the text of a diff artifact; this is
/// where every value the line-diff algorithm may return is handled.
pub fn render_line_diff(edits: &Vec<LineEdit>) -> (r: String)
    ensures
        r@ == render_edits(edits@.map_values(|e: LineEdit| e@)),
{
    let ghost evs = edits@.map_values(|e: LineEdit| e@);
    let mut out = String::new();
    let n = edits.len();
    let mut i: usize = 0;
    while i < n
        invariant
            n == edits@.len(),
            evs == edits@.map_values(|e: LineEdit| e@),
            0 <= i <= n,
            out@ == render_edits(evs.subrange(0, i as int)),
        decreases n - i,
    {
        match &edits[i] {
            LineEdit::Left(l) => {
                out.append("+");
                out.append(l.as_str());
                out.append("\n");
            },
            LineEdit::Both(l, _r) => {
                out.append(" ");
                out.append(l.as_str());
                out.append("\n");
            },
            LineEdit::Right(r) => {
                out.append("-");
                out.append(r.as_str());
                out.append("\n");
            },
        }
        proof {
            lemma_render_edits_push(evs.subrange(0, i as int), evs[i as int]);
            assert(evs.subrange(0, i + 1) =~= evs.subrange(0, i as int).push(evs[i as int]));
            assert(out@ =~= render_edits(evs.subrange(0, i + 1)));
        }
        i = i + 1;
    }
    proof {
        assert(evs.subrange(0, n as int) =~= evs);
    }
    out
}

/// What the text method writes as its diff artifact, as a function of
/// the two byte strings it compared.
pub open spec fn text_diff_chars(a: Seq<u8>, e: Seq<u8>) -> Seq<char> {
    render_edits(line_diff_of(decode_utf8(a), decode_utf8(e)))
}

/// The message of the verdict reported when a compared artifact is not
/// valid text.
pub fn utf8_error_message() -> (r: String)
    ensures
        r@ == "artifact is not valid utf-8 text"@,
{
    "artifact is not valid utf-8 text".to_owned()
}

/// Generates the text method's diff artifact: a line diff of the two
/// decoded texts, written beside the comparison under the declared path
/// with `.diff` appended. Fails, writing and recording nothing, if and
/// only if either byte string is not valid text.
pub fn text_diff(
    a: &Vec<u8>,
    e: &Vec<u8>,
    path: &str,
    w: &mut WriteRequester,
    store: &mut FsStore,
) -> (r: Result<(), FsError>)
    requires
        old(store).wf(),
    ensures
        valid_utf8(a@) && valid_utf8(e@) ==> r is Ok && final(w).files_view() == old(
            w,
        ).files_view() + seq![
            join_view(old(w).root_view(), add_extension_view(path@, ".diff"@)),
        ] && final(store)@ == store_put(
            old(store)@,
            join_view(old(w).root_view(), add_extension_view(path@, ".diff"@)),
            encode_utf8(text_diff_chars(a@, e@)),
        ),
        !(valid_utf8(a@) && valid_utf8(e@)) ==> r is Err && r->Err_0.message@
            == "artifact is not valid utf-8 text"@ && *final(w) == *old(w) && *final(store)
            == *old(store),
        final(w).root_view() == old(w).root_view(),
        final(store).wf(),
{
    let sa = match bytes_to_string(a) {
        Some(s) => s,
        None => {
            return Err(FsError { message: utf8_error_message() });
        },
    };
    let se = match bytes_to_string(e) {
        Some(s) => s,
        None => {
            return Err(FsError { message: utf8_error_message() });
        },
    };
    let edits = diff_lines(sa.as_str(), se.as_str());
    let rendered = render_line_diff(&edits);
    let rel = add_extension(path, ".diff");
    let bytes = rendered.as_str().as_bytes_vec();
    w.request(store, rel.as_str(), bytes);
    Ok(())
}

/// Registration sugar for text artifacts, as the provider offers it.
pub trait TextDiffExtension: Sized {
    /// The declared-path prefix this handle registers under.
    spec fn text_offset(&self) -> Seq<char>;

    /// The store root this handle's produced artifacts land under.
    spec fn text_root(&self) -> Seq<char>;

    /// Registers `filename` under the text method and hands back its
    /// deferred writer.
    fn text_writer(&self, registry: &mut Registry, filename: &str) -> (w: Writer)
        ensures
            final(registry)@ == old(registry)@.push(
                ComparisonView {
                    path: join_view(self.text_offset(), filename@),
                    method: DiffMethod::Text,
                },
            ),
            w.root_view() == self.text_root(),
            w.path_view() == filename@,
            w.buffered() == Seq::<u8>::empty(),
    ;

    /// Registers `filename` under the text method and commits `text` as
    /// its produced contents in one step.
    fn text(&self, registry: &mut Registry, store: &mut FsStore, filename: &str, text: &str)
        requires
            old(store).wf(),
        ensures
            final(registry)@ == old(registry)@.push(
                ComparisonView {
                    path: join_view(self.text_offset(), filename@),
                    method: DiffMethod::Text,
                },
            ),
            final(store)@ == store_put(
                old(store)@,
                join_view(self.text_root(), filename@),
                encode_utf8(text@),
            ),
            final(store).wf(),
    ;
}

impl TextDiffExtension for Provider {
    open spec fn text_offset(&self) -> Seq<char> {
        self.offset_view()
    }

    open spec fn text_root(&self) -> Seq<char> {
        self.fs_root()
    }

    fn text_writer(&self, registry: &mut Registry, filename: &str) -> (w: Writer) {
        self.custom_test(registry, filename, DiffMethod::Text)
    }

    fn text(&self, registry: &mut Registry, store: &mut FsStore, filename: &str, text: &str) {
        let mut w = self.text_writer(registry, filename);
        w.write_str(text);
        w.finish(store);
    }
}

} // verus!
