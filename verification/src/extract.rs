//! Plain-text extraction for resume attachments.
//!
//! The raw bytes are kept on disk and a normalized plain-text copy is stored
//! next to the attachment record, so the chat prompt can use it without
//! re-parsing PDF/DOCX on every turn. Text files are decoded as UTF-8, then
//! GBK, then lossy UTF-8; DOCX text is assembled from the `w:t` runs of
//! `word/document.xml`; PDF text comes from `pdf-extract`.
use quick_xml::events::Event;
use std::io::Read;
use vstd::prelude::*;
use vstd::utf8::{decode_utf8, valid_utf8};

use crate::text::{
    chars_of, concat, ends_with, is_space, starts_with, string_of, string_of_range,
    trim_end, trim_end_index, utf8_chars_or_empty, utf8_or_empty, utf8_text,
};

verus! {

/// Attachment formats the extractor understands.
#[derive(Debug, Clone, Copy, PartialEq, Eq, Structural)]
pub enum AttachmentKind {
    Pdf,
    Docx,
    Text,
    Markdown,
}

/// Outcome of an extraction.
#[derive(Debug, Clone, Copy, PartialEq, Eq, Structural)]
pub enum ExtractStatus {
    /// All text was extracted (stored as "ok").
    Complete,
    Partial,
    Failed,
}

/// Extracted text with its status and an optional explanation.
#[derive(Debug, Clone)]
pub struct ExtractOutcome {
    pub text: String,
    pub status: ExtractStatus,
    pub error: Option<String>,
}

/// Hard cap on stored text length so an enormous resume does not blow up the
/// stored row or the chat prompt.
pub const MAX_TEXT_CHARS: usize = 32000;

pub open spec fn opt_view(o: Option<String>) -> Option<Seq<char>> {
    match o {
        Some(s) => Some(s@),
        None => None,
    }
}

impl View for ExtractOutcome {
    type V = (Seq<char>, ExtractStatus, Option<Seq<char>>);

    open spec fn view(&self) -> Self::V {
        (self.text@, self.status, opt_view(self.error))
    }
}

pub open spec fn kind_label(kind: AttachmentKind) -> Seq<char> {
    match kind {
        AttachmentKind::Pdf => "PDF"@,
        AttachmentKind::Docx => "DOCX"@,
        AttachmentKind::Text => "TXT"@,
        AttachmentKind::Markdown => "Markdown"@,
    }
}

pub open spec fn status_str(status: ExtractStatus) -> Seq<char> {
    match status {
        ExtractStatus::Complete => "ok"@,
        ExtractStatus::Partial => "partial"@,
        ExtractStatus::Failed => "failed"@,
    }
}

pub open spec fn has_suffix(s: Seq<char>, p: Seq<char>) -> bool {
    p.len() <= s.len() && s.subrange(s.len() - p.len(), s.len() as int) == p
}

pub open spec fn has_prefix(s: Seq<char>, p: Seq<char>) -> bool {
    p.len() <= s.len() && s.subrange(0, p.len() as int) == p
}

/// Kind detection from an already lower-cased file name and a MIME type.
pub open spec fn detect_kind(lower: Seq<char>, mime: Seq<char>) -> Option<AttachmentKind> {
    if has_suffix(lower, ".pdf"@) || mime == "application/pdf"@ {
        Some(AttachmentKind::Pdf)
    } else if has_suffix(lower, ".docx"@) || mime
        == "application/vnd.openxmlformats-officedocument.wordprocessingml.document"@ {
        Some(AttachmentKind::Docx)
    } else if has_suffix(lower, ".md"@) || has_suffix(lower, ".markdown"@) || mime
        == "text/markdown"@ {
        Some(AttachmentKind::Markdown)
    } else if has_suffix(lower, ".txt"@) || has_prefix(mime, "text/"@) {
        Some(AttachmentKind::Text)
    } else {
        None
    }
}

/// What `str::to_lowercase` returns for a string (Unicode lower-casing).
pub uninterp spec fn lowercase(s: Seq<char>) -> Seq<char>;

/// `str::to_lowercase`: the Unicode lowercase mapping of the whole string.
/// Its result is named, not spelled out: the mapping is Unicode's.
#[verifier::external_body]
fn to_lowercase(s: &str) -> (r: String)
    ensures
        r@ == lowercase(s@),
{
    s.to_lowercase()
}

fn ends_with_str(s: &[char], p: &str) -> (r: bool)
    ensures
        r == has_suffix(s@, p@),
{
    let pv = chars_of(p);
    ends_with(s, pv.as_slice())
}

fn eq_str(s: &[char], p: &str) -> (r: bool)
    ensures
        r == (s@ == p@),
{
    let pv = chars_of(p);
    crate::text::chars_eq(s, pv.as_slice())
}

impl AttachmentKind {
    /// Short human-readable label of the format.
    pub fn label(&self) -> (s: &'static str)
        ensures
            s@ == kind_label(*self),
    {
        match self {
            AttachmentKind::Pdf => "PDF",
            AttachmentKind::Docx => "DOCX",
            AttachmentKind::Text => "TXT",
            AttachmentKind::Markdown => "Markdown",
        }
    }

    /// Detects the format from the file name (case-insensitively) and the
    /// MIME type the client sent; `None` for anything unsupported.
    pub fn detect(filename: &str, mime: &str) -> (r: Option<Self>)
        ensures
            r == detect_kind(lowercase(filename@), mime@),
    {
        let lower = to_lowercase(filename);
        Self::detect_in_lowercase(lower.as_str(), mime)
    }

    /// Format detection once the file name has been lower-cased.
    pub fn detect_in_lowercase(lower: &str, mime: &str) -> (r: Option<Self>)
        ensures
            r == detect_kind(lower@, mime@),
    {
        let l = chars_of(lower);
        let m = chars_of(mime);
        let name = l.as_slice();
        let mt = m.as_slice();
        if ends_with_str(name, ".pdf") || eq_str(mt, "application/pdf") {
            return Some(AttachmentKind::Pdf);
        }
        if ends_with_str(name, ".docx") || eq_str(
            mt,
            "application/vnd.openxmlformats-officedocument.wordprocessingml.document",
        ) {
            return Some(AttachmentKind::Docx);
        }
        if ends_with_str(name, ".md") || ends_with_str(name, ".markdown") || eq_str(
            mt,
            "text/markdown",
        ) {
            return Some(AttachmentKind::Markdown);
        }
        let text_prefix = chars_of("text/");
        if ends_with_str(name, ".txt") || starts_with(mt, text_prefix.as_slice()) {
            return Some(AttachmentKind::Text);
        }
        None
    }
}

impl ExtractStatus {
    /// The status as stored in the attachment record.
    pub fn as_str(&self) -> (s: &'static str)
        ensures
            s@ == status_str(*self),
    {
        match self {
            ExtractStatus::Complete => "ok",
            ExtractStatus::Partial => "partial",
            ExtractStatus::Failed => "failed",
        }
    }
}

// ---------------------------------------------------------------------------
// Line normalization and capping
// ---------------------------------------------------------------------------
/// The pieces of `s` between `'\n'` characters (always at least one).
pub open spec fn pieces(s: Seq<char>) -> Seq<Seq<char>>
    decreases s.len(),
{
    if s.len() == 0 {
        seq![Seq::empty()]
    } else {
        let p = pieces(s.drop_last());
        if s.last() == '\n' {
            p.push(Seq::empty())
        } else {
            p.update(p.len() - 1, p.last().push(s.last()))
        }
    }
}

/// The lines of `s`, as `str::lines` yields them up to line terminators:
/// the pieces between `'\n'`, where a final empty piece (empty text, or
/// text ending in `'\n'`) is not a line. A `'\r'` before `'\n'` stays in
/// its piece here; every use below drops trailing whitespace, `'\r'` with it.
pub open spec fn lines_of(s: Seq<char>) -> Seq<Seq<char>> {
    let p = pieces(s);
    if p.last().len() == 0 {
        p.drop_last()
    } else {
        p
    }
}

/// One step of blank-line collapsing: `(text so far, last line was blank)`.
pub open spec fn normalize_step(acc: (Seq<char>, bool), line: Seq<char>) -> (Seq<char>, bool) {
    let t = trim_end(line);
    if t.len() == 0 {
        if !acc.1 && acc.0.len() > 0 {
            (acc.0.push('\n'), true)
        } else {
            acc
        }
    } else {
        (acc.0 + t.push('\n'), false)
    }
}

pub open spec fn normalize_lines(lines: Seq<Seq<char>>) -> (Seq<char>, bool)
    decreases lines.len(),
{
    if lines.len() == 0 {
        (Seq::empty(), false)
    } else {
        normalize_step(normalize_lines(lines.drop_last()), lines.last())
    }
}

/// Trailing whitespace dropped from every line, runs of blank lines
/// collapsed into one empty line, leading blank lines and trailing
/// whitespace of the whole text dropped.
pub open spec fn normalized(text: Seq<char>) -> Seq<char> {
    trim_end(normalize_lines(lines_of(text)).0)
}

pub proof fn lemma_pieces_nonempty(s: Seq<char>)
    ensures
        pieces(s).len() >= 1,
    decreases s.len(),
{
    if s.len() > 0 {
        lemma_pieces_nonempty(s.drop_last());
    }
}

/// No three `'\n'` in a row: never more than one blank line in a row.
pub open spec fn no_blank_run(s: Seq<char>) -> bool {
    forall|i: int|
        0 <= i && i + 2 < s.len() ==> !(#[trigger] s[i] == '\n' && s[i + 1] == '\n' && s[i + 2]
            == '\n')
}

/// No line ends in whitespace: what precedes a `'\n'` is another `'\n'` or
/// a character that is not whitespace.
pub open spec fn lines_trimmed(s: Seq<char>) -> bool {
    forall|i: int| 0 < i < s.len() && #[trigger] s[i] == '\n' ==> s[i - 1] == '\n' || !is_space(s[i - 1])
}

pub open spec fn no_newline(t: Seq<char>) -> bool {
    forall|j: int| 0 <= j < t.len() ==> #[trigger] t[j] != '\n'
}

/// `trim_end(s)` is a prefix of `s`, empty or ending in a non-space.
proof fn lemma_trim_end_prefix(s: Seq<char>)
    ensures
        trim_end(s).len() <= s.len(),
        trim_end(s) == s.take(trim_end(s).len() as int),
        trim_end(s).len() > 0 ==> !is_space(trim_end(s).last()),
    decreases s.len(),
{
    if s.len() > 0 && is_space(s.last()) {
        lemma_trim_end_prefix(s.drop_last());
        assert(s.drop_last().take(trim_end(s).len() as int) =~= s.take(trim_end(s).len() as int));
    } else {
        assert(s.take(s.len() as int) =~= s);
    }
}

proof fn lemma_pieces_no_newline(s: Seq<char>)
    ensures
        forall|k: int| 0 <= k < pieces(s).len() ==> no_newline(#[trigger] pieces(s)[k]),
    decreases s.len(),
{
    lemma_pieces_nonempty(s);
    if s.len() > 0 {
        let p = pieces(s.drop_last());
        lemma_pieces_no_newline(s.drop_last());
        lemma_pieces_nonempty(s.drop_last());
        if s.last() == '\n' {
            assert forall|k: int| 0 <= k < pieces(s).len() implies no_newline(#[trigger] pieces(s)[k]) by {
                if k < p.len() {
                    assert(pieces(s)[k] == p[k]);
                } else {
                    assert(pieces(s)[k] == Seq::<char>::empty());
                }
            }
        } else {
            let last = p.last().push(s.last());
            assert(no_newline(p[p.len() - 1]));
            assert(no_newline(last));
            assert forall|k: int| 0 <= k < pieces(s).len() implies no_newline(#[trigger] pieces(s)[k]) by {
                if k < p.len() - 1 {
                    assert(pieces(s)[k] == p[k]);
                } else {
                    assert(pieces(s)[k] == last);
                }
            }
        }
    }
}

spec fn collapse_inv(acc: (Seq<char>, bool)) -> bool {
    let s = acc.0;
    &&& no_blank_run(s)
    &&& lines_trimmed(s)
    &&& (s.len() > 0 ==> s[0] != '\n' && s.last() == '\n')
    &&& (acc.1 ==> s.len() >= 2 && s[s.len() - 2] == '\n')
    &&& (!acc.1 && s.len() >= 2 ==> s[s.len() - 2] != '\n')
}

proof fn lemma_collapse_step(acc: (Seq<char>, bool), line: Seq<char>)
    requires
        collapse_inv(acc),
        no_newline(line),
    ensures
        collapse_inv(normalize_step(acc, line)),
{
    let s = acc.0;
    let n = s.len() as int;
    let t = trim_end(line);
    lemma_trim_end_prefix(line);
    assert(no_newline(t)) by {
        assert forall|j: int| 0 <= j < t.len() implies #[trigger] t[j] != '\n' by {
            assert(t[j] == line[j]);
        }
    }
    if t.len() == 0 {
        if !acc.1 && n > 0 {
            let r = s.push('\n');
            assert(n >= 2) by {
                if n == 1 {
                    assert(s[0] == s.last());
                }
            }
            assert(no_blank_run(r)) by {
                assert forall|i: int| 0 <= i && i + 2 < r.len() implies !(#[trigger] r[i] == '\n'
                    && r[i + 1] == '\n' && r[i + 2] == '\n') by {
                    if i + 2 < n {
                        assert(r[i] == s[i] && r[i + 1] == s[i + 1] && r[i + 2] == s[i + 2]);
                    } else {
                        assert(r[i] == s[n - 2]);
                    }
                }
            }
            assert(lines_trimmed(r)) by {
                assert forall|i: int| 0 < i < r.len() && #[trigger] r[i] == '\n' implies r[i - 1] == '\n'
                    || !is_space(r[i - 1]) by {
                    if i < n {
                        assert(r[i] == s[i] && r[i - 1] == s[i - 1]);
                    } else {
                        assert(r[i - 1] == s.last());
                    }
                }
            }
            assert(r[0] == s[0]);
            assert(r[r.len() - 2] == s.last());
        }
    } else {
        let u = t.push('\n');
        let r = s + u;
        let m = t.len() as int;
        assert(r.len() == n + m + 1);
        assert forall|k: int| n <= k < n + m implies #[trigger] r[k] != '\n' by {
            assert(r[k] == t[k - n]);
        }
        assert(r[n + m] == '\n');
        assert(r[n + m - 1] == t.last());
        assert(no_blank_run(r)) by {
            assert forall|i: int| 0 <= i && i + 2 < r.len() implies !(#[trigger] r[i] == '\n'
                && r[i + 1] == '\n' && r[i + 2] == '\n') by {
                if i + 2 < n {
                    assert(r[i] == s[i] && r[i + 1] == s[i + 1] && r[i + 2] == s[i + 2]);
                } else if i + 2 < n + m {
                    assert(r[i + 2] != '\n');
                } else {
                    assert(r[i + 1] != '\n');
                }
            }
        }
        assert(lines_trimmed(r)) by {
            assert forall|i: int| 0 < i < r.len() && #[trigger] r[i] == '\n' implies r[i - 1] == '\n'
                || !is_space(r[i - 1]) by {
                if i < n {
                    assert(r[i] == s[i] && r[i - 1] == s[i - 1]);
                } else if i < n + m {
                    assert(r[i] != '\n');
                } else {
                    assert(i == n + m);
                }
            }
        }
        if n > 0 {
            assert(r[0] == s[0]);
        } else {
            assert(r[0] == t[0]);
        }
        assert(r[r.len() - 2] == t.last());
    }
}

proof fn lemma_collapse_inv(lines: Seq<Seq<char>>)
    requires
        forall|k: int| 0 <= k < lines.len() ==> no_newline(#[trigger] lines[k]),
    ensures
        collapse_inv(normalize_lines(lines)),
    decreases lines.len(),
{
    if lines.len() > 0 {
        let front = lines.drop_last();
        assert forall|k: int| 0 <= k < front.len() implies no_newline(#[trigger] front[k]) by {
            assert(front[k] == lines[k]);
        }
        lemma_collapse_inv(front);
        lemma_collapse_step(normalize_lines(front), lines.last());
    }
}

/// Normalized text never holds two blank lines in a row, no line of it ends
/// in whitespace, it does not start with a line break and does not end in
/// whitespace.
pub proof fn law_normalized_shape(text: Seq<char>)
    ensures
        no_blank_run(normalized(text)),
        lines_trimmed(normalized(text)),
        normalized(text).len() > 0 ==> normalized(text)[0] != '\n' && !is_space(
            normalized(text).last(),
        ),
{
    let p = pieces(text);
    lemma_pieces_no_newline(text);
    lemma_pieces_nonempty(text);
    let ls = lines_of(text);
    assert forall|k: int| 0 <= k < ls.len() implies no_newline(#[trigger] ls[k]) by {
        assert(ls[k] == p[k]);
    }
    lemma_collapse_inv(ls);
    let s = normalize_lines(ls).0;
    lemma_trim_end_prefix(s);
    let out = normalized(text);
    assert(out == s.take(out.len() as int));
    assert forall|i: int| 0 <= i < out.len() implies #[trigger] out[i] == s[i] by {}
    assert(no_blank_run(out)) by {
        assert forall|i: int| 0 <= i && i + 2 < out.len() implies !(#[trigger] out[i] == '\n'
            && out[i + 1] == '\n' && out[i + 2] == '\n') by {
            assert(out[i] == s[i] && out[i + 1] == s[i + 1] && out[i + 2] == s[i + 2]);
        }
    }
    assert(lines_trimmed(out)) by {
        assert forall|i: int| 0 < i < out.len() && #[trigger] out[i] == '\n' implies out[i - 1] == '\n'
            || !is_space(out[i - 1]) by {
            assert(out[i] == s[i] && out[i - 1] == s[i - 1]);
        }
    }
    if out.len() > 0 {
        assert(out[0] == s[0]);
    }
}

/// The non-empty lines among `ls`, in order.
pub open spec fn nonempty_lines(ls: Seq<Seq<char>>) -> Seq<Seq<char>>
    decreases ls.len(),
{
    if ls.len() == 0 {
        Seq::empty()
    } else if ls.last().len() > 0 {
        nonempty_lines(ls.drop_last()).push(ls.last())
    } else {
        nonempty_lines(ls.drop_last())
    }
}

pub open spec fn trim_ends(ls: Seq<Seq<char>>) -> Seq<Seq<char>> {
    ls.map_values(|l: Seq<char>| trim_end(l))
}

proof fn lemma_pieces_newline(s: Seq<char>)
    ensures
        pieces(s.push('\n')) == pieces(s).push(Seq::<char>::empty()),
{
    assert(s.push('\n').drop_last() =~= s);
}

/// Text without line breaks appended after a line break (or to nothing)
/// becomes the last piece.
proof fn lemma_pieces_append_line(a: Seq<char>, t: Seq<char>)
    requires
        a.len() == 0 || a.last() == '\n',
        no_newline(t),
    ensures
        pieces(a + t) == pieces(a).drop_last().push(t),
    decreases t.len(),
{
    lemma_pieces_nonempty(a);
    if t.len() == 0 {
        assert(a + t =~= a);
        if a.len() > 0 {
            lemma_pieces_newline(a.drop_last());
            assert(a.drop_last().push('\n') =~= a);
            assert(pieces(a) == pieces(a.drop_last()).push(Seq::<char>::empty()));
            assert(pieces(a).last() == Seq::<char>::empty());
        } else {
            assert(pieces(a) == seq![Seq::<char>::empty()]);
        }
        assert(pieces(a).drop_last().push(Seq::<char>::empty()) =~= pieces(a));
        assert(pieces(a + t) == pieces(a));
        assert(t =~= Seq::<char>::empty());
    } else {
        let u = t.drop_last();
        assert(no_newline(u)) by {
            assert forall|j: int| 0 <= j < u.len() implies #[trigger] u[j] != '\n' by {
                assert(u[j] == t[j]);
            }
        }
        lemma_pieces_append_line(a, u);
        assert((a + t).drop_last() =~= a + u);
        assert((a + t).last() == t.last());
        assert(t.last() != '\n') by {
            assert(t[t.len() - 1] != '\n');
        }
        assert(u.push(t.last()) =~= t);
        let p = pieces(a + u);
        assert(pieces(a + t) == p.update(p.len() - 1, p.last().push(t.last())));
        assert(p.last() == u);
        assert(p.update(p.len() - 1, p.last().push(t.last())) =~= pieces(a).drop_last().push(t));
    }
}

proof fn lemma_prefix_trimmed(s: Seq<char>, k: int)
    requires
        lines_trimmed(s),
        0 <= k <= s.len(),
    ensures
        lines_trimmed(s.take(k)),
{
    let p = s.take(k);
    assert forall|i: int| 0 < i < p.len() && #[trigger] p[i] == '\n' implies p[i - 1] == '\n' || !is_space(
        p[i - 1],
    ) by {
        assert(p[i] == s[i] && p[i - 1] == s[i - 1]);
    }
}

/// Dropping the trailing line breaks of text whose lines are trimmed keeps
/// its non-empty lines.
proof fn lemma_trim_end_keeps_lines(s: Seq<char>)
    requires
        lines_trimmed(s),
        s.len() == 0 || s.last() == '\n' || !is_space(s.last()),
    ensures
        nonempty_lines(pieces(trim_end(s))) == nonempty_lines(pieces(s)),
    decreases s.len(),
{
    if s.len() > 0 && is_space(s.last()) {
        let d = s.drop_last();
        lemma_pieces_newline(d);
        assert(d.push('\n') =~= s);
        lemma_pieces_nonempty(d);
        assert(pieces(s).drop_last() =~= pieces(d));
        lemma_prefix_trimmed(s, s.len() - 1);
        assert(s.take(s.len() - 1) =~= d);
        if d.len() > 0 {
            assert(s[s.len() - 1] == '\n');
            assert(d.last() == s[s.len() - 2]);
        }
        lemma_trim_end_keeps_lines(d);
    }
}

proof fn lemma_collapse_keeps_lines(lines: Seq<Seq<char>>)
    requires
        forall|k: int| 0 <= k < lines.len() ==> no_newline(#[trigger] lines[k]),
    ensures
        nonempty_lines(pieces(normalize_lines(lines).0)) == nonempty_lines(trim_ends(lines)),
    decreases lines.len(),
{
    lemma_collapse_inv(lines);
    if lines.len() == 0 {
        assert(pieces(Seq::<char>::empty()) == seq![Seq::<char>::empty()]);
        assert(seq![Seq::<char>::empty()].drop_last() =~= Seq::<Seq<char>>::empty());
        assert(trim_ends(lines) =~= Seq::<Seq<char>>::empty());
    } else {
        let front = lines.drop_last();
        assert forall|k: int| 0 <= k < front.len() implies no_newline(#[trigger] front[k]) by {
            assert(front[k] == lines[k]);
        }
        lemma_collapse_keeps_lines(front);
        lemma_collapse_inv(front);
        assert(trim_ends(lines).drop_last() =~= trim_ends(front));
        let acc = normalize_lines(front);
        let a = acc.0;
        let l = lines.last();
        let t = trim_end(l);
        assert(trim_ends(lines).last() == t);
        lemma_trim_end_prefix(l);
        assert(no_newline(l));
        assert(no_newline(t)) by {
            assert forall|j: int| 0 <= j < t.len() implies #[trigger] t[j] != '\n' by {
                assert(t[j] == l[j]);
            }
        }
        lemma_pieces_nonempty(a);
        assert(normalize_lines(lines) == normalize_step(acc, l));
        let tl = trim_ends(lines);
        assert(tl.drop_last() =~= trim_ends(front));
        if t.len() == 0 {
            assert(nonempty_lines(tl) == nonempty_lines(trim_ends(front)));
            if !acc.1 && a.len() > 0 {
                lemma_pieces_newline(a);
                let pn = pieces(a.push('\n'));
                assert(pn.drop_last() =~= pieces(a));
                assert(pn.last().len() == 0);
                assert(nonempty_lines(pn) == nonempty_lines(pieces(a)));
            }
        } else {
            assert(nonempty_lines(tl) == nonempty_lines(trim_ends(front)).push(t));
            lemma_pieces_append_line(a, t);
            lemma_pieces_newline(a + t);
            assert((a + t).push('\n') =~= a + t.push('\n'));
            let pa = pieces(a);
            assert(pa.last().len() == 0) by {
                if a.len() > 0 {
                    lemma_pieces_newline(a.drop_last());
                    assert(a.drop_last().push('\n') =~= a);
                }
            }
            let q = pa.drop_last().push(t).push(Seq::<char>::empty());
            assert(q.drop_last() =~= pa.drop_last().push(t));
            assert(q.drop_last().drop_last() =~= pa.drop_last());
            assert(pa.drop_last().push(pa.last()) =~= pa);
            assert(nonempty_lines(pa) == nonempty_lines(pa.drop_last()));
            assert(pieces(a + t.push('\n')) == q);
            assert(nonempty_lines(q.drop_last()) == nonempty_lines(pa.drop_last()).push(t));
            assert(nonempty_lines(q) == nonempty_lines(q.drop_last()));
        }
    }
}

/// Normalization keeps the text: the non-empty lines of the normalized
/// text are, in order, the lines of the input with trailing whitespace
/// dropped, leaving out those that became empty.
pub proof fn law_normalize_keeps_lines(text: Seq<char>)
    ensures
        nonempty_lines(lines_of(normalized(text))) == nonempty_lines(trim_ends(lines_of(text))),
{
    let p = pieces(text);
    lemma_pieces_no_newline(text);
    lemma_pieces_nonempty(text);
    let ls = lines_of(text);
    assert forall|k: int| 0 <= k < ls.len() implies no_newline(#[trigger] ls[k]) by {
        assert(ls[k] == p[k]);
    }
    lemma_collapse_inv(ls);
    lemma_collapse_keeps_lines(ls);
    let s = normalize_lines(ls).0;
    lemma_trim_end_keeps_lines(s);
    let out = normalized(text);
    let po = pieces(out);
    lemma_pieces_nonempty(out);
    if po.last().len() == 0 {
        assert(po.drop_last().push(po.last()) =~= po);
    }
}

/// Text in the shape [`normalized`] gives: see [`law_normalized_shape`].
pub open spec fn normal_text(s: Seq<char>) -> bool {
    &&& no_blank_run(s)
    &&& lines_trimmed(s)
    &&& (s.len() > 0 ==> s[0] != '\n' && !is_space(s.last()))
}

/// Collapsing the complete lines of a prefix of normal text gives that
/// prefix back: `start` is where the current, incomplete line begins.
proof fn lemma_normal_prefix(s: Seq<char>, i: int) -> (start: int)
    requires
        normal_text(s),
        0 <= i <= s.len(),
    ensures
        0 <= start <= i,
        start == 0 || s[start - 1] == '\n',
        forall|j: int| start <= j < i ==> #[trigger] s[j] != '\n',
        pieces(s.take(i)).len() >= 1,
        pieces(s.take(i)).last() == s.subrange(start, i),
        normalize_lines(pieces(s.take(i)).drop_last()) == (s.take(start), start >= 2 && s[start - 2]
            == '\n'),
    decreases i,
{
    if i == 0 {
        assert(s.take(0) =~= Seq::<char>::empty());
        assert(s.subrange(0, 0) =~= Seq::<char>::empty());
        assert(pieces(s.take(0)).drop_last() =~= Seq::<Seq<char>>::empty());
        0
    } else {
        let st = lemma_normal_prefix(s, i - 1);
        let prev = pieces(s.take(i - 1));
        assert(s.take(i).drop_last() =~= s.take(i - 1));
        assert(s.take(i).last() == s[i - 1]);
        if s[i - 1] != '\n' {
            assert(pieces(s.take(i)) == prev.update(prev.len() - 1, prev.last().push(s[i - 1])));
            assert(pieces(s.take(i)).drop_last() =~= prev.drop_last());
            assert(s.subrange(st, i - 1).push(s[i - 1]) =~= s.subrange(st, i));
            st
        } else {
            assert(pieces(s.take(i)) == prev.push(Seq::<char>::empty()));
            assert(pieces(s.take(i)).drop_last() =~= prev);
            assert(prev =~= prev.drop_last().push(prev.last()));
            let cur = s.subrange(st, i - 1);
            assert(normalize_lines(prev) == normalize_step(normalize_lines(prev.drop_last()), cur));
            assert(s.subrange(i, i) =~= Seq::<char>::empty());
            if st < i - 1 {
                assert(cur.last() == s[i - 2]);
                assert(s[i - 2] != '\n');
                assert(s[i - 1] == '\n');
                assert(!is_space(s[i - 2]));
                assert(trim_end(cur) == cur);
                assert(s.take(st) + cur.push('\n') =~= s.take(i));
            } else {
                assert(cur =~= Seq::<char>::empty());
                assert(i - 1 > 0);
                assert(s[st - 1] == '\n');
                if st >= 2 && s[st - 2] == '\n' {
                    assert(s[st - 2] == '\n' && s[st - 1] == '\n' && s[st] == '\n');
                }
                assert(s.take(st).len() > 0);
                assert(s.take(st).push('\n') =~= s.take(i));
            }
            i
        }
    }
}

/// Normalizing normalized text changes nothing.
pub proof fn law_normalize_idempotent(text: Seq<char>)
    ensures
        normalized(normalized(text)) == normalized(text),
{
    law_normalized_shape(text);
    let s = normalized(text);
    assert(normal_text(s));
    if s.len() == 0 {
        assert(pieces(s) == seq![Seq::<char>::empty()]);
        assert(lines_of(s) =~= Seq::<Seq<char>>::empty());
    } else {
        let st = lemma_normal_prefix(s, s.len() as int);
        assert(s.take(s.len() as int) =~= s);
        let p = pieces(s);
        assert(s.last() != '\n');
        assert(st < s.len()) by {
            if st == s.len() {
                assert(s[st - 1] == '\n');
            }
        }
        let cur = s.subrange(st, s.len() as int);
        assert(cur.len() > 0);
        assert(lines_of(s) == p);
        assert(p =~= p.drop_last().push(p.last()));
        assert(normalize_lines(p) == normalize_step(normalize_lines(p.drop_last()), cur));
        assert(cur.last() == s.last());
        assert(trim_end(cur) == cur);
        assert(s.take(st) + cur.push('\n') =~= s.push('\n'));
        assert(s.push('\n').drop_last() =~= s);
        assert(trim_end(s.push('\n')) == trim_end(s));
        assert(trim_end(s) == s);
    }
}

/// Collapses blank lines and strips trailing whitespace (see [`normalized`]).
pub fn normalize(text: &str) -> (out: String)
    ensures
        out@ == normalized(text@),
{
    let v = chars_of(text);
    let mut out: Vec<char> = Vec::new();
    let mut prev_blank = false;
    let mut start: usize = 0;
    let mut i: usize = 0;
    proof {
        assert(v@.take(0) =~= Seq::<char>::empty());
        assert(v@.subrange(0, 0) =~= Seq::<char>::empty());
    }
    while i < v.len()
        invariant
            start <= i <= v@.len(),
            pieces(v@.take(i as int)).len() >= 1,
            pieces(v@.take(i as int)).last() == v@.subrange(start as int, i as int),
            (out@, prev_blank) == normalize_lines(pieces(v@.take(i as int)).drop_last()),
        decreases v.len() - i,
    {
        let ghost before = pieces(v@.take(i as int));
        proof {
            assert(v@.take(i + 1).drop_last() =~= v@.take(i as int));
            assert(v@.take(i + 1).last() == v@[i as int]);
            lemma_pieces_nonempty(v@.take(i + 1));
        }
        if v[i] == '\n' {
            let e = trim_end_index(v.as_slice(), start, i);
            if e == start {
                if !prev_blank && out.len() > 0 {
                    out.push('\n');
                    prev_blank = true;
                }
            } else {
                let ghost old_out = out@;
                let mut k: usize = start;
                while k < e
                    invariant
                        start <= k <= e <= i < v@.len(),
                        out@ == old_out + v@.subrange(start as int, k as int),
                    decreases e - k,
                {
                    out.push(v[k]);
                    assert(v@.subrange(start as int, k + 1) =~= v@.subrange(
                        start as int,
                        k as int,
                    ).push(v@[k as int]));
                    k = k + 1;
                }
                out.push('\n');
                prev_blank = false;
            }
            proof {
                let after = pieces(v@.take(i + 1));
                assert(after == before.push(Seq::empty()));
                assert(after.drop_last() =~= before);
                assert(before.drop_last().push(before.last()) =~= before);
                assert(before =~= before.drop_last().push(before.last()));
                assert(normalize_lines(before) == normalize_step(
                    normalize_lines(before.drop_last()),
                    before.last(),
                ));
                assert(v@.subrange(i + 1, i + 1) =~= Seq::<char>::empty());
            }
            start = i + 1;
        } else {
            proof {
                let after = pieces(v@.take(i + 1));
                assert(after == before.update(before.len() - 1, before.last().push(v@[i as int])));
                assert(after.drop_last() =~= before.drop_last());
                assert(v@.subrange(start as int, i + 1) =~= v@.subrange(start as int, i as int).push(
                    v@[i as int],
                ));
            }
        }
        i = i + 1;
    }
    proof {
        assert(v@.take(v@.len() as int) =~= v@);
    }
    // The final piece counts as a line only when it is not empty.
    if start < v.len() {
        let e = trim_end_index(v.as_slice(), start, v.len());
        if e == start {
            if !prev_blank && out.len() > 0 {
                out.push('\n');
                prev_blank = true;
            }
        } else {
            let ghost old_out = out@;
            let mut k: usize = start;
            while k < e
                invariant
                    start <= k <= e <= v@.len(),
                    out@ == old_out + v@.subrange(start as int, k as int),
                decreases e - k,
            {
                out.push(v[k]);
                assert(v@.subrange(start as int, k + 1) =~= v@.subrange(start as int, k as int).push(
                    v@[k as int],
                ));
                k = k + 1;
            }
            out.push('\n');
            prev_blank = false;
        }
        proof {
            let p = pieces(v@);
            assert(p =~= p.drop_last().push(p.last()));
            assert(normalize_lines(p) == normalize_step(normalize_lines(p.drop_last()), p.last()));
        }
    }
    let end = trim_end_index(out.as_slice(), 0, out.len());
    proof {
        assert(out@.subrange(0, out@.len() as int) =~= out@);
    }
    string_of_range(out.as_slice(), 0, end)
}

/// Keeps at most `max_chars` characters; the flag tells whether any were cut.
pub fn cap_chars(text: &str, max_chars: usize) -> (r: (String, bool))
    ensures
        text@.len() <= max_chars ==> r.0@ == text@ && !r.1,
        text@.len() > max_chars ==> r.0@ == text@.take(max_chars as int) && r.1,
{
    let v = chars_of(text);
    if v.len() <= max_chars {
        return (string_of(v.as_slice()), false);
    }
    let s = string_of_range(v.as_slice(), 0, max_chars);
    proof {
        assert(v@.subrange(0, max_chars as int) =~= v@.take(max_chars as int));
    }
    (s, true)
}

// ---------------------------------------------------------------------------
// Per-format raw text
// ---------------------------------------------------------------------------
/// Text encodings tried for plain-text attachments.
#[derive(Debug, Clone, Copy, PartialEq, Eq, Structural)]
pub enum TextEncoding {
    Gbk,
    Utf8,
}

/// What `encoding_rs::Encoding::decode` returns for `bytes` (text, and
/// whether malformed sequences were replaced).
pub uninterp spec fn decoded_with(encoding: TextEncoding, bytes: Seq<u8>) -> (Seq<char>, bool);

/// `encoding_rs::Encoding::decode` with GBK or UTF-8 (BOM sniffing
/// included, malformed input replaced by U+FFFD). The contract names the
/// result as a function of the encoding and the bytes; the decoding tables
/// are not spelled out.
#[verifier::external_body]
fn decode_with(encoding: TextEncoding, bytes: &[u8]) -> (r: (String, bool))
    ensures
        (r.0@, r.1) == decoded_with(encoding, bytes@),
{
    let enc = match encoding {
        TextEncoding::Gbk => encoding_rs::GBK,
        TextEncoding::Utf8 => encoding_rs::UTF_8,
    };
    let (text, _, had_errors) = enc.decode(bytes);
    (text.into_owned(), had_errors)
}

/// Plain text: UTF-8 when valid, else GBK, else lossy UTF-8.
pub open spec fn plain_text(bytes: Seq<u8>) -> Seq<char> {
    if valid_utf8(bytes) {
        decode_utf8(bytes)
    } else {
        let gbk = decoded_with(TextEncoding::Gbk, bytes);
        if gbk.1 {
            decoded_with(TextEncoding::Utf8, bytes).0
        } else {
            gbk.0
        }
    }
}

/// Decodes a plain-text attachment (see [`plain_text`]).
pub fn extract_text(bytes: &[u8]) -> (r: String)
    ensures
        r@ == plain_text(bytes@),
{
    if let Some(s) = utf8_text(bytes) {
        return s;
    }
    let (decoded, had_errors) = decode_with(TextEncoding::Gbk, bytes);
    if had_errors {
        let (lossy, _) = decode_with(TextEncoding::Utf8, bytes);
        return lossy;
    }
    decoded
}

pub open spec fn pdf_interrupted_message() -> Seq<char> {
    "PDF 解析中断（文件可能已损坏或使用了不支持的编码）"@
}

pub open spec fn opt_result_view(r: Option<Result<String, String>>) -> Option<
    Result<Seq<char>, Seq<char>>,
> {
    match r {
        Some(Ok(t)) => Some(Ok(t@)),
        Some(Err(e)) => Some(Err(e@)),
        None => None,
    }
}

/// The text of a PDF from what the PDF extractor did with it: its text, its
/// error (as a message), or `None` where it panicked.
pub open spec fn pdf_raw(result: Option<Result<Seq<char>, Seq<char>>>) -> Result<Seq<char>, Seq<char>> {
    match result {
        Some(Ok(t)) => Ok(t),
        Some(Err(e)) => Err("PDF 解析失败："@ + e),
        None => Err(pdf_interrupted_message()),
    }
}

/// The raw text of a PDF (see [`pdf_raw`]). `result` is what
/// `pdf_extract::extract_text_from_mem` returned, its error rendered as a
/// message, or `None` when it panicked: the extractor unwraps and panics on
/// some malformed documents, so it is run where the panic can be caught.
pub fn pdf_raw_text(result: Option<Result<String, String>>) -> (r: Result<String, String>)
    ensures
        match (r, pdf_raw(opt_result_view(result))) {
            (Ok(t), Ok(u)) => t@ == u,
            (Err(e), Err(f)) => e@ == f,
            _ => false,
        },
{
    match result {
        Some(Ok(t)) => Ok(t),
        Some(Err(e)) => Err(concat("PDF 解析失败：", e.as_str())),
        None => Err(string_of(chars_of("PDF 解析中断（文件可能已损坏或使用了不支持的编码）").as_slice())),
    }
}

/// The stored outcome of a PDF (see [`pdf_raw`] and [`outcome_of`]).
pub fn extract_pdf_outcome(result: Option<Result<String, String>>) -> (o: ExtractOutcome)
    ensures
        o@ == outcome_of(pdf_raw(opt_result_view(result))),
{
    outcome_from_raw(pdf_raw_text(result))
}

/// The outcome recorded when PDF parsing was interrupted by a panic inside
/// the PDF library.
pub fn pdf_interrupted_outcome() -> (o: ExtractOutcome)
    ensures
        o@ == (Seq::<char>::empty(), ExtractStatus::Failed, Some(pdf_interrupted_message())),
        o@ == outcome_of(pdf_raw(None)),
{
    let msg = string_of(chars_of("PDF 解析中断（文件可能已损坏或使用了不支持的编码）").as_slice());
    ExtractOutcome { text: String::new(), status: ExtractStatus::Failed, error: Some(msg) }
}

/// Which step of reading a ZIP entry failed.
#[derive(Debug, Clone, Copy, PartialEq, Eq, Structural)]
pub enum ZipStage {
    /// The bytes are not a ZIP archive.
    Archive,
    /// The archive has no entry of that name.
    Entry,
    /// The entry could not be read as UTF-8 text.
    Read,
}

/// What reading entry `name` of the ZIP archive `archive` as text gives:
/// the text, or the failing step with the library's error message.
pub uninterp spec fn zip_entry_text(archive: Seq<u8>, name: Seq<char>) -> Result<
    Seq<char>,
    (ZipStage, Seq<char>),
>;

/// `zip::ZipArchive::new`, `ZipArchive::by_name` and
/// `Read::read_to_string` on the entry, each error tagged with its step.
/// The archive format is not spelled out; the result is named.
#[verifier::external_body]
fn read_zip_entry(archive: &[u8], name: &str) -> (r: Result<String, (ZipStage, String)>)
    ensures
        match (r, zip_entry_text(archive@, name@)) {
            (Ok(t), Ok(u)) => t@ == u,
            (Err((s, e)), Err((s2, f))) => s == s2 && e@ == f,
            _ => false,
        },
{
    let mut zip = zip::ZipArchive::new(std::io::Cursor::new(archive)).map_err(
        |e| (ZipStage::Archive, e.to_string()),
    )?;
    let mut entry = zip.by_name(name).map_err(|e| (ZipStage::Entry, e.to_string()))?;
    let mut text = String::new();
    entry.read_to_string(&mut text).map_err(|e| (ZipStage::Read, e.to_string()))?;
    Ok(text)
}

/// The XML reader events the DOCX text assembly looks at.
pub enum XmlEvent {
    /// Start tag, with the bytes of its local name.
    Start(Vec<u8>),
    /// Self-closing tag, with the bytes of its local name.
    Empty(Vec<u8>),
    /// Character data, raw bytes as they stand in the document.
    Text(Vec<u8>),
    /// End tag, with the bytes of its local name.
    End(Vec<u8>),
    /// End of the document.
    Eof,
    /// Any other event (comments, declarations, references, ...).
    Other,
    /// A reader error, rendered as its message.
    Failed(String),
}

/// Plain-value view of an [`XmlEvent`].
pub enum XmlEventView {
    Start(Seq<u8>),
    Empty(Seq<u8>),
    Text(Seq<u8>),
    End(Seq<u8>),
    Eof,
    Other,
    Failed(Seq<char>),
}

impl View for XmlEvent {
    type V = XmlEventView;

    open spec fn view(&self) -> XmlEventView {
        match self {
            XmlEvent::Start(b) => XmlEventView::Start(b@),
            XmlEvent::Empty(b) => XmlEventView::Empty(b@),
            XmlEvent::Text(b) => XmlEventView::Text(b@),
            XmlEvent::End(b) => XmlEventView::End(b@),
            XmlEvent::Eof => XmlEventView::Eof,
            XmlEvent::Other => XmlEventView::Other,
            XmlEvent::Failed(e) => XmlEventView::Failed(e@),
        }
    }
}

pub open spec fn is_final_event(e: XmlEventView) -> bool {
    e is Eof || e is Failed
}

/// The `index`-th event that `quick_xml::reader::Reader` (text trimming
/// off) yields for the document `source`.
pub uninterp spec fn xml_event_at(source: Seq<char>, index: nat) -> XmlEventView;

/// How many events the reader yields for `source` up to and including the
/// first `Eof` or error.
pub uninterp spec fn xml_event_count(source: Seq<char>) -> nat;

#[verifier::external_type_specification]
#[verifier::external_body]
#[verifier::reject_recursive_types(R)]
pub struct ExXmlReader<R>(quick_xml::reader::Reader<R>);

/// A `quick_xml` reader over a document, with the document and the number
/// of events read so far as ghost state.
struct XmlCursor<'a> {
    reader: quick_xml::reader::Reader<&'a [u8]>,
    pub source: Ghost<Seq<char>>,
    pub consumed: Ghost<nat>,
}

impl<'a> XmlCursor<'a> {
    /// `quick_xml::reader::Reader::from_str` with `trim_text(false)`.
    /// Claims that the document yields at least one event (the reader always
    /// ends with `Eof` or an error).
    #[verifier::external_body]
    fn open(xml: &'a str) -> (c: Self)
        ensures
            c.source@ == xml@,
            c.consumed@ == 0,
            xml_event_count(c.source@) >= 1,
    {
        let mut reader = quick_xml::reader::Reader::from_str(xml);
        reader.config_mut().trim_text(false);
        XmlCursor { reader, source: Ghost(xml@), consumed: Ghost(0) }
    }

    /// `Reader::read_event_into`, the event converted to an [`XmlEvent`]
    /// (local names and text as raw bytes, errors as their message). Claims
    /// that it is the next event of the document, and that the count of
    /// events is reached exactly at the first `Eof` or error.
    #[verifier::external_body]
    fn next(&mut self) -> (e: XmlEvent)
        requires
            old(self).consumed@ < xml_event_count(old(self).source@),
        ensures
            final(self).source@ == old(self).source@,
            final(self).consumed@ == old(self).consumed@ + 1,
            e@ == xml_event_at(old(self).source@, old(self).consumed@),
            is_final_event(e@) <==> final(self).consumed@ == xml_event_count(old(self).source@),
    {
        let mut buf = Vec::new();
        match self.reader.read_event_into(&mut buf) {
            Ok(Event::Start(e)) => XmlEvent::Start(e.local_name().as_ref().to_vec()),
            Ok(Event::Empty(e)) => XmlEvent::Empty(e.local_name().as_ref().to_vec()),
            Ok(Event::Text(t)) => XmlEvent::Text(t.into_inner().into_owned()),
            Ok(Event::End(e)) => XmlEvent::End(e.local_name().as_ref().to_vec()),
            Ok(Event::Eof) => XmlEvent::Eof,
            Ok(_) => XmlEvent::Other,
            Err(e) => XmlEvent::Failed(e.to_string()),
        }
    }
}

/// What `quick_xml::escape::unescape` returns for a text: the text with
/// entity and character references resolved, or `None` on a bad reference.
pub uninterp spec fn xml_unescaped(raw: Seq<char>) -> Option<Seq<char>>;

/// `quick_xml::escape::unescape`, the error dropped.
#[verifier::external_body]
fn unescape_xml(raw: &str) -> (r: Option<String>)
    ensures
        opt_view(r) == xml_unescaped(raw@),
{
    quick_xml::escape::unescape(raw).ok().map(|c| c.into_owned())
}

/// Character data as it is appended: decoded (or empty when not UTF-8),
/// then unescaped (or kept as it was when unescaping fails).
pub open spec fn run_text(raw: Seq<u8>) -> Seq<char> {
    let decoded = utf8_or_empty(raw);
    match xml_unescaped(decoded) {
        Some(u) => u,
        None => decoded,
    }
}

/// One event of DOCX text assembly, on `(text so far, inside a w:t run)`:
/// runs (`t`) contribute their text, paragraphs (`p`) end with a newline,
/// `br` and `tab` become newlines.
pub open spec fn docx_step(acc: (Seq<char>, bool), e: XmlEventView) -> (Seq<char>, bool) {
    match e {
        XmlEventView::Start(n) => {
            let local = utf8_or_empty(n);
            if local == "t"@ {
                (acc.0, true)
            } else if local == "p"@ || local == "br"@ || local == "tab"@ {
                (acc.0.push('\n'), acc.1)
            } else {
                acc
            }
        },
        XmlEventView::Empty(n) => {
            let local = utf8_or_empty(n);
            if local == "br"@ || local == "tab"@ {
                (acc.0.push('\n'), acc.1)
            } else {
                acc
            }
        },
        XmlEventView::Text(raw) => {
            if acc.1 {
                (acc.0 + run_text(raw), acc.1)
            } else {
                acc
            }
        },
        XmlEventView::End(n) => {
            let local = utf8_or_empty(n);
            if local == "t"@ {
                (acc.0, false)
            } else if local == "p"@ {
                (acc.0.push('\n'), acc.1)
            } else {
                acc
            }
        },
        _ => acc,
    }
}

/// Text assembly over the first `n` events of `source`.
pub open spec fn docx_fold(source: Seq<char>, n: nat) -> (Seq<char>, bool)
    decreases n,
{
    if n == 0 {
        (Seq::empty(), false)
    } else {
        docx_step(docx_fold(source, (n - 1) as nat), xml_event_at(source, (n - 1) as nat))
    }
}

/// The text of a `word/document.xml`, or the reader's error.
pub open spec fn docx_xml_text(xml: Seq<char>) -> Result<Seq<char>, Seq<char>> {
    let n = xml_event_count(xml);
    match xml_event_at(xml, (n - 1) as nat) {
        XmlEventView::Failed(e) => Err("DOCX XML 解析失败："@ + e),
        _ => Ok(docx_fold(xml, (n - 1) as nat).0),
    }
}

pub open spec fn zip_stage_prefix(stage: ZipStage) -> Seq<char> {
    match stage {
        ZipStage::Archive => "DOCX 不是合法的 zip："@,
        ZipStage::Entry => "DOCX 缺少 word/document.xml："@,
        ZipStage::Read => "读取 document.xml 失败："@,
    }
}

/// The text of a DOCX file, or why it could not be read.
pub open spec fn docx_raw(bytes: Seq<u8>) -> Result<Seq<char>, Seq<char>> {
    match zip_entry_text(bytes, "word/document.xml"@) {
        Err((stage, msg)) => Err(zip_stage_prefix(stage) + msg),
        Ok(xml) => docx_xml_text(xml),
    }
}

fn local_is(name: &Vec<u8>, lit: &str) -> (r: bool)
    ensures
        r == (utf8_or_empty(name@) == lit@),
{
    let local = utf8_chars_or_empty(name.as_slice());
    eq_str(local.as_slice(), lit)
}

fn append_chars(out: &mut Vec<char>, s: &str)
    ensures
        final(out)@ == old(out)@ + s@,
{
    let v = chars_of(s);
    let mut i: usize = 0;
    while i < v.len()
        invariant
            i <= v@.len(),
            v@ == s@,
            out@ == old(out)@ + v@.take(i as int),
        decreases v.len() - i,
    {
        out.push(v[i]);
        assert(v@.take(i + 1) =~= v@.take(i as int).push(v@[i as int]));
        i = i + 1;
    }
    assert(v@.take(v@.len() as int) =~= v@);
}

fn append_vec(out: &mut Vec<char>, v: &Vec<char>)
    ensures
        final(out)@ == old(out)@ + v@,
{
    let mut i: usize = 0;
    while i < v.len()
        invariant
            i <= v@.len(),
            out@ == old(out)@ + v@.take(i as int),
        decreases v.len() - i,
    {
        out.push(v[i]);
        assert(v@.take(i + 1) =~= v@.take(i as int).push(v@[i as int]));
        i = i + 1;
    }
    assert(v@.take(v@.len() as int) =~= v@);
}

/// Applies one reader event to the text assembled so far (see
/// [`docx_step`]) and tells whether a `w:t` run is open afterwards.
pub fn docx_event(text: &mut Vec<char>, in_text: bool, ev: &XmlEvent) -> (r: bool)
    ensures
        (final(text)@, r) == docx_step((old(text)@, in_text), ev@),
{
    match ev {
        XmlEvent::Start(name) => {
            if local_is(name, "t") {
                true
            } else {
                if local_is(name, "p") || local_is(name, "br") || local_is(name, "tab") {
                    text.push('\n');
                }
                in_text
            }
        },
        XmlEvent::Empty(name) => {
            if local_is(name, "br") || local_is(name, "tab") {
                text.push('\n');
            }
            in_text
        },
        XmlEvent::Text(raw) => {
            if in_text {
                let decoded = utf8_chars_or_empty(raw.as_slice());
                let decoded_s = string_of(decoded.as_slice());
                match unescape_xml(decoded_s.as_str()) {
                    Some(u) => append_chars(text, u.as_str()),
                    None => append_vec(text, &decoded),
                }
            }
            in_text
        },
        XmlEvent::End(name) => {
            if local_is(name, "t") {
                false
            } else {
                if local_is(name, "p") {
                    text.push('\n');
                }
                in_text
            }
        },
        _ => in_text,
    }
}

/// Assembles the text of a `word/document.xml` (see [`docx_xml_text`]).
pub fn docx_text_from_xml(xml: &str) -> (r: Result<String, String>)
    ensures
        match (r, docx_xml_text(xml@)) {
            (Ok(t), Ok(u)) => t@ == u,
            (Err(e), Err(f)) => e@ == f,
            _ => false,
        },
{
    let mut cur = XmlCursor::open(xml);
    let mut out: Vec<char> = Vec::new();
    let mut in_text = false;
    loop
        invariant
            cur.source@ == xml@,
            cur.consumed@ < xml_event_count(xml@),
            (out@, in_text) == docx_fold(xml@, cur.consumed@),
            forall|k: nat| k < cur.consumed@ ==> !is_final_event(#[trigger] xml_event_at(xml@, k)),
        decreases xml_event_count(xml@) - cur.consumed@,
    {
        let ev = cur.next();
        match ev {
            XmlEvent::Eof => {
                return Ok(string_of(out.as_slice()));
            },
            XmlEvent::Failed(e) => {
                return Err(concat("DOCX XML 解析失败：", e.as_str()));
            },
            _ => {
                in_text = docx_event(&mut out, in_text, &ev);
            },
        }
    }
}

/// The text of a DOCX file from what reading its `word/document.xml`
/// gave (see [`docx_raw`]): the failing step's message, or the text
/// assembled from the XML.
pub fn docx_from_entry(entry: Result<String, (ZipStage, String)>) -> (r: Result<String, String>)
    ensures
        match (r, entry) {
            (Err(e), Err((stage, msg))) => e@ == zip_stage_prefix(stage) + msg@,
            (r, Ok(xml)) => match (r, docx_xml_text(xml@)) {
                (Ok(t), Ok(u)) => t@ == u,
                (Err(e), Err(f)) => e@ == f,
                _ => false,
            },
            _ => false,
        },
{
    match entry {
        Err((stage, msg)) => {
            let prefix = match stage {
                ZipStage::Archive => "DOCX 不是合法的 zip：",
                ZipStage::Entry => "DOCX 缺少 word/document.xml：",
                ZipStage::Read => "读取 document.xml 失败：",
            };
            Err(concat(prefix, msg.as_str()))
        },
        Ok(xml) => docx_text_from_xml(xml.as_str()),
    }
}

/// Extracts the text of a DOCX file (see [`docx_raw`]).
pub fn extract_docx(bytes: &[u8]) -> (r: Result<String, String>)
    ensures
        match (r, docx_raw(bytes@)) {
            (Ok(t), Ok(u)) => t@ == u,
            (Err(e), Err(f)) => e@ == f,
            _ => false,
        },
{
    docx_from_entry(read_zip_entry(bytes, "word/document.xml"))
}

// ---------------------------------------------------------------------------
// Extraction
// ---------------------------------------------------------------------------
/// The raw text the extractor of a format other than PDF produces, or its
/// error.
pub open spec fn raw_text(kind: AttachmentKind, bytes: Seq<u8>) -> Result<Seq<char>, Seq<char>> {
    if kind == AttachmentKind::Docx {
        docx_raw(bytes)
    } else {
        Ok(plain_text(bytes))
    }
}

pub open spec fn truncation_note() -> Seq<char> {
    "已截断为前 32000 个字符（原文超出上限）"@
}

/// The outcome for a raw extraction result: normalized text capped at
/// [`MAX_TEXT_CHARS`] (`Partial` with a note when cut, `Ok` otherwise), or
/// `Failed` with the extractor's message and no text.
pub open spec fn outcome_of(raw: Result<Seq<char>, Seq<char>>) -> (
    Seq<char>,
    ExtractStatus,
    Option<Seq<char>>,
) {
    match raw {
        Ok(text) => {
            let cleaned = normalized(text);
            if cleaned.len() <= MAX_TEXT_CHARS {
                (cleaned, ExtractStatus::Complete, None)
            } else {
                (cleaned.take(MAX_TEXT_CHARS as int), ExtractStatus::Partial, Some(truncation_note()))
            }
        },
        Err(msg) => (Seq::empty(), ExtractStatus::Failed, Some(msg)),
    }
}

/// The stored text is the beginning of the normalized text: all of it when
/// it fits, otherwise exactly its first [`MAX_TEXT_CHARS`] characters, and
/// then the outcome is partial.
pub proof fn law_outcome_keeps_the_beginning(text: Seq<char>)
    ensures
        outcome_of(Ok(text)).0.len() == if normalized(text).len() <= MAX_TEXT_CHARS {
            normalized(text).len() as int
        } else {
            MAX_TEXT_CHARS as int
        },
        forall|i: int|
            0 <= i < outcome_of(Ok(text)).0.len() ==> #[trigger] outcome_of(Ok(text)).0[i]
                == normalized(text)[i],
        outcome_of(Ok(text)).1 == ExtractStatus::Partial <==> normalized(text).len() > MAX_TEXT_CHARS,
{
}

/// Turns a raw extraction result into the stored outcome (see [`outcome_of`]).
pub fn outcome_from_raw(raw: Result<String, String>) -> (o: ExtractOutcome)
    ensures
        o@ == outcome_of(
            match raw {
                Ok(t) => Ok(t@),
                Err(e) => Err(e@),
            },
        ),
        raw matches Ok(t) ==> o.text@.len() <= normalized(t@).len() && o.text@ == normalized(
            t@,
        ).take(o.text@.len() as int),
        raw matches Ok(t) ==> (o.text@.len() == normalized(t@).len() || o.text@.len() == MAX_TEXT_CHARS),
{
    match raw {
        Ok(text) => {
            let cleaned = normalize(text.as_str());
            let (capped, truncated) = cap_chars(cleaned.as_str(), MAX_TEXT_CHARS);
            if truncated {
                let note = string_of(chars_of("已截断为前 32000 个字符（原文超出上限）").as_slice());
                ExtractOutcome { text: capped, status: ExtractStatus::Partial, error: Some(note) }
            } else {
                ExtractOutcome { text: capped, status: ExtractStatus::Complete, error: None }
            }
        },
        Err(msg) => ExtractOutcome { text: String::new(), status: ExtractStatus::Failed, error: Some(msg) },
    }
}

/// Extracts, normalizes and caps the text of a TXT, Markdown or DOCX
/// attachment. A PDF goes through [`extract_pdf_outcome`] instead: its
/// extractor can panic, so it is run where a panic can be caught.
pub fn extract(kind: AttachmentKind, bytes: &[u8]) -> (o: ExtractOutcome)
    requires
        kind != AttachmentKind::Pdf,
    ensures
        o@ == outcome_of(raw_text(kind, bytes@)),
{
    let raw = match kind {
        AttachmentKind::Docx => extract_docx(bytes),
        _ => Ok(extract_text(bytes)),
    };
    outcome_from_raw(raw)
}

} // verus!

verus! {

/// Stored text never exceeds [`MAX_TEXT_CHARS`] characters; an extraction
/// fails exactly when its extractor fails, and then stores no text; text is
/// marked partial exactly when it was cut, and then the note says so.
pub proof fn law_outcome_shape(raw: Result<Seq<char>, Seq<char>>)
    ensures
        outcome_of(raw).0.len() <= MAX_TEXT_CHARS,
        (outcome_of(raw).1 == ExtractStatus::Failed) <==> raw is Err,
        raw is Err ==> outcome_of(raw).0.len() == 0,
        (outcome_of(raw).1 == ExtractStatus::Partial) <==> (raw matches Ok(t) && normalized(t).len()
            > MAX_TEXT_CHARS),
        outcome_of(raw).1 == ExtractStatus::Partial ==> outcome_of(raw).2 == Some(truncation_note()),
        outcome_of(raw).1 == ExtractStatus::Complete ==> outcome_of(raw).2 is None,
{
}

} // verus!
