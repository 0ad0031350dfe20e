//! Content extraction: the uniform extract record, and the text, PDF and
//! DOCX back-ends over raw bytes. The process shell reads files and hands
//! the bytes here; everything that decides or computes is verified.

use vstd::prelude::*;

use crate::error::CortexError;
use crate::ext::{chars_to_string, decode_lossy, decoded_lossy, utf8_to_string};
use crate::text::{chars_of, count_words, is_space, is_space_char, word_count_of};

verus! {

/// A line with one trailing carriage return removed.
pub open spec fn strip_cr(w: Seq<char>) -> Seq<char> {
    if w.len() > 0 && w.last() == '\r' {
        w.drop_last()
    } else {
        w
    }
}

/// The line splitter state after reading `s`: segments between newlines,
/// each with a trailing carriage return removed.
pub open spec fn line_state(s: Seq<char>, cur: Seq<char>, acc: Seq<Seq<char>>) -> (Seq<char>, Seq<
    Seq<char>,
>)
    decreases s.len(),
{
    if s.len() == 0 {
        (cur, acc)
    } else if s[0] == '\n' {
        line_state(s.drop_first(), Seq::empty(), acc.push(strip_cr(cur)))
    } else {
        line_state(s.drop_first(), cur.push(s[0]), acc)
    }
}

/// The lines of a text, in order; a final newline opens no empty line.
pub open spec fn lines_of(s: Seq<char>) -> Seq<Seq<char>> {
    let st = line_state(s, Seq::empty(), Seq::empty());
    if st.0.len() > 0 {
        st.1.push(strip_cr(st.0))
    } else {
        st.1
    }
}

/// Splits a character sequence into its lines.
pub fn split_lines(s: &Vec<char>) -> (ls: Vec<Vec<char>>)
    ensures
        ls.deep_view() == lines_of(s@),
{
    let mut acc: Vec<Vec<char>> = Vec::new();
    let mut cur: Vec<char> = Vec::new();
    let mut i: usize = 0;
    proof {
        assert(acc.deep_view() =~~= Seq::<Seq<char>>::empty());
        assert(cur@ =~= Seq::<char>::empty());
        assert(s@.skip(0) =~= s@);
    }
    while i < s.len()
        invariant
            i <= s.len(),
            line_state(s@, Seq::empty(), Seq::empty()) == line_state(
                s@.skip(i as int),
                cur@,
                acc.deep_view(),
            ),
        decreases s.len() - i,
    {
        let ghost prev_acc = acc.deep_view();
        let ghost prev_cur = cur@;
        let ghost rest = s@.skip(i as int);
        proof {
            assert(rest[0] == s@[i as int]);
            assert(rest.drop_first() =~= s@.skip(i + 1));
        }
        let c = s[i];
        if c == '\n' {
            if cur.len() > 0 && cur[cur.len() - 1] == '\r' {
                cur.pop();
                proof {
                    assert(cur@ =~= strip_cr(prev_cur));
                }
            } else {
                proof {
                    assert(cur@ =~= strip_cr(prev_cur));
                }
            }
            acc.push(cur);
            cur = Vec::new();
            proof {
                assert(acc.deep_view() =~~= prev_acc.push(strip_cr(prev_cur)));
                assert(cur@ =~= Seq::<char>::empty());
            }
        } else {
            cur.push(c);
        }
        proof {
            assert(line_state(rest, prev_cur, prev_acc) == line_state(
                s@.skip(i + 1),
                cur@,
                acc.deep_view(),
            ));
        }
        i = i + 1;
    }
    proof {
        assert(s@.skip(s@.len() as int) =~= Seq::<char>::empty());
    }
    if cur.len() > 0 {
        let ghost prev_acc = acc.deep_view();
        let ghost prev_cur = cur@;
        if cur[cur.len() - 1] == '\r' {
            cur.pop();
        }
        proof {
            assert(cur@ =~= strip_cr(prev_cur));
        }
        acc.push(cur);
        proof {
            assert(acc.deep_view() =~~= prev_acc.push(strip_cr(prev_cur)));
        }
    }
    acc
}

/// A line that holds nothing but whitespace.
pub open spec fn is_blank_line(w: Seq<char>) -> bool {
    forall|k: int| 0 <= k < w.len() ==> is_space_char(#[trigger] w[k])
}

/// Decides whether a line is blank.
pub fn is_blank(v: &Vec<char>) -> (r: bool)
    ensures
        r == is_blank_line(v@),
{
    let mut i: usize = 0;
    while i < v.len()
        invariant
            i <= v.len(),
            forall|k: int| 0 <= k < i ==> is_space_char(#[trigger] v@[k]),
        decreases v.len() - i,
    {
        if !is_space(v[i]) {
            return false;
        }
        i = i + 1;
    }
    true
}

/// A text with leading whitespace removed.
pub open spec fn trim_front(s: Seq<char>) -> Seq<char>
    decreases s.len(),
{
    if s.len() > 0 && is_space_char(s[0]) {
        trim_front(s.drop_first())
    } else {
        s
    }
}

/// A text with trailing whitespace removed.
pub open spec fn trim_back(s: Seq<char>) -> Seq<char>
    decreases s.len(),
{
    if s.len() > 0 && is_space_char(s.last()) {
        trim_back(s.drop_last())
    } else {
        s
    }
}

/// A text with whitespace removed from both ends.
pub open spec fn trim_of(s: Seq<char>) -> Seq<char> {
    trim_back(trim_front(s))
}

/// Removes whitespace from both ends of a character vector.
pub fn trim_chars(v: &Vec<char>) -> (r: Vec<char>)
    ensures
        r@ == trim_of(v@),
{
    let mut a: usize = 0;
    proof {
        assert(v@.skip(0) =~= v@);
    }
    while a < v.len() && is_space(v[a])
        invariant
            a <= v.len(),
            trim_front(v@) == trim_front(v@.skip(a as int)),
        decreases v.len() - a,
    {
        proof {
            assert(v@.skip(a as int)[0] == v@[a as int]);
            assert(v@.skip(a as int).drop_first() =~= v@.skip(a + 1));
        }
        a = a + 1;
    }
    proof {
        if a < v@.len() {
            assert(v@.skip(a as int)[0] == v@[a as int]);
        } else {
            assert(v@.skip(a as int) =~= Seq::<char>::empty());
        }
        assert(trim_front(v@) == v@.skip(a as int));
    }
    let ghost t = trim_front(v@);
    let mut b: usize = v.len();
    proof {
        assert(t.take((b - a) as int) =~= t);
    }
    while b > a && is_space(v[b - 1])
        invariant
            a <= b <= v.len(),
            t == trim_front(v@),
            t == v@.skip(a as int),
            trim_back(t) == trim_back(t.take((b - a) as int)),
        decreases b,
    {
        proof {
            assert(t.take((b - a) as int).last() == v@[b - 1]);
            assert(t.take((b - a) as int).drop_last() =~= t.take((b - 1 - a) as int));
        }
        b = b - 1;
    }
    proof {
        if b > a {
            assert(t.take((b - a) as int).last() == v@[b - 1]);
        } else {
            assert(t.take((b - a) as int) =~= Seq::<char>::empty());
        }
        assert(trim_back(t) == t.take((b - a) as int));
    }
    let mut r: Vec<char> = Vec::new();
    let mut k: usize = a;
    while k < b
        invariant
            a <= k <= b <= v.len(),
            r@ == v@.subrange(a as int, k as int),
        decreases b - k,
    {
        r.push(v[k]);
        proof {
            assert(v@.subrange(a as int, k + 1) =~= v@.subrange(a as int, k as int).push(
                v@[k as int],
            ));
        }
        k = k + 1;
    }
    proof {
        assert(v@.subrange(a as int, b as int) =~= t.take((b - a) as int));
    }
    r
}

/// The first line with visible content, empty when every line is blank.
pub open spec fn first_content_line(ls: Seq<Seq<char>>, i: int) -> Seq<char>
    decreases ls.len() - i,
    when 0 <= i <= ls.len()
{
    if i >= ls.len() {
        Seq::empty()
    } else if !is_blank_line(ls[i]) {
        ls[i]
    } else {
        first_content_line(ls, i + 1)
    }
}

/// The summary of an extracted text: of a non-empty text, its first
/// non-blank line, truncated to 200 characters with a trailing ellipsis
/// when cut; an empty text has none.
pub open spec fn summary_of(text: Seq<char>) -> Option<Seq<char>> {
    if text.len() == 0 {
        Option::None
    } else {
        let l = first_content_line(lines_of(text), 0);
        if l.len() > 200 {
            Option::Some(l.take(200) + "..."@)
        } else {
            Option::Some(l)
        }
    }
}

/// The uniform record every extraction back-end produces.
#[derive(Debug, Clone)]
pub struct ExtractedContent {
    /// The extracted plain text.
    pub text: String,
    /// The number of whitespace-separated words of the text.
    pub word_count: usize,
    /// The first non-blank line, truncated to 200 characters.
    pub summary: Option<String>,
    /// Warnings met during extraction.
    pub warnings: Vec<String>,
}

/// What holds of a freshly built extract record for a given text.
pub open spec fn extracted_wf(r: ExtractedContent, text: Seq<char>) -> bool {
    &&& r.text@ == text
    &&& r.word_count == word_count_of(text)
    &&& (r.summary is Some <==> summary_of(text) is Some)
    &&& (r.summary matches Some(s) ==> s@ == summary_of(text).unwrap())
}

impl ExtractedContent {
    /// Builds the record for a text: counts its words and derives the
    /// summary; no warnings.
    pub fn new(text: String) -> (r: ExtractedContent)
        ensures
            extracted_wf(r, text@),
            r.warnings@ == Seq::<String>::empty(),
    {
        let word_count = count_words(text.as_str());
        let summary = Self::generate_summary(text.as_str());
        ExtractedContent { text, word_count, summary, warnings: Vec::new() }
    }

    /// The same record with one more warning.
    pub fn with_warning(self, warning: String) -> (r: ExtractedContent)
        ensures
            r.text == self.text,
            r.word_count == self.word_count,
            r.summary == self.summary,
            r.warnings@ == self.warnings@.push(warning),
    {
        let mut w = self;
        w.warnings.push(warning);
        w
    }

    /// Derives the summary of a text, as `summary_of` states it.
    pub fn generate_summary(text: &str) -> (r: Option<String>)
        ensures
            r is Some <==> summary_of(text@) is Some,
            r matches Some(s) ==> s@ == summary_of(text@).unwrap(),
    {
        let cs = chars_of(text);
        if cs.len() == 0 {
            return None;
        }
        let ls = split_lines(&cs);
        let mut i: usize = 0;
        let mut found = false;
        while !found && i < ls.len()
            invariant
                i <= ls.len(),
                first_content_line(lines_of(cs@), 0) == first_content_line(
                    ls.deep_view(),
                    i as int,
                ),
                ls.deep_view() == lines_of(cs@),
                found ==> i < ls.len() && !is_blank_line(ls.deep_view()[i as int]),
            decreases ls.len() - i + (if found {
                0int
            } else {
                1int
            }),
        {
            proof {
                assert(ls.deep_view()[i as int] =~= ls@[i as int]@);
            }
            if !is_blank(&ls[i]) {
                found = true;
            } else {
                i = i + 1;
            }
        }
        if found {
            let l = &ls[i];
            let mut out: Vec<char> = Vec::new();
            if l.len() > 200 {
                let mut k: usize = 0;
                while k < 200
                    invariant
                        k <= 200,
                        l@.len() > 200,
                        out@ == l@.take(k as int),
                        l@ == first_content_line(lines_of(cs@), 0),
                    decreases 200 - k,
                {
                    out.push(l[k]);
                    proof {
                        assert(l@.take(k + 1) =~= l@.take(k as int).push(l@[k as int]));
                    }
                    k = k + 1;
                }
                let mut s = chars_to_string(&out);
                s.append("...");
                Some(s)
            } else {
                Some(chars_to_string(l))
            }
        } else {
            // Every line is blank: the summary is the empty first line.
            proof {
                assert(first_content_line(lines_of(cs@), 0) =~= Seq::<char>::empty());
            }
            Some(String::new())
        }
    }
}

/// The byte-order-mark kind of a byte stream: 0 for UTF-8 or none, 1 for
/// UTF-16LE, 2 for UTF-16BE.
pub open spec fn bom_kind_of(b: Seq<u8>) -> int {
    if b.len() >= 3 && b[0] == 0xEF && b[1] == 0xBB && b[2] == 0xBF {
        0
    } else if b.len() >= 2 && b[0] == 0xFF && b[1] == 0xFE {
        1
    } else if b.len() >= 2 && b[0] == 0xFE && b[1] == 0xFF {
        2
    } else {
        0
    }
}

/// The byte length of the byte-order mark, 0 when there is none.
pub open spec fn bom_len_of(b: Seq<u8>) -> int {
    if b.len() >= 3 && b[0] == 0xEF && b[1] == 0xBB && b[2] == 0xBF {
        3
    } else if b.len() >= 2 && (b[0] == 0xFF && b[1] == 0xFE || b[0] == 0xFE && b[1] == 0xFF) {
        2
    } else {
        0
    }
}

/// Sniffs the byte-order mark.
pub fn detect_bom(b: &[u8]) -> (r: (u8, usize))
    ensures
        r.0 == bom_kind_of(b@),
        r.1 == bom_len_of(b@),
        r.0 <= 2,
        r.1 <= b@.len(),
{
    if b.len() >= 3 && b[0] == 0xEF && b[1] == 0xBB && b[2] == 0xBF {
        (0, 3)
    } else if b.len() >= 2 && b[0] == 0xFF && b[1] == 0xFE {
        (1, 2)
    } else if b.len() >= 2 && b[0] == 0xFE && b[1] == 0xFF {
        (2, 2)
    } else {
        (0, 0)
    }
}

/// The text a byte stream decodes to: the bytes past the byte-order mark,
/// decoded as UTF-8 when valid, else best-effort in the mark's encoding.
pub open spec fn text_decoded(b: Seq<u8>) -> Seq<char> {
    let rest = b.skip(bom_len_of(b));
    if vstd::utf8::valid_utf8(rest) {
        vstd::utf8::decode_utf8(rest)
    } else {
        decoded_lossy(bom_kind_of(b), rest).0
    }
}

/// Whether the best-effort decode had to replace anything.
pub open spec fn decode_replaced(b: Seq<u8>) -> bool {
    let rest = b.skip(bom_len_of(b));
    !vstd::utf8::valid_utf8(rest) && decoded_lossy(bom_kind_of(b), rest).1
}

/// The warning a best-effort decode records, naming its encoding.
pub open spec fn encoding_warning_of(kind: int) -> Seq<char> {
    if kind == 1 {
        "File decoded as UTF-16LE with replacement characters for invalid sequences"@
    } else if kind == 2 {
        "File decoded as UTF-16BE with replacement characters for invalid sequences"@
    } else {
        "File decoded as UTF-8 with replacement characters for invalid sequences"@
    }
}

/// What extraction from plain-text bytes promises: the record of the
/// decoded text, and exactly one warning, naming the encoding, exactly when
/// the best-effort decode replaced a malformed sequence.
pub open spec fn text_post(bytes: Seq<u8>, c: ExtractedContent) -> bool {
    &&& extracted_wf(c, text_decoded(bytes))
    &&& (!decode_replaced(bytes) ==> c.warnings@ =~= Seq::<String>::empty())
    &&& (decode_replaced(bytes) ==> c.warnings@.len() == 1 && c.warnings@[0]@
        == encoding_warning_of(bom_kind_of(bytes)))
}

/// Extractor for plain text: byte-order-mark detection, strict UTF-8 first,
/// best-effort decoding as a fallback.
pub struct TextExtractor;

impl TextExtractor {
    /// Decodes a file's bytes and builds its extract record. Valid UTF-8
    /// yields no warning; a best-effort decode carries one.
    pub fn extract_bytes(bytes: &[u8]) -> (r: ExtractedContent)
        ensures
            text_post(bytes@, r),
    {
        let (kind, bom_len) = detect_bom(bytes);
        let rest = vstd::slice::slice_subrange(bytes, bom_len, bytes.len());
        proof {
            assert(rest@ =~= bytes@.skip(bom_len_of(bytes@)));
        }
        match utf8_to_string(rest) {
            Some(text) => ExtractedContent::new(text),
            None => {
                let (text, had_errors) = decode_lossy(kind, rest);
                let content = ExtractedContent::new(text);
                if had_errors {
                    let warning: String = if kind == 1 {
                        String::from_str(
                            "File decoded as UTF-16LE with replacement characters for invalid sequences",
                        )
                    } else if kind == 2 {
                        String::from_str(
                            "File decoded as UTF-16BE with replacement characters for invalid sequences",
                        )
                    } else {
                        String::from_str(
                            "File decoded as UTF-8 with replacement characters for invalid sequences",
                        )
                    };
                    content.with_warning(warning)
                } else {
                    content
                }
            },
        }
    }
}

/// The lines of a text, each trimmed, blank ones dropped, from `i` on.
pub open spec fn clean_lines_from(ls: Seq<Seq<char>>, i: int) -> Seq<Seq<char>>
    decreases ls.len() - i,
    when 0 <= i <= ls.len()
{
    if i >= ls.len() {
        Seq::empty()
    } else if trim_of(ls[i]).len() == 0 {
        clean_lines_from(ls, i + 1)
    } else {
        seq![trim_of(ls[i])] + clean_lines_from(ls, i + 1)
    }
}

/// Words joined with a single newline between neighbours.
pub open spec fn join_newlines(ws: Seq<Seq<char>>) -> Seq<char>
    decreases ws.len(),
{
    if ws.len() == 0 {
        Seq::empty()
    } else if ws.len() == 1 {
        ws[0]
    } else {
        ws[0] + seq!['\n'] + join_newlines(ws.drop_first())
    }
}

/// Appending one more segment appends a newline and the segment.
pub proof fn lemma_join_newlines_push(ws: Seq<Seq<char>>, w: Seq<char>)
    ensures
        ws.len() == 0 ==> join_newlines(ws.push(w)) == w,
        ws.len() > 0 ==> join_newlines(ws.push(w)) == join_newlines(ws) + seq!['\n'] + w,
    decreases ws.len(),
{
    if ws.len() == 0 {
        assert(ws.push(w)[0] =~= w);
    } else if ws.len() == 1 {
        assert(ws.push(w)[0] == ws[0]);
        assert(ws.push(w).drop_first() =~= seq![w]);
        assert(join_newlines(seq![w]) == w);
        assert(join_newlines(ws) == ws[0]);
    } else {
        assert(ws.push(w).drop_first() =~= ws.drop_first().push(w));
        lemma_join_newlines_push(ws.drop_first(), w);
    }
}

/// What the PDF post-clean yields: each line trimmed, blank lines dropped,
/// the rest joined with newlines.
pub open spec fn pdf_cleaned_of(s: Seq<char>) -> Seq<char> {
    join_newlines(clean_lines_from(lines_of(s), 0))
}

/// Joins segments with a single newline between neighbours.
fn join_with_newlines(ws: &Vec<Vec<char>>) -> (v: Vec<char>)
    ensures
        v@ == join_newlines(ws.deep_view()),
{
    let mut v: Vec<char> = Vec::new();
    let mut i: usize = 0;
    proof {
        assert(v@ =~= join_newlines(ws.deep_view().take(0)));
    }
    while i < ws.len()
        invariant
            i <= ws.len(),
            v@ == join_newlines(ws.deep_view().take(i as int)),
        decreases ws.len() - i,
    {
        let ghost prefix = ws.deep_view().take(i as int);
        if i > 0 {
            v.push('\n');
        }
        let w = &ws[i];
        let mut k: usize = 0;
        let ghost mid = v@;
        while k < w.len()
            invariant
                k <= w.len(),
                v@ == mid + w@.take(k as int),
                w@ == ws.deep_view()[i as int],
                i < ws.len(),
            decreases w.len() - k,
        {
            v.push(w[k]);
            proof {
                assert(w@.take(k + 1) =~= w@.take(k as int).push(w@[k as int]));
                assert(mid + w@.take(k as int).push(w@[k as int]) =~= (mid + w@.take(
                    k as int,
                )).push(w@[k as int]));
            }
            k = k + 1;
        }
        proof {
            assert(w@.take(w@.len() as int) =~= w@);
            assert(ws.deep_view().take(i + 1) =~= prefix.push(ws.deep_view()[i as int]));
            lemma_join_newlines_push(prefix, ws.deep_view()[i as int]);
            if i > 0 {
                assert(join_newlines(prefix) + seq!['\n'] =~= join_newlines(prefix).push('\n'));
            } else {
                assert(prefix.len() == 0);
                assert(mid =~= Seq::<char>::empty());
                assert(mid + w@ =~= w@);
            }
        }
        i = i + 1;
    }
    proof {
        assert(ws.deep_view().take(ws.deep_view().len() as int) =~= ws.deep_view());
    }
    v
}

/// Extractor for PDF files: page text, post-cleaned line by line.
pub struct PdfExtractor;

impl PdfExtractor {
    /// Trims each line and drops the blank ones.
    pub fn clean_pdf_text(text: &str) -> (r: String)
        ensures
            r@ == pdf_cleaned_of(text@),
    {
        let cs = chars_of(text);
        let ls = split_lines(&cs);
        let mut kept: Vec<Vec<char>> = Vec::new();
        let mut i: usize = 0;
        proof {
            assert(kept.deep_view() =~~= Seq::<Seq<char>>::empty());
            assert(kept.deep_view() + clean_lines_from(ls.deep_view(), 0) =~= clean_lines_from(
                ls.deep_view(),
                0,
            ));
        }
        while i < ls.len()
            invariant
                i <= ls.len(),
                kept.deep_view() + clean_lines_from(ls.deep_view(), i as int) == clean_lines_from(
                    ls.deep_view(),
                    0,
                ),
                ls.deep_view() == lines_of(cs@),
            decreases ls.len() - i,
        {
            let ghost prev = kept.deep_view();
            proof {
                assert(ls.deep_view()[i as int] =~= ls@[i as int]@);
            }
            let t = trim_chars(&ls[i]);
            if t.len() > 0 {
                let ghost tv = t@;
                kept.push(t);
                proof {
                    assert(kept.deep_view() =~~= prev.push(tv));
                    assert(prev.push(tv) + clean_lines_from(ls.deep_view(), i + 1) =~= prev + (seq![
                        tv,
                    ] + clean_lines_from(ls.deep_view(), i + 1)));
                }
            }
            i = i + 1;
        }
        let joined = join_with_newlines(&kept);
        proof {
            assert(kept.deep_view() + Seq::<Seq<char>>::empty() =~= kept.deep_view());
        }
        chars_to_string(&joined)
    }

    /// What building the record from extracted page text promises: exactly
    /// on extracted text, the record of its cleaned form; on an extraction
    /// failure, an extraction error for the path. The page extraction
    /// itself is the caller's: the PDF reader can die on malformed input,
    /// so the process shell contains it and hands the outcome here.
    pub open spec fn pdf_post(
        path: Seq<char>,
        extracted: Result<String, String>,
        r: Result<ExtractedContent, CortexError>,
    ) -> bool {
        &&& (r is Ok <==> extracted is Ok)
        &&& (extracted matches Ok(t) ==> (r matches Ok(c) && extracted_wf(
            c,
            pdf_cleaned_of(t@),
        ) && c.warnings@ =~= Seq::<String>::empty()))
        &&& (r matches Err(e) ==> e matches CortexError::ExtractionFailed { path: p, .. } && p@
            == path)
    }

    /// Builds the extract record from a PDF's page text, or passes the page
    /// extraction failure on as an extraction error.
    pub fn from_page_text(path: &str, extracted: Result<String, String>) -> (r: Result<
        ExtractedContent,
        CortexError,
    >)
        ensures
            Self::pdf_post(path@, extracted, r),
    {
        match extracted {
            Ok(text) => {
                let cleaned = Self::clean_pdf_text(text.as_str());
                Ok(ExtractedContent::new(cleaned))
            },
            Err(e) => {
                let mut msg = String::from_str("Failed to parse PDF: ");
                msg.append(e.as_str());
                Err(
                    CortexError::ExtractionFailed {
                        path: String::from_str(path),
                        error: msg,
                    },
                )
            },
        }
    }
}

/// Extractor for DOCX files: each paragraph's run text, one line each.
pub struct DocxExtractor;

impl DocxExtractor {
    /// What building the record from extracted paragraphs promises: exactly
    /// on extracted paragraphs, the record of their newline-joined, trimmed
    /// text; on an extraction failure, an extraction error for the path.
    /// The DOCX parse itself is the caller's: the reader can die on
    /// malformed archives, so the process shell contains it and hands the
    /// outcome here.
    pub open spec fn docx_post(
        path: Seq<char>,
        extracted: Result<Vec<String>, String>,
        r: Result<ExtractedContent, CortexError>,
    ) -> bool {
        &&& (r is Ok <==> extracted is Ok)
        &&& (extracted matches Ok(paras) ==> (r matches Ok(c) && extracted_wf(
            c,
            trim_of(join_newlines(paras.deep_view())),
        ) && c.warnings@ =~= Seq::<String>::empty()))
        &&& (r matches Err(e) ==> e matches CortexError::ExtractionFailed { path: p, .. } && p@
            == path)
    }

    /// Builds the extract record from a DOCX document's paragraph texts, or
    /// passes the parse failure on as an extraction error.
    pub fn from_paragraphs(path: &str, extracted: Result<Vec<String>, String>) -> (r: Result<
        ExtractedContent,
        CortexError,
    >)
        ensures
            Self::docx_post(path@, extracted, r),
    {
        match extracted {
            Ok(paras) => {
                let mut pv: Vec<Vec<char>> = Vec::new();
                let mut i: usize = 0;
                proof {
                    assert(pv.deep_view() =~~= paras.deep_view().take(0));
                }
                while i < paras.len()
                    invariant
                        i <= paras.len(),
                        pv.deep_view() == paras.deep_view().take(i as int),
                    decreases paras.len() - i,
                {
                    let ghost prev = pv.deep_view();
                    let cs = chars_of(paras[i].as_str());
                    let ghost cv = cs@;
                    pv.push(cs);
                    proof {
                        assert(pv.deep_view() =~~= prev.push(cv));
                        assert(paras.deep_view().take(i + 1) =~= paras.deep_view().take(
                            i as int,
                        ).push(paras.deep_view()[i as int]));
                    }
                    i = i + 1;
                }
                proof {
                    assert(paras.deep_view().take(paras.deep_view().len() as int)
                        =~= paras.deep_view());
                }
                let joined = join_with_newlines(&pv);
                let trimmed = trim_chars(&joined);
                Ok(ExtractedContent::new(chars_to_string(&trimmed)))
            },
            Err(e) => {
                let mut msg = String::from_str("Failed to parse DOCX: ");
                msg.append(e.as_str());
                Err(
                    CortexError::ExtractionFailed {
                        path: String::from_str(path),
                        error: msg,
                    },
                )
            },
        }
    }
}

/// The dispatch key of a path: its lower-cased extension, empty when none.
pub open spec fn dispatch_ext(path: Seq<char>) -> Seq<char> {
    if crate::path::extension_of(path) is Some {
        crate::path::lower_seq(crate::path::extension_of(path).unwrap())
    } else {
        Seq::empty()
    }
}

/// The format-dispatching extractor: picks a back-end by the file's
/// lower-cased extension; unknown extensions run the text back-end.
pub struct ContentExtractor;

impl ContentExtractor {
    /// What dispatching extraction promises, extension by extension. The
    /// PDF page text and the DOCX paragraph list are the process shell's to
    /// extract (their readers can die on malformed input); the shell hands
    /// the contained outcomes in.
    pub open spec fn extract_post(
        path: Seq<char>,
        bytes: Seq<u8>,
        pdf_text: Option<Result<String, String>>,
        docx_paras: Option<Result<Vec<String>, String>>,
        r: Result<ExtractedContent, CortexError>,
    ) -> bool {
        let e = dispatch_ext(path);
        if e == "md"@ {
            crate::markdown::MarkdownExtractor::md_post(path, bytes, r)
        } else if e == "docx"@ {
            match docx_paras {
                Option::Some(o) => DocxExtractor::docx_post(path, o, r),
                Option::None => r matches Err(err) && err matches CortexError::ExtractionFailed {
                    path: p,
                    ..
                } && p@ == path,
            }
        } else if e == "pdf"@ {
            match pdf_text {
                Option::Some(o) => PdfExtractor::pdf_post(path, o, r),
                Option::None => r matches Err(err) && err matches CortexError::ExtractionFailed {
                    path: p,
                    ..
                } && p@ == path,
            }
        } else {
            r is Ok && (r matches Ok(c) ==> text_post(bytes, c))
        }
    }

    /// Extracts a file's content from its bytes, dispatching on the
    /// extension of `path`; a PDF is built from the page text, and a DOCX
    /// from the paragraph list, that the caller extracted and contained.
    pub fn extract_bytes(
        path: &str,
        bytes: &[u8],
        pdf_text: Option<Result<String, String>>,
        docx_paras: Option<Result<Vec<String>, String>>,
    ) -> (r: Result<ExtractedContent, CortexError>)
        ensures
            Self::extract_post(path@, bytes@, pdf_text, docx_paras, r),
    {
        let key: String = match crate::path::extension_lower(path) {
            Some(s) => s,
            None => String::new(),
        };
        let kv = crate::text::chars_of(key.as_str());
        proof {
            assert(kv@ == dispatch_ext(path@));
        }
        if crate::path::chars_eq_str(&kv, "md") {
            crate::markdown::MarkdownExtractor::extract_bytes(path, bytes)
        } else if crate::path::chars_eq_str(&kv, "docx") {
            match docx_paras {
                Some(o) => DocxExtractor::from_paragraphs(path, o),
                None => Err(
                    CortexError::ExtractionFailed {
                        path: String::from_str(path),
                        error: String::from_str("no extracted paragraph list was supplied"),
                    },
                ),
            }
        } else if crate::path::chars_eq_str(&kv, "pdf") {
            match pdf_text {
                Some(o) => PdfExtractor::from_page_text(path, o),
                None => Err(
                    CortexError::ExtractionFailed {
                        path: String::from_str(path),
                        error: String::from_str("no extracted page text was supplied"),
                    },
                ),
            }
        } else {
            Ok(TextExtractor::extract_bytes(bytes))
        }
    }
}

} // verus!
