//! Markdown-to-plain-text rendering: headings lose their markers, list items
//! become lines prefixed with a bullet, code fences are dropped while their
//! content is kept, inline code contributes its literal text, link text
//! stays without its target, soft breaks become spaces and blank lines
//! separate paragraphs.

use vstd::prelude::*;

use crate::error::CortexError;
use crate::ext::chars_to_string;
use crate::extract::{
    is_blank_line,
    lines_of,
    split_lines,
    trim_chars,
    trim_front,
    trim_of,
    ExtractedContent,
    extracted_wf,
};
use crate::text::chars_of;

verus! {

/// Inline rendering from position `i`: backticks and asterisks vanish, an
/// underscore beside a word boundary (an emphasis delimiter) vanishes while
/// one inside a word stays, and the bracketed text of a link stays while
/// `(target)` after `]` is skipped.
pub open spec fn md_inline_from(s: Seq<char>, i: int, in_url: bool) -> Seq<char>
    decreases s.len() - i,
    when 0 <= i <= s.len()
{
    if i >= s.len() {
        Seq::empty()
    } else {
        let c = s[i];
        if in_url {
            if c == ')' {
                md_inline_from(s, i + 1, false)
            } else {
                md_inline_from(s, i + 1, true)
            }
        } else if c == '`' || c == '*' || c == '[' {
            md_inline_from(s, i + 1, false)
        } else if c == '_' && (i == 0 || crate::text::is_space_char(s[i - 1]) || i + 1 == s.len()
            || crate::text::is_space_char(s[i + 1])) {
            md_inline_from(s, i + 1, false)
        } else if c == ']' {
            if i + 1 < s.len() && s[i + 1] == '(' {
                md_inline_from(s, i + 2, true)
            } else {
                md_inline_from(s, i + 1, false)
            }
        } else {
            seq![c] + md_inline_from(s, i + 1, false)
        }
    }
}

/// The inline rendering of a whole line.
pub open spec fn md_inline(s: Seq<char>) -> Seq<char> {
    md_inline_from(s, 0, false)
}

/// Renders the inline content of a line.
pub fn md_inline_chars(v: &Vec<char>) -> (r: Vec<char>)
    ensures
        r@ == md_inline(v@),
{
    let mut out: Vec<char> = Vec::new();
    let mut i: usize = 0;
    let mut in_url = false;
    proof {
        assert(out@ + md_inline_from(v@, 0, false) =~= md_inline_from(v@, 0, false));
    }
    while i < v.len()
        invariant
            i <= v.len(),
            out@ + md_inline_from(v@, i as int, in_url) == md_inline(v@),
        decreases v.len() - i,
    {
        let ghost prev = out@;
        let ghost prev_url = in_url;
        let ghost prev_i = i as int;
        let c = v[i];
        if in_url {
            if c == ')' {
                in_url = false;
            }
            i = i + 1;
        } else if c == '`' || c == '*' || c == '[' {
            i = i + 1;
        } else if c == '_' && (i == 0 || crate::text::is_space(v[i - 1]) || i + 1 == v.len()
            || crate::text::is_space(v[i + 1])) {
            i = i + 1;
        } else if c == ']' {
            if i + 1 < v.len() && v[i + 1] == '(' {
                in_url = true;
                i = i + 2;
            } else {
                i = i + 1;
            }
        } else {
            out.push(c);
            i = i + 1;
            proof {
                assert(prev + (seq![c] + md_inline_from(v@, i as int, false)) =~= prev.push(c)
                    + md_inline_from(v@, i as int, false));
            }
        }
        proof {
            assert(prev + md_inline_from(v@, prev_i, prev_url) == out@ + md_inline_from(
                v@,
                i as int,
                in_url,
            ));
        }
    }
    proof {
        assert(out@ + Seq::<char>::empty() =~= out@);
    }
    out
}

/// The length of the leading run of `c`.
pub open spec fn count_leading(s: Seq<char>, c: char) -> int
    decreases s.len(),
{
    if s.len() > 0 && s[0] == c {
        1 + count_leading(s.drop_first(), c)
    } else {
        0
    }
}

pub proof fn lemma_count_leading_range(s: Seq<char>, c: char)
    ensures
        0 <= count_leading(s, c) <= s.len(),
    decreases s.len(),
{
    if s.len() > 0 && s[0] == c {
        lemma_count_leading_range(s.drop_first(), c);
    }
}

/// A code-fence line: its visible content starts with three backticks.
pub open spec fn is_fence_line(l: Seq<char>) -> bool {
    let t = trim_front(l);
    t.len() >= 3 && t[0] == '`' && t[1] == '`' && t[2] == '`'
}

/// The heading level of a line: the leading `#` count when 1 to 6 of them
/// stand at the front followed by a space or the end; otherwise 0.
pub open spec fn heading_level_of(l: Seq<char>) -> int {
    let t = trim_front(l);
    let k = count_leading(t, '#');
    if 1 <= k <= 6 && (k == t.len() || t[k] == ' ') {
        k
    } else {
        0
    }
}

/// The text of a heading line, markers stripped.
pub open spec fn heading_content(l: Seq<char>) -> Seq<char> {
    trim_of(trim_front(l).skip(heading_level_of(l)))
}

/// A decimal digit.
pub open spec fn is_digit_char(c: char) -> bool {
    48 <= c as u32 && c as u32 <= 57
}

/// The length of the leading digit run.
pub open spec fn count_digits(s: Seq<char>) -> int
    decreases s.len(),
{
    if s.len() > 0 && is_digit_char(s[0]) {
        1 + count_digits(s.drop_first())
    } else {
        0
    }
}

pub proof fn lemma_count_digits_range(s: Seq<char>)
    ensures
        0 <= count_digits(s) <= s.len(),
    decreases s.len(),
{
    if s.len() > 0 && is_digit_char(s[0]) {
        lemma_count_digits_range(s.drop_first());
    }
}

/// A bullet list item: a `-`, `*` or `+` marker followed by a space.
pub open spec fn is_bullet_line(l: Seq<char>) -> bool {
    let t = trim_front(l);
    t.len() >= 2 && (t[0] == '-' || t[0] == '*' || t[0] == '+') && t[1] == ' '
}

/// An ordered list item: digits, a `.` or `)`, and a space.
pub open spec fn is_ordered_line(l: Seq<char>) -> bool {
    let t = trim_front(l);
    let d = count_digits(t);
    d >= 1 && d + 1 < t.len() && (t[d] == '.' || t[d] == ')') && t[d + 1] == ' '
}

/// A list-item line of either kind.
pub open spec fn is_list_line(l: Seq<char>) -> bool {
    is_bullet_line(l) || is_ordered_line(l)
}

/// The text of a list item, its marker stripped.
pub open spec fn list_content(l: Seq<char>) -> Seq<char> {
    let t = trim_front(l);
    if is_bullet_line(l) {
        trim_of(t.skip(2))
    } else {
        trim_of(t.skip(count_digits(t) + 2))
    }
}

/// A newline when a paragraph is open, else nothing.
pub open spec fn para_break(para: bool) -> Seq<char> {
    if para {
        seq!['\n']
    } else {
        Seq::empty()
    }
}

/// A hard line break: the raw line ends with two spaces.
pub open spec fn ends_hard_break(l: Seq<char>) -> bool {
    l.len() >= 2 && l[l.len() - 1] == ' ' && l[l.len() - 2] == ' '
}

/// The rendering of the lines from `i` on, given whether a code fence and a
/// paragraph are open and whether the previous paragraph line asked for a
/// hard break (which joins with a newline instead of a space).
pub open spec fn md_render_from(
    ls: Seq<Seq<char>>,
    i: int,
    code: bool,
    para: bool,
    hard: bool,
) -> Seq<char>
    decreases ls.len() - i,
    when 0 <= i <= ls.len()
{
    if i >= ls.len() {
        para_break(para)
    } else {
        let l = ls[i];
        if is_fence_line(l) {
            if code {
                seq!['\n'] + md_render_from(ls, i + 1, false, false, false)
            } else {
                para_break(para) + md_render_from(ls, i + 1, true, false, false)
            }
        } else if code {
            l + seq!['\n'] + md_render_from(ls, i + 1, true, false, false)
        } else if is_blank_line(l) {
            para_break(para) + md_render_from(ls, i + 1, false, false, false)
        } else if heading_level_of(l) > 0 {
            para_break(para) + md_inline(heading_content(l)) + seq!['\n'] + md_render_from(
                ls,
                i + 1,
                false,
                false,
                false,
            )
        } else if is_list_line(l) {
            para_break(para) + seq!['\u{2022}', ' '] + md_inline(list_content(l)) + seq!['\n']
                + md_render_from(ls, i + 1, false, false, false)
        } else {
            (if para {
                if hard {
                    seq!['\n']
                } else {
                    seq![' ']
                }
            } else {
                Seq::empty()
            }) + md_inline(trim_of(l)) + md_render_from(ls, i + 1, false, true, ends_hard_break(l))
        }
    }
}

/// The plain text a Markdown document renders to.
pub open spec fn md_text_of(s: Seq<char>) -> Seq<char> {
    trim_of(md_render_from(lines_of(s), 0, false, false, false))
}

/// Removes leading whitespace.
fn trim_front_chars(v: &Vec<char>) -> (r: Vec<char>)
    ensures
        r@ == trim_front(v@),
{
    let mut a: usize = 0;
    proof {
        assert(v@.skip(0) =~= v@);
    }
    while a < v.len() && crate::text::is_space(v[a])
        invariant
            a <= v.len(),
            trim_front(v@) == trim_front(v@.skip(a as int)),
        decreases v.len() - a,
    {
        proof {
            assert(v@.skip(a as int)[0] == v@[a as int]);
            assert(v@.skip(a as int).drop_first() =~= v@.skip(a + 1));
        }
        a = a + 1;
    }
    proof {
        if a < v@.len() {
            assert(v@.skip(a as int)[0] == v@[a as int]);
        } else {
            assert(v@.skip(a as int) =~= Seq::<char>::empty());
        }
        assert(trim_front(v@) == v@.skip(a as int));
    }
    let mut r: Vec<char> = Vec::new();
    let mut k: usize = a;
    while k < v.len()
        invariant
            a <= k <= v.len(),
            r@ == v@.subrange(a as int, k as int),
        decreases v.len() - k,
    {
        r.push(v[k]);
        proof {
            assert(v@.subrange(a as int, k + 1) =~= v@.subrange(a as int, k as int).push(
                v@[k as int],
            ));
        }
        k = k + 1;
    }
    proof {
        assert(v@.subrange(a as int, v@.len() as int) =~= v@.skip(a as int));
    }
    r
}

/// Counts the leading run of `c`.
fn count_leading_chars(v: &Vec<char>, c: char) -> (n: usize)
    ensures
        n == count_leading(v@, c),
{
    proof {
        lemma_count_leading_range(v@, c);
    }
    let mut n: usize = 0;
    proof {
        assert(v@.skip(0) =~= v@);
    }
    while n < v.len() && v[n] == c
        invariant
            n <= v.len(),
            count_leading(v@, c) == n + count_leading(v@.skip(n as int), c),
        decreases v.len() - n,
    {
        proof {
            assert(v@.skip(n as int)[0] == v@[n as int]);
            assert(v@.skip(n as int).drop_first() =~= v@.skip(n + 1));
            lemma_count_leading_range(v@.skip(n + 1), c);
        }
        n = n + 1;
    }
    proof {
        if n < v@.len() {
            assert(v@.skip(n as int)[0] == v@[n as int]);
        } else {
            assert(v@.skip(n as int) =~= Seq::<char>::empty());
        }
    }
    n
}

/// Counts the leading digit run.
fn count_digit_chars(v: &Vec<char>) -> (n: usize)
    ensures
        n == count_digits(v@),
{
    proof {
        lemma_count_digits_range(v@);
    }
    let mut n: usize = 0;
    proof {
        assert(v@.skip(0) =~= v@);
    }
    while n < v.len() && 48 <= (v[n] as u32) && (v[n] as u32) <= 57
        invariant
            n <= v.len(),
            count_digits(v@) == n + count_digits(v@.skip(n as int)),
        decreases v.len() - n,
    {
        proof {
            assert(v@.skip(n as int)[0] == v@[n as int]);
            assert(v@.skip(n as int).drop_first() =~= v@.skip(n + 1));
            lemma_count_digits_range(v@.skip(n + 1));
        }
        n = n + 1;
    }
    proof {
        if n < v@.len() {
            assert(v@.skip(n as int)[0] == v@[n as int]);
        } else {
            assert(v@.skip(n as int) =~= Seq::<char>::empty());
        }
    }
    n
}

/// Copies `v` from `from` on.
fn skip_chars(v: &Vec<char>, from: usize) -> (r: Vec<char>)
    requires
        from <= v@.len(),
    ensures
        r@ == v@.skip(from as int),
{
    let mut r: Vec<char> = Vec::new();
    let mut k: usize = from;
    while k < v.len()
        invariant
            from <= k <= v.len(),
            r@ == v@.subrange(from as int, k as int),
        decreases v.len() - k,
    {
        r.push(v[k]);
        proof {
            assert(v@.subrange(from as int, k + 1) =~= v@.subrange(from as int, k as int).push(
                v@[k as int],
            ));
        }
        k = k + 1;
    }
    proof {
        assert(v@.subrange(from as int, v@.len() as int) =~= v@.skip(from as int));
    }
    r
}

/// Converts a Markdown document to plain text, as `md_text_of` states it.
#[verifier::rlimit(100)]
pub fn markdown_to_text(s: &str) -> (r: String)
    ensures
        r@ == md_text_of(s@),
{
    let cs = chars_of(s);
    let ls = split_lines(&cs);
    let ghost dv = ls.deep_view();
    let mut out: Vec<char> = Vec::new();
    let mut code = false;
    let mut para = false;
    let mut hard = false;
    let mut i: usize = 0;
    proof {
        assert(out@ + md_render_from(dv, 0, false, false, false) =~= md_render_from(
            dv,
            0,
            false,
            false,
            false,
        ));
    }
    while i < ls.len()
        invariant
            i <= ls.len(),
            dv == ls.deep_view(),
            dv == lines_of(cs@),
            code ==> !para,
            out@ + md_render_from(dv, i as int, code, para, hard) == md_render_from(
                dv,
                0,
                false,
                false,
                false,
            ),
        decreases ls.len() - i,
    {
        let ghost prev = out@;
        let ghost prev_code = code;
        let ghost prev_para = para;
        let ghost prev_hard = hard;
        proof {
            assert(dv[i as int] =~= ls@[i as int]@);
        }
        let line = &ls[i];
        let t = trim_front_chars(line);
        let fence = t.len() >= 3 && t[0] == '`' && t[1] == '`' && t[2] == '`';
        proof {
            assert(fence == is_fence_line(dv[i as int]));
        }
        if fence {
            if code {
                out.push('\n');
                code = false;
                proof {
                    assert(out@ =~= prev + seq!['\n']);
                }
            } else {
                if para {
                    out.push('\n');
                }
                code = true;
                proof {
                    assert(out@ =~= prev + para_break(prev_para));
                }
            }
            para = false;
            hard = false;
        } else if code {
            let mut body = skip_chars(line, 0);
            proof {
                assert(line@.skip(0) =~= line@);
                assert(body@ == dv[i as int]);
            }
            out.append(&mut body);
            out.push('\n');
            hard = false;
            proof {
                assert(out@ =~= prev + dv[i as int] + seq!['\n']);
            }
        } else {
            let blank = crate::extract::is_blank(line);
            if blank {
                if para {
                    out.push('\n');
                }
                para = false;
                hard = false;
                proof {
                    assert(out@ =~= prev + para_break(prev_para));
                }
            } else {
                let hashes = count_leading_chars(&t, '#');
                let heading = 1 <= hashes && hashes <= 6 && (hashes == t.len() || (hashes < t.len()
                    && t[hashes] == ' '));
                proof {
                    lemma_count_leading_range(t@, '#');
                    assert(heading == (heading_level_of(dv[i as int]) > 0));
                }
                if heading {
                    if para {
                        out.push('\n');
                    }
                    let rest = skip_chars(&t, hashes);
                    let content = trim_chars(&rest);
                    proof {
                        assert(content@ == heading_content(dv[i as int]));
                    }
                    let ghost hc = heading_content(dv[i as int]);
                    let mut inline = md_inline_chars(&content);
                    out.append(&mut inline);
                    out.push('\n');
                    para = false;
                    hard = false;
                    proof {
                        assert(out@ =~= prev + para_break(prev_para) + md_inline(hc) + seq!['\n']);
                    }
                } else {
                    let bullet = t.len() >= 2 && (t[0] == '-' || t[0] == '*' || t[0] == '+') && t[1]
                        == ' ';
                    let digits = count_digit_chars(&t);
                    let ordered = digits >= 1 && t.len() >= 2 && digits <= t.len() - 2 && (
                    t[digits] == '.' || t[digits] == ')') && t[digits + 1] == ' ';
                    proof {
                        lemma_count_digits_range(t@);
                        assert(bullet == is_bullet_line(dv[i as int]));
                        assert(ordered == is_ordered_line(dv[i as int]));
                    }
                    if bullet || ordered {
                        if para {
                            out.push('\n');
                        }
                        out.push('\u{2022}');
                        out.push(' ');
                        let rest = if bullet {
                            skip_chars(&t, 2)
                        } else {
                            skip_chars(&t, digits + 2)
                        };
                        let content = trim_chars(&rest);
                        proof {
                            assert(content@ == list_content(dv[i as int]));
                        }
                        let ghost lc = list_content(dv[i as int]);
                        let mut inline = md_inline_chars(&content);
                        out.append(&mut inline);
                        out.push('\n');
                        para = false;
                        hard = false;
                        proof {
                            assert(out@ =~= prev + para_break(prev_para) + seq!['\u{2022}', ' ']
                                + md_inline(lc) + seq!['\n']);
                        }
                    } else {
                        if para {
                            if hard {
                                out.push('\n');
                            } else {
                                out.push(' ');
                            }
                        }
                        let content = trim_chars(line);
                        proof {
                            assert(content@ == trim_of(dv[i as int]));
                        }
                        let ghost tc = trim_of(dv[i as int]);
                        let mut inline = md_inline_chars(&content);
                        out.append(&mut inline);
                        para = true;
                        code = false;
                        hard = line.len() >= 2 && line[line.len() - 1] == ' ' && line[line.len()
                            - 2] == ' ';
                        proof {
                            assert(hard == ends_hard_break(dv[i as int]));
                            assert(out@ =~= prev + (if prev_para {
                                if prev_hard {
                                    seq!['\n']
                                } else {
                                    seq![' ']
                                }
                            } else {
                                Seq::<char>::empty()
                            }) + md_inline(tc));
                        }
                    }
                }
            }
        }
        proof {
            assert(prev + md_render_from(dv, i as int, prev_code, prev_para, prev_hard) =~= out@
                + md_render_from(dv, i + 1, code, para, hard));
        }
        i = i + 1;
    }
    let ghost closing = out@;
    if para {
        out.push('\n');
    }
    proof {
        if para {
            assert(out@ =~= closing + para_break(para));
        } else {
            assert(out@ =~= closing + para_break(para));
        }
    }
    let trimmed = trim_chars(&out);
    chars_to_string(&trimmed)
}

/// Extractor for Markdown files.
pub struct MarkdownExtractor;

impl MarkdownExtractor {
    /// What extraction from Markdown bytes promises: exactly on valid UTF-8
    /// input, the record of the rendered plain text; else an extraction
    /// error for the path.
    pub open spec fn md_post(path: Seq<char>, bytes: Seq<u8>, r: Result<
        ExtractedContent,
        CortexError,
    >) -> bool {
        &&& (r is Ok <==> vstd::utf8::valid_utf8(bytes))
        &&& (r matches Ok(c) ==> extracted_wf(c, md_text_of(vstd::utf8::decode_utf8(bytes)))
            && c.warnings@ =~= Seq::<String>::empty())
        &&& (r matches Err(e) ==> e matches CortexError::ExtractionFailed { path: p, .. } && p@
            == path)
    }

    /// Renders a Markdown document's bytes to a plain-text extract record.
    pub fn extract_bytes(path: &str, bytes: &[u8]) -> (r: Result<ExtractedContent, CortexError>)
        ensures
            Self::md_post(path@, bytes@, r),
    {
        match crate::ext::utf8_to_string(bytes) {
            Some(text) => {
                let rendered = markdown_to_text(text.as_str());
                Ok(ExtractedContent::new(rendered))
            },
            None => Err(
                CortexError::ExtractionFailed {
                    path: String::from_str(path),
                    error: String::from_str("Failed to read file: invalid UTF-8"),
                },
            ),
        }
    }
}

} // verus!
