//! Export machinery: re-chunking stored text for portable packages, size
//! formatting, and the configuration and result records of the two export
//! shapes.

use vstd::prelude::*;

use crate::error::CortexError;
use crate::ext::chars_to_string;
use crate::text::{
    chars_of,
    is_plain_word,
    is_space_char,
    join_spaces,
    join_with_spaces,
    lemma_words_of_join,
    split_whitespace_chars,
    utf8_len_of,
    word_count_of,
    words_of,
    ws_state,
};

verus! {

/// Every word the splitter yields is plain: non-empty and free of
/// whitespace.
pub proof fn lemma_ws_state_plain(s: Seq<char>, cur: Seq<char>, acc: Seq<Seq<char>>)
    requires
        forall|k: int| 0 <= k < cur.len() ==> !is_space_char(#[trigger] cur[k]),
        forall|k: int| 0 <= k < acc.len() ==> is_plain_word(#[trigger] acc[k]),
    ensures
        forall|k: int|
            0 <= k < ws_state(s, cur, acc).0.len() ==> !is_space_char(
                #[trigger] ws_state(s, cur, acc).0[k],
            ),
        forall|k: int|
            0 <= k < ws_state(s, cur, acc).1.len() ==> is_plain_word(
                #[trigger] ws_state(s, cur, acc).1[k],
            ),
    decreases s.len(),
{
    if s.len() == 0 {
        assert(ws_state(s, cur, acc) == (cur, acc));
    } else if is_space_char(s[0]) {
        if cur.len() > 0 {
            assert(is_plain_word(cur));
            assert(forall|k: int|
                0 <= k < acc.push(cur).len() ==> is_plain_word(#[trigger] acc.push(cur)[k]));
            lemma_ws_state_plain(s.drop_first(), Seq::empty(), acc.push(cur));
            assert(ws_state(s, cur, acc) == ws_state(s.drop_first(), Seq::empty(), acc.push(cur)));
        } else {
            lemma_ws_state_plain(s.drop_first(), Seq::empty(), acc);
            assert(ws_state(s, cur, acc) == ws_state(s.drop_first(), Seq::empty(), acc));
        }
    } else {
        assert(forall|k: int|
            0 <= k < cur.push(s[0]).len() ==> !is_space_char(#[trigger] cur.push(s[0])[k]));
        lemma_ws_state_plain(s.drop_first(), cur.push(s[0]), acc);
        assert(ws_state(s, cur, acc) == ws_state(s.drop_first(), cur.push(s[0]), acc));
    }
}

/// Every word of a text is plain.
pub proof fn lemma_words_plain(s: Seq<char>)
    ensures
        forall|k: int| 0 <= k < words_of(s).len() ==> is_plain_word(#[trigger] words_of(s)[k]),
{
    lemma_ws_state_plain(s, Seq::empty(), Seq::empty());
}

/// Word runs cut into pieces of `per` words, the remainder last.
pub open spec fn chunks_of_words(ws: Seq<Seq<char>>, per: int) -> Seq<Seq<Seq<char>>>
    decreases ws.len(),
    when per >= 1
{
    if ws.len() == 0 {
        Seq::empty()
    } else if ws.len() <= per {
        seq![ws]
    } else {
        seq![ws.take(per)] + chunks_of_words(ws.skip(per), per)
    }
}

/// Cutting into pieces loses no word: the piece lengths sum to the whole.
pub proof fn lemma_chunks_of_words_total(ws: Seq<Seq<char>>, per: int)
    requires
        per >= 1,
    ensures
        sum_chunk_words(chunks_of_words(ws, per)) == ws.len(),
        forall|k: int|
            0 <= k < chunks_of_words(ws, per).len() ==> (forall|m: int|
                0 <= m < (#[trigger] chunks_of_words(ws, per)[k]).len() ==> ws.contains(
                    #[trigger] chunks_of_words(ws, per)[k][m],
                )),
    decreases ws.len(),
{
    if ws.len() == 0 {
    } else if ws.len() <= per {
        assert(chunks_of_words(ws, per) == seq![ws]);
        assert(sum_chunk_words(seq![ws]) == ws.len() + sum_chunk_words(
            seq![ws].drop_first(),
        ));
        assert(seq![ws].drop_first() =~= Seq::<Seq<Seq<char>>>::empty());
        assert forall|k: int| 0 <= k < chunks_of_words(ws, per).len() implies (forall|m: int|
            0 <= m < (#[trigger] chunks_of_words(ws, per)[k]).len() ==> ws.contains(
                #[trigger] chunks_of_words(ws, per)[k][m],
            )) by {
            assert(chunks_of_words(ws, per)[k] == ws);
            assert forall|m: int| 0 <= m < ws.len() implies ws.contains(#[trigger] ws[m]) by {}
        }
    } else {
        lemma_chunks_of_words_total(ws.skip(per), per);
        let whole = chunks_of_words(ws, per);
        assert(whole == seq![ws.take(per)] + chunks_of_words(ws.skip(per), per));
        assert(whole[0] == ws.take(per));
        assert(whole.drop_first() =~= chunks_of_words(ws.skip(per), per));
        assert(sum_chunk_words(whole) == whole[0].len() + sum_chunk_words(whole.drop_first()));
        assert forall|k: int| 0 <= k < whole.len() implies (forall|m: int|
            0 <= m < (#[trigger] whole[k]).len() ==> ws.contains(#[trigger] whole[k][m])) by {
            if k == 0 {
                assert forall|m: int| 0 <= m < whole[0].len() implies ws.contains(
                    #[trigger] whole[0][m],
                ) by {
                    assert(whole[0][m] == ws[m]);
                }
            } else {
                assert(whole[k] == chunks_of_words(ws.skip(per), per)[k - 1]);
                assert forall|m: int| 0 <= m < whole[k].len() implies ws.contains(
                    #[trigger] whole[k][m],
                ) by {
                    assert(ws.skip(per).contains(whole[k][m]));
                    let w = choose|w: int|
                        0 <= w < ws.skip(per).len() && ws.skip(per)[w] == whole[k][m];
                    assert(ws[per + w] == whole[k][m]);
                }
            }
        }
    }
}

/// The total word count of a run of word chunks.
pub open spec fn sum_chunk_words(cs: Seq<Seq<Seq<char>>>) -> int
    decreases cs.len(),
{
    if cs.len() == 0 {
        0
    } else {
        cs[0].len() + sum_chunk_words(cs.drop_first())
    }
}

/// The number of words an export chunk is built from.
pub open spec fn words_per_chunk(target_tokens: int) -> int {
    let per = target_tokens * 3 / 4;
    if per >= 1 {
        per
    } else {
        1
    }
}

/// The chunk texts of a stored text: pieces of `words_per_chunk` words each
/// joined by single spaces, the remainder last; a text without words gives
/// one chunk holding the raw text.
pub open spec fn chunk_texts_of(text: Seq<char>, target_tokens: int) -> Seq<Seq<char>> {
    let ws = words_of(text);
    if ws.len() == 0 {
        seq![text]
    } else {
        chunks_of_words(ws, words_per_chunk(target_tokens)).map_values(
            |c: Seq<Seq<char>>| join_spaces(c),
        )
    }
}

/// The total word count of a run of chunk texts.
pub open spec fn sum_chunk_text_words(cs: Seq<Seq<char>>) -> int
    decreases cs.len(),
{
    if cs.len() == 0 {
        0
    } else {
        word_count_of(cs[0]) + sum_chunk_text_words(cs.drop_first())
    }
}

/// Chunking loses no word: whenever the text has at least one word, the
/// word counts of its chunks sum to the word count of the text.
pub proof fn lemma_chunking_preserves_words(text: Seq<char>, target_tokens: int)
    requires
        word_count_of(text) > 0,
    ensures
        sum_chunk_text_words(chunk_texts_of(text, target_tokens)) == word_count_of(text),
{
    let ws = words_of(text);
    let per = words_per_chunk(target_tokens);
    let pieces = chunks_of_words(ws, per);
    let texts = pieces.map_values(|c: Seq<Seq<char>>| join_spaces(c));
    lemma_words_plain(text);
    lemma_chunks_of_words_total(ws, per);
    assert forall|k: int| 0 <= k < texts.len() implies word_count_of(#[trigger] texts[k])
        == pieces[k].len() by {
        assert forall|m: int| 0 <= m < pieces[k].len() implies is_plain_word(
            #[trigger] pieces[k][m],
        ) by {
            assert(ws.contains(pieces[k][m]));
            let w = choose|w: int| 0 <= w < ws.len() && ws[w] == pieces[k][m];
            assert(is_plain_word(ws[w]));
        }
        lemma_words_of_join(pieces[k]);
    }
    lemma_sum_chunk_text_words(pieces, texts);
}

/// Summing chunk word counts equals summing piece lengths when each chunk's
/// words are exactly its piece.
proof fn lemma_sum_chunk_text_words(pieces: Seq<Seq<Seq<char>>>, texts: Seq<Seq<char>>)
    requires
        texts.len() == pieces.len(),
        forall|k: int|
            0 <= k < texts.len() ==> word_count_of(#[trigger] texts[k]) == pieces[k].len(),
    ensures
        sum_chunk_text_words(texts) == sum_chunk_words(pieces),
    decreases texts.len(),
{
    if texts.len() > 0 {
        assert(texts.drop_first().len() == pieces.drop_first().len());
        assert forall|k: int| 0 <= k < texts.drop_first().len() implies word_count_of(
            #[trigger] texts.drop_first()[k],
        ) == pieces.drop_first()[k].len() by {
            assert(texts.drop_first()[k] == texts[k + 1]);
            assert(pieces.drop_first()[k] == pieces[k + 1]);
        }
        lemma_sum_chunk_text_words(pieces.drop_first(), texts.drop_first());
    }
}

/// Cuts a stored text into export chunks: `target_tokens * 3 / 4` words per
/// chunk (at least one), the remainder as a final chunk; a text without
/// words yields one chunk holding the raw text.
pub fn chunk_text(text: &str, target_tokens: usize) -> (r: Vec<String>)
    ensures
        r.deep_view() == chunk_texts_of(text@, target_tokens as int),
{
    let cs = chars_of(text);
    let ws = split_whitespace_chars(&cs);
    let ghost wv = ws.deep_view();
    if ws.len() == 0 {
        let mut out: Vec<String> = Vec::new();
        out.push(String::from_str(text));
        proof {
            assert(out.deep_view() =~~= chunk_texts_of(text@, target_tokens as int));
        }
        return out;
    }
    let mut per: usize = {
        let p = (target_tokens / 4) * 3 + (target_tokens % 4) * 3 / 4;
        if p >= 1 {
            p
        } else {
            1
        }
    };
    proof {
        assert(target_tokens as int * 3 / 4 == (target_tokens as int / 4) * 3 + (target_tokens
            as int % 4) * 3 / 4) by (nonlinear_arith);
        assert(per as int == words_per_chunk(target_tokens as int));
    }
    let ghost gper = per as int;
    let wlen = ws.len();
    let mut out: Vec<String> = Vec::new();
    let mut i: usize = 0;
    proof {
        assert(wv.skip(0) =~= wv);
        assert(out.deep_view() =~~= Seq::<Seq<char>>::empty());
        assert(Seq::<Seq<char>>::empty() + chunks_of_words(wv.skip(0), gper).map_values(
            |c: Seq<Seq<char>>| join_spaces(c),
        ) =~= chunks_of_words(wv, gper).map_values(|c: Seq<Seq<char>>| join_spaces(c)));
    }
    while i < ws.len()
        invariant
            i <= wv.len(),
            wv == ws.deep_view(),
            wv.len() == wlen,
            gper == per as int,
            per >= 1,
            gper == words_per_chunk(target_tokens as int),
            out.deep_view() + chunks_of_words(wv.skip(i as int), gper).map_values(
                |c: Seq<Seq<char>>| join_spaces(c),
            ) == chunks_of_words(wv, gper).map_values(|c: Seq<Seq<char>>| join_spaces(c)),
        decreases wv.len() - i,
    {
        let remaining = ws.len() - i;
        let take_n = if remaining <= per {
            remaining
        } else {
            per
        };
        let mut piece: Vec<Vec<char>> = Vec::new();
        let mut k: usize = 0;
        proof {
            assert(piece.deep_view() =~~= wv.skip(i as int).take(0));
        }
        while k < take_n
            invariant
                k <= take_n,
                i + take_n <= wv.len(),
                wv.len() == wlen,
                wv == ws.deep_view(),
                piece.deep_view() == wv.skip(i as int).take(k as int),
            decreases take_n - k,
        {
            let ghost prev = piece.deep_view();
            let w = crate::search::copy_chars(&ws[i + k]);
            proof {
                assert(w@ =~= wv[i + k]);
                assert(wv.skip(i as int)[k as int] == wv[i + k]);
            }
            piece.push(w);
            proof {
                assert(piece.deep_view() =~~= prev.push(wv.skip(i as int)[k as int]));
                assert(wv.skip(i as int).take(k + 1) =~= wv.skip(i as int).take(k as int).push(
                    wv.skip(i as int)[k as int],
                ));
            }
            k = k + 1;
        }
        let joined = join_with_spaces(&piece);
        let ghost prev_out = out.deep_view();
        let ghost rest = wv.skip(i as int);
        out.push(chars_to_string(&joined));
        proof {
            assert(out.deep_view() =~~= prev_out.push(join_spaces(rest.take(take_n as int))));
            let mapped = chunks_of_words(rest, gper).map_values(
                |c: Seq<Seq<char>>| join_spaces(c),
            );
            if rest.len() <= gper {
                assert(take_n as int == rest.len());
                assert(rest.take(take_n as int) =~= rest);
                assert(chunks_of_words(rest, gper) == seq![rest]);
                assert(mapped =~= seq![join_spaces(rest)]);
                assert(wv.skip(i + take_n) =~= Seq::<Seq<char>>::empty());
                assert(chunks_of_words(wv.skip(i + take_n), gper) == Seq::<Seq<Seq<char>>>::empty());
                assert(Seq::<Seq<Seq<char>>>::empty().map_values(
                    |c: Seq<Seq<char>>| join_spaces(c),
                ) =~= Seq::<Seq<char>>::empty());
                assert(prev_out.push(join_spaces(rest)) + Seq::<Seq<char>>::empty() =~= prev_out
                    + mapped);
            } else {
                assert(take_n as int == gper);
                assert(chunks_of_words(rest, gper) == seq![rest.take(gper)] + chunks_of_words(
                    rest.skip(gper),
                    gper,
                ));
                assert(rest.skip(gper) =~= wv.skip(i + take_n));
                assert(mapped =~= seq![join_spaces(rest.take(gper))] + chunks_of_words(
                    wv.skip(i + take_n),
                    gper,
                ).map_values(|c: Seq<Seq<char>>| join_spaces(c)));
                assert(prev_out.push(join_spaces(rest.take(gper))) + chunks_of_words(
                    wv.skip(i + take_n),
                    gper,
                ).map_values(|c: Seq<Seq<char>>| join_spaces(c)) =~= prev_out + mapped);
            }
        }
        i = i + take_n;
    }
    proof {
        assert(wv.skip(wv.len() as int) =~= Seq::<Seq<char>>::empty());
        assert(chunks_of_words(Seq::<Seq<char>>::empty(), gper) == Seq::<Seq<Seq<char>>>::empty());
        assert(Seq::<Seq<Seq<char>>>::empty().map_values(|c: Seq<Seq<char>>| join_spaces(c)) =~= Seq::<
            Seq<char>,
        >::empty());
        assert(out.deep_view() + Seq::<Seq<char>>::empty() =~= out.deep_view());
        assert(out.deep_view() =~= chunk_texts_of(text@, target_tokens as int));
    }
    out
}

/// The token estimate of a chunk text: a quarter of its UTF-8 byte length,
/// saturated at the type bound.
pub open spec fn token_estimate_of(c: Seq<char>) -> u32 {
    if utf8_len_of(c) / 4 <= u32::MAX {
        (utf8_len_of(c) / 4) as u32
    } else {
        u32::MAX
    }
}

/// Estimates the token count of a chunk, as `token_estimate_of` states it.
pub fn estimate_tokens(text: &str) -> (r: u32)
    ensures
        r == token_estimate_of(text@),
{
    let cs = chars_of(text);
    let mut n: u64 = 0;
    let mut i: usize = 0;
    proof {
        assert(cs@.skip(0) =~= cs@);
    }
    while i < cs.len()
        invariant
            i <= cs@.len(),
            cs@ == text@,
            n as int == (if utf8_len_of(cs@.take(i as int)) <= u64::MAX {
                utf8_len_of(cs@.take(i as int))
            } else {
                u64::MAX as int
            }),
        decreases cs@.len() - i,
    {
        proof {
            assert(cs@.take(i + 1).drop_last() =~= cs@.take(i as int));
            assert(cs@.take(i + 1).last() == cs@[i as int]);
            lemma_utf8_take_step(cs@, i as int);
        }
        let u = cs[i] as u32;
        let w: u64 = if u < 0x80 {
            1
        } else if u < 0x800 {
            2
        } else if u < 0x10000 {
            3
        } else {
            4
        };
        if n <= u64::MAX - w {
            n = n + w;
        } else {
            n = u64::MAX;
        }
        i = i + 1;
    }
    proof {
        assert(cs@.take(cs@.len() as int) =~= cs@);
    }
    let q = n / 4;
    if q <= (u32::MAX as u64) {
        q as u32
    } else {
        u32::MAX
    }
}

/// Appending one character adds its encoding width to the byte length.
proof fn lemma_utf8_take_step(s: Seq<char>, i: int)
    requires
        0 <= i < s.len(),
    ensures
        utf8_len_of(s.take(i + 1)) == utf8_len_of(s.take(i)) + crate::text::char_utf8_len(s[i]),
    decreases i,
{
    if i == 0 {
        assert(s.take(1).drop_first() =~= s.take(0));
        assert(s.take(1)[0] == s[0]);
        assert(utf8_len_of(s.take(0)) == 0);
    } else {
        lemma_utf8_take_step(s.drop_first(), i - 1);
        assert(s.take(i + 1)[0] == s[0]);
        assert(s.take(i + 1).drop_first() =~= s.drop_first().take(i));
        assert(s.take(i)[0] == s[0]);
        assert(s.take(i).drop_first() =~= s.drop_first().take(i - 1));
        assert(s.drop_first()[i - 1] == s[i]);
    }
}


/// The unit suffix for a size scale.
pub open spec fn size_unit_name(k: int) -> Seq<char> {
    if k == 0 {
        seq!['B']
    } else if k == 1 {
        seq!['K', 'B']
    } else if k == 2 {
        seq!['M', 'B']
    } else {
        seq!['G', 'B']
    }
}

/// The scale a byte count is shown in: bytes, kibi-, mebi- or gibibytes.
pub open spec fn size_unit_index(b: int) -> int {
    if b < 1024 {
        0
    } else if b < 1048576 {
        1
    } else if b < 1073741824 {
        2
    } else {
        3
    }
}

/// The divisor of a scale.
pub open spec fn size_divisor(k: int) -> int {
    if k == 0 {
        1
    } else if k == 1 {
        1024
    } else if k == 2 {
        1048576
    } else {
        1073741824
    }
}

/// A non-negative byte count scaled to hundredths of its unit, rounded
/// half-up.
pub open spec fn size_hundredths(b: int) -> int {
    (b * 200 / size_divisor(size_unit_index(b)) + 1) / 2
}

/// The rendering of a non-negative byte count: the scaled value with two
/// decimals and the unit.
pub open spec fn format_size_nonneg(b: int) -> Seq<char> {
    let h = size_hundredths(b);
    crate::text::dec_digits_of((h / 100) as nat) + seq!['.'] + seq![
        crate::text::digit_char(h / 10 % 10),
        crate::text::digit_char(h % 10),
    ] + seq![' '] + size_unit_name(size_unit_index(b))
}

/// The rendering of any byte count; a negative count keeps its sign.
pub open spec fn format_size_of(b: int) -> Seq<char> {
    if b < 0 {
        seq!['-'] + format_size_nonneg(-b)
    } else {
        format_size_nonneg(b)
    }
}

/// Renders a byte count as a human-readable size with two decimals, as
/// `format_size_of` states it.
pub fn format_file_size(bytes: i64) -> (r: String)
    ensures
        r@ == format_size_of(bytes as int),
{
    let neg = bytes < 0;
    let m: i128 = if neg {
        -(bytes as i128)
    } else {
        bytes as i128
    };
    let (k, d): (u8, i128) = if m < 1024 {
        (0, 1)
    } else if m < 1048576 {
        (1, 1024)
    } else if m < 1073741824 {
        (2, 1048576)
    } else {
        (3, 1073741824)
    };
    proof {
        assert(m * 200 <= 0x8000000000000000 * 200) by (nonlinear_arith)
            requires
                m <= 0x8000000000000000,
        ;
        assert(m >= 0);
        assert(m * 200 >= 0) by (nonlinear_arith)
            requires
                m >= 0,
        ;
        assert(k as int == size_unit_index(m as int));
        assert(d as int == size_divisor(k as int));
        if k == 3 {
            assert(m * 200 / 1073741824 <= 0x8000000000000000 * 200 / 1073741824)
                by (nonlinear_arith)
                requires
                    0 <= m <= 0x8000000000000000,
            ;
        }
    }
    let h: i128 = (m * 200 / d + 1) / 2;
    proof {
        assert(h as int == size_hundredths(m as int));
        assert(0 <= h <= 0xFFFFFFFFFFFFFFFF);
    }
    let h64 = h as u64;
    let whole = crate::text::u64_digits(h64 / 100);
    let mut out: Vec<char> = Vec::new();
    if neg {
        out.push('-');
    }
    let mut whole2 = whole;
    out.append(&mut whole2);
    out.push('.');
    out.push(((48 + (h64 / 10 % 10)) as u8) as char);
    out.push(((48 + (h64 % 10)) as u8) as char);
    out.push(' ');
    if k == 0 {
        out.push('B');
    } else if k == 1 {
        out.push('K');
        out.push('B');
    } else if k == 2 {
        out.push('M');
        out.push('B');
    } else {
        out.push('G');
        out.push('B');
    }
    proof {
        if neg {
            assert(m as int == -(bytes as int));
            assert(out@ =~= seq!['-'] + format_size_nonneg(m as int));
        } else {
            assert(out@ =~= format_size_nonneg(bytes as int));
        }
    }
    chars_to_string(&out)
}

/// Configuration of a context-bundle export.
#[derive(Debug, Clone)]
pub struct ExportConfig {
    /// An optional collection to restrict to (none: the whole index).
    pub collection_id: Option<String>,
    /// Whether embeddings are included.
    pub include_embeddings: bool,
    /// The output directory.
    pub output_path: String,
    /// Whether the prompt templates are written.
    pub include_prompts: bool,
    /// A project name, detected when absent.
    pub project_name: Option<String>,
    /// Extra context appended verbatim.
    pub custom_context: Option<String>,
}

impl Default for ExportConfig {
    /// The defaults: no collection, no embeddings, prompts on, the
    /// `.cortex-export` directory.
    fn default() -> (r: ExportConfig)
        ensures
            r.collection_id is None,
            r.include_embeddings == false,
            r.output_path@ == ".cortex-export"@,
            r.include_prompts == true,
            r.project_name is None,
            r.custom_context is None,
    {
        ExportConfig {
            collection_id: None,
            include_embeddings: false,
            output_path: String::from_str(".cortex-export"),
            include_prompts: true,
            project_name: None,
            custom_context: None,
        }
    }
}

/// Statistics of a finished context-bundle export.
#[derive(Debug, Clone)]
pub struct ExportStats {
    pub total_files: usize,
    pub total_chunks: usize,
    pub total_size_bytes: i64,
    pub files_with_embeddings: usize,
    pub prompts_generated: usize,
}

/// The result of a context-bundle export.
#[derive(Debug, Clone)]
pub struct ExportResult {
    pub context_file: String,
    pub starter_prompt_file: String,
    pub prompt_files: Vec<String>,
    pub stats: ExportStats,
    pub exported_at: String,
}

/// Store totals shown before an export.
#[derive(Debug, Clone)]
pub struct ExportStatsInfo {
    pub total_files: usize,
    pub indexed_files: usize,
    pub total_size: i64,
    pub total_size_human: String,
    pub embedded_files: usize,
}

/// The export mode of a portable package.
#[derive(Debug, Clone, Copy, PartialEq, Eq, Structural)]
pub enum RakeExportMode {
    /// Every indexed file.
    Full,
    /// Only changes since the last sync.
    Incremental,
    /// One collection.
    Collection,
}

/// The wire name of an export mode.
pub open spec fn mode_name_of(m: RakeExportMode) -> Seq<char> {
    match m {
        RakeExportMode::Full => "full"@,
        RakeExportMode::Incremental => "incremental"@,
        RakeExportMode::Collection => "collection"@,
    }
}

/// Renders an export mode's wire name.
pub fn mode_name(m: RakeExportMode) -> (r: String)
    ensures
        r@ == mode_name_of(m),
{
    match m {
        RakeExportMode::Full => String::from_str("full"),
        RakeExportMode::Incremental => String::from_str("incremental"),
        RakeExportMode::Collection => String::from_str("collection"),
    }
}

/// Parses an export mode's wire name; anything else is refused.
pub fn parse_export_mode(s: &str) -> (r: Option<RakeExportMode>)
    ensures
        r == Some(RakeExportMode::Full) <==> s@ == "full"@,
        r == Some(RakeExportMode::Incremental) <==> s@ == "incremental"@,
        r == Some(RakeExportMode::Collection) <==> s@ == "collection"@,
        r is None <==> (s@ != "full"@ && s@ != "incremental"@ && s@ != "collection"@),
{
    proof {
        reveal_strlit("full");
        reveal_strlit("incremental");
        reveal_strlit("collection");
        assert("full"@.len() == 4);
        assert("incremental"@.len() == 11);
        assert("collection"@.len() == 10);
        assert("full"@ != "incremental"@);
        assert("full"@ != "collection"@);
        assert("incremental"@ != "collection"@);
    }
    let sv = chars_of(s);
    if crate::path::chars_eq_str(&sv, "full") {
        Some(RakeExportMode::Full)
    } else if crate::path::chars_eq_str(&sv, "incremental") {
        Some(RakeExportMode::Incremental)
    } else if crate::path::chars_eq_str(&sv, "collection") {
        Some(RakeExportMode::Collection)
    } else {
        None
    }
}

/// Configuration of a portable-package export.
#[derive(Debug, Clone)]
pub struct RakeExportConfig {
    pub collection_id: Option<String>,
    pub tenant_id: String,
    pub output_path: String,
    pub include_embeddings: bool,
    pub export_mode: RakeExportMode,
}

/// Metadata of a portable package.
#[derive(Debug, Clone)]
pub struct RakeExportMetadata {
    pub cortex_version: String,
    pub collection_id: Option<String>,
    pub collection_name: Option<String>,
    pub total_files: usize,
    pub total_chunks: usize,
    pub has_embeddings: bool,
    pub embedding_model: Option<String>,
    pub export_mode: String,
}

/// Chunk metadata of a portable package.
#[derive(Debug, Clone)]
pub struct RakeChunkMetadata {
    pub file_path: String,
    pub file_type: String,
    pub file_name: String,
    pub modified_at: String,
    pub collection_id: Option<String>,
    pub collection_name: Option<String>,
}

/// One chunk of a portable package; the embedding holds the vector's bit
/// patterns when included.
#[derive(Debug, Clone)]
pub struct RakeChunk {
    pub id: String,
    pub document_id: String,
    pub content: String,
    pub embedding: Option<Vec<u32>>,
    pub position: u32,
    pub token_count: u32,
    pub metadata: RakeChunkMetadata,
}

/// A portable package.
#[derive(Debug, Clone)]
pub struct RakeExportPackage {
    pub version: String,
    pub source: String,
    pub tenant_id: String,
    pub export_timestamp: String,
    pub metadata: RakeExportMetadata,
    pub chunks: Vec<RakeChunk>,
}

/// A preview of what an export would take.
#[derive(Debug, Clone)]
pub struct ExportPreview {
    pub file_count: usize,
    pub chunk_count: usize,
    pub estimated_size: i64,
    pub estimated_size_human: String,
    pub has_embeddings: bool,
    pub embedded_file_count: usize,
}


/// The mathematical shadow of a package chunk.
pub struct RakeChunkV {
    pub id: Seq<char>,
    pub document_id: Seq<char>,
    pub content: Seq<char>,
    pub embedding: Option<Seq<u32>>,
    pub position: u32,
    pub token_count: u32,
    pub file_path: Seq<char>,
    pub file_type: Seq<char>,
    pub file_name: Seq<char>,
    pub modified_at: Seq<char>,
    pub collection_id: Option<Seq<char>>,
}

impl View for RakeChunk {
    type V = RakeChunkV;

    open spec fn view(&self) -> RakeChunkV {
        RakeChunkV {
            id: self.id@,
            document_id: self.document_id@,
            content: self.content@,
            embedding: match self.embedding {
                Option::Some(v) => Option::Some(v@),
                Option::None => Option::None,
            },
            position: self.position,
            token_count: self.token_count,
            file_path: self.metadata.file_path@,
            file_type: self.metadata.file_type@,
            file_name: self.metadata.file_name@,
            modified_at: self.metadata.modified_at@,
            collection_id: match self.metadata.collection_id {
                Option::Some(c) => Option::Some(c@),
                Option::None => Option::None,
            },
        }
    }
}

/// The shadows of a run of package chunks.
pub open spec fn chunks_view(s: Seq<RakeChunk>) -> Seq<RakeChunkV> {
    Seq::new(s.len(), |i: int| s[i]@)
}

/// The digits a file identifier shows on the wire; identifiers are positive
/// in any store that satisfies its invariant.
pub open spec fn doc_id_digits(id: i64) -> Seq<char> {
    if id >= 0 {
        crate::text::dec_digits_of(id as nat)
    } else {
        crate::text::dec_digits_of(0)
    }
}

/// The position number of the chunk at `i`, saturated at the type bound.
pub open spec fn position_of(i: int) -> u32 {
    if i <= u32::MAX {
        i as u32
    } else {
        u32::MAX
    }
}

/// The embedding that rides on a file's chunks: the stored vector, exactly
/// when embeddings are asked for and one is stored.
pub open spec fn chunk_embedding(
    es: Seq<crate::store::EmbeddingV>,
    id: i64,
    with_emb: bool,
) -> Option<Seq<u32>> {
    if with_emb && crate::store::index_of_embv(es, id) >= 0 {
        Option::Some(es[crate::store::index_of_embv(es, id)].vector)
    } else {
        Option::None
    }
}

/// The shadow of one chunk of one file.
pub open spec fn chunk_of_file(
    f: crate::store::FileV,
    content: Seq<char>,
    pos: int,
    emb: Option<Seq<u32>>,
    cid: Option<Seq<char>>,
) -> RakeChunkV {
    RakeChunkV {
        id: doc_id_digits(f.id) + "-chunk-"@ + crate::text::dec_digits_of(
            position_of(pos) as nat,
        ),
        document_id: doc_id_digits(f.id),
        content,
        embedding: emb,
        position: position_of(pos),
        token_count: token_estimate_of(content),
        file_path: f.path,
        file_type: f.file_type,
        file_name: f.filename,
        modified_at: f.modified_at,
        collection_id: cid,
    }
}

/// The chunks one file contributes to the package: nothing without stored
/// text, else one chunk per chunk text, positions counted from zero.
pub open spec fn file_chunks(
    f: crate::store::FileV,
    cs: Seq<crate::store::ContentV>,
    es: Seq<crate::store::EmbeddingV>,
    with_emb: bool,
    cid: Option<Seq<char>>,
) -> Seq<RakeChunkV> {
    if f.is_deleted {
        Seq::empty()
    } else {
        match crate::search::text_of_opt(cs, f.id) {
            Option::Some(t) => {
                let texts = chunk_texts_of(t, 500);
                Seq::new(
                    texts.len(),
                    |i: int| chunk_of_file(f, texts[i], i, chunk_embedding(es, f.id, with_emb), cid),
                )
            },
            Option::None => Seq::empty(),
        }
    }
}

/// The chunks of the first `i` files, in file order.
pub open spec fn package_chunks(
    fs: Seq<crate::store::FileV>,
    cs: Seq<crate::store::ContentV>,
    es: Seq<crate::store::EmbeddingV>,
    with_emb: bool,
    cid: Option<Seq<char>>,
    i: int,
) -> Seq<RakeChunkV>
    decreases i,
{
    if i <= 0 {
        Seq::empty()
    } else {
        package_chunks(fs, cs, es, with_emb, cid, i - 1) + file_chunks(fs[i - 1], cs, es, with_emb, cid)
    }
}

/// The first `i` chunks depend on the first `i` files alone.
pub proof fn lemma_package_chunks_prefix(
    a: Seq<crate::store::FileV>,
    b: Seq<crate::store::FileV>,
    cs: Seq<crate::store::ContentV>,
    es: Seq<crate::store::EmbeddingV>,
    with_emb: bool,
    cid: Option<Seq<char>>,
    i: int,
)
    requires
        forall|k: int|
            0 <= k < i ==> 0 <= k < a.len() && 0 <= k < b.len() && #[trigger] a[k] == #[trigger] b[k],
    ensures
        package_chunks(a, cs, es, with_emb, cid, i) == package_chunks(b, cs, es, with_emb, cid, i),
    decreases i,
{
    if i > 0 {
        assert(a[i - 1] == b[i - 1]);
        lemma_package_chunks_prefix(a, b, cs, es, with_emb, cid, i - 1);
    }
}

/// The wire view of an optional collection identifier.
pub open spec fn cid_view(cid: Option<String>) -> Option<Seq<char>> {
    match cid {
        Option::Some(c) => Option::Some(c@),
        Option::None => Option::None,
    }
}

/// The chunk-count estimate one file's stored word count predicts: roughly
/// three quarters of the tokens, 375 words to a chunk, rounded up.
pub open spec fn file_chunk_estimate(
    f: crate::store::FileV,
    cs: Seq<crate::store::ContentV>,
) -> int {
    if f.is_deleted {
        0
    } else {
        let j = crate::store::index_of_contentv(cs, f.id);
        if j >= 0 {
            match cs[j].word_count {
                Option::Some(wc) => if wc > 0 {
                    (wc * 3 + 1499) / 1500
                } else {
                    0
                },
                Option::None => 0,
            }
        } else {
            0
        }
    }
}

/// The estimate summed over the first `i` files.
pub open spec fn estimate_sum(
    fs: Seq<crate::store::FileV>,
    cs: Seq<crate::store::ContentV>,
    i: int,
) -> int
    decreases i,
{
    if i <= 0 {
        0
    } else {
        estimate_sum(fs, cs, i - 1) + file_chunk_estimate(fs[i - 1], cs)
    }
}

/// What an assembled package promises of the store it was read from: fixed
/// wire fields, counts of the first ten thousand non-deleted files, and the
/// chunk list pinned file by file.
pub open spec fn export_post(
    db: crate::store::Database,
    config: RakeExportConfig,
    p: RakeExportPackage,
) -> bool {
    let lv = crate::store::live(db.filesv());
    let n = if lv.len() <= 10000 {
        lv.len() as int
    } else {
        10000int
    };
    &&& p.version@ == "1.0"@
    &&& p.source@ == "cortex_local"@
    &&& p.tenant_id@ == config.tenant_id@
    &&& p.metadata.cortex_version@ == "0.1.0"@
    &&& p.metadata.total_files == n
    &&& p.metadata.total_chunks == p.chunks@.len()
    &&& p.metadata.has_embeddings == config.include_embeddings
    &&& (p.metadata.embedding_model is Some <==> config.include_embeddings)
    &&& p.metadata.export_mode@ == mode_name_of(config.export_mode)
    &&& chunks_view(p.chunks@) == package_chunks(
        lv.take(n),
        db.contentsv(),
        db.embeddingsv(),
        config.include_embeddings,
        cid_view(config.collection_id),
        n,
    )
}

/// Exports the index as a portable package.
pub struct RakeExporter {
    pub db: crate::store::Database,
}

impl RakeExporter {
    /// Takes ownership of the store handle.
    pub fn new(db: crate::store::Database) -> (r: RakeExporter)
        ensures
            r.db == db,
    {
        RakeExporter { db }
    }

    /// Assembles the portable package over the first ten thousand
    /// non-deleted files: the chunk list equals, file by file in storage
    /// order, the chunking of each stored text, with wire identifiers,
    /// zero-based positions, token estimates and per-chunk metadata all
    /// pinned; embeddings ride along exactly when asked for and stored; the
    /// metadata counts those files and chunks.
    #[verifier::rlimit(80)]
    pub fn export(&self, config: &RakeExportConfig) -> (r: Result<RakeExportPackage, CortexError>)
        requires
            self.db.inv(),
        ensures
            r is Ok,
            r matches Ok(p) ==> export_post(self.db, *config, p),
    {
        let ghost fs = self.db.filesv();
        let ghost cs = self.db.contentsv();
        let ghost es = self.db.embeddingsv();
        let ghost inc = config.include_embeddings;
        let ghost cidv = cid_view(config.collection_id);
        let mut chunks: Vec<RakeChunk> = Vec::new();
        let mut fi: usize = 0;
        let mut processed: usize = 0;
        proof {
            reveal(Seq::filter);
            assert(fs.take(0) =~= Seq::<crate::store::FileV>::empty());
            assert(crate::store::live(fs.take(0)) =~= Seq::<crate::store::FileV>::empty());
            assert(chunks_view(chunks@) =~~= package_chunks(
                crate::store::live(fs.take(0)),
                cs,
                es,
                inc,
                cidv,
                0,
            ));
        }
        while fi < self.db.files.len() && processed < 10000
            invariant
                self.db.inv(),
                fs == self.db.filesv(),
                cs == self.db.contentsv(),
                es == self.db.embeddingsv(),
                inc == config.include_embeddings,
                cidv == cid_view(config.collection_id),
                fi <= fs.len(),
                processed == crate::store::live(fs.take(fi as int)).len(),
                processed <= 10000,
                chunks_view(chunks@) == package_chunks(
                    crate::store::live(fs.take(fi as int)),
                    cs,
                    es,
                    inc,
                    cidv,
                    processed as int,
                ),
            decreases fs.len() - fi,
        {
            proof {
                reveal(Seq::filter);
                assert(fs.take(fi + 1).drop_last() =~= fs.take(fi as int));
                assert(fs.take(fi + 1).last() == fs[fi as int]);
                fs.take(fi as int).lemma_filter_len(|f: crate::store::FileV| !f.is_deleted);
            }
            let f = &self.db.files[fi];
            if !f.is_deleted {
                let ghost lp = crate::store::live(fs.take(fi as int));
                let ghost fv = fs[fi as int];
                proof {
                    reveal(Seq::filter);
                    assert(crate::store::live(fs.take(fi + 1)) == lp.push(fv));
                }
                let content = match self.db.get_file_content(f.file_id()) {
                    Ok(c) => c,
                    Err(e) => {
                        return Err(e);
                    },
                };
                let ghost base_view = chunks_view(chunks@);
                match content {
                    Some(c) => {
                        match c.text_content {
                            Some(text) => {
                                proof {
                                    assert(crate::search::text_of_opt(cs, fv.id) == Some(text@));
                                }
                                let pieces = chunk_text(text.as_str(), 500);
                                let ghost texts = chunk_texts_of(text@, 500);
                                let emb: Option<Vec<u32>> = if config.include_embeddings {
                                    match self.db.get_embedding(f.file_id()) {
                                        Ok(Some(e)) => Some(e.vector),
                                        Ok(None) => None,
                                        Err(e) => {
                                            return Err(e);
                                        },
                                    }
                                } else {
                                    None
                                };
                                let ghost embv = chunk_embedding(es, fv.id, inc);
                                proof {
                                    assert(match emb {
                                        Some(v) => embv == Some(v@),
                                        None => embv is None,
                                    });
                                }
                                let mut ci: usize = 0;
                                let mut pos: u32 = 0;
                                proof {
                                    assert(file_chunks(fv, cs, es, inc, cidv) =~= Seq::new(
                                        texts.len(),
                                        |i: int| chunk_of_file(fv, texts[i], i, embv, cidv),
                                    ));
                                    assert(chunks_view(chunks@) =~~= base_view + file_chunks(
                                        fv,
                                        cs,
                                        es,
                                        inc,
                                        cidv,
                                    ).take(0));
                                }
                                while ci < pieces.len()
                                    invariant
                                        self.db.inv(),
                                        fs == self.db.filesv(),
                                        cs == self.db.contentsv(),
                                        es == self.db.embeddingsv(),
                                        inc == config.include_embeddings,
                                        cidv == cid_view(config.collection_id),
                                        fv == fs[fi as int],
                                        f@ == fv,
                                        fi < fs.len(),
                                        ci <= pieces@.len(),
                                        pieces.deep_view() == texts,
                                        texts == chunk_texts_of(text@, 500),
                                        crate::search::text_of_opt(cs, fv.id) == Some(text@),
                                        !fv.is_deleted,
                                        (match emb {
                                            Some(v) => embv == Some(v@),
                                            None => embv is None,
                                        }),
                                        embv == chunk_embedding(es, fv.id, inc),
                                        pos == position_of(ci as int),
                                        chunks_view(chunks@) == base_view + file_chunks(
                                            fv,
                                            cs,
                                            es,
                                            inc,
                                            cidv,
                                        ).take(ci as int),
                                    decreases pieces@.len() - ci,
                                {
                                    let piece = &pieces[ci];
                                    proof {
                                        assert(pieces.deep_view()[ci as int] =~= pieces@[ci as int]@);
                                    }
                                    let fid: u64 = if f.id >= 0 {
                                        f.id as u64
                                    } else {
                                        0
                                    };
                                    let mut idv = crate::text::u64_digits(fid);
                                    let mut tail = chars_of("-chunk-");
                                    idv.append(&mut tail);
                                    let mut posd = crate::text::u64_digits(pos as u64);
                                    idv.append(&mut posd);
                                    let tc = estimate_tokens(piece.as_str());
                                    let chunk = RakeChunk {
                                        id: chars_to_string(&idv),
                                        document_id: chars_to_string(&crate::text::u64_digits(fid)),
                                        content: String::from_str(piece.as_str()),
                                        embedding: match &emb {
                                            Some(v) => Some(crate::store::clone_vec_u32(v)),
                                            None => None,
                                        },
                                        position: pos,
                                        token_count: tc,
                                        metadata: RakeChunkMetadata {
                                            file_path: String::from_str(f.path.as_str()),
                                            file_type: String::from_str(f.file_type.as_str()),
                                            file_name: String::from_str(f.filename.as_str()),
                                            modified_at: String::from_str(f.modified_at.as_str()),
                                            collection_id: match &config.collection_id {
                                                Some(cid) => Some(String::from_str(cid.as_str())),
                                                None => None,
                                            },
                                            collection_name: None,
                                        },
                                    };
                                    let ghost prev = chunks_view(chunks@);
                                    proof {
                                        let target = chunk_of_file(
                                            fv,
                                            texts[ci as int],
                                            ci as int,
                                            embv,
                                            cidv,
                                        );
                                        assert(fid as nat == (if fv.id >= 0 {
                                            fv.id as nat
                                        } else {
                                            0nat
                                        }));
                                        assert(crate::text::dec_digits_of(fid as nat)
                                            =~= doc_id_digits(fv.id));
                                        assert(chunk@.id =~= target.id);
                                        assert(chunk@.document_id =~= target.document_id);
                                        assert(chunk@.content =~= target.content);
                                        assert(chunk@.embedding == target.embedding);
                                        assert(chunk@.position == target.position);
                                        assert(chunk@.token_count == target.token_count);
                                        assert(chunk@.file_path =~= target.file_path);
                                        assert(chunk@.file_type =~= target.file_type);
                                        assert(chunk@.file_name =~= target.file_name);
                                        assert(chunk@.modified_at =~= target.modified_at);
                                        assert(chunk@.collection_id == target.collection_id);
                                        assert(chunk@ == target);
                                    }
                                    chunks.push(chunk);
                                    proof {
                                        assert(chunks_view(chunks@) =~= prev.push(
                                            chunk_of_file(fv, texts[ci as int], ci as int, embv, cidv),
                                        ));
                                        assert(file_chunks(fv, cs, es, inc, cidv).take(ci + 1)
                                            =~= file_chunks(fv, cs, es, inc, cidv).take(
                                            ci as int,
                                        ).push(file_chunks(fv, cs, es, inc, cidv)[ci as int]));
                                        assert(chunks_view(chunks@) =~= base_view + file_chunks(
                                            fv,
                                            cs,
                                            es,
                                            inc,
                                            cidv,
                                        ).take(ci + 1));
                                    }
                                    if pos < u32::MAX {
                                        pos = pos + 1;
                                    }
                                    ci = ci + 1;
                                }
                                proof {
                                    assert(file_chunks(fv, cs, es, inc, cidv).take(
                                        file_chunks(fv, cs, es, inc, cidv).len() as int,
                                    ) =~= file_chunks(fv, cs, es, inc, cidv));
                                }
                            },
                            None => {
                                proof {
                                    assert(crate::search::text_of_opt(cs, fv.id) is None
                                        || crate::search::text_of_opt(cs, fv.id) == Option::<
                                        Seq<char>,
                                    >::None);
                                    assert(file_chunks(fv, cs, es, inc, cidv) =~= Seq::<
                                        RakeChunkV,
                                    >::empty());
                                    assert(chunks_view(chunks@) =~= base_view + file_chunks(
                                        fv,
                                        cs,
                                        es,
                                        inc,
                                        cidv,
                                    ));
                                }
                            },
                        }
                    },
                    None => {
                        proof {
                            assert(crate::search::text_of_opt(cs, fv.id) is None);
                            assert(file_chunks(fv, cs, es, inc, cidv) =~= Seq::<
                                RakeChunkV,
                            >::empty());
                            assert(chunks_view(chunks@) =~= base_view + file_chunks(
                                fv,
                                cs,
                                es,
                                inc,
                                cidv,
                            ));
                        }
                    },
                }
                proof {
                    let lp1 = crate::store::live(fs.take(fi + 1));
                    lemma_package_chunks_prefix(lp, lp1, cs, es, inc, cidv, processed as int);
                    assert(lp1[processed as int] == fv);
                    assert(package_chunks(lp1, cs, es, inc, cidv, processed as int + 1)
                        == package_chunks(lp1, cs, es, inc, cidv, processed as int) + file_chunks(
                        fv,
                        cs,
                        es,
                        inc,
                        cidv,
                    ));
                    assert(chunks_view(chunks@) =~= package_chunks(
                        lp1,
                        cs,
                        es,
                        inc,
                        cidv,
                        processed as int + 1,
                    ));
                }
                processed = processed + 1;
            } else {
                proof {
                    reveal(Seq::filter);
                    assert(crate::store::live(fs.take(fi + 1)) == crate::store::live(
                        fs.take(fi as int),
                    ));
                }
            }
            fi = fi + 1;
        }
        proof {
            reveal(Seq::filter);
            let lv = crate::store::live(fs);
            assert(fs.take(fi as int) + fs.skip(fi as int) =~= fs);
            Seq::filter_distributes_over_add(
                fs.take(fi as int),
                fs.skip(fi as int),
                |f: crate::store::FileV| !f.is_deleted,
            );
            assert(lv =~= crate::store::live(fs.take(fi as int)) + crate::store::live(
                fs.skip(fi as int),
            ));
            assert(crate::store::live(fs.take(fi as int)) =~= lv.take(processed as int));
            if fi == fs.len() {
                assert(fs.skip(fi as int) =~= Seq::<crate::store::FileV>::empty());
                assert(crate::store::live(fs.skip(fi as int)) =~= Seq::<
                    crate::store::FileV,
                >::empty());
                assert(processed == lv.len());
            } else {
                assert(processed == 10000);
                assert(lv.len() >= processed);
            }
        }
        let total_chunks = chunks.len();
        let metadata = RakeExportMetadata {
            cortex_version: String::from_str("0.1.0"),
            collection_id: match &config.collection_id {
                Some(cid) => Some(String::from_str(cid.as_str())),
                None => None,
            },
            collection_name: None,
            total_files: processed,
            total_chunks,
            has_embeddings: config.include_embeddings,
            embedding_model: if config.include_embeddings {
                Some(String::from_str("all-MiniLM-L6-v2"))
            } else {
                None
            },
            export_mode: mode_name(config.export_mode),
        };
        Ok(
            RakeExportPackage {
                version: String::from_str("1.0"),
                source: String::from_str("cortex_local"),
                tenant_id: String::from_str(config.tenant_id.as_str()),
                export_timestamp: crate::ext::current_time_rfc3339(),
                metadata,
                chunks,
            },
        )
    }

    /// Validates the output path and assembles the package: the write
    /// itself is the caller's, who receives the resolved path. Refused
    /// paths refuse the export, if and only if.
    pub fn prepare_export(
        &self,
        config: &RakeExportConfig,
        ctx: &crate::validate::PathContext,
    ) -> (r: Result<(String, RakeExportPackage), CortexError>)
        requires
            self.db.inv(),
        ensures
            r is Ok <==> crate::validate::path_accepted(
                config.output_path@,
                ctx.home_dir@,
                ctx.temp_dir@,
            ),
            r matches Ok(p) ==> p.0@ == crate::validate::resolved_path(
                config.output_path@,
                ctx.current_dir@,
            ) && export_post(self.db, *config, p.1),
    {
        let validated = match crate::validate::PathValidator::validate_export_path(
            config.output_path.as_str(),
            ctx,
        ) {
            Ok(p) => p,
            Err(e) => {
                return Err(e);
            },
        };
        match self.export(config) {
            Ok(package) => Ok((validated, package)),
            Err(e) => Err(e),
        }
    }

    /// Estimates the package without assembling it: the chunk-count
    /// estimate each stored word count predicts, summed, and the count of
    /// non-deleted files the export would read.
    pub fn preview_metadata(&self, config: &RakeExportConfig) -> (r: Result<
        RakeExportMetadata,
        CortexError,
    >)
        requires
            self.db.inv(),
        ensures
            r is Ok,
            r matches Ok(m) ==> {
                &&& m.cortex_version@ == "0.1.0"@
                &&& m.has_embeddings == config.include_embeddings
                &&& (m.embedding_model is Some <==> config.include_embeddings)
                &&& m.export_mode@ == mode_name_of(config.export_mode)
                &&& m.total_files as int == (if crate::store::count_live(self.db.filesv())
                    <= 10000 {
                    crate::store::count_live(self.db.filesv())
                } else {
                    10000int
                })
                &&& m.total_chunks as int == (if estimate_sum(
                    self.db.filesv(),
                    self.db.contentsv(),
                    self.db.filesv().len() as int,
                ) <= usize::MAX {
                    estimate_sum(
                        self.db.filesv(),
                        self.db.contentsv(),
                        self.db.filesv().len() as int,
                    )
                } else {
                    usize::MAX as int
                })
            },
    {
        let ghost fs = self.db.filesv();
        let ghost cs = self.db.contentsv();
        let total_live = match self.db.get_file_count() {
            Ok(n) => n,
            Err(e) => {
                return Err(e);
            },
        };
        let total_files: usize = if total_live >= 10000 {
            10000
        } else {
            clamp_usize(total_live)
        };
        let mut total_chunks: usize = 0;
        let mut fi: usize = 0;
        proof {
            assert(estimate_sum(fs, cs, 0) == 0);
        }
        while fi < self.db.files.len()
            invariant
                self.db.inv(),
                fs == self.db.filesv(),
                cs == self.db.contentsv(),
                fi <= fs.len(),
                total_chunks as int == (if estimate_sum(fs, cs, fi as int) <= usize::MAX {
                    estimate_sum(fs, cs, fi as int)
                } else {
                    usize::MAX as int
                }),
            decreases fs.len() - fi,
        {
            let f = &self.db.files[fi];
            let mut est: usize = 0;
            if !f.is_deleted {
                match self.db.get_file_content(f.file_id()) {
                    Ok(Some(c)) => {
                        match c.word_count {
                            Some(wc) => {
                                if wc > 0 {
                                    let est128: u128 = ((wc as u64 as u128) * 3 + 1499) / 1500;
                                    est = if est128 <= (usize::MAX as u128) {
                                        est128 as usize
                                    } else {
                                        usize::MAX
                                    };
                                }
                            },
                            None => {},
                        }
                    },
                    Ok(None) => {},
                    Err(e) => {
                        return Err(e);
                    },
                }
            }
            proof {
                assert(est as int == (if file_chunk_estimate(fs[fi as int], cs) <= usize::MAX {
                    file_chunk_estimate(fs[fi as int], cs)
                } else {
                    usize::MAX as int
                }));
            }
            if total_chunks <= usize::MAX - est {
                total_chunks = total_chunks + est;
            } else {
                total_chunks = usize::MAX;
            }
            fi = fi + 1;
        }
        Ok(
            RakeExportMetadata {
                cortex_version: String::from_str("0.1.0"),
                collection_id: match &config.collection_id {
                    Some(cid) => Some(String::from_str(cid.as_str())),
                    None => None,
                },
                collection_name: None,
                total_files,
                total_chunks,
                has_embeddings: config.include_embeddings,
                embedding_model: if config.include_embeddings {
                    Some(String::from_str("all-MiniLM-L6-v2"))
                } else {
                    None
                },
                export_mode: mode_name(config.export_mode),
            },
        )
    }
}

/// One template offered to the front-end.
#[derive(Debug, Clone)]
pub struct PromptTemplateInfo {
    pub id: String,
    pub name: String,
    pub short_description: String,
    pub description: String,
    pub icon: String,
    pub category: String,
}

/// The five fixed prompt templates, in a fixed order.
pub fn list_prompt_templates() -> (r: Vec<PromptTemplateInfo>)
    ensures
        r@.len() == 5,
        r@[0].id@ == "add_feature"@ && r@[0].name@ == "Add Feature"@,
        r@[1].id@ == "fix_bug"@ && r@[1].name@ == "Fix Bug"@,
        r@[2].id@ == "refactor"@ && r@[2].name@ == "Refactor Code"@,
        r@[3].id@ == "add_tests"@ && r@[3].name@ == "Add Tests"@,
        r@[4].id@ == "documentation"@ && r@[4].name@ == "Documentation"@,
{
    let mut out: Vec<PromptTemplateInfo> = Vec::new();
    out.push(
        PromptTemplateInfo {
            id: String::from_str("add_feature"),
            name: String::from_str("Add Feature"),
            short_description: String::from_str("Implement a new feature"),
            description: String::from_str(
                "Guided prompt for implementing new features following project patterns",
            ),
            icon: String::from_str("+"),
            category: String::from_str("feature"),
        },
    );
    out.push(
        PromptTemplateInfo {
            id: String::from_str("fix_bug"),
            name: String::from_str("Fix Bug"),
            short_description: String::from_str("Debug and fix issues"),
            description: String::from_str("Systematic approach to identifying and fixing bugs"),
            icon: String::from_str("!"),
            category: String::from_str("bug_fix"),
        },
    );
    out.push(
        PromptTemplateInfo {
            id: String::from_str("refactor"),
            name: String::from_str("Refactor Code"),
            short_description: String::from_str("Improve code quality"),
            description: String::from_str("Refactor code while maintaining functionality"),
            icon: String::from_str("~"),
            category: String::from_str("refactor"),
        },
    );
    out.push(
        PromptTemplateInfo {
            id: String::from_str("add_tests"),
            name: String::from_str("Add Tests"),
            short_description: String::from_str("Create test coverage"),
            description: String::from_str("Add comprehensive unit and integration tests"),
            icon: String::from_str("?"),
            category: String::from_str("testing"),
        },
    );
    out.push(
        PromptTemplateInfo {
            id: String::from_str("documentation"),
            name: String::from_str("Documentation"),
            short_description: String::from_str("Update documentation"),
            description: String::from_str("Create or update project documentation"),
            icon: String::from_str("#"),
            category: String::from_str("documentation"),
        },
    );
    out
}

/// A definition of a prompt template on disk.
#[derive(Debug, Clone)]
pub struct PromptTemplate {
    pub id: String,
    pub name: String,
    pub short_description: String,
    pub description: String,
    pub icon: String,
    pub category: PromptCategory,
    pub variables: Vec<PromptVariable>,
    pub template_path: String,
}

/// The kind of work a template serves.
#[derive(Debug, Clone, Copy, PartialEq, Eq, Structural)]
pub enum PromptCategory {
    Starter,
    Feature,
    BugFix,
    Refactor,
    Testing,
    Documentation,
    Integration,
}

/// A customizable slot of a template.
#[derive(Debug, Clone)]
pub struct PromptVariable {
    pub key: String,
    pub label: String,
    pub placeholder: String,
    pub required: bool,
    pub default: Option<String>,
}

/// One file of a context bundle, as a relative path and its content.
#[derive(Debug, Clone)]
pub struct BundleFile {
    pub rel_path: String,
    pub content: String,
}

/// The fixed opening of the starter prompt.
pub fn starter_prompt_text() -> (r: String)
    ensures
        r@ == "# Starter Prompt\n\nLoad CONTEXT.md first; it holds the indexed project text.\nWork from the patterns it shows.\n"@,
{
    String::from_str(
        "# Starter Prompt\n\nLoad CONTEXT.md first; it holds the indexed project text.\nWork from the patterns it shows.\n",
    )
}

/// One non-deleted file's section of the context document: a heading with
/// its path, then its stored text when there is one.
pub open spec fn context_entry(f: crate::store::FileV, cs: Seq<crate::store::ContentV>) -> Seq<
    char,
> {
    "## "@ + f.path + "\n\n"@ + (match crate::search::text_of_opt(cs, f.id) {
        Option::Some(t) => t + "\n\n"@,
        Option::None => Seq::<char>::empty(),
    })
}

/// The sections of the first `i` files, in order.
pub open spec fn context_body(
    fs: Seq<crate::store::FileV>,
    cs: Seq<crate::store::ContentV>,
    i: int,
) -> Seq<char>
    decreases i,
{
    if i <= 0 {
        Seq::empty()
    } else {
        context_body(fs, cs, i - 1) + context_entry(fs[i - 1], cs)
    }
}

/// The first `i` sections depend on the first `i` files alone.
pub proof fn lemma_context_body_prefix(
    a: Seq<crate::store::FileV>,
    b: Seq<crate::store::FileV>,
    cs: Seq<crate::store::ContentV>,
    i: int,
)
    requires
        forall|k: int|
            0 <= k < i ==> 0 <= k < a.len() && 0 <= k < b.len() && #[trigger] a[k] == #[trigger] b[k],
    ensures
        context_body(a, cs, i) == context_body(b, cs, i),
    decreases i,
{
    if i > 0 {
        assert(a[i - 1] == b[i - 1]);
        lemma_context_body_prefix(a, b, cs, i - 1);
    }
}

/// How many chunks one non-deleted file's stored text really cuts into.
pub open spec fn file_chunk_count(
    f: crate::store::FileV,
    cs: Seq<crate::store::ContentV>,
) -> int {
    match crate::search::text_of_opt(cs, f.id) {
        Option::Some(t) => chunk_texts_of(t, 500).len() as int,
        Option::None => 0,
    }
}

/// The chunk counts of the first `i` files, summed.
pub open spec fn chunk_count_sum(
    fs: Seq<crate::store::FileV>,
    cs: Seq<crate::store::ContentV>,
    i: int,
) -> int
    decreases i,
{
    if i <= 0 {
        0
    } else {
        chunk_count_sum(fs, cs, i - 1) + file_chunk_count(fs[i - 1], cs)
    }
}

/// The first `i` counts depend on the first `i` files alone.
pub proof fn lemma_chunk_count_sum_prefix(
    a: Seq<crate::store::FileV>,
    b: Seq<crate::store::FileV>,
    cs: Seq<crate::store::ContentV>,
    i: int,
)
    requires
        forall|k: int|
            0 <= k < i ==> 0 <= k < a.len() && 0 <= k < b.len() && #[trigger] a[k] == #[trigger] b[k],
    ensures
        chunk_count_sum(a, cs, i) == chunk_count_sum(b, cs, i),
    decreases i,
{
    if i > 0 {
        assert(a[i - 1] == b[i - 1]);
        lemma_chunk_count_sum_prefix(a, b, cs, i - 1);
    }
}

/// What a planned bundle promises of the store it was read from: the fixed
/// file layout, the assembled context and readme texts, and statistics tied
/// to the first ten thousand non-deleted files.
pub open spec fn plan_post(
    db: crate::store::Database,
    config: ExportConfig,
    plan: Seq<BundleFile>,
    stats: ExportStats,
) -> bool {

                let lv = crate::store::live(db.filesv());
                let n = if lv.len() <= 10000 {
                    lv.len() as int
                } else {
                    10000int
                };
                let cs = db.contentsv();
                                                &&& plan.len() == (if config.include_prompts {
                    9int
                } else {
                    4int
                })
                &&& plan[0].rel_path@ == "CONTEXT.md"@
                &&& plan[0].content@ == "# Project Context\n\n"@ + context_body(lv.take(n), cs, n)
                &&& plan[1].rel_path@ == "STARTER_PROMPT.md"@
                &&& plan[1].content@ == "# Starter Prompt\n\nLoad CONTEXT.md first; it holds the indexed project text.\nWork from the patterns it shows.\n"@ + (match config.custom_context {
                    Option::Some(c) => c@,
                    Option::None => Seq::<char>::empty(),
                })
                &&& (config.include_prompts ==> plan[2].rel_path@ == "prompts/ADD_FEATURE.md"@
                    && plan[3].rel_path@ == "prompts/FIX_BUG.md"@ && plan[4].rel_path@
                    == "prompts/REFACTOR.md"@ && plan[5].rel_path@ == "prompts/ADD_TESTS.md"@
                    && plan[6].rel_path@ == "prompts/DOCUMENTATION.md"@)
                &&& plan[plan.len() - 2].rel_path@ == ".assistant/settings.json"@
                &&& plan[plan.len() - 1].rel_path@ == "README.md"@
                &&& plan[plan.len() - 1].content@ == "# Export\n\nFiles exported: "@
                    + crate::text::dec_digits_of(stats.total_files as nat) + "\nChunks: "@
                    + crate::text::dec_digits_of(stats.total_chunks as nat) + "\nTotal size: "@
                    + format_size_of(stats.total_size_bytes as int) + "\n"@
                &&& stats.total_files == n
                &&& stats.total_chunks as int == (if chunk_count_sum(lv.take(n), cs, n)
                    <= usize::MAX {
                    chunk_count_sum(lv.take(n), cs, n)
                } else {
                    usize::MAX as int
                })
                &&& stats.total_size_bytes == crate::store::clamp_i64(
                    crate::store::sum_sizes(lv.take(n)),
                )
                &&& (stats.files_with_embeddings as int == crate::store::clamp_count(
                    db.embeddingsv().len() as int,
                ) || stats.files_with_embeddings == usize::MAX)
                &&& stats.prompts_generated == (if config.include_prompts {
                    6int
                } else {
                    1int
                })
            
}

/// Assembles context bundles: the file plan is computed and verified here;
/// the caller writes the files.
pub struct BundleBuilder {
    pub db: crate::store::Database,
}

impl BundleBuilder {
    /// Takes ownership of the store handle.
    pub fn new(db: crate::store::Database) -> (r: BundleBuilder)
        ensures
            r.db == db,
    {
        BundleBuilder { db }
    }

    /// Plans a context bundle over the first ten thousand non-deleted
    /// files: the context document assembles a section per file with its
    /// stored text; the starter prompt, the five templates (when prompts
    /// are on), the settings file and the readme are fixed texts, the
    /// readme reporting the statistics; the statistics count those files,
    /// their real chunks, their total size and the stored embeddings.
    #[verifier::rlimit(60)]
    pub fn build_plan(&self, config: &ExportConfig) -> (r: Result<
        (Vec<BundleFile>, ExportStats),
        CortexError,
    >)
        requires
            self.db.inv(),
        ensures
            r is Ok,
            r matches Ok(pr) ==> plan_post(self.db, *config, pr.0@, pr.1),
    {
        let ghost fs = self.db.filesv();
        let ghost cs = self.db.contentsv();
        let mut context = chars_of("# Project Context\n\n");
        let mut total_chunks: usize = 0;
        let mut size_acc: i128 = 0;
        let mut fi: usize = 0;
        let mut processed: usize = 0;
        proof {
            reveal(Seq::filter);
            assert(fs.take(0) =~= Seq::<crate::store::FileV>::empty());
            assert(crate::store::live(fs.take(0)) =~= Seq::<crate::store::FileV>::empty());
            assert(context@ =~= "# Project Context\n\n"@ + context_body(
                crate::store::live(fs.take(0)),
                cs,
                0,
            ));
        }
        while fi < self.db.files.len() && processed < 10000
            invariant
                self.db.inv(),
                fs == self.db.filesv(),
                cs == self.db.contentsv(),
                fi <= fs.len(),
                processed == crate::store::live(fs.take(fi as int)).len(),
                processed <= 10000,
                context@ == "# Project Context\n\n"@ + context_body(
                    crate::store::live(fs.take(fi as int)),
                    cs,
                    processed as int,
                ),
                total_chunks as int == (if chunk_count_sum(
                    crate::store::live(fs.take(fi as int)),
                    cs,
                    processed as int,
                ) <= usize::MAX {
                    chunk_count_sum(crate::store::live(fs.take(fi as int)), cs, processed as int)
                } else {
                    usize::MAX as int
                }),
                size_acc as int == crate::store::sum_sizes(crate::store::live(fs.take(fi as int))),
                -(processed as int) * 0x8000000000000000 <= size_acc as int <= (processed as int)
                    * 0x8000000000000000,
            decreases fs.len() - fi,
        {
            proof {
                reveal(Seq::filter);
                assert(fs.take(fi + 1).drop_last() =~= fs.take(fi as int));
                assert(fs.take(fi + 1).last() == fs[fi as int]);
                fs.take(fi as int).lemma_filter_len(|f: crate::store::FileV| !f.is_deleted);
            }
            let f = &self.db.files[fi];
            if !f.is_deleted {
                let ghost lp = crate::store::live(fs.take(fi as int));
                let ghost fv = fs[fi as int];
                proof {
                    reveal(Seq::filter);
                    assert(crate::store::live(fs.take(fi + 1)) == lp.push(fv));
                    lemma_context_body_prefix(lp, lp.push(fv), cs, processed as int);
                    lemma_chunk_count_sum_prefix(lp, lp.push(fv), cs, processed as int);
                    assert(lp.push(fv).drop_last() =~= lp);
                    assert(crate::store::sum_sizes(lp.push(fv)) == crate::store::sum_sizes(lp)
                        + fv.size);
                    assert((processed as int) * 0x8000000000000000 + 0x8000000000000000 == (
                    processed as int + 1) * 0x8000000000000000) by (nonlinear_arith);
                    assert((processed as int + 1) * 0x8000000000000000 <= 0x10000000000000000
                        * 0x8000000000000000) by (nonlinear_arith)
                        requires
                            processed as int + 1 <= 0x10000000000000000,
                    ;
                    assert(-(0x10000000000000000 * 0x8000000000000000) <= -((processed as int + 1)
                        * 0x8000000000000000)) by (nonlinear_arith)
                        requires
                            processed as int + 1 <= 0x10000000000000000,
                    ;
                }
                let mut head = chars_of("## ");
                context.append(&mut head);
                let mut pathc = chars_of(f.path.as_str());
                context.append(&mut pathc);
                let mut nl = chars_of("\n\n");
                context.append(&mut nl);
                let mut file_chunk_total: usize = 0;
                match self.db.get_file_content(f.file_id()) {
                    Ok(Some(c)) => {
                        match c.text_content {
                            Some(text) => {
                                proof {
                                    assert(crate::search::text_of_opt(cs, fv.id) == Some(text@));
                                }
                                let pieces = chunk_text(text.as_str(), 500);
                                file_chunk_total = pieces.len();
                                let mut body = chars_of(text.as_str());
                                context.append(&mut body);
                                let mut nl2 = chars_of("\n\n");
                                context.append(&mut nl2);
                            },
                            None => {
                                proof {
                                    assert(crate::search::text_of_opt(cs, fv.id) is None);
                                }
                            },
                        }
                    },
                    Ok(None) => {
                        proof {
                            assert(crate::search::text_of_opt(cs, fv.id) is None);
                        }
                    },
                    Err(e) => {
                        return Err(e);
                    },
                }
                proof {
                    assert(file_chunk_total as int == file_chunk_count(fv, cs));
                    assert(context@ =~= "# Project Context\n\n"@ + context_body(
                        crate::store::live(fs.take(fi + 1)),
                        cs,
                        processed as int + 1,
                    ));
                }
                if total_chunks <= usize::MAX - file_chunk_total {
                    total_chunks = total_chunks + file_chunk_total;
                } else {
                    total_chunks = usize::MAX;
                }
                size_acc = size_acc + (f.size as i128);
                processed = processed + 1;
            } else {
                proof {
                    reveal(Seq::filter);
                    assert(crate::store::live(fs.take(fi + 1)) == crate::store::live(
                        fs.take(fi as int),
                    ));
                }
            }
            fi = fi + 1;
        }
        proof {
            reveal(Seq::filter);
            let lv = crate::store::live(fs);
            assert(fs.take(fi as int) + fs.skip(fi as int) =~= fs);
            Seq::filter_distributes_over_add(
                fs.take(fi as int),
                fs.skip(fi as int),
                |f: crate::store::FileV| !f.is_deleted,
            );
            assert(lv =~= crate::store::live(fs.take(fi as int)) + crate::store::live(
                fs.skip(fi as int),
            ));
            assert(crate::store::live(fs.take(fi as int)) =~= lv.take(processed as int));
            if fi == fs.len() {
                assert(fs.skip(fi as int) =~= Seq::<crate::store::FileV>::empty());
                assert(crate::store::live(fs.skip(fi as int)) =~= Seq::<
                    crate::store::FileV,
                >::empty());
                assert(processed == lv.len());
            } else {
                assert(processed == 10000);
                assert(lv.len() >= processed);
            }
        }
        let embedded = match self.db.count_embeddings() {
            Ok(n) => n,
            Err(e) => {
                return Err(e);
            },
        };
        let size_total: i64 = if size_acc > (i64::MAX as i128) {
            i64::MAX
        } else if size_acc < (i64::MIN as i128) {
            i64::MIN
        } else {
            size_acc as i64
        };
        let stats = ExportStats {
            total_files: processed,
            total_chunks,
            total_size_bytes: size_total,
            files_with_embeddings: clamp_usize(embedded),
            prompts_generated: if config.include_prompts {
                6
            } else {
                1
            },
        };
        let mut plan: Vec<BundleFile> = Vec::new();
        plan.push(
            BundleFile {
                rel_path: String::from_str("CONTEXT.md"),
                content: chars_to_string(&context),
            },
        );
        let mut starter = starter_prompt_text();
        match &config.custom_context {
            Some(extra) => {
                starter.append(extra.as_str());
            },
            None => {},
        }
        plan.push(
            BundleFile {
                rel_path: String::from_str("STARTER_PROMPT.md"),
                content: starter,
            },
        );
        if config.include_prompts {
            plan.push(
                BundleFile {
                    rel_path: String::from_str("prompts/ADD_FEATURE.md"),
                    content: String::from_str(
                        "# Add Feature\n\nName the feature, describe it, and follow the project patterns shown in CONTEXT.md.\n",
                    ),
                },
            );
            plan.push(
                BundleFile {
                    rel_path: String::from_str("prompts/FIX_BUG.md"),
                    content: String::from_str(
                        "# Fix Bug\n\nDescribe the bug and the steps that reproduce it, then fix it without changing behaviour elsewhere.\n",
                    ),
                },
            );
            plan.push(
                BundleFile {
                    rel_path: String::from_str("prompts/REFACTOR.md"),
                    content: String::from_str(
                        "# Refactor\n\nName the module and the goals; keep behaviour identical and the tests green.\n",
                    ),
                },
            );
            plan.push(
                BundleFile {
                    rel_path: String::from_str("prompts/ADD_TESTS.md"),
                    content: String::from_str(
                        "# Add Tests\n\nName the module; cover the public functions, the edge cases and the error paths.\n",
                    ),
                },
            );
            plan.push(
                BundleFile {
                    rel_path: String::from_str("prompts/DOCUMENTATION.md"),
                    content: String::from_str(
                        "# Documentation\n\nName the module; document the public surface and the architecture around it.\n",
                    ),
                },
            );
        }
        plan.push(
            BundleFile {
                rel_path: String::from_str(".assistant/settings.json"),
                content: String::from_str(
                    "{\n  \"cortex_export\": {\n    \"version\": \"1.0\",\n    \"instructions\": \"Load CONTEXT.md first\"\n  }\n}\n",
                ),
            },
        );
        let mut readme = chars_of("# Export\n\nFiles exported: ");
        let mut filesd = crate::text::u64_digits(stats.total_files as u64);
        readme.append(&mut filesd);
        let mut mid = chars_of("\nChunks: ");
        readme.append(&mut mid);
        let mut chunksd = crate::text::u64_digits(stats.total_chunks as u64);
        readme.append(&mut chunksd);
        let mut mid2 = chars_of("\nTotal size: ");
        readme.append(&mut mid2);
        let human = format_file_size(stats.total_size_bytes);
        let mut humanc = chars_of(human.as_str());
        readme.append(&mut humanc);
        let mut tail = chars_of("\n");
        readme.append(&mut tail);
        proof {
            reveal_strlit("\nChunks: ");
            reveal_strlit("\n");
        }
        plan.push(
            BundleFile {
                rel_path: String::from_str("README.md"),
                content: chars_to_string(&readme),
            },
        );
        proof {
            assert(plan@[plan@.len() - 1].content@ =~= "# Export\n\nFiles exported: "@
                + crate::text::dec_digits_of(stats.total_files as nat) + "\nChunks: "@
                + crate::text::dec_digits_of(stats.total_chunks as nat) + "\nTotal size: "@
                + format_size_of(stats.total_size_bytes as int) + "\n"@);
        }
        Ok((plan, stats))
    }

    /// Validates the output directory and plans the bundle; the caller
    /// writes the files under the resolved directory and emits the result.
    pub fn prepare_bundle(&self, config: &ExportConfig, ctx: &crate::validate::PathContext) -> (r:
        Result<(String, Vec<BundleFile>, ExportStats), CortexError>)
        requires
            self.db.inv(),
        ensures
            r is Ok <==> crate::validate::path_accepted(
                config.output_path@,
                ctx.home_dir@,
                ctx.temp_dir@,
            ),
            r matches Ok(p) ==> p.0@ == crate::validate::resolved_path(
                config.output_path@,
                ctx.current_dir@,
            ) && plan_post(self.db, *config, p.1@, p.2),
    {
        let validated = match crate::validate::PathValidator::validate_export_path(
            config.output_path.as_str(),
            ctx,
        ) {
            Ok(p) => p,
            Err(e) => {
                return Err(e);
            },
        };
        match self.build_plan(config) {
            Ok((plan, stats)) => Ok((validated, plan, stats)),
            Err(e) => Err(e),
        }
    }
}


/// What a context export would take: how many non-deleted files the export
/// would read, the chunk-count estimate their stored word counts predict,
/// the total size, and the embedding inventory when embeddings are
/// included.
pub fn get_export_preview(db: &crate::store::Database, include_embeddings: bool) -> (r: Result<
    ExportPreview,
    CortexError,
>)
    requires
        db.inv(),
    ensures
        r is Ok,
        r matches Ok(p) ==> {
            &&& p.file_count as int == (if crate::store::count_live(db.filesv()) <= 10000 {
                crate::store::count_live(db.filesv())
            } else {
                10000int
            })
            &&& p.chunk_count as int == (if estimate_sum(
                db.filesv(),
                db.contentsv(),
                db.filesv().len() as int,
            ) <= usize::MAX {
                estimate_sum(db.filesv(), db.contentsv(), db.filesv().len() as int)
            } else {
                usize::MAX as int
            })
            &&& p.estimated_size == crate::store::clamp_i64(
                crate::store::sum_sizes(crate::store::live(db.filesv())),
            )
            &&& (!include_embeddings ==> p.embedded_file_count == 0 && !p.has_embeddings)
            &&& (include_embeddings ==> (p.embedded_file_count as int
                == crate::store::clamp_count(db.embeddingsv().len() as int)
                || p.embedded_file_count == usize::MAX) && p.has_embeddings == (
            p.embedded_file_count > 0))
        },
{
    let ghost fs = db.filesv();
    let ghost cs = db.contentsv();
    let total_live = match db.get_file_count() {
        Ok(n) => n,
        Err(e) => {
            return Err(e);
        },
    };
    let file_count: usize = if total_live >= 10000 {
        10000
    } else {
        clamp_usize(total_live)
    };
    let (_, _, total_size) = match db.get_db_stats() {
        Ok(t) => t,
        Err(e) => {
            return Err(e);
        },
    };
    let mut chunk_count: usize = 0;
    let mut fi: usize = 0;
    proof {
        assert(estimate_sum(fs, cs, 0) == 0);
    }
    while fi < db.files.len()
        invariant
            db.inv(),
            fs == db.filesv(),
            cs == db.contentsv(),
            fi <= fs.len(),
            chunk_count as int == (if estimate_sum(fs, cs, fi as int) <= usize::MAX {
                estimate_sum(fs, cs, fi as int)
            } else {
                usize::MAX as int
            }),
        decreases fs.len() - fi,
    {
        let f = &db.files[fi];
        let mut est: usize = 0;
        if !f.is_deleted {
            match db.get_file_content(f.file_id()) {
                Ok(Some(c)) => {
                    match c.word_count {
                        Some(wc) => {
                            if wc > 0 {
                                let est128: u128 = ((wc as u64 as u128) * 3 + 1499) / 1500;
                                est = if est128 <= (usize::MAX as u128) {
                                    est128 as usize
                                } else {
                                    usize::MAX
                                };
                            }
                        },
                        None => {},
                    }
                },
                Ok(None) => {},
                Err(e) => {
                    return Err(e);
                },
            }
        }
        proof {
            assert(est as int == (if file_chunk_estimate(fs[fi as int], cs) <= usize::MAX {
                file_chunk_estimate(fs[fi as int], cs)
            } else {
                usize::MAX as int
            }));
        }
        if chunk_count <= usize::MAX - est {
            chunk_count = chunk_count + est;
        } else {
            chunk_count = usize::MAX;
        }
        fi = fi + 1;
    }
    let embedded_file_count: usize = if include_embeddings {
        let n = match db.count_embeddings() {
            Ok(n) => n,
            Err(e) => {
                return Err(e);
            },
        };
        clamp_usize(n)
    } else {
        0
    };
    Ok(
        ExportPreview {
            file_count,
            chunk_count,
            estimated_size: total_size,
            estimated_size_human: format_file_size(total_size),
            has_embeddings: embedded_file_count > 0,
            embedded_file_count,
        },
    )
}

/// The store totals shown before an export: file, content and embedding
/// counts and the total size, also rendered human-readably.
pub fn get_export_stats(db: &crate::store::Database) -> (r: Result<ExportStatsInfo, CortexError>)
    requires
        db.inv(),
    ensures
        r is Ok,
        r matches Ok(s) ==> {
            &&& (s.total_files as int == crate::store::clamp_count(
                crate::store::count_live(db.filesv()),
            ) || s.total_files == usize::MAX)
            &&& (s.indexed_files as int == crate::store::clamp_count(
                crate::store::count_indexed(db.filesv(), db.contentsv()),
            ) || s.indexed_files == usize::MAX)
            &&& (s.embedded_files as int == crate::store::clamp_count(
                db.embeddingsv().len() as int,
            ) || s.embedded_files == usize::MAX)
            &&& s.total_size == crate::store::clamp_i64(
                crate::store::sum_sizes(crate::store::live(db.filesv())),
            )
            &&& s.total_size_human@ == format_size_of(s.total_size as int)
        },
{
    let (total_files, indexed_files, total_size) = match db.get_db_stats() {
        Ok(t) => t,
        Err(e) => {
            return Err(e);
        },
    };
    let embedded = match db.count_embeddings() {
        Ok(n) => n,
        Err(e) => {
            return Err(e);
        },
    };
    Ok(
        ExportStatsInfo {
            total_files: clamp_usize(total_files),
            indexed_files: clamp_usize(indexed_files),
            total_size,
            total_size_human: format_file_size(total_size),
            embedded_files: clamp_usize(embedded),
        },
    )
}

/// A non-negative count squeezed into `usize`.
fn clamp_usize(n: i64) -> (r: usize)
    ensures
        n >= 0 && n as u64 <= usize::MAX as u64 ==> r == n,
        n >= 0 && n as u64 > usize::MAX as u64 ==> r == usize::MAX,
        n < 0 ==> r == 0,
{
    if n < 0 {
        0
    } else if (n as u64) <= (usize::MAX as u64) {
        n as usize
    } else {
        usize::MAX
    }
}

} // verus!
