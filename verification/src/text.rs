//! Character-level text utilities shared by the extractor, the store's
//! full-text matching, and the export chunker: whitespace splitting,
//! case-folded tokenization, joining, ordering, and decimal formatting.

use vstd::prelude::*;

verus! {

/// Whitespace for word splitting: the ASCII whitespace characters.
pub open spec fn is_space_char(c: char) -> bool {
    c == ' ' || c == '\t' || c == '\n' || c == '\r' || c == '\u{000B}' || c == '\u{000C}'
}

pub fn is_space(c: char) -> (r: bool)
    ensures
        r == is_space_char(c),
{
    c == ' ' || c == '\t' || c == '\n' || c == '\r' || c == '\u{000B}' || c == '\u{000C}'
}

/// The splitter state after reading `s`, starting with partial word `cur` and
/// completed words `acc`: words are maximal runs of non-whitespace.
pub open spec fn ws_state(s: Seq<char>, cur: Seq<char>, acc: Seq<Seq<char>>) -> (Seq<char>, Seq<
    Seq<char>,
>)
    decreases s.len(),
{
    if s.len() == 0 {
        (cur, acc)
    } else if is_space_char(s[0]) {
        if cur.len() > 0 {
            ws_state(s.drop_first(), Seq::empty(), acc.push(cur))
        } else {
            ws_state(s.drop_first(), Seq::empty(), acc)
        }
    } else {
        ws_state(s.drop_first(), cur.push(s[0]), acc)
    }
}

/// The whitespace-separated words of a text, in order.
pub open spec fn words_of(s: Seq<char>) -> Seq<Seq<char>> {
    let st = ws_state(s, Seq::empty(), Seq::empty());
    if st.0.len() > 0 {
        st.1.push(st.0)
    } else {
        st.1
    }
}

/// The number of whitespace-separated words of a text.
pub open spec fn word_count_of(s: Seq<char>) -> nat {
    words_of(s).len()
}

/// A word in the splitter's sense: non-empty and free of whitespace.
pub open spec fn is_plain_word(w: Seq<char>) -> bool {
    w.len() > 0 && forall|k: int| 0 <= k < w.len() ==> !is_space_char(#[trigger] w[k])
}

/// The splitter state distributes over concatenation of the input.
pub proof fn lemma_ws_state_concat(a: Seq<char>, b: Seq<char>, cur: Seq<char>, acc: Seq<Seq<char>>)
    ensures
        ws_state(a + b, cur, acc) == ws_state(b, ws_state(a, cur, acc).0, ws_state(a, cur, acc).1),
    decreases a.len(),
{
    if a.len() == 0 {
        assert(a + b =~= b);
    } else {
        assert((a + b)[0] == a[0]);
        assert((a + b).drop_first() =~= a.drop_first() + b);
        if is_space_char(a[0]) {
            if cur.len() > 0 {
                lemma_ws_state_concat(a.drop_first(), b, Seq::empty(), acc.push(cur));
            } else {
                lemma_ws_state_concat(a.drop_first(), b, Seq::empty(), acc);
            }
        } else {
            lemma_ws_state_concat(a.drop_first(), b, cur.push(a[0]), acc);
        }
    }
}

/// Reading a single word extends the partial word and completes nothing.
pub proof fn lemma_ws_state_word(w: Seq<char>, cur: Seq<char>, acc: Seq<Seq<char>>)
    requires
        forall|k: int| 0 <= k < w.len() ==> !is_space_char(#[trigger] w[k]),
    ensures
        ws_state(w, cur, acc) == (cur + w, acc),
    decreases w.len(),
{
    if w.len() == 0 {
        assert(cur + w =~= cur);
    } else {
        lemma_ws_state_word(w.drop_first(), cur.push(w[0]), acc);
        assert(cur.push(w[0]) + w.drop_first() =~= cur + w);
    }
}

/// The completed words only grow; what grows does not depend on `acc`.
pub proof fn lemma_ws_state_acc(s: Seq<char>, cur: Seq<char>, acc: Seq<Seq<char>>)
    ensures
        ws_state(s, cur, acc).0 == ws_state(s, cur, Seq::empty()).0,
        ws_state(s, cur, acc).1 == acc + ws_state(s, cur, Seq::empty()).1,
    decreases s.len(),
{
    if s.len() == 0 {
        assert(acc + Seq::<Seq<char>>::empty() =~= acc);
    } else if is_space_char(s[0]) {
        if cur.len() > 0 {
            lemma_ws_state_acc(s.drop_first(), Seq::empty(), acc.push(cur));
            lemma_ws_state_acc(s.drop_first(), Seq::empty(), Seq::empty().push(cur));
            assert(acc.push(cur) =~= acc + Seq::empty().push(cur));
            assert(acc + (Seq::empty().push(cur) + ws_state(s.drop_first(), Seq::empty(), Seq::empty()).1)
                =~= (acc + Seq::empty().push(cur)) + ws_state(s.drop_first(), Seq::empty(), Seq::empty()).1);
        } else {
            lemma_ws_state_acc(s.drop_first(), Seq::empty(), acc);
        }
    } else {
        lemma_ws_state_acc(s.drop_first(), cur.push(s[0]), acc);
    }
}

/// The characters of a string as a vector, in order.
pub fn chars_of(s: &str) -> (v: Vec<char>)
    ensures
        v@ == s@,
{
    let n = s.unicode_len();
    let mut v: Vec<char> = Vec::new();
    let mut i: usize = 0;
    while i < n
        invariant
            i <= n,
            n == s@.len(),
            v@ == s@.take(i as int),
        decreases n - i,
    {
        let c = s.get_char(i);
        v.push(c);
        proof {
            assert(s@.take(i + 1) =~= s@.take(i as int).push(s@[i as int]));
        }
        i = i + 1;
    }
    proof {
        assert(s@.take(n as int) =~= s@);
    }
    v
}

/// Splits a character sequence into its whitespace-separated words.
pub fn split_whitespace_chars(s: &Vec<char>) -> (ws: Vec<Vec<char>>)
    ensures
        ws.deep_view() == words_of(s@),
{
    let mut acc: Vec<Vec<char>> = Vec::new();
    let mut cur: Vec<char> = Vec::new();
    let mut i: usize = 0;
    proof {
        assert(acc.deep_view() =~~= Seq::<Seq<char>>::empty());
        assert(cur@ =~= Seq::<char>::empty());
        assert(s@.skip(0) =~= s@);
    }
    while i < s.len()
        invariant
            i <= s.len(),
            ws_state(s@, Seq::empty(), Seq::empty()) == ws_state(
                s@.skip(i as int),
                cur@,
                acc.deep_view(),
            ),
        decreases s.len() - i,
    {
        let ghost prev_acc = acc.deep_view();
        let ghost prev_cur = cur@;
        let ghost rest = s@.skip(i as int);
        proof {
            assert(rest[0] == s@[i as int]);
            assert(rest.drop_first() =~= s@.skip(i + 1));
        }
        let c = s[i];
        if is_space(c) {
            if cur.len() > 0 {
                acc.push(cur);
                cur = Vec::new();
                proof {
                    assert(acc.deep_view() =~~= prev_acc.push(prev_cur));
                    assert(cur@ =~= Seq::<char>::empty());
                }
            } else {
                proof {
                    assert(prev_cur =~= Seq::<char>::empty());
                }
            }
        } else {
            cur.push(c);
        }
        proof {
            assert(ws_state(rest, prev_cur, prev_acc) == ws_state(
                s@.skip(i + 1),
                cur@,
                acc.deep_view(),
            ));
        }
        i = i + 1;
    }
    proof {
        assert(s@.skip(s@.len() as int) =~= Seq::<char>::empty());
    }
    if cur.len() > 0 {
        let ghost prev_acc = acc.deep_view();
        let ghost prev_cur = cur@;
        acc.push(cur);
        proof {
            assert(acc.deep_view() =~~= prev_acc.push(prev_cur));
        }
    }
    acc
}

/// Counts the whitespace-separated words of a string.
pub fn count_words(s: &str) -> (n: usize)
    ensures
        n == word_count_of(s@),
{
    let cs = chars_of(s);
    let ws = split_whitespace_chars(&cs);
    ws.len()
}

/// ASCII case folding, the identity on every other character.
pub open spec fn lower_char(c: char) -> char {
    if 65 <= c as u32 && c as u32 <= 90 {
        (((c as u32) + 32) as u8) as char
    } else {
        c
    }
}

pub fn to_lower_char(c: char) -> (r: char)
    ensures
        r == lower_char(c),
{
    let u = c as u32;
    if 65 <= u && u <= 90 {
        ((u + 32) as u8) as char
    } else {
        c
    }
}

/// A character that belongs to a token of the full-text index: ASCII letters
/// and digits, and every character beyond ASCII.
pub open spec fn is_word_char(c: char) -> bool {
    (48 <= c as u32 && c as u32 <= 57) || (65 <= c as u32 && c as u32 <= 90) || (97 <= c as u32
        && c as u32 <= 122) || c as u32 > 127
}

pub fn is_token_char(c: char) -> (r: bool)
    ensures
        r == is_word_char(c),
{
    let u = c as u32;
    (48 <= u && u <= 57) || (65 <= u && u <= 90) || (97 <= u && u <= 122) || u > 127
}

/// The tokenizer state after reading `s`: tokens are maximal runs of token
/// characters, case-folded.
pub open spec fn tok_state(s: Seq<char>, cur: Seq<char>, acc: Seq<Seq<char>>) -> (Seq<char>, Seq<
    Seq<char>,
>)
    decreases s.len(),
{
    if s.len() == 0 {
        (cur, acc)
    } else if is_word_char(s[0]) {
        tok_state(s.drop_first(), cur.push(lower_char(s[0])), acc)
    } else {
        if cur.len() > 0 {
            tok_state(s.drop_first(), Seq::empty(), acc.push(cur))
        } else {
            tok_state(s.drop_first(), Seq::empty(), acc)
        }
    }
}

/// The case-folded, punctuation-split tokens of a text, in order; the
/// full-text index stems these before matching.
pub open spec fn tokens_of(s: Seq<char>) -> Seq<Seq<char>> {
    let st = tok_state(s, Seq::empty(), Seq::empty());
    if st.0.len() > 0 {
        st.1.push(st.0)
    } else {
        st.1
    }
}

/// Splits a character sequence into its case-folded tokens.
pub fn tokenize_chars(s: &Vec<char>) -> (ts: Vec<Vec<char>>)
    ensures
        ts.deep_view() == tokens_of(s@),
{
    let mut acc: Vec<Vec<char>> = Vec::new();
    let mut cur: Vec<char> = Vec::new();
    let mut i: usize = 0;
    proof {
        assert(acc.deep_view() =~~= Seq::<Seq<char>>::empty());
        assert(cur@ =~= Seq::<char>::empty());
        assert(s@.skip(0) =~= s@);
    }
    while i < s.len()
        invariant
            i <= s.len(),
            tok_state(s@, Seq::empty(), Seq::empty()) == tok_state(
                s@.skip(i as int),
                cur@,
                acc.deep_view(),
            ),
        decreases s.len() - i,
    {
        let ghost prev_acc = acc.deep_view();
        let ghost prev_cur = cur@;
        let ghost rest = s@.skip(i as int);
        proof {
            assert(rest[0] == s@[i as int]);
            assert(rest.drop_first() =~= s@.skip(i + 1));
        }
        let c = s[i];
        if is_token_char(c) {
            cur.push(to_lower_char(c));
        } else {
            if cur.len() > 0 {
                acc.push(cur);
                cur = Vec::new();
                proof {
                    assert(acc.deep_view() =~~= prev_acc.push(prev_cur));
                    assert(cur@ =~= Seq::<char>::empty());
                }
            } else {
                proof {
                    assert(prev_cur =~= Seq::<char>::empty());
                }
            }
        }
        proof {
            assert(tok_state(rest, prev_cur, prev_acc) == tok_state(
                s@.skip(i + 1),
                cur@,
                acc.deep_view(),
            ));
        }
        i = i + 1;
    }
    proof {
        assert(s@.skip(s@.len() as int) =~= Seq::<char>::empty());
    }
    if cur.len() > 0 {
        let ghost prev_acc = acc.deep_view();
        let ghost prev_cur = cur@;
        acc.push(cur);
        proof {
            assert(acc.deep_view() =~~= prev_acc.push(prev_cur));
        }
    }
    acc
}

/// Words joined with a single space between neighbours.
pub open spec fn join_spaces(ws: Seq<Seq<char>>) -> Seq<char>
    decreases ws.len(),
{
    if ws.len() == 0 {
        Seq::empty()
    } else if ws.len() == 1 {
        ws[0]
    } else {
        ws[0] + seq![' '] + join_spaces(ws.drop_first())
    }
}

/// Appending one more word appends a space and the word.
pub proof fn lemma_join_spaces_push(ws: Seq<Seq<char>>, w: Seq<char>)
    ensures
        ws.len() == 0 ==> join_spaces(ws.push(w)) == w,
        ws.len() > 0 ==> join_spaces(ws.push(w)) == join_spaces(ws) + seq![' '] + w,
    decreases ws.len(),
{
    if ws.len() == 0 {
        assert(ws.push(w)[0] =~= w);
    } else if ws.len() == 1 {
        assert(ws.push(w)[0] == ws[0]);
        assert(ws.push(w).drop_first() =~= seq![w]);
        assert(join_spaces(seq![w]) == w);
        assert(join_spaces(ws) == ws[0]);
    } else {
        assert(ws.push(w).drop_first() =~= ws.drop_first().push(w));
        lemma_join_spaces_push(ws.drop_first(), w);
    }
}

/// Joining plain words with spaces and splitting on whitespace round-trips.
pub proof fn lemma_words_of_join(ws: Seq<Seq<char>>)
    requires
        forall|k: int| 0 <= k < ws.len() ==> is_plain_word(#[trigger] ws[k]),
    ensures
        words_of(join_spaces(ws)) == ws,
    decreases ws.len(),
{
    if ws.len() == 0 {
        assert(words_of(join_spaces(ws)) =~= ws);
    } else if ws.len() == 1 {
        lemma_ws_state_word(ws[0], Seq::empty(), Seq::empty());
        assert(Seq::<char>::empty() + ws[0] =~= ws[0]);
        assert(words_of(ws[0]) =~= ws);
    } else {
        let w = ws[0];
        let rest = ws.drop_first();
        let j = join_spaces(rest);
        assert(join_spaces(ws) == w + seq![' '] + j);
        // Reading the first word leaves it as the partial word.
        lemma_ws_state_concat(w + seq![' '], j, Seq::empty(), Seq::empty());
        assert((w + seq![' '] + j) =~= (w + seq![' ']) + j);
        lemma_ws_state_concat(w, seq![' '], Seq::empty(), Seq::empty());
        lemma_ws_state_word(w, Seq::empty(), Seq::empty());
        assert(Seq::<char>::empty() + w =~= w);
        // The space then completes it.
        assert(is_plain_word(w));
        assert(seq![' '].drop_first() =~= Seq::<char>::empty());
        assert(seq![' '][0] == ' ');
        assert(ws_state(Seq::<char>::empty(), Seq::empty(), Seq::empty().push(w)) == (
            Seq::<char>::empty(),
            Seq::empty().push(w),
        ));
        assert(ws_state(seq![' '], w, Seq::empty()) == (
            Seq::<char>::empty(),
            Seq::empty().push(w),
        ));
        // Splitting the rest continues from an accumulator holding that word.
        lemma_ws_state_acc(j, Seq::empty(), Seq::empty().push(w));
        lemma_words_of_join(rest);
        let st_rest = ws_state(j, Seq::empty(), Seq::empty());
        if st_rest.0.len() > 0 {
            assert(Seq::empty().push(w) + st_rest.1.push(st_rest.0) =~= (Seq::empty().push(w)
                + st_rest.1).push(st_rest.0));
            assert((Seq::empty().push(w) + st_rest.1).push(st_rest.0) =~= ws);
        } else {
            assert(Seq::empty().push(w) + st_rest.1 =~= ws);
        }
    }
}

/// Joins words with single spaces.
pub fn join_with_spaces(ws: &Vec<Vec<char>>) -> (v: Vec<char>)
    ensures
        v@ == join_spaces(ws.deep_view()),
{
    let mut v: Vec<char> = Vec::new();
    let mut i: usize = 0;
    proof {
        assert(v@ =~= join_spaces(ws.deep_view().take(0)));
    }
    while i < ws.len()
        invariant
            i <= ws.len(),
            v@ == join_spaces(ws.deep_view().take(i as int)),
        decreases ws.len() - i,
    {
        let ghost prefix = ws.deep_view().take(i as int);
        if i > 0 {
            v.push(' ');
        }
        let w = &ws[i];
        let mut k: usize = 0;
        let ghost mid = v@;
        while k < w.len()
            invariant
                k <= w.len(),
                v@ == mid + w@.take(k as int),
                w@ == ws.deep_view()[i as int],
                i < ws.len(),
            decreases w.len() - k,
        {
            v.push(w[k]);
            proof {
                assert(w@.take(k + 1) =~= w@.take(k as int).push(w@[k as int]));
                assert(mid + w@.take(k as int).push(w@[k as int]) =~= (mid + w@.take(
                    k as int,
                )).push(w@[k as int]));
            }
            k = k + 1;
        }
        proof {
            assert(w@.take(w@.len() as int) =~= w@);
            assert(ws.deep_view().take(i + 1) =~= prefix.push(ws.deep_view()[i as int]));
            lemma_join_spaces_push(prefix, ws.deep_view()[i as int]);
            if i > 0 {
                assert(join_spaces(prefix) + seq![' '] =~= join_spaces(prefix).push(' '));
            } else {
                assert(prefix.len() == 0);
                assert(mid =~= Seq::<char>::empty());
                assert(mid + w@ =~= w@);
            }
        }
        i = i + 1;
    }
    proof {
        assert(ws.deep_view().take(ws.deep_view().len() as int) =~= ws.deep_view());
    }
    v
}

/// Lexicographic order on character sequences, by code point.
pub open spec fn lex_le(a: Seq<char>, b: Seq<char>) -> bool
    decreases a.len(),
{
    if a.len() == 0 {
        true
    } else if b.len() == 0 {
        false
    } else if (a[0] as u32) < (b[0] as u32) {
        true
    } else if (a[0] as u32) > (b[0] as u32) {
        false
    } else {
        lex_le(a.drop_first(), b.drop_first())
    }
}

/// `lex_le` is total: of two sequences one is below the other.
pub proof fn lemma_lex_le_total(a: Seq<char>, b: Seq<char>)
    ensures
        lex_le(a, b) || lex_le(b, a),
    decreases a.len(),
{
    if a.len() > 0 && b.len() > 0 && (a[0] as u32) == (b[0] as u32) {
        lemma_lex_le_total(a.drop_first(), b.drop_first());
    }
}

/// Decides the lexicographic order on character vectors.
pub fn chars_le(a: &Vec<char>, b: &Vec<char>) -> (r: bool)
    ensures
        r == lex_le(a@, b@),
{
    let mut i: usize = 0;
    proof {
        assert(a@.skip(0) =~= a@);
        assert(b@.skip(0) =~= b@);
    }
    loop
        invariant
            i <= a.len(),
            i <= b.len(),
            lex_le(a@, b@) == lex_le(a@.skip(i as int), b@.skip(i as int)),
        decreases a.len() - i,
    {
        proof {
            if i < a.len() {
                assert(a@.skip(i as int)[0] == a@[i as int]);
                assert(a@.skip(i as int).drop_first() =~= a@.skip(i + 1));
            }
            if i < b.len() {
                assert(b@.skip(i as int)[0] == b@[i as int]);
                assert(b@.skip(i as int).drop_first() =~= b@.skip(i + 1));
            }
        }
        if i >= a.len() {
            return true;
        }
        if i >= b.len() {
            return false;
        }
        let ca = a[i] as u32;
        let cb = b[i] as u32;
        if ca < cb {
            return true;
        }
        if ca > cb {
            return false;
        }
        i = i + 1;
    }
}

/// The number of bytes of the UTF-8 encoding of a character.
pub open spec fn char_utf8_len(c: char) -> int {
    if (c as u32) < 0x80 {
        1
    } else if (c as u32) < 0x800 {
        2
    } else if (c as u32) < 0x10000 {
        3
    } else {
        4
    }
}

/// The number of bytes of the UTF-8 encoding of a text.
pub open spec fn utf8_len_of(s: Seq<char>) -> int
    decreases s.len(),
{
    if s.len() == 0 {
        0
    } else {
        char_utf8_len(s[0]) + utf8_len_of(s.drop_first())
    }
}

/// The decimal digit character for `d < 10`.
pub open spec fn digit_char(d: int) -> char {
    ((48 + d) as u8) as char
}

/// The decimal digits of `n`, most significant first, no leading zeros.
pub open spec fn dec_digits_of(n: nat) -> Seq<char>
    decreases n,
{
    if n < 10 {
        seq![digit_char(n as int)]
    } else {
        dec_digits_of(n / 10).push(digit_char((n % 10) as int))
    }
}

/// The decimal digits of `n` as characters.
pub fn u64_digits(n: u64) -> (v: Vec<char>)
    ensures
        v@ == dec_digits_of(n as nat),
    decreases n,
{
    if n < 10 {
        let c = ((48 + n) as u8) as char;
        let mut v: Vec<char> = Vec::new();
        v.push(c);
        proof {
            assert(v@ =~= seq![digit_char(n as int)]);
        }
        v
    } else {
        let mut v = u64_digits(n / 10);
        let c = ((48 + (n % 10)) as u8) as char;
        v.push(c);
        v
    }
}


/// `lex_le` is antisymmetric: mutual order means equality.
pub proof fn lemma_lex_le_antisym(a: Seq<char>, b: Seq<char>)
    requires
        lex_le(a, b),
        lex_le(b, a),
    ensures
        a == b,
    decreases a.len(),
{
    if a.len() == 0 {
        assert(b.len() == 0);
        assert(a =~= b);
    } else {
        assert(b.len() > 0);
        assert((a[0] as u32) == (b[0] as u32));
        assert(a[0] == b[0]) by {
            vstd::utf8::char_u32_cast(a[0], a[0] as u32);
            vstd::utf8::char_u32_cast(b[0], b[0] as u32);
        }
        lemma_lex_le_antisym(a.drop_first(), b.drop_first());
        assert forall|k: int| 0 <= k < a.len() implies a[k] == b[k] by {
            if k > 0 {
                assert(a.drop_first()[k - 1] == b.drop_first()[k - 1]);
                assert(a[k] == a.drop_first()[k - 1]);
                assert(b[k] == b.drop_first()[k - 1]);
            }
        }
        assert(a =~= b);
    }
}

/// `lex_le` is transitive.
pub proof fn lemma_lex_le_trans(a: Seq<char>, b: Seq<char>, c: Seq<char>)
    requires
        lex_le(a, b),
        lex_le(b, c),
    ensures
        lex_le(a, c),
    decreases a.len(),
{
    if a.len() > 0 {
        if (a[0] as u32) < (c[0] as u32) {
        } else {
            lemma_lex_le_trans(a.drop_first(), b.drop_first(), c.drop_first());
        }
    }
}


/// A token in the tokenizer's sense: non-empty, of word characters only,
/// and fixed under case folding.
pub open spec fn is_plain_token(tk: Seq<char>) -> bool {
    tk.len() > 0 && forall|k: int|
        0 <= k < tk.len() ==> is_word_char(#[trigger] tk[k]) && lower_char(tk[k]) == tk[k]
}

/// Every token the tokenizer yields is plain.
pub proof fn lemma_tok_state_plain(s: Seq<char>, cur: Seq<char>, acc: Seq<Seq<char>>)
    requires
        forall|k: int|
            0 <= k < cur.len() ==> is_word_char(#[trigger] cur[k]) && lower_char(cur[k]) == cur[k],
        forall|k: int| 0 <= k < acc.len() ==> is_plain_token(#[trigger] acc[k]),
    ensures
        forall|k: int|
            0 <= k < tok_state(s, cur, acc).0.len() ==> is_word_char(
                #[trigger] tok_state(s, cur, acc).0[k],
            ) && lower_char(tok_state(s, cur, acc).0[k]) == tok_state(s, cur, acc).0[k],
        forall|k: int|
            0 <= k < tok_state(s, cur, acc).1.len() ==> is_plain_token(
                #[trigger] tok_state(s, cur, acc).1[k],
            ),
    decreases s.len(),
{
    if s.len() == 0 {
        assert(tok_state(s, cur, acc) == (cur, acc));
    } else if is_word_char(s[0]) {
        let c = lower_char(s[0]);
        assert(is_word_char(c) && lower_char(c) == c);
        assert(forall|k: int|
            0 <= k < cur.push(c).len() ==> is_word_char(#[trigger] cur.push(c)[k]) && lower_char(
                cur.push(c)[k],
            ) == cur.push(c)[k]);
        lemma_tok_state_plain(s.drop_first(), cur.push(c), acc);
        assert(tok_state(s, cur, acc) == tok_state(s.drop_first(), cur.push(c), acc));
    } else {
        if cur.len() > 0 {
            assert(is_plain_token(cur));
            assert(forall|k: int|
                0 <= k < acc.push(cur).len() ==> is_plain_token(#[trigger] acc.push(cur)[k]));
            lemma_tok_state_plain(s.drop_first(), Seq::empty(), acc.push(cur));
            assert(tok_state(s, cur, acc) == tok_state(s.drop_first(), Seq::empty(), acc.push(cur)));
        } else {
            lemma_tok_state_plain(s.drop_first(), Seq::empty(), acc);
            assert(tok_state(s, cur, acc) == tok_state(s.drop_first(), Seq::empty(), acc));
        }
    }
}

/// Every token of a text is plain.
pub proof fn lemma_tokens_plain(s: Seq<char>)
    ensures
        forall|k: int| 0 <= k < tokens_of(s).len() ==> is_plain_token(#[trigger] tokens_of(s)[k]),
{
    lemma_tok_state_plain(s, Seq::empty(), Seq::empty());
}

/// Reading a run of plain token characters extends the partial token and
/// completes nothing.
pub proof fn lemma_tok_state_run(w: Seq<char>, cur: Seq<char>, acc: Seq<Seq<char>>)
    requires
        forall|k: int|
            0 <= k < w.len() ==> is_word_char(#[trigger] w[k]) && lower_char(w[k]) == w[k],
    ensures
        tok_state(w, cur, acc) == (cur + w, acc),
    decreases w.len(),
{
    if w.len() == 0 {
        assert(cur + w =~= cur);
    } else {
        assert(lower_char(w[0]) == w[0]);
        lemma_tok_state_run(w.drop_first(), cur.push(w[0]), acc);
        assert(cur.push(w[0]) + w.drop_first() =~= cur + w);
    }
}

/// Tokenizing a single plain token yields that token alone: the tokenizer
/// is idempotent on its own output.
pub proof fn lemma_token_fixed_point(tk: Seq<char>)
    requires
        is_plain_token(tk),
    ensures
        tokens_of(tk) == seq![tk],
{
    lemma_tok_state_run(tk, Seq::empty(), Seq::empty());
    assert(Seq::<char>::empty() + tk =~= tk);
    assert(tokens_of(tk) =~= seq![tk]);
}

} // verus!
