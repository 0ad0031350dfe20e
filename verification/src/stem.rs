//! The Porter stemmer: suffix stripping over lowercase tokens, so that
//! morphological variants of a word match one another in the full-text
//! index. The classic algorithm: a measure counts vowel-consonant runs,
//! five ordered suffix-rule steps strip or rewrite endings.

use vstd::prelude::*;

use crate::ext::chars_to_string;
use crate::text::chars_of;

verus! {

/// Whether the character at `i` acts as a vowel: the five vowels, and `y`
/// after a consonant.
pub open spec fn is_vowel_at(w: Seq<char>, i: int) -> bool
    decreases i,
    when 0 <= i < w.len()
{
    let c = w[i];
    c == 'a' || c == 'e' || c == 'i' || c == 'o' || c == 'u' || (c == 'y' && i > 0 && !is_vowel_at(
        w,
        i - 1,
    ))
}

/// The vowel-consonant transitions within the first `n` characters, read
/// from position `i` with the previous position's vowel-ness given: the
/// Porter measure counts these.
pub open spec fn measure_between(w: Seq<char>, i: int, n: int, prev_vowel: bool) -> int
    decreases n - i,
    when 0 <= i <= n <= w.len()
{
    if i >= n {
        0
    } else {
        let v = is_vowel_at(w, i);
        (if prev_vowel && !v {
            1int
        } else {
            0int
        }) + measure_between(w, i + 1, n, v)
    }
}

/// The Porter measure of the first `n` characters.
pub open spec fn measure_to(w: Seq<char>, n: int) -> int {
    measure_between(w, 0, n, false)
}

/// Whether a vowel occurs within the first `n` characters.
pub open spec fn has_vowel_to(w: Seq<char>, n: int) -> bool {
    exists|i: int| 0 <= i < n && is_vowel_at(w, i)
}

/// Whether the first `n` characters end in a doubled consonant.
pub open spec fn double_cons_end(w: Seq<char>, n: int) -> bool {
    n >= 2 && n <= w.len() && w[n - 1] == w[n - 2] && !is_vowel_at(w, n - 1)
}

/// Whether the first `n` characters end consonant-vowel-consonant, the last
/// not `w`, `x` or `y`.
pub open spec fn cvc_end(w: Seq<char>, n: int) -> bool {
    n >= 3 && n <= w.len() && !is_vowel_at(w, n - 3) && is_vowel_at(w, n - 2) && !is_vowel_at(
        w,
        n - 1,
    ) && w[n - 1] != 'w' && w[n - 1] != 'x' && w[n - 1] != 'y'
}

/// Whether `w` ends with `s`.
pub open spec fn ends_with(w: Seq<char>, s: Seq<char>) -> bool {
    w.len() >= s.len() && w.skip(w.len() - s.len()) == s
}

/// `w` with its last `k` characters cut off.
pub open spec fn chop(w: Seq<char>, k: int) -> Seq<char> {
    w.take(w.len() - k)
}

/// Plurals: `sses` to `ss`, `ies` to `i`, a bare `s` dropped.
pub open spec fn step1a(w: Seq<char>) -> Seq<char> {
    if ends_with(w, "sses"@) {
        chop(w, 2)
    } else if ends_with(w, "ies"@) {
        chop(w, 2)
    } else if ends_with(w, "ss"@) {
        w
    } else if ends_with(w, "s"@) {
        chop(w, 1)
    } else {
        w
    }
}

/// The clean-up after `ed`/`ing` removal: restore an `e` after `at`, `bl`,
/// `iz`, undouble a final consonant (not `l`, `s`, `z`), or add `e` to a
/// short stem.
pub open spec fn step1b_fix(v: Seq<char>) -> Seq<char> {
    if ends_with(v, "at"@) || ends_with(v, "bl"@) || ends_with(v, "iz"@) {
        v + "e"@
    } else if double_cons_end(v, v.len() as int) && v.len() > 0 && v[v.len() - 1] != 'l'
        && v[v.len() - 1] != 's' && v[v.len() - 1] != 'z' {
        chop(v, 1)
    } else if measure_to(v, v.len() as int) == 1 && cvc_end(v, v.len() as int) {
        v + "e"@
    } else {
        v
    }
}

/// Past and progressive endings: `eed`, `ed`, `ing`.
pub open spec fn step1b(w: Seq<char>) -> Seq<char> {
    if ends_with(w, "eed"@) {
        if measure_to(w, w.len() - 3) > 0 {
            chop(w, 1)
        } else {
            w
        }
    } else if ends_with(w, "ed"@) && has_vowel_to(w, w.len() - 2) {
        step1b_fix(chop(w, 2))
    } else if ends_with(w, "ing"@) && has_vowel_to(w, w.len() - 3) {
        step1b_fix(chop(w, 3))
    } else {
        w
    }
}

/// A final `y` after a vowel-bearing stem becomes `i`.
pub open spec fn step1c(w: Seq<char>) -> Seq<char> {
    if ends_with(w, "y"@) && has_vowel_to(w, w.len() - 1) {
        chop(w, 1) + "i"@
    } else {
        w
    }
}

/// One double-suffix rewrite: when `w` ends with `suf` over a stem of
/// positive measure, the suffix becomes `repl`.
pub open spec fn rule_m0(w: Seq<char>, suf: Seq<char>, repl: Seq<char>) -> Seq<char> {
    if measure_to(w, w.len() - suf.len()) > 0 {
        chop(w, suf.len() as int) + repl
    } else {
        w
    }
}

/// Double suffixes to single ones.
pub open spec fn step2(w: Seq<char>) -> Seq<char> {
    if ends_with(w, "ational"@) {
        rule_m0(w, "ational"@, "ate"@)
    } else if ends_with(w, "tional"@) {
        rule_m0(w, "tional"@, "tion"@)
    } else if ends_with(w, "enci"@) {
        rule_m0(w, "enci"@, "ence"@)
    } else if ends_with(w, "anci"@) {
        rule_m0(w, "anci"@, "ance"@)
    } else if ends_with(w, "izer"@) {
        rule_m0(w, "izer"@, "ize"@)
    } else if ends_with(w, "abli"@) {
        rule_m0(w, "abli"@, "able"@)
    } else if ends_with(w, "alli"@) {
        rule_m0(w, "alli"@, "al"@)
    } else if ends_with(w, "entli"@) {
        rule_m0(w, "entli"@, "ent"@)
    } else if ends_with(w, "eli"@) {
        rule_m0(w, "eli"@, "e"@)
    } else if ends_with(w, "ousli"@) {
        rule_m0(w, "ousli"@, "ous"@)
    } else if ends_with(w, "ization"@) {
        rule_m0(w, "ization"@, "ize"@)
    } else if ends_with(w, "ation"@) {
        rule_m0(w, "ation"@, "ate"@)
    } else if ends_with(w, "ator"@) {
        rule_m0(w, "ator"@, "ate"@)
    } else if ends_with(w, "alism"@) {
        rule_m0(w, "alism"@, "al"@)
    } else if ends_with(w, "iveness"@) {
        rule_m0(w, "iveness"@, "ive"@)
    } else if ends_with(w, "fulness"@) {
        rule_m0(w, "fulness"@, "ful"@)
    } else if ends_with(w, "ousness"@) {
        rule_m0(w, "ousness"@, "ous"@)
    } else if ends_with(w, "aliti"@) {
        rule_m0(w, "aliti"@, "al"@)
    } else if ends_with(w, "iviti"@) {
        rule_m0(w, "iviti"@, "ive"@)
    } else if ends_with(w, "biliti"@) {
        rule_m0(w, "biliti"@, "ble"@)
    } else {
        w
    }
}

/// `ic`-ish suffixes and `ful`/`ness`.
pub open spec fn step3(w: Seq<char>) -> Seq<char> {
    if ends_with(w, "icate"@) {
        rule_m0(w, "icate"@, "ic"@)
    } else if ends_with(w, "ative"@) {
        rule_m0(w, "ative"@, ""@)
    } else if ends_with(w, "alize"@) {
        rule_m0(w, "alize"@, "al"@)
    } else if ends_with(w, "iciti"@) {
        rule_m0(w, "iciti"@, "ic"@)
    } else if ends_with(w, "ical"@) {
        rule_m0(w, "ical"@, "ic"@)
    } else if ends_with(w, "ful"@) {
        rule_m0(w, "ful"@, ""@)
    } else if ends_with(w, "ness"@) {
        rule_m0(w, "ness"@, ""@)
    } else {
        w
    }
}

/// One single-suffix drop: when `w` ends with `suf` over a stem of measure
/// above one, the suffix falls.
pub open spec fn rule_m1(w: Seq<char>, suf: Seq<char>) -> Seq<char> {
    if measure_to(w, w.len() - suf.len()) > 1 {
        chop(w, suf.len() as int)
    } else {
        w
    }
}

/// Latinate suffixes over long stems fall.
pub open spec fn step4(w: Seq<char>) -> Seq<char> {
    if ends_with(w, "ement"@) {
        rule_m1(w, "ement"@)
    } else if ends_with(w, "ance"@) {
        rule_m1(w, "ance"@)
    } else if ends_with(w, "ence"@) {
        rule_m1(w, "ence"@)
    } else if ends_with(w, "able"@) {
        rule_m1(w, "able"@)
    } else if ends_with(w, "ible"@) {
        rule_m1(w, "ible"@)
    } else if ends_with(w, "ment"@) {
        rule_m1(w, "ment"@)
    } else if ends_with(w, "ion"@) && w.len() >= 4 && (w[w.len() - 4] == 's' || w[w.len() - 4]
        == 't') {
        rule_m1(w, "ion"@)
    } else if ends_with(w, "ant"@) {
        rule_m1(w, "ant"@)
    } else if ends_with(w, "ent"@) {
        rule_m1(w, "ent"@)
    } else if ends_with(w, "ism"@) {
        rule_m1(w, "ism"@)
    } else if ends_with(w, "ate"@) {
        rule_m1(w, "ate"@)
    } else if ends_with(w, "iti"@) {
        rule_m1(w, "iti"@)
    } else if ends_with(w, "ous"@) {
        rule_m1(w, "ous"@)
    } else if ends_with(w, "ive"@) {
        rule_m1(w, "ive"@)
    } else if ends_with(w, "ize"@) {
        rule_m1(w, "ize"@)
    } else if ends_with(w, "al"@) {
        rule_m1(w, "al"@)
    } else if ends_with(w, "er"@) {
        rule_m1(w, "er"@)
    } else if ends_with(w, "ic"@) {
        rule_m1(w, "ic"@)
    } else if ends_with(w, "ou"@) {
        rule_m1(w, "ou"@)
    } else {
        w
    }
}

/// A final `e` falls over a long stem, or a short non-cvc stem.
pub open spec fn step5a(w: Seq<char>) -> Seq<char> {
    if ends_with(w, "e"@) {
        let m = measure_to(w, w.len() - 1);
        if m > 1 {
            chop(w, 1)
        } else if m == 1 && !cvc_end(w, w.len() - 1) {
            chop(w, 1)
        } else {
            w
        }
    } else {
        w
    }
}

/// A doubled final `l` over a long stem loses one.
pub open spec fn step5b(w: Seq<char>) -> Seq<char> {
    if measure_to(w, w.len() as int) > 1 && double_cons_end(w, w.len() as int) && w.len() > 0
        && w[w.len() - 1] == 'l' {
        chop(w, 1)
    } else {
        w
    }
}

/// The Porter stem of a token: words of one or two characters are left
/// alone; longer ones go through the five steps in order.
pub open spec fn porter_of(w: Seq<char>) -> Seq<char> {
    if w.len() <= 2 {
        w
    } else {
        step5b(step5a(step4(step3(step2(step1c(step1b(step1a(w))))))))
    }
}

/// Decides whether `w` ends with the characters of `s`.
pub fn ends_with_str(w: &Vec<char>, s: &str) -> (r: bool)
    ensures
        r == ends_with(w@, s@),
{
    let sv = chars_of(s);
    if w.len() < sv.len() {
        return false;
    }
    let wlen = w.len();
    let base = w.len() - sv.len();
    let mut i: usize = 0;
    while i < sv.len()
        invariant
            i <= sv@.len(),
            sv@ == s@,
            w@.len() == wlen,
            base == w@.len() - sv@.len(),
            forall|k: int| 0 <= k < i ==> w@[base + k] == sv@[k],
        decreases sv@.len() - i,
    {
        if w[base + i] != sv[i] {
            proof {
                assert(w@.skip(base as int)[i as int] == w@[base + i]);
                assert(w@.skip(base as int) != s@);
            }
            return false;
        }
        i = i + 1;
    }
    proof {
        assert(w@.skip(base as int) =~= s@);
    }
    true
}

/// Cuts the last `k` characters and appends `tail`.
pub fn chop_push(w: &Vec<char>, k: usize, tail: &str) -> (r: Vec<char>)
    requires
        k <= w@.len(),
    ensures
        r@ == chop(w@, k as int) + tail@,
{
    let mut r: Vec<char> = Vec::new();
    let end = w.len() - k;
    let mut i: usize = 0;
    while i < end
        invariant
            i <= end <= w@.len(),
            r@ == w@.take(i as int),
        decreases end - i,
    {
        r.push(w[i]);
        proof {
            assert(w@.take(i + 1) =~= w@.take(i as int).push(w@[i as int]));
        }
        i = i + 1;
    }
    let mut t = chars_of(tail);
    r.append(&mut t);
    proof {
        assert(r@ =~= chop(w@, k as int) + tail@);
    }
    r
}

/// Computes the vowel-ness of every position.
fn vowel_flags(w: &Vec<char>) -> (flags: Vec<bool>)
    ensures
        flags@.len() == w@.len(),
        forall|i: int| 0 <= i < w@.len() ==> flags@[i] == is_vowel_at(w@, i),
{
    let mut flags: Vec<bool> = Vec::new();
    let mut i: usize = 0;
    while i < w.len()
        invariant
            i <= w@.len(),
            flags@.len() == i,
            forall|k: int| 0 <= k < i ==> flags@[k] == is_vowel_at(w@, k),
        decreases w@.len() - i,
    {
        let c = w[i];
        let prev_vowel = if i == 0 {
            false
        } else {
            flags[i - 1]
        };
        let v = c == 'a' || c == 'e' || c == 'i' || c == 'o' || c == 'u' || (c == 'y' && i > 0
            && !prev_vowel);
        flags.push(v);
        i = i + 1;
    }
    flags
}

/// Computes the Porter measure of the first `n` characters.
pub fn measure_upto(w: &Vec<char>, n: usize) -> (m: usize)
    requires
        n <= w@.len(),
    ensures
        m == measure_to(w@, n as int),
{
    let flags = vowel_flags(w);
    let mut m: usize = 0;
    let mut prev = false;
    let mut i: usize = 0;
    while i < n
        invariant
            i <= n <= w@.len(),
            flags@.len() == w@.len(),
            forall|k: int| 0 <= k < w@.len() ==> flags@[k] == is_vowel_at(w@, k),
            prev == (if i == 0 {
                false
            } else {
                is_vowel_at(w@, i as int - 1)
            }),
            m <= i,
            m + measure_between(w@, i as int, n as int, prev) == measure_to(w@, n as int),
        decreases n - i,
    {
        let v = flags[i];
        if prev && !v {
            m = m + 1;
        }
        prev = v;
        i = i + 1;
    }
    m
}

/// Decides whether a vowel occurs within the first `n` characters.
pub fn has_vowel_upto(w: &Vec<char>, n: usize) -> (r: bool)
    requires
        n <= w@.len(),
    ensures
        r == has_vowel_to(w@, n as int),
{
    let flags = vowel_flags(w);
    let mut i: usize = 0;
    while i < n
        invariant
            i <= n <= w@.len(),
            flags@.len() == w@.len(),
            forall|k: int| 0 <= k < w@.len() ==> flags@[k] == is_vowel_at(w@, k),
            forall|k: int| 0 <= k < i ==> !is_vowel_at(w@, k),
        decreases n - i,
    {
        if flags[i] {
            return true;
        }
        i = i + 1;
    }
    false
}

/// Decides whether the first `n` characters end in a doubled consonant.
fn double_cons_end_exec(w: &Vec<char>, n: usize) -> (r: bool)
    requires
        n <= w@.len(),
    ensures
        r == double_cons_end(w@, n as int),
{
    if n < 2 {
        return false;
    }
    let flags = vowel_flags(w);
    w[n - 1] == w[n - 2] && !flags[n - 1]
}

/// Decides whether the first `n` characters end consonant-vowel-consonant.
fn cvc_end_exec(w: &Vec<char>, n: usize) -> (r: bool)
    requires
        n <= w@.len(),
    ensures
        r == cvc_end(w@, n as int),
{
    if n < 3 {
        return false;
    }
    let flags = vowel_flags(w);
    let last = w[n - 1];
    !flags[n - 3] && flags[n - 2] && !flags[n - 1] && last != 'w' && last != 'x' && last != 'y'
}

/// Applies one double-suffix rewrite.
fn rule_m0_exec(w: Vec<char>, suf_len: usize, suf: &str, repl: &str) -> (r: Vec<char>)
    requires
        ends_with(w@, suf@),
        suf@.len() == suf_len,
    ensures
        r@ == rule_m0(w@, suf@, repl@),
{
    let m = measure_upto(&w, w.len() - suf_len);
    if m > 0 {
        let r = chop_push(&w, suf_len, repl);
        proof {
            assert(r@ =~= rule_m0(w@, suf@, repl@));
        }
        r
    } else {
        w
    }
}

/// Applies one single-suffix drop.
fn rule_m1_exec(w: Vec<char>, suf_len: usize, suf: &str) -> (r: Vec<char>)
    requires
        ends_with(w@, suf@),
        suf@.len() == suf_len,
    ensures
        r@ == rule_m1(w@, suf@),
{
    let m = measure_upto(&w, w.len() - suf_len);
    if m > 1 {
        let r = chop_push(&w, suf_len, "");
        proof {
            reveal_strlit("");
            assert(r@ =~= rule_m1(w@, suf@));
        }
        r
    } else {
        w
    }
}

/// Stems one token's characters, as `porter_of` states it.
#[verifier::rlimit(100)]
pub fn porter_stem_chars(w: Vec<char>) -> (r: Vec<char>)
    ensures
        r@ == porter_of(w@),
{
    if w.len() <= 2 {
        return w;
    }
    let ghost w0 = w@;
    proof {
        reveal_strlit("");
        reveal_strlit("sses");
        reveal_strlit("ies");
        reveal_strlit("ss");
        reveal_strlit("s");
        reveal_strlit("eed");
        reveal_strlit("ed");
        reveal_strlit("ing");
        reveal_strlit("y");
        reveal_strlit("i");
        reveal_strlit("e");
        reveal_strlit("ational");
        reveal_strlit("tional");
        reveal_strlit("enci");
        reveal_strlit("anci");
        reveal_strlit("izer");
        reveal_strlit("abli");
        reveal_strlit("alli");
        reveal_strlit("entli");
        reveal_strlit("eli");
        reveal_strlit("ousli");
        reveal_strlit("ization");
        reveal_strlit("ation");
        reveal_strlit("ator");
        reveal_strlit("alism");
        reveal_strlit("iveness");
        reveal_strlit("fulness");
        reveal_strlit("ousness");
        reveal_strlit("aliti");
        reveal_strlit("iviti");
        reveal_strlit("biliti");
        reveal_strlit("icate");
        reveal_strlit("ative");
        reveal_strlit("alize");
        reveal_strlit("iciti");
        reveal_strlit("ical");
        reveal_strlit("ful");
        reveal_strlit("ness");
        reveal_strlit("ement");
        reveal_strlit("ance");
        reveal_strlit("ence");
        reveal_strlit("able");
        reveal_strlit("ible");
        reveal_strlit("ment");
        reveal_strlit("ion");
        reveal_strlit("ant");
        reveal_strlit("ent");
        reveal_strlit("ism");
        reveal_strlit("ate");
        reveal_strlit("iti");
        reveal_strlit("ous");
        reveal_strlit("ive");
        reveal_strlit("ize");
        reveal_strlit("al");
        reveal_strlit("er");
        reveal_strlit("ic");
        reveal_strlit("ou");
    }
    // Step 1a: plurals.
    let w1a: Vec<char> = if ends_with_str(&w, "sses") {
        chop_push(&w, 2, "")
    } else if ends_with_str(&w, "ies") {
        chop_push(&w, 2, "")
    } else if ends_with_str(&w, "ss") {
        w
    } else if ends_with_str(&w, "s") {
        chop_push(&w, 1, "")
    } else {
        w
    };
    proof {
        assert(w1a@ =~= step1a(w0));
    }
    let ghost a1 = w1a@;
    // Step 1b: ed / ing, with its clean-up.
    let w1b: Vec<char> = if ends_with_str(&w1a, "eed") {
        if measure_upto(&w1a, w1a.len() - 3) > 0 {
            chop_push(&w1a, 1, "")
        } else {
            w1a
        }
    } else if ends_with_str(&w1a, "ed") && has_vowel_upto(&w1a, w1a.len() - 2) {
        step1b_fix_exec(chop_push(&w1a, 2, ""))
    } else if ends_with_str(&w1a, "ing") && has_vowel_upto(&w1a, w1a.len() - 3) {
        step1b_fix_exec(chop_push(&w1a, 3, ""))
    } else {
        w1a
    };
    proof {
        assert(w1b@ =~= step1b(a1));
    }
    let ghost b1 = w1b@;
    // Step 1c: terminal y.
    let w1c: Vec<char> = if ends_with_str(&w1b, "y") && has_vowel_upto(&w1b, w1b.len() - 1) {
        chop_push(&w1b, 1, "i")
    } else {
        w1b
    };
    proof {
        assert(w1c@ =~= step1c(b1));
    }
    let ghost c1 = w1c@;
    // Step 2: double suffixes.
    let w2: Vec<char> = if ends_with_str(&w1c, "ational") {
        rule_m0_exec(w1c, 7, "ational", "ate")
    } else if ends_with_str(&w1c, "tional") {
        rule_m0_exec(w1c, 6, "tional", "tion")
    } else if ends_with_str(&w1c, "enci") {
        rule_m0_exec(w1c, 4, "enci", "ence")
    } else if ends_with_str(&w1c, "anci") {
        rule_m0_exec(w1c, 4, "anci", "ance")
    } else if ends_with_str(&w1c, "izer") {
        rule_m0_exec(w1c, 4, "izer", "ize")
    } else if ends_with_str(&w1c, "abli") {
        rule_m0_exec(w1c, 4, "abli", "able")
    } else if ends_with_str(&w1c, "alli") {
        rule_m0_exec(w1c, 4, "alli", "al")
    } else if ends_with_str(&w1c, "entli") {
        rule_m0_exec(w1c, 5, "entli", "ent")
    } else if ends_with_str(&w1c, "eli") {
        rule_m0_exec(w1c, 3, "eli", "e")
    } else if ends_with_str(&w1c, "ousli") {
        rule_m0_exec(w1c, 5, "ousli", "ous")
    } else if ends_with_str(&w1c, "ization") {
        rule_m0_exec(w1c, 7, "ization", "ize")
    } else if ends_with_str(&w1c, "ation") {
        rule_m0_exec(w1c, 5, "ation", "ate")
    } else if ends_with_str(&w1c, "ator") {
        rule_m0_exec(w1c, 4, "ator", "ate")
    } else if ends_with_str(&w1c, "alism") {
        rule_m0_exec(w1c, 5, "alism", "al")
    } else if ends_with_str(&w1c, "iveness") {
        rule_m0_exec(w1c, 7, "iveness", "ive")
    } else if ends_with_str(&w1c, "fulness") {
        rule_m0_exec(w1c, 7, "fulness", "ful")
    } else if ends_with_str(&w1c, "ousness") {
        rule_m0_exec(w1c, 7, "ousness", "ous")
    } else if ends_with_str(&w1c, "aliti") {
        rule_m0_exec(w1c, 5, "aliti", "al")
    } else if ends_with_str(&w1c, "iviti") {
        rule_m0_exec(w1c, 5, "iviti", "ive")
    } else if ends_with_str(&w1c, "biliti") {
        rule_m0_exec(w1c, 6, "biliti", "ble")
    } else {
        w1c
    };
    proof {
        assert(w2@ =~= step2(c1));
    }
    let ghost d1 = w2@;
    // Step 3.
    let w3: Vec<char> = if ends_with_str(&w2, "icate") {
        rule_m0_exec(w2, 5, "icate", "ic")
    } else if ends_with_str(&w2, "ative") {
        rule_m0_exec(w2, 5, "ative", "")
    } else if ends_with_str(&w2, "alize") {
        rule_m0_exec(w2, 5, "alize", "al")
    } else if ends_with_str(&w2, "iciti") {
        rule_m0_exec(w2, 5, "iciti", "ic")
    } else if ends_with_str(&w2, "ical") {
        rule_m0_exec(w2, 4, "ical", "ic")
    } else if ends_with_str(&w2, "ful") {
        rule_m0_exec(w2, 3, "ful", "")
    } else if ends_with_str(&w2, "ness") {
        rule_m0_exec(w2, 4, "ness", "")
    } else {
        w2
    };
    proof {
        assert(w3@ =~= step3(d1));
    }
    let ghost e1 = w3@;
    // Step 4.
    let w4: Vec<char> = if ends_with_str(&w3, "ement") {
        rule_m1_exec(w3, 5, "ement")
    } else if ends_with_str(&w3, "ance") {
        rule_m1_exec(w3, 4, "ance")
    } else if ends_with_str(&w3, "ence") {
        rule_m1_exec(w3, 4, "ence")
    } else if ends_with_str(&w3, "able") {
        rule_m1_exec(w3, 4, "able")
    } else if ends_with_str(&w3, "ible") {
        rule_m1_exec(w3, 4, "ible")
    } else if ends_with_str(&w3, "ment") {
        rule_m1_exec(w3, 4, "ment")
    } else if ends_with_str(&w3, "ion") && w3.len() >= 4 && (w3[w3.len() - 4] == 's' || w3[w3.len()
        - 4] == 't') {
        rule_m1_exec(w3, 3, "ion")
    } else if ends_with_str(&w3, "ant") {
        rule_m1_exec(w3, 3, "ant")
    } else if ends_with_str(&w3, "ent") {
        rule_m1_exec(w3, 3, "ent")
    } else if ends_with_str(&w3, "ism") {
        rule_m1_exec(w3, 3, "ism")
    } else if ends_with_str(&w3, "ate") {
        rule_m1_exec(w3, 3, "ate")
    } else if ends_with_str(&w3, "iti") {
        rule_m1_exec(w3, 3, "iti")
    } else if ends_with_str(&w3, "ous") {
        rule_m1_exec(w3, 3, "ous")
    } else if ends_with_str(&w3, "ive") {
        rule_m1_exec(w3, 3, "ive")
    } else if ends_with_str(&w3, "ize") {
        rule_m1_exec(w3, 3, "ize")
    } else if ends_with_str(&w3, "al") {
        rule_m1_exec(w3, 2, "al")
    } else if ends_with_str(&w3, "er") {
        rule_m1_exec(w3, 2, "er")
    } else if ends_with_str(&w3, "ic") {
        rule_m1_exec(w3, 2, "ic")
    } else if ends_with_str(&w3, "ou") {
        rule_m1_exec(w3, 2, "ou")
    } else {
        w3
    };
    proof {
        assert(w4@ =~= step4(e1));
    }
    let ghost f1 = w4@;
    // Step 5a.
    let w5a: Vec<char> = if ends_with_str(&w4, "e") {
        let m = measure_upto(&w4, w4.len() - 1);
        if m > 1 {
            chop_push(&w4, 1, "")
        } else if m == 1 && !cvc_end_exec(&w4, w4.len() - 1) {
            chop_push(&w4, 1, "")
        } else {
            w4
        }
    } else {
        w4
    };
    proof {
        assert(w5a@ =~= step5a(f1));
    }
    let ghost g1 = w5a@;
    // Step 5b.
    let w5b: Vec<char> = if measure_upto(&w5a, w5a.len()) > 1 && double_cons_end_exec(
        &w5a,
        w5a.len(),
    ) && w5a.len() > 0 && w5a[w5a.len() - 1] == 'l' {
        chop_push(&w5a, 1, "")
    } else {
        w5a
    };
    proof {
        assert(w5b@ =~= step5b(g1));
    }
    w5b
}

/// The clean-up after `ed`/`ing` removal, as `step1b_fix` states it.
fn step1b_fix_exec(v: Vec<char>) -> (r: Vec<char>)
    ensures
        r@ == step1b_fix(v@),
{
    proof {
        reveal_strlit("");
        reveal_strlit("at");
        reveal_strlit("bl");
        reveal_strlit("iz");
        reveal_strlit("e");
    }
    if ends_with_str(&v, "at") || ends_with_str(&v, "bl") || ends_with_str(&v, "iz") {
        let r = chop_push(&v, 0, "e");
        proof {
            assert(chop(v@, 0) =~= v@);
            assert(r@ =~= v@ + "e"@);
        }
        r
    } else {
        let dbl = double_cons_end_exec(&v, v.len());
        if dbl && v.len() > 0 && v[v.len() - 1] != 'l' && v[v.len() - 1] != 's' && v[v.len() - 1]
            != 'z' {
            let r = chop_push(&v, 1, "");
            proof {
                assert(r@ =~= chop(v@, 1));
            }
            r
        } else {
            let m = measure_upto(&v, v.len());
            if m == 1 && cvc_end_exec(&v, v.len()) {
                let r = chop_push(&v, 0, "e");
                proof {
                    assert(chop(v@, 0) =~= v@);
                    assert(r@ =~= v@ + "e"@);
                }
                r
            } else {
                v
            }
        }
    }
}

/// Stems one token given as a string.
pub fn porter_stem(s: &str) -> (r: String)
    ensures
        r@ == porter_of(s@),
{
    let cs = chars_of(s);
    let stemmed = porter_stem_chars(cs);
    chars_to_string(&stemmed)
}

} // verus!
