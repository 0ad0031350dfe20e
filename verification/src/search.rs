//! Lexical search over the store: tokenized, Porter-stemmed matching
//! against filenames and stored text, deterministic ranking, and snippets
//! that mark the matched words inside a bounded window.

use vstd::prelude::*;

use crate::error::CortexError;
use crate::ext::chars_to_string;
use crate::extract::{trim_chars, trim_of};
use crate::store::{
    clamp_count,
    index_of_contentv,
    ContentV,
    Database,
    FileV,
    SearchResult,
};
use crate::text::{
    chars_of,
    join_spaces,
    split_whitespace_chars,
    tokenize_chars,
    tokens_of,
    words_of,
};

verus! {

/// The mathematical shadow of a search hit.
pub struct SearchResultV {
    pub file_id: i64,
    pub path: Seq<char>,
    pub filename: Seq<char>,
    pub snippet: Seq<char>,
    pub score: i64,
}

impl View for SearchResult {
    type V = SearchResultV;

    open spec fn view(&self) -> SearchResultV {
        SearchResultV {
            file_id: self.file_id,
            path: self.path@,
            filename: self.filename@,
            snippet: self.snippet@,
            score: self.score,
        }
    }
}

/// The shadows of a run of search hits.
pub open spec fn results_view(s: Seq<SearchResult>) -> Seq<SearchResultV> {
    Seq::new(s.len(), |i: int| s[i]@)
}

/// A token run with every token Porter-stemmed.
pub open spec fn stemmed(ts: Seq<Seq<char>>) -> Seq<Seq<char>> {
    ts.map_values(|t: Seq<char>| crate::stem::porter_of(t))
}

/// The stemmed tokens a query string reduces to.
pub open spec fn query_tokens(q: Seq<char>) -> Seq<Seq<char>> {
    stemmed(tokens_of(q))
}

/// The tokens a document is matched by: those of its filename, then those
/// of its stored text, every one Porter-stemmed.
pub open spec fn doc_tokens(f: FileV, text: Seq<char>) -> Seq<Seq<char>> {
    stemmed(tokens_of(f.filename)) + stemmed(tokens_of(text))
}

/// Whether a document satisfies a query: every query token occurs among the
/// document's tokens.
pub open spec fn doc_matches(f: FileV, text: Seq<char>, qts: Seq<Seq<char>>) -> bool {
    forall|k: int| 0 <= k < qts.len() ==> doc_tokens(f, text).contains(#[trigger] qts[k])
}

/// The rank of a match: the negated number of document tokens that are
/// query tokens, so that richer matches order first (ascending rank, a
/// deterministic stand-in for a statistical relevance scorer, which would
/// be floating point).
pub open spec fn match_rank(f: FileV, text: Seq<char>, qts: Seq<Seq<char>>) -> i64 {
    (0 - clamp_count(
        doc_tokens(f, text).filter(|t: Seq<char>| qts.contains(t)).len() as int,
    )) as i64
}

/// Whether a whitespace word of the text is hit by the query: one of its
/// stemmed tokens is a query token.
pub open spec fn word_hits(w: Seq<char>, qts: Seq<Seq<char>>) -> bool {
    exists|k: int|
        0 <= k < tokens_of(w).len() && qts.contains(
            crate::stem::porter_of(#[trigger] tokens_of(w)[k]),
        )
}

/// The index of the first hit word at or past `i`, or the word count.
pub open spec fn first_hit(ws: Seq<Seq<char>>, qts: Seq<Seq<char>>, i: int) -> int
    decreases ws.len() - i,
    when 0 <= i <= ws.len()
{
    if i >= ws.len() {
        ws.len() as int
    } else if word_hits(ws[i], qts) {
        i
    } else {
        first_hit(ws, qts, i + 1)
    }
}

/// A word, wrapped in mark delimiters when the query hits it.
pub open spec fn mark_word(w: Seq<char>, qts: Seq<Seq<char>>) -> Seq<char> {
    if word_hits(w, qts) {
        "<mark>"@ + w + "</mark>"@
    } else {
        w
    }
}

/// The snippet of a text for a query: a window of up to 32 words starting
/// at the first hit, hit words marked, with ellipses where the window cuts.
pub open spec fn snippet_of(text: Seq<char>, qts: Seq<Seq<char>>) -> Seq<char> {
    let ws = words_of(text);
    let h = first_hit(ws, qts, 0);
    let start = if h == ws.len() {
        0
    } else {
        h
    };
    let end = if start + 32 <= ws.len() {
        start + 32
    } else {
        ws.len() as int
    };
    let window = Seq::new((end - start) as nat, |i: int| mark_word(ws[start + i], qts));
    (if start > 0 {
        "..."@
    } else {
        Seq::<char>::empty()
    }) + join_spaces(window) + (if end < ws.len() {
        "..."@
    } else {
        Seq::<char>::empty()
    })
}

/// The stored text of a file, when its content row has one.
pub open spec fn text_of_opt(cs: Seq<ContentV>, id: i64) -> Option<Seq<char>> {
    let j = index_of_contentv(cs, id);
    if j >= 0 {
        cs[j].text
    } else {
        Option::None
    }
}

/// Whether a file is a search candidate that satisfies the query: it is not
/// deleted, its content row holds text, and every query token occurs.
pub open spec fn is_match(f: FileV, cs: Seq<ContentV>, qts: Seq<Seq<char>>) -> bool {
    &&& !f.is_deleted
    &&& text_of_opt(cs, f.id) is Some
    &&& doc_matches(f, text_of_opt(cs, f.id).unwrap(), qts)
}

/// The search hit a matching file yields.
pub open spec fn result_of(f: FileV, text: Seq<char>, qts: Seq<Seq<char>>) -> SearchResultV {
    SearchResultV {
        file_id: f.id,
        path: f.path,
        filename: f.filename,
        snippet: snippet_of(text, qts),
        score: match_rank(f, text, qts),
    }
}

/// The search hits of all matching files, in file-table order.
pub open spec fn results_of(fs: Seq<FileV>, cs: Seq<ContentV>, qts: Seq<Seq<char>>) -> Seq<
    SearchResultV,
>
    decreases fs.len(),
{
    if fs.len() == 0 {
        Seq::empty()
    } else {
        let rest = results_of(fs.drop_last(), cs, qts);
        let f = fs.last();
        if is_match(f, cs, qts) {
            rest.push(result_of(f, text_of_opt(cs, f.id).unwrap(), qts))
        } else {
            rest
        }
    }
}

/// Every matching file's hit is among the assembled hits.
pub proof fn lemma_results_complete(fs: Seq<FileV>, cs: Seq<ContentV>, qts: Seq<Seq<char>>, i: int)
    requires
        0 <= i < fs.len(),
        is_match(fs[i], cs, qts),
    ensures
        results_of(fs, cs, qts).contains(
            result_of(fs[i], text_of_opt(cs, fs[i].id).unwrap(), qts),
        ),
    decreases fs.len(),
{
    let r = result_of(fs[i], text_of_opt(cs, fs[i].id).unwrap(), qts);
    if i == fs.len() - 1 {
        let whole = results_of(fs, cs, qts);
        assert(whole.last() == r);
        assert(whole.contains(r));
    } else {
        assert(fs.drop_last()[i] == fs[i]);
        lemma_results_complete(fs.drop_last(), cs, qts, i);
        let rest = results_of(fs.drop_last(), cs, qts);
        let j = choose|j: int| 0 <= j < rest.len() && rest[j] == r;
        if is_match(fs.last(), cs, qts) {
            assert(results_of(fs, cs, qts)[j] == r);
        } else {
            assert(results_of(fs, cs, qts)[j] == r);
        }
    }
}

/// There are never more hits than files.
pub proof fn lemma_results_len(fs: Seq<FileV>, cs: Seq<ContentV>, qts: Seq<Seq<char>>)
    ensures
        results_of(fs, cs, qts).len() <= fs.len(),
    decreases fs.len(),
{
    if fs.len() > 0 {
        lemma_results_len(fs.drop_last(), cs, qts);
    }
}

/// The deterministic order of hits: ascending rank, ties by identifier.
pub open spec fn result_le(a: SearchResultV, b: SearchResultV) -> bool {
    a.score < b.score || (a.score == b.score && a.file_id <= b.file_id)
}

/// Decides the hit order.
pub fn result_before(a: &SearchResult, b: &SearchResult) -> (r: bool)
    ensures
        r == result_le(a@, b@),
{
    a.score < b.score || (a.score == b.score && a.file_id <= b.file_id)
}

/// Copies a search hit; the copy has the same shadow.
pub fn clone_result(x: &SearchResult) -> (r: SearchResult)
    ensures
        r@ == x@,
{
    SearchResult {
        file_id: x.file_id,
        path: String::from_str(x.path.as_str()),
        filename: String::from_str(x.filename.as_str()),
        snippet: String::from_str(x.snippet.as_str()),
        score: x.score,
    }
}

/// Sorts hits ascending by rank, ties by identifier: the result is a
/// permutation of the input with neighbours in order.
pub fn sort_results(input: Vec<SearchResult>) -> (out: Vec<SearchResult>)
    ensures
        results_view(out@).to_multiset() == results_view(input@).to_multiset(),
        forall|k: int|
            0 <= k && k + 1 < out@.len() ==> result_le(
                #[trigger] results_view(out@)[k],
                results_view(out@)[k + 1],
            ),
{
    let ghost orig = results_view(input@);
    let mut work = input;
    let mut out: Vec<SearchResult> = Vec::new();
    proof {
        broadcast use vstd::seq_lib::group_to_multiset_ensures;

        assert(results_view(out@) =~= Seq::<SearchResultV>::empty());
        assert(results_view(work@) =~= orig);
        assert(results_view(out@).to_multiset().add(results_view(work@).to_multiset())
            =~= orig.to_multiset());
    }
    while work.len() > 0
        invariant
            results_view(out@).to_multiset().add(results_view(work@).to_multiset())
                == orig.to_multiset(),
            forall|k: int|
                0 <= k && k + 1 < out@.len() ==> result_le(
                    #[trigger] results_view(out@)[k],
                    results_view(out@)[k + 1],
                ),
            forall|a: int, b: int|
                0 <= a < out@.len() && 0 <= b < work@.len() ==> result_le(
                    #[trigger] results_view(out@)[a],
                    #[trigger] results_view(work@)[b],
                ),
        decreases work@.len(),
    {
        let mut best: usize = 0;
        let mut j: usize = 1;
        while j < work.len()
            invariant
                best < work@.len(),
                j <= work@.len(),
                work@.len() > 0,
                forall|k: int|
                    0 <= k < j ==> result_le(
                        results_view(work@)[best as int],
                        #[trigger] results_view(work@)[k],
                    ),
            decreases work@.len() - j,
        {
            if !result_before(&work[best], &work[j]) {
                let ghost prev_best = best as int;
                best = j;
                proof {
                    let wv = results_view(work@);
                    assert(result_le(wv[j as int], wv[prev_best]));
                    assert forall|k: int| 0 <= k < j + 1 implies result_le(
                        wv[best as int],
                        #[trigger] wv[k],
                    ) by {
                        if k != j as int {
                            assert(result_le(wv[prev_best], wv[k]));
                        }
                    }
                }
            }
            j = j + 1;
        }
        let ghost old_out = results_view(out@);
        let ghost old_work = results_view(work@);
        let x = work.remove(best);
        let ghost xv = x@;
        out.push(x);
        proof {
            broadcast use vstd::seq_lib::group_to_multiset_ensures;

            assert(xv == old_work[best as int]);
            assert(results_view(out@) =~= old_out.push(xv));
            assert(results_view(work@) =~= old_work.remove(best as int));
            assert(results_view(out@).to_multiset() =~= old_out.to_multiset().insert(xv));
            assert(results_view(work@).to_multiset() =~= old_work.to_multiset().remove(xv));
            assert(old_work.to_multiset().count(xv) > 0);
            assert(results_view(out@).to_multiset().add(results_view(work@).to_multiset())
                =~= old_out.to_multiset().add(old_work.to_multiset()));
            old_work.remove_ensures(best as int);
            assert forall|a: int, b: int|
                0 <= a < out@.len() && 0 <= b < work@.len() implies result_le(
                #[trigger] results_view(out@)[a],
                #[trigger] results_view(work@)[b],
            ) by {
                let b0 = if b < best as int {
                    b
                } else {
                    b + 1
                };
                assert(results_view(work@)[b] == old_work[b0]);
                if a < out@.len() - 1 {
                    assert(result_le(old_out[a], old_work[b0]));
                } else {
                    assert(result_le(xv, old_work[b0]));
                }
            }
        }
    }
    proof {
        broadcast use vstd::seq_lib::group_to_multiset_ensures;

        assert(results_view(work@) =~= Seq::<SearchResultV>::empty());
        assert(results_view(work@).to_multiset() =~= vstd::multiset::Multiset::<
            SearchResultV,
        >::empty());
        assert(results_view(out@).to_multiset().add(
            vstd::multiset::Multiset::<SearchResultV>::empty(),
        ) =~= results_view(out@).to_multiset());
    }
    out
}

/// Stems every token of a run.
pub fn stem_tokens(ts: Vec<Vec<char>>) -> (r: Vec<Vec<char>>)
    ensures
        r.deep_view() == stemmed(ts.deep_view()),
{
    let ghost tv = ts.deep_view();
    let mut out: Vec<Vec<char>> = Vec::new();
    let mut i: usize = 0;
    proof {
        assert(out.deep_view() =~~= stemmed(tv).take(0));
    }
    while i < ts.len()
        invariant
            i <= ts@.len(),
            tv == ts.deep_view(),
            out.deep_view() == stemmed(tv).take(i as int),
        decreases ts@.len() - i,
    {
        proof {
            assert(ts.deep_view()[i as int] =~= ts@[i as int]@);
        }
        let ghost prev = out.deep_view();
        let tok = copy_chars(&ts[i]);
        let st = crate::stem::porter_stem_chars(tok);
        out.push(st);
        proof {
            assert(out.deep_view() =~~= prev.push(crate::stem::porter_of(tv[i as int])));
            assert(stemmed(tv).take(i + 1) =~= stemmed(tv).take(i as int).push(
                stemmed(tv)[i as int],
            ));
            assert(stemmed(tv)[i as int] == crate::stem::porter_of(tv[i as int]));
        }
        i = i + 1;
    }
    proof {
        assert(stemmed(tv).take(stemmed(tv).len() as int) =~= stemmed(tv));
    }
    out
}

/// Whether a token list holds the given token.
pub fn contains_token(ts: &Vec<Vec<char>>, t: &Vec<char>) -> (r: bool)
    ensures
        r == ts.deep_view().contains(t@),
{
    let mut i: usize = 0;
    while i < ts.len()
        invariant
            i <= ts@.len(),
            forall|k: int| 0 <= k < i ==> #[trigger] ts.deep_view()[k] != t@,
        decreases ts@.len() - i,
    {
        proof {
            assert(ts.deep_view()[i as int] =~= ts@[i as int]@);
        }
        if crate::path::chars_eq(&ts[i], t) {
            proof {
                assert(ts.deep_view()[i as int] == t@);
            }
            return true;
        }
        i = i + 1;
    }
    proof {
        if ts.deep_view().contains(t@) {
            let w = choose|w: int| 0 <= w < ts.deep_view().len() && ts.deep_view()[w] == t@;
            assert(false);
        }
    }
    false
}

/// Whether every query token occurs among the document tokens.
pub fn all_tokens_contained(qts: &Vec<Vec<char>>, doc: &Vec<Vec<char>>) -> (r: bool)
    ensures
        r == (forall|k: int|
            0 <= k < qts.deep_view().len() ==> doc.deep_view().contains(
                #[trigger] qts.deep_view()[k],
            )),
{
    let mut i: usize = 0;
    while i < qts.len()
        invariant
            i <= qts@.len(),
            forall|k: int|
                0 <= k < i ==> doc.deep_view().contains(#[trigger] qts.deep_view()[k]),
        decreases qts@.len() - i,
    {
        proof {
            assert(qts.deep_view()[i as int] =~= qts@[i as int]@);
        }
        if !contains_token(doc, &qts[i]) {
            return false;
        }
        i = i + 1;
    }
    true
}

/// Counts the document tokens that are query tokens, clamped into `i64`.
pub fn count_hit_tokens(doc: &Vec<Vec<char>>, qts: &Vec<Vec<char>>) -> (n: i64)
    ensures
        n == clamp_count(
            doc.deep_view().filter(|t: Seq<char>| qts.deep_view().contains(t)).len() as int,
        ),
{
    let ghost dv = doc.deep_view();
    let ghost qv = qts.deep_view();
    let ghost pred = |t: Seq<char>| qv.contains(t);
    let mut n: i64 = 0;
    let mut i: usize = 0;
    proof {
        reveal(Seq::filter);
        assert(dv.take(0) =~= Seq::<Seq<char>>::empty());
        assert(dv.take(0).filter(pred) =~= Seq::<Seq<char>>::empty());
    }
    while i < doc.len()
        invariant
            i <= dv.len(),
            dv == doc.deep_view(),
            qv == qts.deep_view(),
            pred == (|t: Seq<char>| qv.contains(t)),
            0 <= n,
            n == clamp_count(dv.take(i as int).filter(pred).len() as int),
        decreases dv.len() - i,
    {
        proof {
            reveal(Seq::filter);
            assert(dv.take(i + 1).drop_last() =~= dv.take(i as int));
            assert(dv.take(i + 1).last() == dv[i as int]);
            dv.take(i as int).lemma_filter_len(pred);
            assert(dv[i as int] =~= doc@[i as int]@);
        }
        if contains_token(qts, &doc[i]) {
            proof {
                reveal(Seq::filter);
                assert(pred(dv[i as int]));
                assert(dv.take(i + 1).filter(pred) == dv.take(i as int).filter(pred).push(
                    dv[i as int],
                ));
            }
            if n < i64::MAX {
                n = n + 1;
            }
        } else {
            proof {
                reveal(Seq::filter);
                assert(!pred(dv[i as int]));
                assert(dv.take(i + 1).filter(pred) == dv.take(i as int).filter(pred));
            }
        }
        i = i + 1;
    }
    proof {
        assert(dv.take(dv.len() as int) =~= dv);
    }
    n
}

/// Whether the query hits a word: one of the word's tokens is a query token.
pub fn word_hit(w: &Vec<char>, qts: &Vec<Vec<char>>) -> (r: bool)
    ensures
        r == word_hits(w@, qts.deep_view()),
{
    let ts = tokenize_chars(w);
    let mut i: usize = 0;
    while i < ts.len()
        invariant
            i <= ts@.len(),
            ts.deep_view() == tokens_of(w@),
            forall|k: int|
                0 <= k < i ==> !qts.deep_view().contains(
                    crate::stem::porter_of(#[trigger] tokens_of(w@)[k]),
                ),
        decreases ts@.len() - i,
    {
        proof {
            assert(ts.deep_view()[i as int] =~= ts@[i as int]@);
        }
        let tok = copy_chars(&ts[i]);
        let st = crate::stem::porter_stem_chars(tok);
        if contains_token(qts, &st) {
            proof {
                assert(qts.deep_view().contains(crate::stem::porter_of(tokens_of(w@)[i as int])));
            }
            return true;
        }
        i = i + 1;
    }
    proof {
        if word_hits(w@, qts.deep_view()) {
            let k = choose|k: int|
                0 <= k < tokens_of(w@).len() && qts.deep_view().contains(
                    crate::stem::porter_of(#[trigger] tokens_of(w@)[k]),
                );
            assert(false);
        }
    }
    false
}

/// Builds the snippet of a text for a query, as `snippet_of` states it.
pub fn build_snippet(text: &Vec<char>, qts: &Vec<Vec<char>>) -> (r: Vec<char>)
    ensures
        r@ == snippet_of(text@, qts.deep_view()),
{
    let ghost qv = qts.deep_view();
    let ws = split_whitespace_chars(text);
    let ghost wv = ws.deep_view();
    let mut h: usize = 0;
    let mut found = false;
    proof {
        assert(first_hit(wv, qv, 0) == first_hit(wv, qv, 0));
    }
    while !found && h < ws.len()
        invariant
            h <= wv.len(),
            wv == ws.deep_view(),
            qv == qts.deep_view(),
            first_hit(wv, qv, 0) == first_hit(wv, qv, h as int),
            found ==> h < wv.len() && word_hits(wv[h as int], qv),
        decreases wv.len() - h + (if found {
            0int
        } else {
            1int
        }),
    {
        proof {
            assert(wv[h as int] =~= ws@[h as int]@);
        }
        if word_hit(&ws[h], qts) {
            found = true;
        } else {
            h = h + 1;
        }
    }
    proof {
        if found {
            assert(first_hit(wv, qv, h as int) == h as int);
        } else {
            assert(h == wv.len());
            assert(first_hit(wv, qv, h as int) == wv.len() as int);
        }
    }
    let start: usize = if found {
        h
    } else {
        0
    };
    let end: usize = if ws.len() - start >= 32 {
        start + 32
    } else {
        ws.len()
    };
    let ghost window = Seq::new((end - start) as nat, |i: int| mark_word(wv[start + i], qv));
    let mut marked: Vec<Vec<char>> = Vec::new();
    let mut k: usize = start;
    proof {
        assert(marked.deep_view() =~~= window.take(0));
    }
    while k < end
        invariant
            start <= k <= end <= wv.len(),
            wv == ws.deep_view(),
            qv == qts.deep_view(),
            window == Seq::new((end - start) as nat, |i: int| mark_word(wv[start + i], qv)),
            marked.deep_view() == window.take(k - start),
        decreases end - k,
    {
        proof {
            assert(wv[k as int] =~= ws@[k as int]@);
        }
        let ghost prev = marked.deep_view();
        let w = &ws[k];
        let m: Vec<char> = if word_hit(w, qts) {
            let mut wrapped = chars_of("<mark>");
            let mut mid = copy_chars(w);
            let mut post = chars_of("</mark>");
            wrapped.append(&mut mid);
            wrapped.append(&mut post);
            proof {
                assert(wrapped@ =~= "<mark>"@ + w@ + "</mark>"@);
            }
            wrapped
        } else {
            copy_chars(w)
        };
        proof {
            assert(m@ == mark_word(wv[k as int], qv));
        }
        marked.push(m);
        proof {
            assert(marked.deep_view() =~~= prev.push(mark_word(wv[k as int], qv)));
            assert(window.take(k - start + 1) =~= window.take(k - start).push(
                window[k - start],
            ));
            assert(window[k - start] == mark_word(wv[k as int], qv));
        }
        k = k + 1;
    }
    proof {
        assert(window.take(window.len() as int) =~= window);
    }
    let joined = crate::text::join_with_spaces(&marked);
    let mut out: Vec<char> = Vec::new();
    if start > 0 {
        let mut dots = chars_of("...");
        out.append(&mut dots);
    }
    let mut joined2 = joined;
    out.append(&mut joined2);
    if end < ws.len() {
        let mut dots = chars_of("...");
        out.append(&mut dots);
    }
    proof {
        assert(out@ =~= snippet_of(text@, qv));
    }
    out
}

/// Copies a character vector.
pub fn copy_chars(v: &Vec<char>) -> (r: Vec<char>)
    ensures
        r@ == v@,
{
    let mut r: Vec<char> = Vec::new();
    let mut i: usize = 0;
    while i < v.len()
        invariant
            i <= v@.len(),
            r@ == v@.take(i as int),
        decreases v@.len() - i,
    {
        r.push(v[i]);
        proof {
            assert(v@.take(i + 1) =~= v@.take(i as int).push(v@[i as int]));
        }
        i = i + 1;
    }
    proof {
        assert(v@.take(v@.len() as int) =~= v@);
    }
    r
}

impl Database {
    /// Lexical search: empty, whitespace-only or token-free queries are
    /// refused; otherwise the hits of every matching non-deleted file with
    /// stored text, ranked ascending with identifier tie-break, truncated
    /// to `limit`. With a large enough limit the hits are exactly the
    /// matches.
    pub fn search_files_fts(&self, query: &str, limit: usize) -> (r: Result<
        Vec<SearchResult>,
        CortexError,
    >)
        ensures
            r is Err <==> (trim_of(query@).len() == 0 || tokens_of(query@).len() == 0),
            r matches Err(e) ==> e matches CortexError::InvalidQuery { .. },
            r matches Ok(rs) ==> ({
                let all = results_of(self.filesv(), self.contentsv(), query_tokens(query@));
                let rv = results_view(rs@);
                &&& rv.len() == (if limit <= all.len() {
                    limit as int
                } else {
                    all.len() as int
                })
                &&& (forall|k: int|
                    0 <= k && k + 1 < rv.len() ==> result_le(#[trigger] rv[k], rv[k + 1]))
                &&& (forall|k: int| 0 <= k < rv.len() ==> all.to_multiset().contains(#[trigger] rv[k]))
                &&& (all.len() <= limit ==> rv.to_multiset() == all.to_multiset())
            }),
    {
        let qchars = chars_of(query);
        let trimmed = trim_chars(&qchars);
        if trimmed.len() == 0 {
            return Err(
                CortexError::InvalidQuery {
                    query: String::from_str(query),
                    reason: String::from_str("Query cannot be empty"),
                },
            );
        }
        let raw_qts = tokenize_chars(&qchars);
        if raw_qts.len() == 0 {
            return Err(
                CortexError::InvalidQuery {
                    query: String::from_str(query),
                    reason: String::from_str("Query holds no searchable token"),
                },
            );
        }
        let qts = stem_tokens(raw_qts);
        let ghost qv = query_tokens(query@);
        proof {
            assert(qts.deep_view() == qv);
        }
        let ghost fs = self.filesv();
        let ghost cs = self.contentsv();
        let mut hits: Vec<SearchResult> = Vec::new();
        let mut i: usize = 0;
        proof {
            assert(fs.take(0) =~= Seq::<FileV>::empty());
            assert(results_view(hits@) =~= results_of(fs.take(0), cs, qv));
        }
        while i < self.files.len()
            invariant
                i <= fs.len(),
                fs == self.filesv(),
                cs == self.contentsv(),
                qv == qts.deep_view(),
                results_view(hits@) == results_of(fs.take(i as int), cs, qv),
            decreases fs.len() - i,
        {
            proof {
                assert(fs.take(i + 1).drop_last() =~= fs.take(i as int));
                assert(fs.take(i + 1).last() == fs[i as int]);
            }
            let f = &self.files[i];
            if !f.is_deleted {
                match self.get_file_content(f.file_id()) {
                    Ok(Some(content)) => {
                        match content.text_content {
                            Some(text) => {
                                proof {
                                    assert(text_of_opt(cs, fs[i as int].id) == Some(text@));
                                }
                                let tchars = chars_of(text.as_str());
                                let fnchars = chars_of(f.filename.as_str());
                                let mut doc = stem_tokens(tokenize_chars(&fnchars));
                                let mut ttoks = stem_tokens(tokenize_chars(&tchars));
                                proof {
                                    assert(doc.deep_view() + ttoks.deep_view() =~~= doc_tokens(
                                        fs[i as int],
                                        text@,
                                    ));
                                }
                                doc.append(&mut ttoks);
                                proof {
                                    assert(doc.deep_view() =~~= doc_tokens(fs[i as int], text@));
                                }
                                if all_tokens_contained(&qts, &doc) {
                                    proof {
                                        assert(doc_matches(fs[i as int], text@, qv));
                                        assert(is_match(fs[i as int], cs, qv));
                                    }
                                    let n = count_hit_tokens(&doc, &qts);
                                    let score: i64 = if n >= 0 {
                                        0 - n
                                    } else {
                                        0
                                    };
                                    proof {
                                        assert(score == match_rank(fs[i as int], text@, qv));
                                    }
                                    let snip = build_snippet(&tchars, &qts);
                                    let ghost prev = results_view(hits@);
                                    let hit = SearchResult {
                                        file_id: f.id,
                                        path: String::from_str(f.path.as_str()),
                                        filename: String::from_str(f.filename.as_str()),
                                        snippet: chars_to_string(&snip),
                                        score,
                                    };
                                    proof {
                                        assert(hit@ == result_of(fs[i as int], text@, qv));
                                    }
                                    hits.push(hit);
                                    proof {
                                        assert(results_view(hits@) =~= prev.push(
                                            result_of(fs[i as int], text@, qv),
                                        ));
                                    }
                                } else {
                                    proof {
                                        assert(!doc_matches(fs[i as int], text@, qv));
                                        assert(!is_match(fs[i as int], cs, qv));
                                    }
                                }
                            },
                            None => {
                                proof {
                                    assert(text_of_opt(cs, fs[i as int].id) is None);
                                    assert(!is_match(fs[i as int], cs, qv));
                                }
                            },
                        }
                    },
                    Ok(None) => {
                        proof {
                            assert(text_of_opt(cs, fs[i as int].id) is None);
                            assert(!is_match(fs[i as int], cs, qv));
                        }
                    },
                    Err(_) => {
                        proof {
                            assert(false);
                        }
                    },
                }
            } else {
                proof {
                    assert(!is_match(fs[i as int], cs, qv));
                }
            }
            i = i + 1;
        }
        proof {
            assert(fs.take(fs.len() as int) =~= fs);
        }
        let ghost all = results_of(fs, cs, qv);
        let sorted = sort_results(hits);
        let ghost sv = results_view(sorted@);
        proof {
            broadcast use vstd::seq_lib::group_to_multiset_ensures;

            assert(sv.to_multiset() == all.to_multiset());
            assert(sv.len() == sv.to_multiset().len());
            assert(all.len() == all.to_multiset().len());
        }
        let n = sorted.len();
        let end = if limit <= n {
            limit
        } else {
            n
        };
        let mut out: Vec<SearchResult> = Vec::new();
        let mut k: usize = 0;
        while k < end
            invariant
                k <= end <= sorted@.len(),
                sv == results_view(sorted@),
                results_view(out@) == sv.take(k as int),
            decreases end - k,
        {
            let ghost prev = results_view(out@);
            let c = clone_result(&sorted[k]);
            out.push(c);
            proof {
                assert(results_view(out@) =~= prev.push(sv[k as int]));
                assert(sv.take(k + 1) =~= sv.take(k as int).push(sv[k as int]));
            }
            k = k + 1;
        }
        proof {
            broadcast use vstd::seq_lib::group_to_multiset_ensures;

            let rv = results_view(out@);
            assert forall|q: int| 0 <= q < rv.len() implies all.to_multiset().contains(
                #[trigger] rv[q],
            ) by {
                assert(rv[q] == sv[q]);
                assert(sv.contains(sv[q]));
                assert(sv.to_multiset().count(sv[q]) > 0);
            }
            if all.len() <= limit {
                assert(rv =~= sv);
            }
        }
        Ok(out)
    }
}


/// Any word of a stored text, asked verbatim as the whole query, finds its
/// file: the query reduces to the word's single stemmed token, the file
/// satisfies the query (both sides stem alike), and its hit is among the
/// assembled search hits.
pub proof fn lemma_token_query_finds_file(
    fs: Seq<FileV>,
    cs: Seq<ContentV>,
    i: int,
    q: Seq<char>,
)
    requires
        0 <= i < fs.len(),
        !fs[i].is_deleted,
        text_of_opt(cs, fs[i].id) is Some,
        tokens_of(text_of_opt(cs, fs[i].id).unwrap()).contains(q),
    ensures
        query_tokens(q) == seq![crate::stem::porter_of(q)],
        is_match(fs[i], cs, query_tokens(q)),
        results_of(fs, cs, query_tokens(q)).contains(
            result_of(fs[i], text_of_opt(cs, fs[i].id).unwrap(), query_tokens(q)),
        ),
{
    let text = text_of_opt(cs, fs[i].id).unwrap();
    crate::text::lemma_tokens_plain(text);
    let w = choose|w: int| 0 <= w < tokens_of(text).len() && tokens_of(text)[w] == q;
    assert(crate::text::is_plain_token(q));
    crate::text::lemma_token_fixed_point(q);
    let sq = crate::stem::porter_of(q);
    assert(query_tokens(q) =~= seq![sq]);
    let dt = doc_tokens(fs[i], text);
    assert(stemmed(tokens_of(text))[w] == sq);
    assert(dt[stemmed(tokens_of(fs[i].filename)).len() + w] == sq);
    assert(dt.contains(sq));
    assert forall|k: int| 0 <= k < seq![sq].len() implies dt.contains(#[trigger] seq![sq][k]) by {
        assert(seq![sq][k] == sq);
    }
    assert(is_match(fs[i], cs, seq![sq]));
    lemma_results_complete(fs, cs, seq![sq], i);
    assert(results_of(fs, cs, query_tokens(q)) == results_of(fs, cs, seq![sq]));
}

} // verus!
