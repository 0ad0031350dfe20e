//! The query surface over the store: filtered lexical search with
//! pagination, file detail with a bounded preview, store statistics and the
//! embedding inventory.

use vstd::prelude::*;

use crate::error::CortexError;
use crate::ext::chars_to_string;
use crate::search::{results_view, SearchResultV};
use crate::store::{
    clamp_count,
    clamp_i64,
    count_indexed,
    count_live,
    index_of_contentv,
    live,
    sum_sizes,
    Database,
    FileV,
    SearchResult,
};
use crate::text::{chars_of, lex_le};

verus! {

/// Optional restrictions of a lexical search.
#[derive(Debug, Clone)]
pub struct SearchFilters {
    pub file_type: Option<String>,
    pub min_size: Option<i64>,
    pub max_size: Option<i64>,
    pub date_from: Option<String>,
    pub date_to: Option<String>,
}

/// The answer of a lexical search; the timing is the caller's to fill.
#[derive(Debug, Clone)]
pub struct SearchResults {
    pub results: Vec<SearchResult>,
    /// The number of returned results, not a global cardinality.
    pub total: usize,
    pub query_time_ms: u64,
}

/// Whether a file passes the optional filters: its type equals the given
/// one, its size lies in the given bounds, and its modification time lies
/// in the given range.
pub open spec fn passes_filters(f: FileV, filters: SearchFilters) -> bool {
    &&& (filters.file_type matches Some(t) ==> f.file_type == t@)
    &&& (filters.min_size matches Some(n) ==> f.size >= n)
    &&& (filters.max_size matches Some(n) ==> f.size <= n)
    &&& (filters.date_from matches Some(d) ==> lex_le(d@, f.modified_at))
    &&& (filters.date_to matches Some(d) ==> lex_le(f.modified_at, d@))
}

/// Decides the filters against a file record.
fn passes_filters_exec(f: &crate::store::File, filters: &SearchFilters) -> (r: bool)
    ensures
        r == passes_filters(f@, *filters),
{
    let type_ok = match &filters.file_type {
        Some(t) => {
            let fv = chars_of(f.file_type.as_str());
            let tv = chars_of(t.as_str());
            crate::path::chars_eq(&fv, &tv)
        },
        None => true,
    };
    let min_ok = match filters.min_size {
        Some(n) => f.size >= n,
        None => true,
    };
    let max_ok = match filters.max_size {
        Some(n) => f.size <= n,
        None => true,
    };
    let from_ok = match &filters.date_from {
        Some(d) => {
            let dv = chars_of(d.as_str());
            let mv = chars_of(f.modified_at.as_str());
            crate::text::chars_le(&dv, &mv)
        },
        None => true,
    };
    let to_ok = match &filters.date_to {
        Some(d) => {
            let dv = chars_of(d.as_str());
            let mv = chars_of(f.modified_at.as_str());
            crate::text::chars_le(&mv, &dv)
        },
        None => true,
    };
    type_ok && min_ok && max_ok && from_ok && to_ok
}

/// Whether a hit's file passes the filters: the file exists and satisfies
/// each provided restriction.
pub open spec fn result_passes(fs: Seq<FileV>, r: SearchResultV, filters: SearchFilters) -> bool {
    let j = crate::store::index_of_filev(fs, r.file_id);
    j >= 0 && passes_filters(fs[j], filters)
}

/// Whether a hit passes the optional filters; no filters pass everything.
pub open spec fn hit_passes(
    fs: Seq<FileV>,
    r: SearchResultV,
    filters: Option<SearchFilters>,
) -> bool {
    match filters {
        Option::Some(flt) => result_passes(fs, r, flt),
        Option::None => true,
    }
}

/// The `[offset, offset+limit)` slice of a run of hits, clipped.
pub open spec fn page_of_results(s: Seq<SearchResultV>, offset: int, limit: int) -> Seq<
    SearchResultV,
> {
    let start = if offset <= s.len() {
        offset
    } else {
        s.len() as int
    };
    let end = if start + limit <= s.len() {
        start + limit
    } else {
        s.len() as int
    };
    s.subrange(start, end)
}

/// Whether `s` is a ranked run of the passing hits: drawn from the matches,
/// every one passing the filters, holding every passing match, and
/// rank-ordered. Ranks tie-break on distinct file identifiers, so such a
/// run is unique and fixes every page sliced from it.
#[verifier::opaque]
pub open spec fn ranked_run(
    s: Seq<SearchResultV>,
    all: Seq<SearchResultV>,
    fs: Seq<FileV>,
    filters: Option<SearchFilters>,
) -> bool {
    &&& (forall|k: int|
        0 <= k && k + 1 < s.len() ==> crate::search::result_le(#[trigger] s[k], s[k + 1]))
    &&& (forall|k: int|
        0 <= k < s.len() ==> all.to_multiset().contains(#[trigger] s[k]) && hit_passes(
            fs,
            s[k],
            filters,
        ))
    &&& (forall|x: SearchResultV|
        all.to_multiset().contains(x) && hit_passes(fs, x, filters)
            ==> #[trigger] s.to_multiset().contains(x))
}

/// Lexical search over the store with optional filters and pagination:
/// empty or token-free queries are refused; otherwise the page is the
/// clipped `[offset, offset+limit)` slice (50 by default, capped at 1000)
/// of the ranked run of passing hits — the run that holds every match
/// passing the filters, rank-ordered with identifiers breaking ties. The
/// reported total counts the returned page.
#[verifier::rlimit(100)]
#[verifier::spinoff_prover]
pub fn search_files(
    db: &Database,
    query: &str,
    filters: &Option<SearchFilters>,
    limit: Option<usize>,
    offset: Option<usize>,
) -> (r: Result<SearchResults, CortexError>)
    requires
        db.inv(),
    ensures
        r is Err <==> (crate::extract::trim_of(query@).len() == 0 || crate::text::tokens_of(
            query@,
        ).len() == 0),
        r matches Err(e) ==> e matches CortexError::InvalidQuery { .. },
        r matches Ok(res) ==> ({
            let all = crate::search::results_of(
                db.filesv(),
                db.contentsv(),
                crate::search::query_tokens(query@),
            );
            let limit_eff = if limit is Some && limit.unwrap() <= 1000 {
                limit.unwrap() as int
            } else if limit is Some {
                1000int
            } else {
                50int
            };
            let offset_eff = if offset is Some {
                offset.unwrap() as int
            } else {
                0int
            };
            let rv = results_view(res.results@);
            &&& res.total == rv.len()
            &&& rv.len() <= limit_eff
            &&& (forall|k: int|
                0 <= k < rv.len() ==> all.to_multiset().contains(#[trigger] rv[k]))
            &&& (forall|k: int|
                0 <= k && k + 1 < rv.len() ==> crate::search::result_le(
                    #[trigger] rv[k],
                    rv[k + 1],
                ))
            &&& (filters matches Some(flt) ==> forall|k: int|
                0 <= k < rv.len() ==> result_passes(db.filesv(), #[trigger] rv[k], *flt))
            &&& (exists|s: Seq<SearchResultV>|
                #[trigger] ranked_run(s, all, db.filesv(), *filters) && rv == page_of_results(
                    s,
                    offset_eff,
                    limit_eff,
                ))
        }),
{
    broadcast use vstd::seq_lib::group_to_multiset_ensures;

    let search_limit: usize = match limit {
        Some(l) => if l <= 1000 {
            l
        } else {
            1000
        },
        None => 50,
    };
    let search_offset: usize = match offset {
        Some(o) => o,
        None => 0,
    };
    let hits = match db.search_files_fts(query, usize::MAX) {
        Ok(h) => h,
        Err(e) => {
            return Err(e);
        },
    };
    let ghost fs = db.filesv();
    let ghost all = crate::search::results_of(db.filesv(), db.contentsv(), crate::search::query_tokens(query@));
    proof {
        crate::search::lemma_results_len(db.filesv(), db.contentsv(), crate::search::query_tokens(query@));
        assert(fs.len() == db.files@.len());
    }
    let files_len = db.files.len();
    proof {
        assert(all.len() <= files_len);
        assert(hits@.len() == all.len());
        assert(results_view(hits@).to_multiset() == all.to_multiset());
    }
    let kept: Vec<SearchResult> = match filters {
        Some(fl) => {
            let ghost pred = |rv: SearchResultV| result_passes(fs, rv, *fl);
            let mut picked: Vec<SearchResult> = Vec::new();
            let mut i: usize = 0;
            proof {
                reveal(Seq::filter);
                assert(results_view(hits@).take(0) =~= Seq::<SearchResultV>::empty());
                assert(results_view(picked@) =~~= results_view(hits@).take(0).filter(pred));
            }
            while i < hits.len()
                invariant
                    db.inv(),
                    fs == db.filesv(),
                    i <= hits@.len(),
                    pred == (|rv: SearchResultV| result_passes(fs, rv, *fl)),
                    forall|k: int|
                        0 <= k && k + 1 < hits@.len() ==> crate::search::result_le(
                            #[trigger] results_view(hits@)[k],
                            results_view(hits@)[k + 1],
                        ),
                    results_view(picked@) == results_view(hits@).take(i as int).filter(pred),
                    forall|k: int|
                        0 <= k && k + 1 < picked@.len() ==> crate::search::result_le(
                            #[trigger] results_view(picked@)[k],
                            results_view(picked@)[k + 1],
                        ),
                    forall|k: int, m: int|
                        0 <= k < picked@.len() && i <= m < hits@.len() ==> crate::search::result_le(
                            #[trigger] results_view(picked@)[k],
                            #[trigger] results_view(hits@)[m],
                        ),
                decreases hits@.len() - i,
            {
                proof {
                    reveal(Seq::filter);
                    assert(results_view(hits@).take(i + 1).drop_last() =~= results_view(
                        hits@,
                    ).take(i as int));
                    assert(results_view(hits@).take(i + 1).last() == results_view(
                        hits@,
                    )[i as int]);
                }
                let ghost rvv = results_view(hits@)[i as int];
                proof {
                    assert(rvv.file_id == hits@[i as int].file_id);
                }
                let keep = match db.get_file_by_id(hits[i].file_id) {
                    Ok(f) => {
                        let p = passes_filters_exec(&f, fl);
                        proof {
                            crate::store::lemma_index_of_filev_range(fs, rvv.file_id);
                            assert(crate::store::index_of_filev(fs, rvv.file_id) >= 0);
                            assert(f@ == fs[crate::store::index_of_filev(fs, rvv.file_id)]);
                            assert(p == result_passes(fs, rvv, *fl));
                        }
                        p
                    },
                    Err(_) => {
                        proof {
                            assert(crate::store::index_of_filev(fs, rvv.file_id) == -1);
                            assert(!result_passes(fs, rvv, *fl));
                        }
                        false
                    },
                };
                proof {
                    assert(keep == pred(rvv));
                }
                if keep {
                    let ghost prev = results_view(picked@);
                    let c = crate::search::clone_result(&hits[i]);
                    picked.push(c);
                    proof {
                        reveal(Seq::filter);
                        assert(results_view(picked@) =~= prev.push(
                            results_view(hits@)[i as int],
                        ));
                        assert(results_view(hits@).take(i + 1).filter(pred) == results_view(
                            hits@,
                        ).take(i as int).filter(pred).push(results_view(hits@)[i as int]));
                        assert forall|k: int, m: int|
                            0 <= k < picked@.len() && i + 1 <= m < hits@.len() implies crate::search::result_le(
                            #[trigger] results_view(picked@)[k],
                            #[trigger] results_view(hits@)[m],
                        ) by {
                            if k < prev.len() {
                                assert(results_view(picked@)[k] == prev[k]);
                            } else {
                                lemma_result_le_run(results_view(hits@), i as int, m);
                            }
                        }
                    }
                } else {
                    proof {
                        reveal(Seq::filter);
                        assert(results_view(hits@).take(i + 1).filter(pred) == results_view(
                            hits@,
                        ).take(i as int).filter(pred));
                    }
                }
                i = i + 1;
            }
            proof {
                assert(results_view(hits@).take(hits@.len() as int) =~= results_view(hits@));
            }
            picked
        },
        None => hits,
    };
    let ghost kv = results_view(kept@);
    proof {
        match filters {
            Some(fl) => {
                assert(kv == results_view(hits@).filter(
                    |rv: SearchResultV| result_passes(fs, rv, *fl),
                ));
            },
            None => {
                assert(kv == results_view(hits@));
            },
        }
    }
    let n = kept.len();
    let start = if search_offset <= n {
        search_offset
    } else {
        n
    };
    let end = if search_limit <= n - start {
        start + search_limit
    } else {
        n
    };
    let mut page: Vec<SearchResult> = Vec::new();
    let mut k: usize = start;
    while k < end
        invariant
            start <= k <= end <= kept@.len(),
            kv == results_view(kept@),
            page@.len() == k - start,
            forall|q: int|
                0 <= q < page@.len() ==> #[trigger] results_view(page@)[q] == kv[start + q],
        decreases end - k,
    {
        let ghost prev = results_view(page@);
        let c = crate::search::clone_result(&kept[k]);
        page.push(c);
        proof {
            assert(results_view(page@) =~= prev.push(kv[k as int]));
        }
        k = k + 1;
    }
    let total = page.len();
    proof {
        broadcast use vstd::seq_lib::group_to_multiset_ensures;

        let rv = results_view(page@);
        assert(rv =~= kv.subrange(start as int, end as int));
        assert forall|q: int| 0 <= q < rv.len() implies all.to_multiset().contains(
            #[trigger] rv[q],
        ) by {
            assert(rv[q] == kv[start + q]);
            match filters {
                Some(fl) => {
                    assert(kv.contains(kv[start + q]));
                    results_view(hits@).lemma_filter_contains_rev(
                        |rv2: SearchResultV| result_passes(fs, rv2, *fl),
                        kv[start + q],
                    );
                    assert(results_view(hits@).contains(kv[start + q]));
                    assert(results_view(hits@).to_multiset().count(kv[start + q]) > 0);
                },
                None => {
                    assert(results_view(hits@).to_multiset().count(kv[start + q]) > 0);
                },
            }
        }
        assert forall|q: int| 0 <= q && q + 1 < rv.len() implies crate::search::result_le(
            #[trigger] rv[q],
            rv[q + 1],
        ) by {
            assert(rv[q] == kv[start + q]);
            assert(rv[q + 1] == kv[start + q + 1]);
        }
        match filters {
            Some(fl) => {
                let pred = |rv2: SearchResultV| result_passes(fs, rv2, *fl);
                assert forall|q: int| 0 <= q < rv.len() implies result_passes(
                    fs,
                    #[trigger] rv[q],
                    *fl,
                ) by {
                    assert(rv[q] == kv[start + q]);
                    results_view(hits@).lemma_filter_pred(pred, start + q);
                }
            },
            None => {},
        }
        // The page is the clipped slice of one ranked run of passing hits.
        assert forall|k: int|
            0 <= k < kv.len() implies all.to_multiset().contains(#[trigger] kv[k]) && hit_passes(
            fs,
            kv[k],
            *filters,
        ) by {
            match filters {
                Some(fl) => {
                    assert(kv.contains(kv[k]));
                    results_view(hits@).lemma_filter_contains_rev(
                        |rv2: SearchResultV| result_passes(fs, rv2, *fl),
                        kv[k],
                    );
                    assert(results_view(hits@).to_multiset().count(kv[k]) > 0);
                    results_view(hits@).lemma_filter_pred(
                        |rv2: SearchResultV| result_passes(fs, rv2, *fl),
                        k,
                    );
                },
                None => {
                    assert(results_view(hits@).to_multiset().count(kv[k]) > 0);
                },
            }
        }
        assert forall|x: SearchResultV|
            all.to_multiset().contains(x) && hit_passes(fs, x, *filters) implies
            #[trigger] kv.to_multiset().contains(x) by {
            assert(results_view(hits@).to_multiset().contains(x));
            assert(results_view(hits@).contains(x));
            let w = choose|w: int|
                0 <= w < results_view(hits@).len() && #[trigger] results_view(hits@)[w] == x;
            match filters {
                Some(fl) => {
                    results_view(hits@).lemma_filter_contains(
                        |rv2: SearchResultV| result_passes(fs, rv2, *fl),
                        w,
                    );
                    assert(kv.contains(x));
                    assert(kv.to_multiset().count(x) > 0);
                },
                None => {
                    assert(kv.to_multiset().count(x) > 0);
                },
            }
        }
        let goff: int = if offset is Some {
            offset.unwrap() as int
        } else {
            0int
        };
        let glim: int = if limit is Some && limit.unwrap() <= 1000 {
            limit.unwrap() as int
        } else if limit is Some {
            1000int
        } else {
            50int
        };
        assert(search_offset as int == goff);
        assert(search_limit as int == glim);
        assert(rv =~= page_of_results(kv, goff, glim));
        assert(ranked_run(kv, all, db.filesv(), *filters)) by {
            reveal(ranked_run);
        }
    }
    Ok(SearchResults { results: page, total, query_time_ms: 0 })
}

/// In a run with ordered neighbours, every earlier hit orders before every
/// later one.
pub proof fn lemma_result_le_run(s: Seq<SearchResultV>, i: int, j: int)
    requires
        forall|k: int|
            0 <= k && k + 1 < s.len() ==> crate::search::result_le(#[trigger] s[k], s[k + 1]),
        0 <= i <= j < s.len(),
    ensures
        crate::search::result_le(s[i], s[j]),
    decreases j - i,
{
    if i < j {
        lemma_result_le_run(s, i + 1, j);
        assert(crate::search::result_le(s[i], s[i + 1]));
    }
}

/// Everything shown about one file.
#[derive(Debug, Clone)]
pub struct FileDetail {
    pub id: i64,
    pub path: String,
    pub filename: String,
    pub file_type: String,
    pub size: i64,
    pub created_at: String,
    pub modified_at: String,
    pub content_preview: Option<String>,
    pub full_content: Option<String>,
    pub word_count: Option<i64>,
    pub summary: Option<String>,
}

/// The preview of a stored text: its first 500 characters, with a trailing
/// ellipsis when cut.
pub open spec fn preview_of(text: Seq<char>) -> Seq<char> {
    if text.len() > 500 {
        text.take(500) + "..."@
    } else {
        text
    }
}

/// Reads one file's detail: its metadata, the bounded preview of its text,
/// and the full text only when asked for. An unknown identifier fails, if
/// and only if.
pub fn get_file_detail(db: &Database, file_id: i64, include_full_content: bool) -> (r: Result<
    FileDetail,
    CortexError,
>)
    ensures
        r is Err <==> (forall|k: int|
            0 <= k < db.filesv().len() ==> db.filesv()[k].id != file_id),
        r matches Ok(d) ==> {
            &&& (exists|k: int|
                0 <= k < db.filesv().len() && #[trigger] db.filesv()[k].id == file_id && d.path@
                    == db.filesv()[k].path && d.filename@ == db.filesv()[k].filename
                    && d.file_type@ == db.filesv()[k].file_type && d.size == db.filesv()[k].size)
            &&& d.id == file_id
            &&& ({
                let c = index_of_contentv(db.contentsv(), file_id);
                &&& (c >= 0 && db.contentsv()[c].text is Some ==> (
                d.content_preview matches Some(p) && p@ == preview_of(
                    db.contentsv()[c].text.unwrap(),
                )))
                &&& (c >= 0 && db.contentsv()[c].text is Some && include_full_content ==> (
                d.full_content matches Some(t) && t@ == db.contentsv()[c].text.unwrap()))
                &&& (!include_full_content ==> d.full_content is None)
                &&& (c >= 0 ==> d.word_count == db.contentsv()[c].word_count)
                &&& (c >= 0 ==> (d.summary is Some <==> db.contentsv()[c].summary is Some))
                &&& (c >= 0 && db.contentsv()[c].summary is Some ==> (d.summary matches Some(sm)
                    && sm@ == db.contentsv()[c].summary.unwrap()))
                &&& (c < 0 ==> d.content_preview is None && d.word_count is None && d.summary
                    is None)
            })
        },
{
    let file = match db.get_file_by_id(file_id) {
        Ok(f) => f,
        Err(e) => {
            return Err(e);
        },
    };
    let content = match db.get_file_content(file_id) {
        Ok(c) => c,
        Err(e) => {
            return Err(e);
        },
    };
    let (content_preview, full_content, word_count, summary): (
        Option<String>,
        Option<String>,
        Option<i64>,
        Option<String>,
    ) = match content {
        Some(c) => {
            let preview: Option<String> = match &c.text_content {
                Some(text) => {
                    let tv = chars_of(text.as_str());
                    if tv.len() > 500 {
                        let mut cut: Vec<char> = Vec::new();
                        let mut k: usize = 0;
                        while k < 500
                            invariant
                                k <= 500,
                                tv@.len() > 500,
                                cut@ == tv@.take(k as int),
                            decreases 500 - k,
                        {
                            cut.push(tv[k]);
                            proof {
                                assert(tv@.take(k + 1) =~= tv@.take(k as int).push(tv@[k as int]));
                            }
                            k = k + 1;
                        }
                        let mut s = chars_to_string(&cut);
                        s.append("...");
                        Some(s)
                    } else {
                        Some(String::from_str(text.as_str()))
                    }
                },
                None => None,
            };
            let full: Option<String> = if include_full_content {
                match &c.text_content {
                    Some(text) => Some(String::from_str(text.as_str())),
                    None => None,
                }
            } else {
                None
            };
            let summary: Option<String> = match &c.summary {
                Some(s) => Some(String::from_str(s.as_str())),
                None => None,
            };
            (preview, full, c.word_count, summary)
        },
        None => (None, None, None, None),
    };
    Ok(
        FileDetail {
            id: file.id,
            path: file.path,
            filename: file.filename,
            file_type: file.file_type,
            size: file.size,
            created_at: file.created_at,
            modified_at: file.modified_at,
            content_preview,
            full_content,
            word_count,
            summary,
        },
    )
}

/// Store totals for the search screens.
#[derive(Debug, Clone)]
pub struct SearchStats {
    pub total_files: i64,
    pub indexed_files: i64,
    pub total_size_bytes: i64,
}

/// The store's totals: non-deleted files, of them those with content, and
/// their size in bytes.
pub fn get_search_stats(db: &Database) -> (r: Result<SearchStats, CortexError>)
    ensures
        r is Ok,
        r matches Ok(s) ==> {
            &&& s.total_files == clamp_count(count_live(db.filesv()))
            &&& s.indexed_files == clamp_count(count_indexed(db.filesv(), db.contentsv()))
            &&& s.total_size_bytes == clamp_i64(sum_sizes(live(db.filesv())))
        },
{
    match db.get_db_stats() {
        Ok((total_files, indexed_files, total_size)) => Ok(
            SearchStats { total_files, indexed_files, total_size_bytes: total_size },
        ),
        Err(e) => Err(e),
    }
}

/// The embedding inventory shown to the front-end.
#[derive(Debug, Clone)]
pub struct EmbeddingStatus {
    pub total_files: i64,
    pub files_with_embeddings: i64,
    pub files_without_embeddings: i64,
    pub model_downloaded: bool,
    pub model_version: String,
}

/// The embedding inventory: file and embedding counts and whether the model
/// is on disk (the caller checked the disk).
pub fn get_embedding_status(db: &Database, model_downloaded: bool) -> (r: Result<
    EmbeddingStatus,
    CortexError,
>)
    ensures
        r is Ok,
        r matches Ok(s) ==> {
            &&& s.total_files == clamp_count(count_live(db.filesv()))
            &&& s.files_with_embeddings == clamp_count(db.embeddingsv().len() as int)
            &&& s.files_without_embeddings == s.total_files - s.files_with_embeddings
            &&& s.model_downloaded == model_downloaded
            &&& s.model_version@ == "all-MiniLM-L6-v2"@
        },
{
    let total_files = match db.get_file_count() {
        Ok(n) => n,
        Err(e) => {
            return Err(e);
        },
    };
    let files_with_embeddings = match db.count_embeddings() {
        Ok(n) => n,
        Err(e) => {
            return Err(e);
        },
    };
    Ok(
        EmbeddingStatus {
            total_files,
            files_with_embeddings,
            files_without_embeddings: total_files - files_with_embeddings,
            model_downloaded,
            model_version: String::from_str("all-MiniLM-L6-v2"),
        },
    )
}

} // verus!
