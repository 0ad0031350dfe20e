//! The metadata store: file records, extracted content, embeddings, and the
//! derived full-text index, held in memory with verified invariants. All
//! writes go through the methods here; readers get plain values back.

use vstd::prelude::*;
use vstd::multiset::Multiset;

use crate::error::CortexError;
use crate::ext::current_time_rfc3339;
use crate::text::{count_words, word_count_of};

verus! {

/// A known file on disk.
#[derive(Debug, Clone)]
pub struct File {
    pub id: i64,
    pub path: String,
    pub filename: String,
    pub file_type: String,
    pub size: i64,
    pub created_at: String,
    pub modified_at: String,
    pub last_indexed: String,
    pub hash: Option<String>,
    pub root_path: String,
    pub is_deleted: bool,
}

/// The mathematical shadow of a file record.
pub struct FileV {
    pub id: i64,
    pub path: Seq<char>,
    pub filename: Seq<char>,
    pub file_type: Seq<char>,
    pub size: i64,
    pub created_at: Seq<char>,
    pub modified_at: Seq<char>,
    pub last_indexed: Seq<char>,
    pub hash: Option<Seq<char>>,
    pub root_path: Seq<char>,
    pub is_deleted: bool,
}

impl View for File {
    type V = FileV;

    open spec fn view(&self) -> FileV {
        FileV {
            id: self.id,
            path: self.path@,
            filename: self.filename@,
            file_type: self.file_type@,
            size: self.size,
            created_at: self.created_at@,
            modified_at: self.modified_at@,
            last_indexed: self.last_indexed@,
            hash: match self.hash {
                Option::Some(h) => Option::Some(h@),
                Option::None => Option::None,
            },
            root_path: self.root_path@,
            is_deleted: self.is_deleted,
        }
    }
}

/// The shadows of a sequence of file records.
pub open spec fn files_view(s: Seq<File>) -> Seq<FileV> {
    Seq::new(s.len(), |i: int| s[i]@)
}

/// Text extracted from a file, one row per file.
#[derive(Debug, Clone)]
pub struct FileContent {
    pub file_id: i64,
    pub text_content: Option<String>,
    pub word_count: Option<i64>,
    pub summary: Option<String>,
}

/// The mathematical shadow of a content row.
pub struct ContentV {
    pub file_id: i64,
    pub text: Option<Seq<char>>,
    pub word_count: Option<i64>,
    pub summary: Option<Seq<char>>,
}

impl View for FileContent {
    type V = ContentV;

    open spec fn view(&self) -> ContentV {
        ContentV {
            file_id: self.file_id,
            text: match self.text_content {
                Option::Some(s) => Option::Some(s@),
                Option::None => Option::None,
            },
            word_count: self.word_count,
            summary: match self.summary {
                Option::Some(s) => Option::Some(s@),
                Option::None => Option::None,
            },
        }
    }
}

/// The shadows of a sequence of content rows.
pub open spec fn contents_view(s: Seq<FileContent>) -> Seq<ContentV> {
    Seq::new(s.len(), |i: int| s[i]@)
}

/// One lexical search hit.
#[derive(Debug, Clone)]
pub struct SearchResult {
    pub file_id: i64,
    pub path: String,
    pub filename: String,
    pub snippet: String,
    /// The rank: lower is better.
    pub score: i64,
}

/// A file's embedding: the vector components as IEEE-754 bit patterns, so
/// the store itself stays free of floating point.
#[derive(Debug, Clone)]
pub struct EmbeddingRecord {
    pub file_id: i64,
    pub vector: Vec<u32>,
    pub model_version: String,
}

/// The mathematical shadow of an embedding row.
pub struct EmbeddingV {
    pub file_id: i64,
    pub vector: Seq<u32>,
    pub model_version: Seq<char>,
}

impl View for EmbeddingRecord {
    type V = EmbeddingV;

    open spec fn view(&self) -> EmbeddingV {
        EmbeddingV { file_id: self.file_id, vector: self.vector@, model_version: self.model_version@ }
    }
}

/// The shadows of a sequence of embedding rows.
pub open spec fn embeddings_view(s: Seq<EmbeddingRecord>) -> Seq<EmbeddingV> {
    Seq::new(s.len(), |i: int| s[i]@)
}

/// An integer count clamped into `i64`.
pub open spec fn clamp_count(n: int) -> int {
    if n > i64::MAX {
        i64::MAX as int
    } else {
        n
    }
}

/// The stored word count of a text: its word count, clamped into `i64`.
pub open spec fn wc_of(text: Seq<char>) -> i64 {
    clamp_count(word_count_of(text) as int) as i64
}

/// The index of the content row for `id`, or -1.
pub open spec fn index_of_contentv(cs: Seq<ContentV>, id: i64) -> int
    decreases cs.len(),
{
    if cs.len() == 0 {
        -1
    } else if cs[0].file_id == id {
        0
    } else {
        let r = index_of_contentv(cs.drop_first(), id);
        if r == -1 {
            -1
        } else {
            r + 1
        }
    }
}

pub proof fn lemma_index_of_contentv_range(cs: Seq<ContentV>, id: i64)
    ensures
        -1 <= index_of_contentv(cs, id) < cs.len(),
        index_of_contentv(cs, id) >= 0 ==> cs[index_of_contentv(cs, id)].file_id == id,
        index_of_contentv(cs, id) >= 0 ==> forall|k: int|
            0 <= k < index_of_contentv(cs, id) ==> cs[k].file_id != id,
        index_of_contentv(cs, id) == -1 ==> forall|k: int|
            0 <= k < cs.len() ==> cs[k].file_id != id,
    decreases cs.len(),
{
    if cs.len() > 0 && cs[0].file_id != id {
        lemma_index_of_contentv_range(cs.drop_first(), id);
        let r = index_of_contentv(cs.drop_first(), id);
        if r == -1 {
            assert forall|k: int| 0 <= k < cs.len() implies cs[k].file_id != id by {
                if k > 0 {
                    assert(cs.drop_first()[k - 1] == cs[k]);
                }
            }
        } else {
            assert forall|k: int| 0 <= k < index_of_contentv(cs, id) implies cs[k].file_id
                != id by {
                if k > 0 {
                    assert(cs.drop_first()[k - 1] == cs[k]);
                }
            }
        }
    }
}

/// The index where a scan finds `id`, fixed by the prefix it rejected.
pub proof fn lemma_index_of_contentv_at(cs: Seq<ContentV>, id: i64, i: int)
    requires
        0 <= i < cs.len(),
        cs[i].file_id == id,
        forall|k: int| 0 <= k < i ==> cs[k].file_id != id,
    ensures
        index_of_contentv(cs, id) == i,
    decreases i,
{
    if i > 0 {
        lemma_index_of_contentv_at(cs.drop_first(), id, i - 1);
    }
}

pub proof fn lemma_index_of_contentv_none(cs: Seq<ContentV>, id: i64)
    requires
        forall|k: int| 0 <= k < cs.len() ==> cs[k].file_id != id,
    ensures
        index_of_contentv(cs, id) == -1,
    decreases cs.len(),
{
    if cs.len() > 0 {
        lemma_index_of_contentv_none(cs.drop_first(), id);
    }
}

/// The shadow of the content row an upsert writes.
pub open spec fn upserted_content(id: i64, text: Option<Seq<char>>, summary: Option<
    Seq<char>,
>) -> ContentV {
    ContentV {
        file_id: id,
        text,
        word_count: match text {
            Option::Some(t) => Option::Some(wc_of(t)),
            Option::None => Option::None,
        },
        summary,
    }
}

/// What an upsert leaves behind: the row for `id` replaced in place, or
/// appended when there was none.
pub open spec fn upsert_model(cs: Seq<ContentV>, id: i64, text: Option<Seq<char>>, summary: Option<
    Seq<char>,
>) -> Seq<ContentV> {
    let new = upserted_content(id, text, summary);
    let j = index_of_contentv(cs, id);
    if j >= 0 {
        cs.update(j, new)
    } else {
        cs.push(new)
    }
}

/// Upserting the same payload twice is the same as upserting it once: the
/// content rows, and with them the derived full-text rows and the stored
/// word count, come out identical.
pub proof fn lemma_upsert_idempotent(
    cs: Seq<ContentV>,
    id: i64,
    text: Option<Seq<char>>,
    summary: Option<Seq<char>>,
)
    ensures
        upsert_model(upsert_model(cs, id, text, summary), id, text, summary) == upsert_model(
            cs,
            id,
            text,
            summary,
        ),
{
    let new = upserted_content(id, text, summary);
    let once = upsert_model(cs, id, text, summary);
    lemma_index_of_contentv_range(cs, id);
    let j = index_of_contentv(cs, id);
    if j >= 0 {
        assert(once[j].file_id == id);
        assert(forall|k: int| 0 <= k < j ==> once[k].file_id != id);
        lemma_index_of_contentv_at(once, id, j);
        assert(once.update(j, new) =~= once);
    } else {
        assert(once[cs.len() as int].file_id == id);
        assert(forall|k: int| 0 <= k < cs.len() ==> once[k].file_id != id);
        lemma_index_of_contentv_at(once, id, cs.len() as int);
        assert(once.update(cs.len() as int, new) =~= once);
    }
}

/// The non-deleted files, in insertion order.
pub open spec fn live(s: Seq<FileV>) -> Seq<FileV> {
    s.filter(|f: FileV| !f.is_deleted)
}

/// How many non-deleted files there are.
pub open spec fn count_live(s: Seq<FileV>) -> int {
    live(s).len() as int
}

/// Whether a content row for `id` exists.
pub open spec fn has_content(cs: Seq<ContentV>, id: i64) -> bool {
    index_of_contentv(cs, id) >= 0
}

/// How many non-deleted files have a content row.
pub open spec fn count_indexed(files: Seq<FileV>, cs: Seq<ContentV>) -> int {
    files.filter(|f: FileV| !f.is_deleted && has_content(cs, f.id)).len() as int
}

/// The total size in bytes of a run of files.
pub open spec fn sum_sizes(s: Seq<FileV>) -> int
    decreases s.len(),
{
    if s.len() == 0 {
        0
    } else {
        sum_sizes(s.drop_last()) + s.last().size
    }
}

/// An integer clamped into the `i64` range.
pub open spec fn clamp_i64(n: int) -> int {
    if n > i64::MAX {
        i64::MAX as int
    } else if n < i64::MIN {
        i64::MIN as int
    } else {
        n
    }
}

/// Whether some file record carries `id`.
pub open spec fn file_id_exists(files: Seq<FileV>, id: i64) -> bool {
    exists|m: int| 0 <= m < files.len() && #[trigger] files[m].id == id
}

/// When two file tables agree on identifiers, rows that found their file in
/// one find it in the other.
pub proof fn lemma_same_ids_preserve_refs(
    a: Seq<FileV>,
    b: Seq<FileV>,
    cs: Seq<ContentV>,
    es: Seq<EmbeddingV>,
)
    requires
        a.len() == b.len(),
        forall|k: int| 0 <= k < a.len() ==> a[k].id == b[k].id,
        forall|k: int| 0 <= k < cs.len() ==> file_id_exists(a, #[trigger] cs[k].file_id),
        forall|k: int| 0 <= k < es.len() ==> file_id_exists(a, #[trigger] es[k].file_id),
    ensures
        forall|k: int| 0 <= k < cs.len() ==> file_id_exists(b, #[trigger] cs[k].file_id),
        forall|k: int| 0 <= k < es.len() ==> file_id_exists(b, #[trigger] es[k].file_id),
{
    assert forall|k: int| 0 <= k < cs.len() implies file_id_exists(
        b,
        #[trigger] cs[k].file_id,
    ) by {
        let m0 = choose|m: int| 0 <= m < a.len() && #[trigger] a[m].id == cs[k].file_id;
        assert(b[m0].id == cs[k].file_id);
    }
    assert forall|k: int| 0 <= k < es.len() implies file_id_exists(
        b,
        #[trigger] es[k].file_id,
    ) by {
        let m0 = choose|m: int| 0 <= m < a.len() && #[trigger] a[m].id == es[k].file_id;
        assert(b[m0].id == es[k].file_id);
    }
}


/// Copies a vector of bit patterns.
pub fn clone_vec_u32(v: &Vec<u32>) -> (r: Vec<u32>)
    ensures
        r@ == v@,
{
    let mut r: Vec<u32> = Vec::new();
    let mut i: usize = 0;
    while i < v.len()
        invariant
            i <= v@.len(),
            r@ == v@.take(i as int),
        decreases v@.len() - i,
    {
        r.push(v[i]);
        proof {
            assert(v@.take(i + 1) =~= v@.take(i as int).push(v@[i as int]));
        }
        i = i + 1;
    }
    proof {
        assert(v@.take(v@.len() as int) =~= v@);
    }
    r
}

/// The non-deleted file records for a run of identifiers, in that order.
pub open spec fn files_for_ids(fs: Seq<FileV>, ids: Seq<i64>) -> Seq<FileV>
    decreases ids.len(),
{
    if ids.len() == 0 {
        Seq::empty()
    } else {
        let rest = files_for_ids(fs, ids.drop_last());
        let j = index_of_filev(fs, ids.last());
        if j >= 0 && !fs[j].is_deleted {
            rest.push(fs[j])
        } else {
            rest
        }
    }
}

/// The `[offset, offset+limit)` slice of a run, clipped to its length.
pub open spec fn page_of_files(s: Seq<FileV>, offset: int, limit: int) -> Seq<FileV> {
    let start = if offset <= s.len() {
        offset
    } else {
        s.len() as int
    };
    let end = if start + limit <= s.len() {
        start + limit
    } else {
        s.len() as int
    };
    s.subrange(start, end)
}

/// Whether `rv` is the given page of a listing run `s`: `s` holds exactly
/// the non-deleted files (`lv`), newest first with identifiers breaking
/// ties, and `rv` is its clipped `[offset, offset+limit)` slice. The order
/// is strict and total over the store's distinct identifiers, so one run
/// fixes every page.
pub open spec fn is_listing_page(
    s: Seq<FileV>,
    lv: Seq<FileV>,
    offset: int,
    limit: int,
    rv: Seq<FileV>,
) -> bool {
    &&& s.to_multiset() == lv.to_multiset()
    &&& (forall|k: int| 0 <= k && k + 1 < s.len() ==> file_order(#[trigger] s[k], s[k + 1]))
    &&& rv == page_of_files(s, offset, limit)
}

/// Copies a file record; the copy has the same shadow.
pub fn clone_file(f: &File) -> (r: File)
    ensures
        r@ == f@,
{
    File {
        id: f.id,
        path: String::from_str(f.path.as_str()),
        filename: String::from_str(f.filename.as_str()),
        file_type: String::from_str(f.file_type.as_str()),
        size: f.size,
        created_at: String::from_str(f.created_at.as_str()),
        modified_at: String::from_str(f.modified_at.as_str()),
        last_indexed: String::from_str(f.last_indexed.as_str()),
        hash: match &f.hash {
            Some(h) => Some(String::from_str(h.as_str())),
            None => None,
        },
        root_path: String::from_str(f.root_path.as_str()),
        is_deleted: f.is_deleted,
    }
}

/// Copies a content row; the copy has the same shadow.
pub fn clone_content(c: &FileContent) -> (r: FileContent)
    ensures
        r@ == c@,
{
    FileContent {
        file_id: c.file_id,
        text_content: match &c.text_content {
            Some(t) => Some(String::from_str(t.as_str())),
            None => None,
        },
        word_count: c.word_count,
        summary: match &c.summary {
            Some(s) => Some(String::from_str(s.as_str())),
            None => None,
        },
    }
}


impl File {
    /// The identifier, for use while the record is borrowed.
    pub fn file_id(&self) -> (r: i64)
        ensures
            r == self@.id,
    {
        self.id
    }
}

/// The transactional single-writer store.
pub struct Database {
    pub files: Vec<File>,
    pub contents: Vec<FileContent>,
    pub embeddings: Vec<EmbeddingRecord>,
    pub next_id: i64,
}

impl Database {
    /// The shadow of the file table.
    pub open spec fn filesv(self) -> Seq<FileV> {
        files_view(self.files@)
    }

    /// The shadow of the content table.
    pub open spec fn contentsv(self) -> Seq<ContentV> {
        contents_view(self.contents@)
    }

    /// The shadow of the embedding table.
    pub open spec fn embeddingsv(self) -> Seq<EmbeddingV> {
        embeddings_view(self.embeddings@)
    }

    /// The store's invariant: identifiers are positive, below the next free
    /// one and unique; paths are unique; content and embedding rows are one
    /// per file and refer to files that exist; stored word counts agree with
    /// the stored text.
    pub open spec fn inv(self) -> bool {
        &&& self.next_id >= 1
        &&& (forall|k: int|
            0 <= k < self.filesv().len() ==> 0 < #[trigger] self.filesv()[k].id < self.next_id)
        &&& (forall|k: int, l: int|
            0 <= k < l < self.filesv().len() ==> self.filesv()[k].id != self.filesv()[l].id)
        &&& (forall|k: int, l: int|
            0 <= k < l < self.filesv().len() ==> self.filesv()[k].path != self.filesv()[l].path)
        &&& (forall|k: int, l: int|
            0 <= k < l < self.contentsv().len() ==> self.contentsv()[k].file_id
                != self.contentsv()[l].file_id)
        &&& (forall|k: int|
            0 <= k < self.contentsv().len() ==> file_id_exists(
                self.filesv(),
                #[trigger] self.contentsv()[k].file_id,
            ))
        &&& (forall|k: int, l: int|
            0 <= k < l < self.embeddingsv().len() ==> self.embeddingsv()[k].file_id
                != self.embeddingsv()[l].file_id)
        &&& (forall|k: int|
            0 <= k < self.embeddingsv().len() ==> file_id_exists(
                self.filesv(),
                #[trigger] self.embeddingsv()[k].file_id,
            ))
        &&& (forall|k: int|
            0 <= k < self.contentsv().len() ==> (#[trigger] self.contentsv()[k].word_count
                == match self.contentsv()[k].text {
                Option::Some(t) => Option::Some(wc_of(t)),
                Option::None => Option::<i64>::None,
            }))
    }

    /// An empty store: identifiers start at one.
    pub fn new() -> (db: Database)
        ensures
            db.inv(),
            db.next_id == 1,
            db.filesv() == Seq::<FileV>::empty(),
            db.contentsv() == Seq::<ContentV>::empty(),
            db.embeddingsv() == Seq::<EmbeddingV>::empty(),
    {
        let db = Database {
            files: Vec::new(),
            contents: Vec::new(),
            embeddings: Vec::new(),
            next_id: 1,
        };
        proof {
            assert(db.filesv() =~= Seq::<FileV>::empty());
            assert(db.contentsv() =~= Seq::<ContentV>::empty());
            assert(db.embeddingsv() =~= Seq::<EmbeddingV>::empty());
        }
        db
    }

    /// Finds the position of the file with `id`.
    fn find_file_index(&self, id: i64) -> (r: Option<usize>)
        ensures
            r matches Some(k) ==> k < self.filesv().len() && self.filesv()[k as int].id == id && k
                == index_of_filev(self.filesv(), id),
            r is None ==> forall|k: int|
                0 <= k < self.filesv().len() ==> self.filesv()[k].id != id,
            r is None ==> index_of_filev(self.filesv(), id) == -1,
    {
        let mut i: usize = 0;
        while i < self.files.len()
            invariant
                i <= self.filesv().len(),
                forall|k: int| 0 <= k < i ==> self.filesv()[k].id != id,
            decreases self.filesv().len() - i,
        {
            if self.files[i].id == id {
                proof {
                    lemma_index_of_filev_at(self.filesv(), id, i as int);
                }
                return Some(i);
            }
            i = i + 1;
        }
        proof {
            lemma_index_of_filev_none(self.filesv(), id);
        }
        None
    }

    /// Finds the position of the file with `path`.
    fn find_file_index_by_path(&self, path: &str) -> (r: Option<usize>)
        ensures
            r matches Some(k) ==> k < self.filesv().len() && self.filesv()[k as int].path == path@,
            r is None ==> forall|k: int|
                0 <= k < self.filesv().len() ==> self.filesv()[k].path != path@,
    {
        let pv = crate::text::chars_of(path);
        let mut i: usize = 0;
        while i < self.files.len()
            invariant
                i <= self.filesv().len(),
                pv@ == path@,
                forall|k: int| 0 <= k < i ==> self.filesv()[k].path != path@,
            decreases self.filesv().len() - i,
        {
            let fv = crate::text::chars_of(self.files[i].path.as_str());
            if crate::path::chars_eq(&fv, &pv) {
                return Some(i);
            }
            i = i + 1;
        }
        None
    }

    /// Finds the position of the content row for `id`.
    fn find_content_index(&self, id: i64) -> (r: Option<usize>)
        ensures
            r matches Some(k) ==> k == index_of_contentv(self.contentsv(), id) && k
                < self.contentsv().len(),
            r is None ==> index_of_contentv(self.contentsv(), id) == -1,
    {
        let ghost cv = self.contentsv();
        let mut i: usize = 0;
        while i < self.contents.len()
            invariant
                i <= self.contentsv().len(),
                cv == self.contentsv(),
                forall|k: int| 0 <= k < i ==> #[trigger] cv[k].file_id != id,
            decreases self.contentsv().len() - i,
        {
            if self.contents[i].file_id == id {
                proof {
                    assert(cv[i as int].file_id == id);
                    lemma_index_of_contentv_at(cv, id, i as int);
                }
                return Some(i);
            }
            i = i + 1;
        }
        proof {
            lemma_index_of_contentv_none(cv, id);
        }
        None
    }


    /// Decides whether the tables satisfy the store invariant: data loaded
    /// from outside (a file on disk, another process) is admitted only when
    /// this check passes.
    pub fn check_inv(&self) -> (r: bool)
        ensures
            r ==> self.inv(),
    {
        if self.next_id < 1 {
            return false;
        }
        let mut i: usize = 0;
        while i < self.files.len()
            invariant
                i <= self.filesv().len(),
                self.next_id >= 1,
                forall|k: int|
                    0 <= k < i ==> 0 < (#[trigger] self.filesv()[k]).id < self.next_id,
                forall|k: int, l: int|
                    0 <= k < l < i ==> self.filesv()[k].id != self.filesv()[l].id,
                forall|k: int, l: int|
                    0 <= k < l < i ==> self.filesv()[k].path != self.filesv()[l].path,
            decreases self.filesv().len() - i,
        {
            let f = &self.files[i];
            if !(0 < f.id && f.id < self.next_id) {
                return false;
            }
            let pv = crate::text::chars_of(f.path.as_str());
            let mut j: usize = 0;
            while j < i
                invariant
                    j <= i < self.filesv().len(),
                    pv@ == self.filesv()[i as int].path,
                    forall|k: int|
                        0 <= k < j ==> self.filesv()[k].id != self.filesv()[i as int].id,
                    forall|k: int|
                        0 <= k < j ==> self.filesv()[k].path != self.filesv()[i as int].path,
                decreases i - j,
            {
                if self.files[j].id == self.files[i].id {
                    return false;
                }
                let qv = crate::text::chars_of(self.files[j].path.as_str());
                if crate::path::chars_eq(&qv, &pv) {
                    return false;
                }
                j = j + 1;
            }
            i = i + 1;
        }
        let mut i: usize = 0;
        while i < self.contents.len()
            invariant
                i <= self.contentsv().len(),
                forall|k: int, l: int|
                    0 <= k < l < i ==> self.contentsv()[k].file_id != self.contentsv()[l].file_id,
                forall|k: int|
                    0 <= k < i ==> file_id_exists(
                        self.filesv(),
                        (#[trigger] self.contentsv()[k]).file_id,
                    ),
                forall|k: int|
                    0 <= k < i ==> ((#[trigger] self.contentsv()[k]).word_count
                        == match self.contentsv()[k].text {
                        Option::Some(t) => Option::Some(wc_of(t)),
                        Option::None => Option::<i64>::None,
                    }),
            decreases self.contentsv().len() - i,
        {
            let c = &self.contents[i];
            let mut j: usize = 0;
            while j < i
                invariant
                    j <= i < self.contentsv().len(),
                    forall|k: int|
                        0 <= k < j ==> self.contentsv()[k].file_id != self.contentsv()[i
                            as int].file_id,
                decreases i - j,
            {
                if self.contents[j].file_id == self.contents[i].file_id {
                    return false;
                }
                j = j + 1;
            }
            match self.find_file_index(c.file_id) {
                Some(_) => {},
                None => {
                    return false;
                },
            }
            match &c.text_content {
                Some(t) => {
                    let wc = count_words(t.as_str());
                    let wc64 = wc as u64;
                    let expected: i64 = if wc64 <= (i64::MAX as u64) {
                        wc64 as i64
                    } else {
                        i64::MAX
                    };
                    match c.word_count {
                        Some(stored) => {
                            if stored != expected {
                                return false;
                            }
                        },
                        None => {
                            return false;
                        },
                    }
                },
                None => {
                    match c.word_count {
                        Some(_) => {
                            return false;
                        },
                        None => {},
                    }
                },
            }
            i = i + 1;
        }
        let mut i: usize = 0;
        while i < self.embeddings.len()
            invariant
                i <= self.embeddingsv().len(),
                forall|k: int, l: int|
                    0 <= k < l < i ==> self.embeddingsv()[k].file_id != self.embeddingsv()[
                        l].file_id,
                forall|k: int|
                    0 <= k < i ==> file_id_exists(
                        self.filesv(),
                        (#[trigger] self.embeddingsv()[k]).file_id,
                    ),
            decreases self.embeddingsv().len() - i,
        {
            let e = &self.embeddings[i];
            let mut j: usize = 0;
            while j < i
                invariant
                    j <= i < self.embeddingsv().len(),
                    forall|k: int|
                        0 <= k < j ==> self.embeddingsv()[k].file_id != self.embeddingsv()[i
                            as int].file_id,
                decreases i - j,
            {
                if self.embeddings[j].file_id == self.embeddings[i].file_id {
                    return false;
                }
                j = j + 1;
            }
            match self.find_file_index(e.file_id) {
                Some(_) => {},
                None => {
                    return false;
                },
            }
            i = i + 1;
        }
        true
    }

    /// Inserts a new file record and returns its fresh identifier; a path
    /// already present is refused, and every given attribute is stored as
    /// given. `last_indexed` is set from the clock.
    pub fn insert_file(
        &mut self,
        path: &str,
        filename: &str,
        file_type: &str,
        size: i64,
        created_at: &str,
        modified_at: &str,
        hash: Option<&str>,
        root_path: &str,
    ) -> (r: Result<i64, CortexError>)
        requires
            old(self).inv(),
        ensures
            final(self).inv(),
            final(self).contentsv() == old(self).contentsv(),
            final(self).embeddingsv() == old(self).embeddingsv(),
            r is Err <==> ((exists|k: int|
                0 <= k < old(self).filesv().len() && #[trigger] old(self).filesv()[k].path
                    == path@) || old(self).next_id == i64::MAX),
            r is Err ==> final(self).filesv() == old(self).filesv() && final(self).next_id == old(
                self,
            ).next_id,
            r matches Ok(id) ==> {
                &&& id == old(self).next_id
                &&& final(self).next_id == old(self).next_id + 1
                &&& final(self).filesv().len() == old(self).filesv().len() + 1
                &&& final(self).filesv().drop_last() == old(self).filesv()
                &&& final(self).filesv().last().id == id
                &&& final(self).filesv().last().path == path@
                &&& final(self).filesv().last().filename == filename@
                &&& final(self).filesv().last().file_type == file_type@
                &&& final(self).filesv().last().size == size
                &&& final(self).filesv().last().created_at == created_at@
                &&& final(self).filesv().last().modified_at == modified_at@
                &&& (final(self).filesv().last().hash is Some <==> hash is Some)
                &&& (final(self).filesv().last().hash matches Some(h) ==> h == hash.unwrap()@)
                &&& final(self).filesv().last().root_path == root_path@
                &&& final(self).filesv().last().is_deleted == false
            },
    {
        match self.find_file_index_by_path(path) {
            Some(_) => Err(
                CortexError::DatabaseError {
                    message: String::from_str("UNIQUE constraint failed: files.path"),
                },
            ),
            None => {
                if self.next_id == i64::MAX {
                    return Err(
                        CortexError::DatabaseError {
                            message: String::from_str("identifier space exhausted"),
                        },
                    );
                }
                let id = self.next_id;
                let now = current_time_rfc3339();
                let ghost old_files = self.filesv();
                let rec = File {
                    id,
                    path: String::from_str(path),
                    filename: String::from_str(filename),
                    file_type: String::from_str(file_type),
                    size,
                    created_at: String::from_str(created_at),
                    modified_at: String::from_str(modified_at),
                    last_indexed: now,
                    hash: match hash {
                        Some(h) => Some(String::from_str(h)),
                        None => None,
                    },
                    root_path: String::from_str(root_path),
                    is_deleted: false,
                };
                let ghost rv = rec@;
                self.files.push(rec);
                self.next_id = id + 1;
                proof {
                    assert(self.filesv() =~= old_files.push(rv));
                    assert(final(self).filesv().drop_last() =~= old(self).filesv());
                    assert(final(self).contentsv() =~= old(self).contentsv());
                    assert(final(self).embeddingsv() =~= old(self).embeddingsv());
                    assert forall|k: int| 0 <= k < final(self).contentsv().len() implies file_id_exists(
                        final(self).filesv(),
                        #[trigger] final(self).contentsv()[k].file_id,
                    ) by {
                        let cid = final(self).contentsv()[k].file_id;
                        assert(old(self).contentsv()[k].file_id == cid);
                        assert(file_id_exists(old(self).filesv(), cid));
                        let m0 = choose|m: int|
                            0 <= m < old(self).filesv().len() && #[trigger] old(
                                self,
                            ).filesv()[m].id == cid;
                        assert(final(self).filesv()[m0].id == cid);
                    }
                    assert forall|k: int| 0 <= k < final(self).embeddingsv().len() implies file_id_exists(
                        final(self).filesv(),
                        #[trigger] final(self).embeddingsv()[k].file_id,
                    ) by {
                        let eid = final(self).embeddingsv()[k].file_id;
                        assert(old(self).embeddingsv()[k].file_id == eid);
                        assert(file_id_exists(old(self).filesv(), eid));
                        let m0 = choose|m: int|
                            0 <= m < old(self).filesv().len() && #[trigger] old(
                                self,
                            ).filesv()[m].id == eid;
                        assert(final(self).filesv()[m0].id == eid);
                    }
                }
                Ok(id)
            },
        }
    }

    /// Reads the file with `id`, deleted or not; absent identifiers fail.
    pub fn get_file_by_id(&self, file_id: i64) -> (r: Result<File, CortexError>)
        ensures
            r matches Ok(f) ==> exists|k: int|
                0 <= k < self.filesv().len() && #[trigger] self.filesv()[k] == f@ && f@.id
                    == file_id,
            r is Err <==> forall|k: int|
                0 <= k < self.filesv().len() ==> self.filesv()[k].id != file_id,
            r is Err <==> index_of_filev(self.filesv(), file_id) == -1,
            r matches Ok(f) ==> f@ == self.filesv()[index_of_filev(self.filesv(), file_id)],
    {
        match self.find_file_index(file_id) {
            Some(i) => {
                let f = clone_file(&self.files[i]);
                Ok(f)
            },
            None => Err(
                CortexError::DatabaseError {
                    message: String::from_str("Query returned no rows"),
                },
            ),
        }
    }

    /// Reads the file with `path`, deleted or not; absence is `None`.
    pub fn get_file_by_path(&self, path: &str) -> (r: Result<Option<File>, CortexError>)
        ensures
            r is Ok,
            r matches Ok(o) ==> {
                &&& (o matches Some(f) ==> exists|k: int|
                    0 <= k < self.filesv().len() && #[trigger] self.filesv()[k] == f@ && f@.path
                        == path@)
                &&& (o is None <==> forall|k: int|
                    0 <= k < self.filesv().len() ==> self.filesv()[k].path != path@)
            },
    {
        match self.find_file_index_by_path(path) {
            Some(i) => {
                let f = clone_file(&self.files[i]);
                Ok(Some(f))
            },
            None => Ok(None),
        }
    }

    /// Finds the position of the embedding row for `id`.
    fn find_embedding_index(&self, id: i64) -> (r: Option<usize>)
        ensures
            r matches Some(k) ==> k == index_of_embv(self.embeddingsv(), id) && k
                < self.embeddingsv().len(),
            r is None ==> index_of_embv(self.embeddingsv(), id) == -1,
    {
        let ghost ev = self.embeddingsv();
        let mut i: usize = 0;
        while i < self.embeddings.len()
            invariant
                i <= self.embeddingsv().len(),
                ev == self.embeddingsv(),
                forall|k: int| 0 <= k < i ==> #[trigger] ev[k].file_id != id,
            decreases self.embeddingsv().len() - i,
        {
            if self.embeddings[i].file_id == id {
                proof {
                    assert(ev[i as int].file_id == id);
                    lemma_index_of_embv_at(ev, id, i as int);
                }
                return Some(i);
            }
            i = i + 1;
        }
        proof {
            lemma_index_of_embv_none(ev, id);
        }
        None
    }

    /// Updates the given attributes of the file with `file_id` and stamps
    /// its `last_indexed` from the clock (the one attribute the contract
    /// leaves open); every other attribute and every other record is
    /// untouched. An absent identifier changes nothing.
    pub fn update_file(
        &mut self,
        file_id: i64,
        size: Option<i64>,
        modified_at: Option<&str>,
        hash: Option<&str>,
    ) -> (r: Result<(), CortexError>)
        requires
            old(self).inv(),
        ensures
            final(self).inv(),
            r is Ok,
            final(self).contentsv() == old(self).contentsv(),
            final(self).embeddingsv() == old(self).embeddingsv(),
            final(self).next_id == old(self).next_id,
            final(self).filesv().len() == old(self).filesv().len(),
            forall|k: int|
                0 <= k < old(self).filesv().len() && old(self).filesv()[k].id != file_id ==> final(self).filesv()[k] == old(self).filesv()[k],
            forall|k: int|
                0 <= k < old(self).filesv().len() && old(self).filesv()[k].id == file_id ==> {
                    let f = #[trigger] final(self).filesv()[k];
                    let o = old(self).filesv()[k];
                    &&& f.id == o.id
                    &&& f.path == o.path
                    &&& f.filename == o.filename
                    &&& f.file_type == o.file_type
                    &&& f.size == (match size {
                        Some(sz) => sz,
                        None => o.size,
                    })
                    &&& f.created_at == o.created_at
                    &&& f.modified_at == (match modified_at {
                        Some(m) => m@,
                        None => o.modified_at,
                    })
                    &&& f.hash == (match hash {
                        Some(h) => Some(h@),
                        None => o.hash,
                    })
                    &&& f.root_path == o.root_path
                    &&& f.is_deleted == o.is_deleted
                },
    {
        match self.find_file_index(file_id) {
            None => Ok(()),
            Some(i) => {
                let now = current_time_rfc3339();
                let old_rec = clone_file(&self.files[i]);
                let rec = File {
                    id: old_rec.id,
                    path: old_rec.path,
                    filename: old_rec.filename,
                    file_type: old_rec.file_type,
                    size: match size {
                        Some(sz) => sz,
                        None => old_rec.size,
                    },
                    created_at: old_rec.created_at,
                    modified_at: match modified_at {
                        Some(m) => String::from_str(m),
                        None => old_rec.modified_at,
                    },
                    last_indexed: now,
                    hash: match hash {
                        Some(h) => Some(String::from_str(h)),
                        None => old_rec.hash,
                    },
                    root_path: old_rec.root_path,
                    is_deleted: old_rec.is_deleted,
                };
                let ghost rv = rec@;
                let slot = vstd::std_specs::vec::vec_index_mut(&mut self.files, i);
                *slot = rec;
                proof {
                    assert(final(self).filesv() =~= old(self).filesv().update(i as int, rv));
                    assert(final(self).contentsv() =~= old(self).contentsv());
                    assert(final(self).embeddingsv() =~= old(self).embeddingsv());
                    lemma_same_ids_preserve_refs(
                        old(self).filesv(),
                        final(self).filesv(),
                        final(self).contentsv(),
                        final(self).embeddingsv(),
                    );
                }
                Ok(())
            },
        }
    }

    /// Marks the file with `file_id` deleted; everything else is untouched.
    /// An absent identifier changes nothing.
    pub fn mark_file_deleted(&mut self, file_id: i64) -> (r: Result<(), CortexError>)
        requires
            old(self).inv(),
        ensures
            final(self).inv(),
            r is Ok,
            final(self).contentsv() == old(self).contentsv(),
            final(self).embeddingsv() == old(self).embeddingsv(),
            final(self).next_id == old(self).next_id,
            final(self).filesv().len() == old(self).filesv().len(),
            forall|k: int|
                0 <= k < old(self).filesv().len() && old(self).filesv()[k].id != file_id ==> final(self).filesv()[k] == old(self).filesv()[k],
            forall|k: int|
                0 <= k < old(self).filesv().len() && old(self).filesv()[k].id == file_id
                    ==> #[trigger] final(self).filesv()[k] == (FileV {
                    is_deleted: true,
                    ..old(self).filesv()[k]
                }),
    {
        match self.find_file_index(file_id) {
            None => Ok(()),
            Some(i) => {
                let mut rec = clone_file(&self.files[i]);
                rec.is_deleted = true;
                let ghost rv = rec@;
                let slot = vstd::std_specs::vec::vec_index_mut(&mut self.files, i);
                *slot = rec;
                proof {
                    assert(final(self).filesv() =~= old(self).filesv().update(i as int, rv));
                    assert(final(self).contentsv() =~= old(self).contentsv());
                    assert(final(self).embeddingsv() =~= old(self).embeddingsv());
                    lemma_same_ids_preserve_refs(
                        old(self).filesv(),
                        final(self).filesv(),
                        final(self).contentsv(),
                        final(self).embeddingsv(),
                    );
                }
                Ok(())
            },
        }
    }

    /// Writes or replaces the content row of an existing file, recomputing
    /// the stored word count from the text; a file that does not exist is
    /// refused, if and only if.
    pub fn upsert_file_content(
        &mut self,
        file_id: i64,
        text_content: Option<&str>,
        summary: Option<&str>,
    ) -> (r: Result<(), CortexError>)
        requires
            old(self).inv(),
        ensures
            final(self).inv(),
            final(self).filesv() == old(self).filesv(),
            final(self).embeddingsv() == old(self).embeddingsv(),
            final(self).next_id == old(self).next_id,
            r is Err <==> index_of_filev(old(self).filesv(), file_id) == -1,
            r is Err ==> final(self).contentsv() == old(self).contentsv(),
            r is Ok ==> final(self).contentsv() == upsert_model(
                old(self).contentsv(),
                file_id,
                match text_content {
                    Some(t) => Some(t@),
                    None => None,
                },
                match summary {
                    Some(sm) => Some(sm@),
                    None => None,
                },
            ),
    {
        match self.find_file_index(file_id) {
            None => {
                proof {
                    lemma_index_of_filev_none(self.filesv(), file_id);
                }
                Err(
                    CortexError::DatabaseError {
                        message: String::from_str("no such file for content row"),
                    },
                )
            },
            Some(fi) => {
                proof {
                    lemma_index_of_filev_range(self.filesv(), file_id);
                }
                let word_count: Option<i64> = match text_content {
                    Some(t) => {
                        let c = count_words(t);
                        let c64 = c as u64;
                        if c64 <= (i64::MAX as u64) {
                            Some(c64 as i64)
                        } else {
                            Some(i64::MAX)
                        }
                    },
                    None => None,
                };
                let rec = FileContent {
                    file_id,
                    text_content: match text_content {
                        Some(t) => Some(String::from_str(t)),
                        None => None,
                    },
                    word_count,
                    summary: match summary {
                        Some(sm) => Some(String::from_str(sm)),
                        None => None,
                    },
                };
                let ghost rv = rec@;
                let ghost old_cv = self.contentsv();
                match self.find_content_index(file_id) {
                    Some(ci) => {
                        let slot = vstd::std_specs::vec::vec_index_mut(&mut self.contents, ci);
                        *slot = rec;
                        proof {
                            assert(final(self).contentsv() =~= old_cv.update(ci as int, rv));
                        }
                    },
                    None => {
                        self.contents.push(rec);
                        proof {
                            assert(final(self).contentsv() =~= old_cv.push(rv));
                        }
                    },
                }
                proof {
                    assert(final(self).filesv() =~= old(self).filesv());
                    assert(final(self).embeddingsv() =~= old(self).embeddingsv());
                    lemma_index_of_contentv_range(old_cv, file_id);
                    assert(final(self).contentsv() =~= upsert_model(
                        old_cv,
                        file_id,
                        match text_content {
                            Some(t) => Some(t@),
                            None => None,
                        },
                        match summary {
                            Some(sm) => Some(sm@),
                            None => None,
                        },
                    ));
                    assert forall|k: int|
                        0 <= k < final(self).contentsv().len() implies file_id_exists(
                        final(self).filesv(),
                        #[trigger] final(self).contentsv()[k].file_id,
                    ) by {
                        let cid = final(self).contentsv()[k].file_id;
                        if cid == file_id {
                            assert(final(self).filesv()[fi as int].id == file_id);
                        } else {
                            assert(k < old_cv.len() && old_cv[k].file_id == cid);
                            assert(file_id_exists(old(self).filesv(), cid));
                            let m0 = choose|m: int|
                                0 <= m < old(self).filesv().len() && #[trigger] old(
                                    self,
                                ).filesv()[m].id == cid;
                            assert(final(self).filesv()[m0].id == cid);
                        }
                    }
                }
                Ok(())
            },
        }
    }

    /// Reads the content row of a file; absence is `None`.
    pub fn get_file_content(&self, file_id: i64) -> (r: Result<Option<FileContent>, CortexError>)
        ensures
            r is Ok,
            r matches Ok(o) ==> {
                &&& (o is Some <==> index_of_contentv(self.contentsv(), file_id) >= 0)
                &&& (o matches Some(c) ==> c@ == self.contentsv()[index_of_contentv(
                    self.contentsv(),
                    file_id,
                )])
            },
    {
        match self.find_content_index(file_id) {
            Some(i) => Ok(Some(clone_content(&self.contents[i]))),
            None => Ok(None),
        }
    }

    /// Hard-deletes the file with `file_id`, cascading to its content row
    /// and its embedding; an absent identifier changes nothing.
    pub fn delete_file(&mut self, file_id: i64) -> (r: Result<(), CortexError>)
        requires
            old(self).inv(),
        ensures
            final(self).inv(),
            r is Ok,
            final(self).next_id == old(self).next_id,
            ({
                let j = index_of_filev(old(self).filesv(), file_id);
                &&& (j == -1 ==> final(self).filesv() == old(self).filesv())
                &&& (j >= 0 ==> final(self).filesv() == old(self).filesv().remove(j))
            }),
            ({
                let c = index_of_contentv(old(self).contentsv(), file_id);
                &&& (c == -1 ==> final(self).contentsv() == old(self).contentsv())
                &&& (c >= 0 ==> final(self).contentsv() == old(self).contentsv().remove(c))
            }),
            ({
                let e = index_of_embv(old(self).embeddingsv(), file_id);
                &&& (e == -1 ==> final(self).embeddingsv() == old(self).embeddingsv())
                &&& (e >= 0 ==> final(self).embeddingsv() == old(self).embeddingsv().remove(e))
            }),
    {
        let fidx = match self.find_file_index(file_id) {
            None => {
                proof {
                    lemma_index_of_filev_none(self.filesv(), file_id);
                    lemma_index_of_contentv_range(self.contentsv(), file_id);
                    let c = index_of_contentv(self.contentsv(), file_id);
                    if c >= 0 {
                        assert(file_id_exists(self.filesv(), self.contentsv()[c].file_id));
                        let m0 = choose|m: int|
                            0 <= m < self.filesv().len() && #[trigger] self.filesv()[m].id
                                == self.contentsv()[c].file_id;
                        assert(false);
                    }
                    lemma_index_of_embv_range(self.embeddingsv(), file_id);
                    let e = index_of_embv(self.embeddingsv(), file_id);
                    if e >= 0 {
                        assert(file_id_exists(self.filesv(), self.embeddingsv()[e].file_id));
                        let m0 = choose|m: int|
                            0 <= m < self.filesv().len() && #[trigger] self.filesv()[m].id
                                == self.embeddingsv()[e].file_id;
                        assert(false);
                    }
                }
                return Ok(());
            },
            Some(i) => i,
        };
        proof {
            lemma_index_of_filev_range(self.filesv(), file_id);
            let j = index_of_filev(self.filesv(), file_id);
            assert(j >= 0);
            if j != fidx as int {
                assert(self.filesv()[j].id == self.filesv()[fidx as int].id);
                assert(false);
            }
        }
        let ghost of = self.filesv();
        let ghost oc = self.contentsv();
        let ghost oe = self.embeddingsv();
        self.files.remove(fidx);
        proof {
            assert(self.filesv() =~= of.remove(fidx as int));
            of.remove_ensures(fidx as int);
            assert(self.contentsv() =~= oc);
            assert(self.embeddingsv() =~= oe);
        }
        match self.find_content_index(file_id) {
            Some(ci) => {
                proof {
                    oc.remove_ensures(ci as int);
                }
                self.contents.remove(ci);
                proof {
                    assert(self.contentsv() =~= oc.remove(ci as int));
                }
            },
            None => {
                proof {
                    assert(self.contentsv() =~= oc);
                }
            },
        }
        match self.find_embedding_index(file_id) {
            Some(ei) => {
                proof {
                    oe.remove_ensures(ei as int);
                }
                self.embeddings.remove(ei);
                proof {
                    assert(self.embeddingsv() =~= oe.remove(ei as int));
                }
            },
            None => {
                proof {
                    assert(self.embeddingsv() =~= oe);
                }
            },
        }
        proof {
            let nf = final(self).filesv();
            let nc = final(self).contentsv();
            let ne = final(self).embeddingsv();
            of.remove_ensures(fidx as int);
            lemma_index_of_contentv_range(oc, file_id);
            lemma_index_of_embv_range(oe, file_id);
            assert forall|k: int, l: int| 0 <= k < l < nf.len() implies nf[k].id != nf[l].id by {
                let k0 = if k < fidx as int {
                    k
                } else {
                    k + 1
                };
                let l0 = if l < fidx as int {
                    l
                } else {
                    l + 1
                };
                assert(nf[k] == of[k0] && nf[l] == of[l0]);
            }
            assert forall|k: int, l: int| 0 <= k < l < nf.len() implies nf[k].path
                != nf[l].path by {
                let k0 = if k < fidx as int {
                    k
                } else {
                    k + 1
                };
                let l0 = if l < fidx as int {
                    l
                } else {
                    l + 1
                };
                assert(nf[k] == of[k0] && nf[l] == of[l0]);
            }
            assert forall|k: int| 0 <= k < nf.len() implies 0 < (#[trigger] nf[k]).id < final(self).next_id by {
                let k0 = if k < fidx as int {
                    k
                } else {
                    k + 1
                };
                assert(nf[k] == of[k0]);
            }
            assert forall|k: int, l: int| 0 <= k < l < nc.len() implies nc[k].file_id
                != nc[l].file_id by {
                let c = index_of_contentv(oc, file_id);
                if c >= 0 {
                    oc.remove_ensures(c);
                    let k0 = if k < c {
                        k
                    } else {
                        k + 1
                    };
                    let l0 = if l < c {
                        l
                    } else {
                        l + 1
                    };
                    assert(nc[k] == oc[k0] && nc[l] == oc[l0]);
                }
            }
            assert forall|k: int, l: int| 0 <= k < l < ne.len() implies ne[k].file_id
                != ne[l].file_id by {
                let e = index_of_embv(oe, file_id);
                if e >= 0 {
                    oe.remove_ensures(e);
                    let k0 = if k < e {
                        k
                    } else {
                        k + 1
                    };
                    let l0 = if l < e {
                        l
                    } else {
                        l + 1
                    };
                    assert(ne[k] == oe[k0] && ne[l] == oe[l0]);
                }
            }
            assert forall|k: int| 0 <= k < nc.len() implies file_id_exists(
                nf,
                #[trigger] nc[k].file_id,
            ) by {
                let c = index_of_contentv(oc, file_id);
                let k0 = if c >= 0 && k >= c {
                    k + 1
                } else {
                    k
                };
                if c >= 0 {
                    oc.remove_ensures(c);
                }
                assert(nc[k] == oc[k0]);
                assert(oc[k0].file_id != file_id);
                assert(file_id_exists(of, oc[k0].file_id));
                let m0 = choose|m: int| 0 <= m < of.len() && #[trigger] of[m].id == oc[k0].file_id;
                assert(m0 != fidx as int);
                let m1 = if m0 < fidx as int {
                    m0
                } else {
                    m0 - 1
                };
                assert(nf[m1].id == oc[k0].file_id);
            }
            assert forall|k: int| 0 <= k < ne.len() implies file_id_exists(
                nf,
                #[trigger] ne[k].file_id,
            ) by {
                let e = index_of_embv(oe, file_id);
                let k0 = if e >= 0 && k >= e {
                    k + 1
                } else {
                    k
                };
                if e >= 0 {
                    oe.remove_ensures(e);
                }
                assert(ne[k] == oe[k0]);
                assert(oe[k0].file_id != file_id);
                assert(file_id_exists(of, oe[k0].file_id));
                let m0 = choose|m: int| 0 <= m < of.len() && #[trigger] of[m].id == oe[k0].file_id;
                assert(m0 != fidx as int);
                let m1 = if m0 < fidx as int {
                    m0
                } else {
                    m0 - 1
                };
                assert(nf[m1].id == oe[k0].file_id);
            }
            assert forall|k: int| 0 <= k < nc.len() implies (#[trigger] nc[k].word_count
                == match nc[k].text {
                Option::Some(t) => Option::Some(wc_of(t)),
                Option::None => Option::<i64>::None,
            }) by {
                let c = index_of_contentv(oc, file_id);
                let k0 = if c >= 0 && k >= c {
                    k + 1
                } else {
                    k
                };
                if c >= 0 {
                    oc.remove_ensures(c);
                }
                assert(nc[k] == oc[k0]);
            }
        }
        Ok(())
    }

    /// Counts the non-deleted files, clamped into `i64`.
    pub fn get_file_count(&self) -> (r: Result<i64, CortexError>)
        ensures
            r is Ok,
            r matches Ok(n) ==> n == clamp_count(count_live(self.filesv())),
    {
        let ghost fs = self.filesv();
        let mut n: i64 = 0;
        let mut i: usize = 0;
        proof {
            reveal(Seq::filter);
            assert(fs.take(0) =~= Seq::<FileV>::empty());
            assert(live(fs.take(0)) =~= Seq::<FileV>::empty());
        }
        while i < self.files.len()
            invariant
                i <= fs.len(),
                fs == self.filesv(),
                0 <= n,
                n == clamp_count(count_live(fs.take(i as int))),
            decreases fs.len() - i,
        {
            proof {
                reveal(Seq::filter);
                assert(fs.take(i + 1).drop_last() =~= fs.take(i as int));
                assert(fs.take(i + 1).last() == fs[i as int]);
                fs.take(i as int).lemma_filter_len(|f: FileV| !f.is_deleted);
            }
            if !self.files[i].is_deleted {
                proof {
                    reveal(Seq::filter);
                    assert(live(fs.take(i + 1)) == live(fs.take(i as int)).push(fs[i as int]));
                }
                if n < i64::MAX {
                    n = n + 1;
                }
            } else {
                proof {
                    reveal(Seq::filter);
                    assert(live(fs.take(i + 1)) == live(fs.take(i as int)));
                }
            }
            i = i + 1;
        }
        proof {
            assert(fs.take(fs.len() as int) =~= fs);
        }
        Ok(n)
    }

    /// Counts the non-deleted files that have a content row, clamped.
    pub fn get_indexed_file_count(&self) -> (r: Result<i64, CortexError>)
        ensures
            r is Ok,
            r matches Ok(n) ==> n == clamp_count(
                count_indexed(self.filesv(), self.contentsv()),
            ),
    {
        let ghost fs = self.filesv();
        let ghost cs = self.contentsv();
        let mut n: i64 = 0;
        let mut i: usize = 0;
        proof {
            reveal(Seq::filter);
            assert(fs.take(0) =~= Seq::<FileV>::empty());
            assert(fs.take(0).filter(|f: FileV| !f.is_deleted && has_content(cs, f.id)) =~= Seq::<
                FileV,
            >::empty());
        }
        while i < self.files.len()
            invariant
                i <= fs.len(),
                fs == self.filesv(),
                cs == self.contentsv(),
                0 <= n,
                n == clamp_count(count_indexed(fs.take(i as int), cs)),
            decreases fs.len() - i,
        {
            proof {
                reveal(Seq::filter);
                assert(fs.take(i + 1).drop_last() =~= fs.take(i as int));
                assert(fs.take(i + 1).last() == fs[i as int]);
                fs.take(i as int).lemma_filter_len(
                    |f: FileV| !f.is_deleted && has_content(cs, f.id),
                );
            }
            let deleted = self.files[i].is_deleted;
            let has = match self.find_content_index(self.files[i].file_id()) {
                Some(_) => true,
                None => false,
            };
            let ghost p = |f: FileV| !f.is_deleted && has_content(cs, f.id);
            if !deleted && has {
                proof {
                    reveal(Seq::filter);
                    assert(p(fs[i as int]));
                    assert(fs.take(i + 1).filter(p) == fs.take(i as int).filter(p).push(
                        fs[i as int],
                    ));
                }
                if n < i64::MAX {
                    n = n + 1;
                }
            } else {
                proof {
                    reveal(Seq::filter);
                    assert(!p(fs[i as int]));
                    assert(fs.take(i + 1).filter(p) == fs.take(i as int).filter(p));
                }
            }
            i = i + 1;
        }
        proof {
            assert(fs.take(fs.len() as int) =~= fs);
        }
        Ok(n)
    }

    /// The summary counts of the store: non-deleted files, of them those
    /// with content, and their total size in bytes, all clamped into `i64`.
    pub fn get_db_stats(&self) -> (r: Result<(i64, i64, i64), CortexError>)
        ensures
            r is Ok,
            r matches Ok(t) ==> {
                &&& t.0 == clamp_count(count_live(self.filesv()))
                &&& t.1 == clamp_count(count_indexed(self.filesv(), self.contentsv()))
                &&& t.2 == clamp_i64(sum_sizes(live(self.filesv())))
            },
    {
        let total = match self.get_file_count() {
            Ok(n) => n,
            Err(e) => {
                return Err(e);
            },
        };
        let indexed = match self.get_indexed_file_count() {
            Ok(n) => n,
            Err(e) => {
                return Err(e);
            },
        };
        let ghost fs = self.filesv();
        let mut acc: i128 = 0;
        let mut i: usize = 0;
        proof {
            reveal(Seq::filter);
            assert(fs.take(0) =~= Seq::<FileV>::empty());
            assert(live(fs.take(0)) =~= Seq::<FileV>::empty());
        }
        while i < self.files.len()
            invariant
                i <= fs.len(),
                fs == self.filesv(),
                acc == sum_sizes(live(fs.take(i as int))),
                -(i as int) * 0x8000000000000000 <= acc <= (i as int) * 0x8000000000000000,
            decreases fs.len() - i,
        {
            proof {
                reveal(Seq::filter);
                assert(fs.take(i + 1).drop_last() =~= fs.take(i as int));
                assert(fs.take(i + 1).last() == fs[i as int]);
                assert((i + 1) as int * 0x8000000000000000 <= 0x10000000000000000
                    * 0x8000000000000000) by (nonlinear_arith)
                    requires
                        (i + 1) as int <= 0x10000000000000000,
                ;
                assert(-(0x10000000000000000 * 0x8000000000000000) <= -((i + 1) as int
                    * 0x8000000000000000)) by (nonlinear_arith)
                    requires
                        (i + 1) as int <= 0x10000000000000000,
                ;
                assert((i as int) * 0x8000000000000000 + 0x8000000000000000 == ((i + 1) as int)
                    * 0x8000000000000000) by (nonlinear_arith);
            }
            if !self.files[i].is_deleted {
                let sz = self.files[i].size;
                proof {
                    reveal(Seq::filter);
                    let prev_live = live(fs.take(i as int));
                    assert(live(fs.take(i + 1)) == prev_live.push(fs[i as int]));
                    assert(live(fs.take(i + 1)).drop_last() =~= prev_live);
                    assert(sum_sizes(live(fs.take(i + 1))) == acc + fs[i as int].size);
                }
                acc = acc + (sz as i128);
            } else {
                proof {
                    reveal(Seq::filter);
                    assert(live(fs.take(i + 1)) == live(fs.take(i as int)));
                }
            }
            i = i + 1;
        }
        proof {
            assert(fs.take(fs.len() as int) =~= fs);
        }
        let size_total: i64 = if acc > (i64::MAX as i128) {
            i64::MAX
        } else if acc < (i64::MIN as i128) {
            i64::MIN
        } else {
            acc as i64
        };
        Ok((total, indexed, size_total))
    }

    /// Writes or replaces the embedding of an existing file; a file that
    /// does not exist is refused, if and only if.
    pub fn upsert_embedding(
        &mut self,
        file_id: i64,
        vector: &Vec<u32>,
        model_version: &str,
    ) -> (r: Result<(), CortexError>)
        requires
            old(self).inv(),
        ensures
            final(self).inv(),
            final(self).filesv() == old(self).filesv(),
            final(self).contentsv() == old(self).contentsv(),
            final(self).next_id == old(self).next_id,
            r is Err <==> index_of_filev(old(self).filesv(), file_id) == -1,
            r is Err ==> final(self).embeddingsv() == old(self).embeddingsv(),
            r is Ok ==> ({
                let j = index_of_embv(old(self).embeddingsv(), file_id);
                let new = EmbeddingV {
                    file_id,
                    vector: vector@,
                    model_version: model_version@,
                };
                &&& (j >= 0 ==> final(self).embeddingsv() == old(self).embeddingsv().update(
                    j,
                    new,
                ))
                &&& (j == -1 ==> final(self).embeddingsv() == old(self).embeddingsv().push(new))
            }),
    {
        match self.find_file_index(file_id) {
            None => Err(
                CortexError::DatabaseError {
                    message: String::from_str("no such file for embedding"),
                },
            ),
            Some(fi) => {
                let rec = EmbeddingRecord {
                    file_id,
                    vector: clone_vec_u32(vector),
                    model_version: String::from_str(model_version),
                };
                let ghost rv = rec@;
                let ghost old_ev = self.embeddingsv();
                match self.find_embedding_index(file_id) {
                    Some(ei) => {
                        let slot = vstd::std_specs::vec::vec_index_mut(&mut self.embeddings, ei);
                        *slot = rec;
                        proof {
                            assert(final(self).embeddingsv() =~= old_ev.update(ei as int, rv));
                        }
                    },
                    None => {
                        self.embeddings.push(rec);
                        proof {
                            assert(final(self).embeddingsv() =~= old_ev.push(rv));
                        }
                    },
                }
                proof {
                    assert(final(self).filesv() =~= old(self).filesv());
                    assert(final(self).contentsv() =~= old(self).contentsv());
                    lemma_index_of_embv_range(old_ev, file_id);
                    assert forall|k: int|
                        0 <= k < final(self).embeddingsv().len() implies file_id_exists(
                        final(self).filesv(),
                        #[trigger] final(self).embeddingsv()[k].file_id,
                    ) by {
                        let eid = final(self).embeddingsv()[k].file_id;
                        if eid == file_id {
                            assert(final(self).filesv()[fi as int].id == file_id);
                        } else {
                            assert(k < old_ev.len() && old_ev[k].file_id == eid);
                            assert(file_id_exists(old(self).filesv(), eid));
                            let m0 = choose|m: int|
                                0 <= m < old(self).filesv().len() && #[trigger] old(
                                    self,
                                ).filesv()[m].id == eid;
                            assert(final(self).filesv()[m0].id == eid);
                        }
                    }
                }
                Ok(())
            },
        }
    }

    /// Reads the embedding of a file; absence is `None`.
    pub fn get_embedding(&self, file_id: i64) -> (r: Result<Option<EmbeddingRecord>, CortexError>)
        ensures
            r is Ok,
            r matches Ok(o) ==> {
                &&& (o is Some <==> index_of_embv(self.embeddingsv(), file_id) >= 0)
                &&& (o matches Some(e) ==> e@ == self.embeddingsv()[index_of_embv(
                    self.embeddingsv(),
                    file_id,
                )])
            },
    {
        match self.find_embedding_index(file_id) {
            Some(i) => {
                let e = &self.embeddings[i];
                Ok(
                    Some(
                        EmbeddingRecord {
                            file_id: e.file_id,
                            vector: clone_vec_u32(&e.vector),
                            model_version: String::from_str(e.model_version.as_str()),
                        },
                    ),
                )
            },
            None => Ok(None),
        }
    }

    /// Every stored embedding as `(file identifier, vector bits)` pairs, in
    /// storage order.
    pub fn get_all_embeddings(&self) -> (r: Result<Vec<(i64, Vec<u32>)>, CortexError>)
        ensures
            r is Ok,
            r matches Ok(rs) ==> {
                &&& rs@.len() == self.embeddingsv().len()
                &&& (forall|k: int|
                    0 <= k < rs@.len() ==> (#[trigger] rs@[k]).0 == self.embeddingsv()[k].file_id
                        && rs@[k].1@ == self.embeddingsv()[k].vector)
            },
    {
        let mut out: Vec<(i64, Vec<u32>)> = Vec::new();
        let mut i: usize = 0;
        while i < self.embeddings.len()
            invariant
                i <= self.embeddingsv().len(),
                out@.len() == i,
                forall|k: int|
                    0 <= k < i ==> (#[trigger] out@[k]).0 == self.embeddingsv()[k].file_id
                        && out@[k].1@ == self.embeddingsv()[k].vector,
            decreases self.embeddingsv().len() - i,
        {
            let e = &self.embeddings[i];
            out.push((e.file_id, clone_vec_u32(&e.vector)));
            i = i + 1;
        }
        Ok(out)
    }

    /// Counts the stored embeddings, clamped into `i64`.
    pub fn count_embeddings(&self) -> (r: Result<i64, CortexError>)
        ensures
            r is Ok,
            r matches Ok(n) ==> n == clamp_count(self.embeddingsv().len() as int),
    {
        let n = self.embeddings.len();
        let n64 = n as u64;
        if n64 <= (i64::MAX as u64) {
            Ok(n64 as i64)
        } else {
            Ok(i64::MAX)
        }
    }

    /// The first `limit` non-deleted files that have no embedding yet, in
    /// storage order.
    pub fn get_files_without_embeddings(&self, limit: usize) -> (r: Result<Vec<File>, CortexError>)
        ensures
            r is Ok,
            r matches Ok(rs) ==> ({
                let fs = self.filesv().filter(
                    |f: FileV| !f.is_deleted && index_of_embv(self.embeddingsv(), f.id) == -1,
                );
                files_view(rs@) == fs.take(if limit <= fs.len() {
                    limit as int
                } else {
                    fs.len() as int
                })
            }),
    {
        let ghost fs = self.filesv();
        let ghost es = self.embeddingsv();
        let ghost pred = |f: FileV| !f.is_deleted && index_of_embv(es, f.id) == -1;
        let mut out: Vec<File> = Vec::new();
        let mut i: usize = 0;
        proof {
            reveal(Seq::filter);
            assert(fs.take(0) =~= Seq::<FileV>::empty());
            assert(files_view(out@) =~= fs.take(0).filter(pred));
        }
        while i < self.files.len()
            invariant
                i <= fs.len(),
                fs == self.filesv(),
                es == self.embeddingsv(),
                pred == (|f: FileV| !f.is_deleted && index_of_embv(es, f.id) == -1),
                files_view(out@) == fs.take(i as int).filter(pred),
            decreases fs.len() - i,
        {
            proof {
                assert(fs.take(i + 1).drop_last() =~= fs.take(i as int));
                assert(fs.take(i + 1).last() == fs[i as int]);
            }
            let deleted = self.files[i].is_deleted;
            let missing = match self.find_embedding_index(self.files[i].file_id()) {
                Some(_) => false,
                None => true,
            };
            if !deleted && missing {
                let ghost prev = files_view(out@);
                let c = clone_file(&self.files[i]);
                out.push(c);
                proof {
                    reveal(Seq::filter);
                    assert(pred(fs[i as int]));
                    assert(files_view(out@) =~= prev.push(fs[i as int]));
                    assert(fs.take(i + 1).filter(pred) == fs.take(i as int).filter(pred).push(
                        fs[i as int],
                    ));
                }
            } else {
                proof {
                    reveal(Seq::filter);
                    assert(!pred(fs[i as int]));
                    assert(fs.take(i + 1).filter(pred) == fs.take(i as int).filter(pred));
                }
            }
            i = i + 1;
        }
        proof {
            assert(fs.take(fs.len() as int) =~= fs);
        }
        let ghost full = fs.filter(pred);
        if out.len() > limit {
            out.truncate(limit);
            proof {
                assert(files_view(out@) =~= full.take(limit as int));
            }
        } else {
            proof {
                assert(files_view(out@) =~= full.take(full.len() as int));
            }
        }
        Ok(out)
    }


    /// The non-deleted files, newest-modified first, one page at a time:
    /// `limit` records starting `offset` into the ordering.
    pub fn list_files(&self, limit: usize, offset: usize) -> (r: Result<Vec<File>, CortexError>)
        ensures
            r is Ok,
            r matches Ok(rs) ==> ({
                let lv = live(self.filesv());
                let rv = files_view(rs@);
                &&& rv.len() == (if offset <= lv.len() {
                    if limit <= lv.len() - offset {
                        limit as int
                    } else {
                        lv.len() - offset
                    }
                } else {
                    0
                })
                &&& (forall|k: int|
                    0 <= k && k + 1 < rv.len() ==> file_order(#[trigger] rv[k], rv[k + 1]))
                &&& (forall|k: int| 0 <= k < rv.len() ==> lv.to_multiset().contains(#[trigger] rv[k]))
                &&& (forall|k: int| 0 <= k < rv.len() ==> !(#[trigger] rv[k]).is_deleted)
                &&& (offset == 0 && lv.len() <= limit ==> rv.to_multiset() == lv.to_multiset())
                &&& (exists|s: Seq<FileV>|
                    #[trigger] is_listing_page(s, lv, offset as int, limit as int, rv))
            }),
    {
        let ghost fs = self.filesv();
        let ghost lv = live(fs);
        let mut picked: Vec<File> = Vec::new();
        let mut i: usize = 0;
        proof {
            reveal(Seq::filter);
            assert(fs.take(0) =~= Seq::<FileV>::empty());
            assert(files_view(picked@) =~= live(fs.take(0)));
        }
        while i < self.files.len()
            invariant
                i <= fs.len(),
                fs == self.filesv(),
                files_view(picked@) == live(fs.take(i as int)),
            decreases fs.len() - i,
        {
            proof {
                reveal(Seq::filter);
                assert(fs.take(i + 1).drop_last() =~= fs.take(i as int));
                assert(fs.take(i + 1).last() == fs[i as int]);
            }
            if !self.files[i].is_deleted {
                let ghost prev = files_view(picked@);
                let c = clone_file(&self.files[i]);
                picked.push(c);
                proof {
                    reveal(Seq::filter);
                    assert(files_view(picked@) =~= prev.push(fs[i as int]));
                }
            } else {
                proof {
                    reveal(Seq::filter);
                    assert(live(fs.take(i + 1)) == live(fs.take(i as int)));
                }
            }
            i = i + 1;
        }
        proof {
            assert(fs.take(fs.len() as int) =~= fs);
        }
        let sorted = sort_files_desc(picked);
        let ghost sv = files_view(sorted@);
        proof {
            broadcast use vstd::seq_lib::group_to_multiset_ensures;

            assert(sv.to_multiset() == lv.to_multiset());
            assert(sv.len() == sv.to_multiset().len());
            assert(lv.len() == lv.to_multiset().len());
        }
        let n = sorted.len();
        let start = if offset <= n {
            offset
        } else {
            n
        };
        let end = if limit <= n - start {
            start + limit
        } else {
            n
        };
        let mut out: Vec<File> = Vec::new();
        let mut k: usize = start;
        while k < end
            invariant
                start <= k <= end <= sorted@.len(),
                sv == files_view(sorted@),
                files_view(out@) == sv.subrange(start as int, k as int),
            decreases end - k,
        {
            let ghost prev = files_view(out@);
            let c = clone_file(&sorted[k]);
            out.push(c);
            proof {
                assert(files_view(out@) =~= prev.push(sv[k as int]));
                assert(sv.subrange(start as int, k + 1) =~= sv.subrange(start as int, k as int).push(
                    sv[k as int],
                ));
            }
            k = k + 1;
        }
        proof {
            broadcast use vstd::seq_lib::group_to_multiset_ensures;

            let rv = files_view(out@);
            assert(rv =~= sv.subrange(start as int, end as int));
            assert forall|q: int| 0 <= q < rv.len() implies lv.to_multiset().contains(
                #[trigger] rv[q],
            ) by {
                assert(rv[q] == sv[start + q]);
                assert(sv.contains(sv[start + q]));
                assert(sv.to_multiset().count(sv[start + q]) > 0);
            }
            assert forall|q: int| 0 <= q < rv.len() implies !(#[trigger] rv[q]).is_deleted by {
                assert(rv[q] == sv[start + q]);
                assert(sv.contains(sv[start + q]));
                assert(sv.to_multiset().count(sv[start + q]) > 0);
                assert(lv.to_multiset().contains(sv[start + q]));
                assert(lv.contains(sv[start + q]));
                let w = choose|w: int| 0 <= w < lv.len() && lv[w] == sv[start + q];
                fs.lemma_filter_pred(|f: FileV| !f.is_deleted, w);
            }
            if offset == 0 && lv.len() <= limit {
                assert(rv =~= sv);
            }
            assert(rv =~= page_of_files(sv, offset as int, limit as int));
            assert(is_listing_page(sv, lv, offset as int, limit as int, rv));
        }
        Ok(out)
    }

    /// The non-deleted files among `ids`, in the order the identifiers were
    /// given; unknown or deleted identifiers yield nothing.
    pub fn get_files_by_ids(&self, ids: &Vec<i64>) -> (r: Result<Vec<File>, CortexError>)
        ensures
            r is Ok,
            r matches Ok(rs) ==> files_view(rs@) == files_for_ids(self.filesv(), ids@),
    {
        let ghost fs = self.filesv();
        let mut out: Vec<File> = Vec::new();
        let mut i: usize = 0;
        proof {
            assert(ids@.take(0) =~= Seq::<i64>::empty());
            assert(files_view(out@) =~= files_for_ids(fs, ids@.take(0)));
        }
        while i < ids.len()
            invariant
                i <= ids@.len(),
                fs == self.filesv(),
                files_view(out@) == files_for_ids(fs, ids@.take(i as int)),
            decreases ids@.len() - i,
        {
            proof {
                assert(ids@.take(i + 1).drop_last() =~= ids@.take(i as int));
                assert(ids@.take(i + 1).last() == ids@[i as int]);
            }
            match self.find_file_index(ids[i]) {
                Some(fi) => {
                    if !self.files[fi].is_deleted {
                        let ghost prev = files_view(out@);
                        let c = clone_file(&self.files[fi]);
                        out.push(c);
                        proof {
                            assert(files_view(out@) =~= prev.push(fs[fi as int]));
                        }
                    }
                },
                None => {},
            }
            i = i + 1;
        }
        proof {
            assert(ids@.take(ids@.len() as int) =~= ids@);
        }
        Ok(out)
    }
}


/// The index of the file record with `id`, or -1.
pub open spec fn index_of_filev(fs: Seq<FileV>, id: i64) -> int
    decreases fs.len(),
{
    if fs.len() == 0 {
        -1
    } else if fs[0].id == id {
        0
    } else {
        let r = index_of_filev(fs.drop_first(), id);
        if r == -1 {
            -1
        } else {
            r + 1
        }
    }
}

pub proof fn lemma_index_of_filev_range(fs: Seq<FileV>, id: i64)
    ensures
        -1 <= index_of_filev(fs, id) < fs.len(),
        index_of_filev(fs, id) >= 0 ==> fs[index_of_filev(fs, id)].id == id,
        index_of_filev(fs, id) >= 0 ==> forall|k: int|
            0 <= k < index_of_filev(fs, id) ==> fs[k].id != id,
        index_of_filev(fs, id) == -1 ==> forall|k: int| 0 <= k < fs.len() ==> fs[k].id != id,
    decreases fs.len(),
{
    if fs.len() > 0 && fs[0].id != id {
        lemma_index_of_filev_range(fs.drop_first(), id);
        let r = index_of_filev(fs.drop_first(), id);
        if r == -1 {
            assert forall|k: int| 0 <= k < fs.len() implies fs[k].id != id by {
                if k > 0 {
                    assert(fs.drop_first()[k - 1] == fs[k]);
                }
            }
        } else {
            assert forall|k: int| 0 <= k < index_of_filev(fs, id) implies fs[k].id != id by {
                if k > 0 {
                    assert(fs.drop_first()[k - 1] == fs[k]);
                }
            }
        }
    }
}

pub proof fn lemma_index_of_filev_at(fs: Seq<FileV>, id: i64, i: int)
    requires
        0 <= i < fs.len(),
        fs[i].id == id,
        forall|k: int| 0 <= k < i ==> fs[k].id != id,
    ensures
        index_of_filev(fs, id) == i,
    decreases i,
{
    if i > 0 {
        lemma_index_of_filev_at(fs.drop_first(), id, i - 1);
    }
}

pub proof fn lemma_index_of_filev_none(fs: Seq<FileV>, id: i64)
    requires
        forall|k: int| 0 <= k < fs.len() ==> fs[k].id != id,
    ensures
        index_of_filev(fs, id) == -1,
    decreases fs.len(),
{
    if fs.len() > 0 {
        lemma_index_of_filev_none(fs.drop_first(), id);
    }
}

/// The index of the embedding row for `id`, or -1.
pub open spec fn index_of_embv(es: Seq<EmbeddingV>, id: i64) -> int
    decreases es.len(),
{
    if es.len() == 0 {
        -1
    } else if es[0].file_id == id {
        0
    } else {
        let r = index_of_embv(es.drop_first(), id);
        if r == -1 {
            -1
        } else {
            r + 1
        }
    }
}

pub proof fn lemma_index_of_embv_range(es: Seq<EmbeddingV>, id: i64)
    ensures
        -1 <= index_of_embv(es, id) < es.len(),
        index_of_embv(es, id) >= 0 ==> es[index_of_embv(es, id)].file_id == id,
        index_of_embv(es, id) >= 0 ==> forall|k: int|
            0 <= k < index_of_embv(es, id) ==> es[k].file_id != id,
        index_of_embv(es, id) == -1 ==> forall|k: int|
            0 <= k < es.len() ==> es[k].file_id != id,
    decreases es.len(),
{
    if es.len() > 0 && es[0].file_id != id {
        lemma_index_of_embv_range(es.drop_first(), id);
        let r = index_of_embv(es.drop_first(), id);
        if r == -1 {
            assert forall|k: int| 0 <= k < es.len() implies es[k].file_id != id by {
                if k > 0 {
                    assert(es.drop_first()[k - 1] == es[k]);
                }
            }
        } else {
            assert forall|k: int| 0 <= k < index_of_embv(es, id) implies es[k].file_id != id by {
                if k > 0 {
                    assert(es.drop_first()[k - 1] == es[k]);
                }
            }
        }
    }
}

pub proof fn lemma_index_of_embv_at(es: Seq<EmbeddingV>, id: i64, i: int)
    requires
        0 <= i < es.len(),
        es[i].file_id == id,
        forall|k: int| 0 <= k < i ==> es[k].file_id != id,
    ensures
        index_of_embv(es, id) == i,
    decreases i,
{
    if i > 0 {
        lemma_index_of_embv_at(es.drop_first(), id, i - 1);
    }
}

pub proof fn lemma_index_of_embv_none(es: Seq<EmbeddingV>, id: i64)
    requires
        forall|k: int| 0 <= k < es.len() ==> es[k].file_id != id,
    ensures
        index_of_embv(es, id) == -1,
    decreases es.len(),
{
    if es.len() > 0 {
        lemma_index_of_embv_none(es.drop_first(), id);
    }
}


/// The listing order: newer `modified_at` first, equal timestamps broken
/// by ascending identifier, so that one total order fixes every page.
pub open spec fn file_order(a: FileV, b: FileV) -> bool {
    if a.modified_at == b.modified_at {
        a.id <= b.id
    } else {
        crate::text::lex_le(b.modified_at, a.modified_at)
    }
}

/// The listing order is total.
pub proof fn lemma_file_order_total(a: FileV, b: FileV)
    ensures
        file_order(a, b) || file_order(b, a),
{
    if a.modified_at != b.modified_at {
        crate::text::lemma_lex_le_total(a.modified_at, b.modified_at);
    }
}

/// The listing order is transitive.
pub proof fn lemma_file_order_trans(a: FileV, b: FileV, c: FileV)
    requires
        file_order(a, b),
        file_order(b, c),
    ensures
        file_order(a, c),
{
    if a.modified_at == b.modified_at && b.modified_at == c.modified_at {
    } else if a.modified_at == b.modified_at {
    } else if b.modified_at == c.modified_at {
    } else {
        crate::text::lemma_lex_le_trans(c.modified_at, b.modified_at, a.modified_at);
        if a.modified_at == c.modified_at {
            crate::text::lemma_lex_le_antisym(b.modified_at, a.modified_at);
        }
    }
}

/// Decides the listing order of two file records.
pub fn file_before(a: &File, b: &File) -> (r: bool)
    ensures
        r == file_order(a@, b@),
{
    let av = crate::text::chars_of(a.modified_at.as_str());
    let bv = crate::text::chars_of(b.modified_at.as_str());
    if crate::path::chars_eq(&av, &bv) {
        a.id <= b.id
    } else {
        crate::text::chars_le(&bv, &av)
    }
}

/// Sorts file records newest-modified first: the result is a permutation of
/// the input with neighbours in listing order.
pub fn sort_files_desc(input: Vec<File>) -> (out: Vec<File>)
    ensures
        files_view(out@).to_multiset() == files_view(input@).to_multiset(),
        forall|k: int|
            0 <= k && k + 1 < out@.len() ==> file_order(
                #[trigger] files_view(out@)[k],
                files_view(out@)[k + 1],
            ),
{
    let ghost orig = files_view(input@);
    let mut work = input;
    let mut out: Vec<File> = Vec::new();
    proof {
        broadcast use vstd::seq_lib::group_to_multiset_ensures;

        assert(files_view(out@) =~= Seq::<FileV>::empty());
        assert(files_view(work@) =~= orig);
        assert(files_view(out@).to_multiset().add(files_view(work@).to_multiset())
            =~= orig.to_multiset());
    }
    while work.len() > 0
        invariant
            files_view(out@).to_multiset().add(files_view(work@).to_multiset())
                == orig.to_multiset(),
            forall|k: int|
                0 <= k && k + 1 < out@.len() ==> file_order(
                    #[trigger] files_view(out@)[k],
                    files_view(out@)[k + 1],
                ),
            forall|a: int, b: int|
                0 <= a < out@.len() && 0 <= b < work@.len() ==> file_order(
                    #[trigger] files_view(out@)[a],
                    #[trigger] files_view(work@)[b],
                ),
        decreases work@.len(),
    {
        let mut best: usize = 0;
        let mut j: usize = 1;
        while j < work.len()
            invariant
                best < j <= work@.len() || (best == 0 && j <= work@.len()),
                best < work@.len(),
                work@.len() > 0,
                forall|k: int|
                    0 <= k < j ==> file_order(
                        files_view(work@)[best as int],
                        #[trigger] files_view(work@)[k],
                    ),
            decreases work@.len() - j,
        {
            if !file_before(&work[best], &work[j]) {
                let ghost prev_best = best as int;
                proof {
                    lemma_file_order_total(
                        files_view(work@)[prev_best],
                        files_view(work@)[j as int],
                    );
                }
                best = j;
                proof {
                    let wv = files_view(work@);
                    assert(file_order(wv[j as int], wv[prev_best]));
                    assert forall|k: int| 0 <= k < j + 1 implies file_order(
                        wv[best as int],
                        wv[k],
                    ) by {
                        if k != j as int {
                            assert(file_order(wv[prev_best], wv[k]));
                            lemma_file_order_trans(wv[j as int], wv[prev_best], wv[k]);
                        }
                    }
                }
            } else {
                proof {
                    assert(file_order(
                        files_view(work@)[best as int],
                        files_view(work@)[j as int],
                    ));
                }
            }
            j = j + 1;
        }
        proof {
            broadcast use vstd::seq_lib::group_to_multiset_ensures;

            files_view(work@).to_multiset();
        }
        let ghost old_out = files_view(out@);
        let ghost old_work = files_view(work@);
        let x = work.remove(best);
        let ghost xv = x@;
        out.push(x);
        proof {
            broadcast use vstd::seq_lib::group_to_multiset_ensures;

            assert(xv == old_work[best as int]);
            assert(files_view(out@) =~= old_out.push(xv));
            assert(files_view(work@) =~= old_work.remove(best as int));
            assert(files_view(out@).to_multiset() =~= old_out.to_multiset().insert(xv));
            assert(files_view(work@).to_multiset() =~= old_work.to_multiset().remove(xv));
            assert(old_work.to_multiset().count(xv) > 0);
            assert(files_view(out@).to_multiset().add(files_view(work@).to_multiset())
                =~= old_out.to_multiset().add(old_work.to_multiset()));
            old_work.remove_ensures(best as int);
            assert forall|a: int, b: int|
                0 <= a < out@.len() && 0 <= b < work@.len() implies file_order(
                files_view(out@)[a],
                files_view(work@)[b],
            ) by {
                let b0 = if b < best as int {
                    b
                } else {
                    b + 1
                };
                assert(files_view(work@)[b] == old_work[b0]);
                if a < out@.len() - 1 {
                    assert(file_order(old_out[a], old_work[b0]));
                } else {
                    assert(file_order(xv, old_work[b0]));
                }
            }
        }
    }
    proof {
        broadcast use vstd::seq_lib::group_to_multiset_ensures;

        assert(files_view(work@) =~= Seq::<FileV>::empty());
        assert(files_view(work@).to_multiset() =~= Multiset::<FileV>::empty());
        assert(files_view(out@).to_multiset().add(Multiset::<FileV>::empty())
            =~= files_view(out@).to_multiset());
    }
    out
}


/// Inserting a file and reading it back by its fresh identifier yields the
/// record just stored, every attribute as given: the stored run ends with
/// the new record, its identifier is fresh, and any record the reader finds
/// under that identifier is that one.
pub proof fn lemma_insert_then_get(fs: Seq<FileV>, rec: FileV, got: FileV)
    requires
        forall|k: int| 0 <= k < fs.len() ==> fs[k].id != rec.id,
        exists|k: int|
            0 <= k < fs.push(rec).len() && #[trigger] fs.push(rec)[k] == got && got.id == rec.id,
    ensures
        got == rec,
{
    let k = choose|k: int|
        0 <= k < fs.push(rec).len() && #[trigger] fs.push(rec)[k] == got && got.id == rec.id;
    if k < fs.len() {
        assert(fs.push(rec)[k] == fs[k]);
        assert(false);
    }
}

} // verus!
