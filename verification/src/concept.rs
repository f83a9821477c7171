//! The concept-search orchestration: one batch per request. Each scanned
//! file joins the batch with its functions resolved against the cache; the
//! still-unembedded functions yield one text batch for the host's embedding
//! call; the returned vectors are merged back; each file's refreshed cache
//! value is framed for the store; and the embedded candidates are ranked
//! against the host's similarity keys. The embedding model and the cosine
//! arithmetic are the host's; every decision around them is verified.

use vstd::prelude::*;
use vstd::string::StrSliceExecFns;
use vstd::pervasive::VecAdditionalExecFns;
use vstd::utf8::encode_utf8;
use crate::structs::{FunctionInfo, ConceptSearchResultItem};
use crate::cache::{
    CachedFileEmbeddings, spec_map_find, map_find, sha256_hex, sha256_hex_of,
};
use crate::codec::{spec_decode, decode_entry, spec_encode, spec_rep_wf, encode_entry, EntryRep};
use crate::rank::{spec_ranked, spec_precedes, rank_top};
use crate::text::str_eq;

verus! {

/// One candidate function of a concept search: where it lives, its kept
/// body text, and its embedding vector once known. Vector components are
/// opaque 32-bit words owned by the host.
pub struct DocRecord {
    pub file: String,
    pub function: String,
    pub body: Option<String>,
    pub vector: Option<Vec<u32>>,
}

/// The mathematical content of one candidate.
pub open spec fn spec_doc_view(d: DocRecord) -> (
    Seq<char>,
    Seq<char>,
    Option<Seq<char>>,
    Option<Seq<u32>>,
) {
    (
        d.file@,
        d.function@,
        match d.body {
            Some(b) => Some(b@),
            None => None,
        },
        match d.vector {
            Some(v) => Some(v@),
            None => None,
        },
    )
}

/// One file's place in a batch: its cache key, its current content hash,
/// and the contiguous range of its candidates in the batch.
pub struct FileSlot {
    pub key: String,
    pub hash: String,
    pub start: usize,
    pub count: usize,
}

/// The running state of one concept-search request.
pub struct ConceptBatch {
    pub docs: Vec<DocRecord>,
    pub files: Vec<FileSlot>,
}

/// An invalid concept-search request, rejected before any work.
pub enum ConceptRequestError {
    ZeroTimeout,
    EmptyRoot,
    EmptyQuery,
    NoExtensions,
}

/// Validates a concept-search request. `None` exactly when the timeout is
/// positive and the root path, the query and the extension list are all
/// non-empty; the first violated rule is reported otherwise.
pub fn validate_concept_request(
    root: &str,
    query: &str,
    extensions: &Vec<String>,
    timeout_ms: u32,
) -> (r: Option<ConceptRequestError>)
    ensures
        timeout_ms == 0 <==> (r matches Some(e) && e is ZeroTimeout),
        (timeout_ms > 0 && root@.len() == 0) <==> (r matches Some(e) && e is EmptyRoot),
        (timeout_ms > 0 && root@.len() > 0 && query@.len() == 0) <==> (r matches Some(e)
            && e is EmptyQuery),
        (timeout_ms > 0 && root@.len() > 0 && query@.len() > 0 && extensions@.len() == 0) <==> (
        r matches Some(e) && e is NoExtensions),
        r is None <==> (timeout_ms > 0 && root@.len() > 0 && query@.len() > 0
            && extensions@.len() > 0),
{
    if timeout_ms == 0 {
        Some(ConceptRequestError::ZeroTimeout)
    } else if root.unicode_len() == 0 {
        Some(ConceptRequestError::EmptyRoot)
    } else if query.unicode_len() == 0 {
        Some(ConceptRequestError::EmptyQuery)
    } else if extensions.len() == 0 {
        Some(ConceptRequestError::NoExtensions)
    } else {
        None
    }
}

/// The text submitted to the embedding model for one function: a fixed
/// template that carries the name and location even when body text is
/// sparse.
pub open spec fn spec_embedding_text(
    name: Seq<char>,
    path: Seq<char>,
    body: Option<Seq<char>>,
) -> Seq<char> {
    "Function: "@ + name + "\nFile: "@ + path + "\nBody:\n"@ + (match body {
        Some(b) => b,
        None => Seq::empty(),
    })
}

/// Renders the embedding template for one function of one file.
pub fn embedding_text(name: &str, path: &str, body: &Option<String>) -> (r: String)
    ensures
        r@ == spec_embedding_text(
            name@,
            path@,
            match body {
                Some(b) => Some(b@),
                None => None,
            },
        ),
{
    let mut acc = String::new();
    acc.append("Function: ");
    acc.append(name);
    acc.append("\nFile: ");
    acc.append(path);
    acc.append("\nBody:\n");
    match body {
        Some(b) => {
            acc.append(b.as_str());
        },
        None => {},
    }
    acc
}

/// The vector the cache already holds for one function name, under one
/// decoded entry and the file's current content hash: only a usable entry —
/// decoded, hash equal — yields one.
pub open spec fn spec_doc_vector(
    entry: Option<EntryRep>,
    current_hash: Seq<char>,
    name: Seq<char>,
) -> Option<Seq<u32>> {
    match entry {
        Some(rep) => if rep.0 == current_hash {
            spec_map_find(rep.1, name)
        } else {
            None
        },
        None => None,
    }
}

/// A fresh batch for a new request.
pub fn new_concept_batch() -> (r: ConceptBatch)
    ensures
        r.docs@.len() == 0,
        r.files@.len() == 0,
{
    ConceptBatch { docs: Vec::new(), files: Vec::new() }
}

/// Adds one scanned file to the batch: hashes its content, reads the
/// stored cache value handed over by the host, and resolves every function
/// against it — a function of a usable entry reuses its stored vector, any
/// other function joins the batch unembedded. Appends one slot recording
/// the file's key, hash and candidate range.
pub fn add_file(
    batch: &mut ConceptBatch,
    key: &str,
    path: &str,
    content: &str,
    functions: &Vec<FunctionInfo>,
    stored: Option<&Vec<u8>>,
)
    ensures
        ({
            let chash = sha256_hex_of(encode_utf8(content@));
            let rep = match stored {
                Some(b) => spec_decode(b@),
                None => None,
            };
            &&& final (batch).files@.len() == old(batch).files@.len() + 1
            &&& forall|j: int|
                0 <= j < old(batch).files@.len() ==> final (batch).files@[j] == old(
                    batch,
                ).files@[j]
            &&& ({
                let slot = final (batch).files@.last();
                slot.key@ == key@ && slot.hash@ == chash && slot.start == old(batch).docs@.len()
                    && slot.count == functions@.len()
            })
            &&& final (batch).docs@.len() == old(batch).docs@.len() + functions@.len()
            &&& forall|i: int|
                0 <= i < old(batch).docs@.len() ==> spec_doc_view(
                    #[trigger] final (batch).docs@[i],
                ) == spec_doc_view(old(batch).docs@[i])
            &&& forall|k: int|
                0 <= k < functions@.len() ==> ({
                    let d = #[trigger] final (batch).docs@[old(batch).docs@.len() + k];
                    &&& d.file@ == path@
                    &&& d.function@ == functions@[k].name@
                    &&& (match functions@[k].body {
                        Some(b) => d.body matches Some(db) && db@ == b@,
                        None => d.body is None,
                    })
                    &&& (match spec_doc_vector(rep, chash, functions@[k].name@) {
                        Some(v) => d.vector matches Some(w) && w@ == v,
                        None => d.vector is None,
                    })
                })
        }),
{
    let hash = sha256_hex(content);
    let entry: Option<CachedFileEmbeddings> = match stored {
        Some(b) => decode_entry(b),
        None => None,
    };
    let usable = match &entry {
        Some(e) => str_eq(e.file_content_hash.as_str(), hash.as_str()),
        None => false,
    };
    let start = batch.docs.len();
    let count = functions.len();
    let ghost chash = sha256_hex_of(encode_utf8(content@));
    let ghost rep = match stored {
        Some(b) => spec_decode(b@),
        None => None,
    };
    let ghost old_docs = batch.docs@;
    let mut k: usize = 0;
    while k < functions.len()
        invariant
            0 <= k <= functions@.len(),
            start == old_docs.len(),
            old_docs == old(batch).docs@,
            batch.files == old(batch).files,
            hash@ == chash,
            rep == (match stored {
                Some(b) => spec_decode(b@),
                None => None,
            }),
            (match &entry {
                Some(e) => rep matches Some(er) && (e.file_content_hash@, e.function_embeddings.deep_view()) == er,
                None => rep is None,
            }),
            usable == (entry matches Some(e) && e.file_content_hash@ == chash),
            batch.docs@.len() == old_docs.len() + k,
            forall|i: int|
                0 <= i < old_docs.len() ==> spec_doc_view(#[trigger] batch.docs@[i])
                    == spec_doc_view(old_docs[i]),
            forall|j: int|
                0 <= j < k ==> ({
                    let d = #[trigger] batch.docs@[old_docs.len() + j];
                    &&& d.file@ == path@
                    &&& d.function@ == functions@[j].name@
                    &&& (match functions@[j].body {
                        Some(b) => d.body matches Some(db) && db@ == b@,
                        None => d.body is None,
                    })
                    &&& (match spec_doc_vector(rep, chash, functions@[j].name@) {
                        Some(v) => d.vector matches Some(w) && w@ == v,
                        None => d.vector is None,
                    })
                }),
        decreases functions@.len() - k,
    {
        let f = &functions[k];
        let vector: Option<Vec<u32>> = if usable {
            match &entry {
                Some(e) => map_find(&e.function_embeddings, f.name.as_str()),
                None => None,
            }
        } else {
            None
        };
        let body: Option<String> = match &f.body {
            Some(b) => Some(b.clone()),
            None => None,
        };
        batch.docs.push(
            DocRecord {
                file: String::from_str(path),
                function: f.name.clone(),
                body,
                vector,
            },
        );
        k = k + 1;
    }
    batch.files.push(FileSlot { key: String::from_str(key), hash, start, count });
}

/// The texts of the batch's still-unembedded candidates, in batch order.
pub open spec fn spec_pending_texts(docs: Seq<DocRecord>) -> Seq<Seq<char>>
    decreases docs.len(),
{
    if docs.len() == 0 {
        Seq::empty()
    } else {
        let rest = spec_pending_texts(docs.drop_last());
        let d = docs.last();
        if d.vector is None {
            rest.push(
                spec_embedding_text(
                    d.function@,
                    d.file@,
                    match d.body {
                        Some(b) => Some(b@),
                        None => None,
                    },
                ),
            )
        } else {
            rest
        }
    }
}

/// Renders the embedding text of every still-unembedded candidate, in
/// batch order: the one batch handed to the embedding model. An empty
/// result means the model need not be called for documents at all.
pub fn pending_texts(batch: &ConceptBatch) -> (r: Vec<String>)
    ensures
        r.deep_view() == spec_pending_texts(batch.docs@),
{
    let mut r: Vec<String> = Vec::new();
    let mut i: usize = 0;
    while i < batch.docs.len()
        invariant
            0 <= i <= batch.docs@.len(),
            r.deep_view() =~~= spec_pending_texts(batch.docs@.take(i as int)),
        decreases batch.docs@.len() - i,
    {
        let ghost pref = batch.docs@.take(i + 1);
        proof {
            assert(pref.drop_last() =~= batch.docs@.take(i as int));
            assert(pref.last() == batch.docs@[i as int]);
        }
        let d = &batch.docs[i];
        match &d.vector {
            Some(_) => {},
            None => {
                let ghost before = r.deep_view();
                let t = embedding_text(d.function.as_str(), d.file.as_str(), &d.body);
                r.push(t);
                proof {
                    assert(r.deep_view() =~~= before.push(r@[r@.len() - 1]@));
                }
            },
        }
        proof {
            assert(r.deep_view() =~~= spec_pending_texts(batch.docs@.take(i + 1)));
        }
        i = i + 1;
    }
    proof {
        assert(batch.docs@.take(batch.docs@.len() as int) =~= batch.docs@);
    }
    r
}

/// How many candidates before position `upto` are still unembedded.
pub open spec fn spec_pending_count(docs: Seq<DocRecord>, upto: int) -> int
    decreases upto,
{
    if upto <= 0 {
        0
    } else {
        spec_pending_count(docs, upto - 1) + (if docs[upto - 1].vector is None {
            1int
        } else {
            0int
        })
    }
}

/// Merges the vectors the host's embedding call returned into the batch:
/// the `k`-th still-unembedded candidate receives the `k`-th vector, in
/// order. A candidate past the end of the returned list stays unembedded —
/// a short embedding result loses those candidates, it never corrupts the
/// reused ones.
pub fn apply_embeddings(batch: &mut ConceptBatch, vectors: &Vec<Vec<u32>>)
    ensures
        final (batch).files == old(batch).files,
        final (batch).docs@.len() == old(batch).docs@.len(),
        forall|i: int|
            0 <= i < old(batch).docs@.len() ==> ({
                let v = spec_doc_view(old(batch).docs@[i]);
                let rk = spec_pending_count(old(batch).docs@, i);
                if old(batch).docs@[i].vector is None && rk < vectors@.len() {
                    spec_doc_view(#[trigger] final (batch).docs@[i]) == (
                        v.0,
                        v.1,
                        v.2,
                        Some(vectors@[rk]@),
                    )
                } else {
                    spec_doc_view(final (batch).docs@[i]) == v
                }
            }),
{
    let ghost old_docs = old(batch).docs@;
    let mut i: usize = 0;
    let mut next: usize = 0;
    while i < batch.docs.len()
        invariant
            batch.files == old(batch).files,
            old_docs == old(batch).docs@,
            batch.docs@.len() == old_docs.len(),
            0 <= i <= old_docs.len(),
            next <= i,
            next == spec_pending_count(old_docs, i as int),
            forall|j: int|
                i <= j < old_docs.len() ==> #[trigger] batch.docs@[j] == old_docs[j],
            forall|j: int|
                0 <= j < i ==> ({
                    let v = spec_doc_view(old_docs[j]);
                    let rk = spec_pending_count(old_docs, j);
                    if old_docs[j].vector is None && rk < vectors@.len() {
                        spec_doc_view(#[trigger] batch.docs@[j]) == (
                            v.0,
                            v.1,
                            v.2,
                            Some(vectors@[rk]@),
                        )
                    } else {
                        spec_doc_view(batch.docs@[j]) == v
                    }
                }),
        decreases old_docs.len() - i,
    {
        let pending = match &batch.docs[i].vector {
            Some(_) => false,
            None => true,
        };
        if pending && next < vectors.len() {
            let d = &batch.docs[i];
            let file = d.file.clone();
            let function = d.function.clone();
            let body: Option<String> = match &d.body {
                Some(b) => Some(b.clone()),
                None => None,
            };
            let mut words: Vec<u32> = Vec::new();
            let src = &vectors[next];
            let mut w: usize = 0;
            while w < src.len()
                invariant
                    0 <= w <= src@.len(),
                    words@ == src@.take(w as int),
                decreases src@.len() - w,
            {
                words.push(src[w]);
                proof {
                    assert(words@ =~= src@.take(w + 1));
                }
                w = w + 1;
            }
            proof {
                assert(src@.take(src@.len() as int) =~= src@);
            }
            batch.docs.set(i, DocRecord { file, function, body, vector: Some(words) });
        }
        if pending {
            next = next + 1;
        }
        i = i + 1;
    }
}

/// The cache pairs of one slot: one (name, vector) pair per embedded
/// candidate of the slot's range, in order.
pub open spec fn spec_slot_pairs(docs: Seq<DocRecord>, start: int, count: int) -> Seq<
    (Seq<char>, Seq<u32>),
>
    decreases count,
{
    if count <= 0 {
        Seq::empty()
    } else {
        let rest = spec_slot_pairs(docs, start, count - 1);
        let d = docs[start + count - 1];
        match d.vector {
            Some(v) => rest.push((d.function@, v@)),
            None => rest,
        }
    }
}

/// Frames one file's refreshed cache value: its current hash and one pair
/// per embedded candidate of its range, encoded for the store. `None` when
/// the slot holds no embedded candidate at all — a file that produced no
/// vector is never written, so a failed embedding pass cannot plant an
/// entry whose vectors were never produced — or when the slot index or
/// range is out of bounds, or a frame would overflow its length prefix.
pub fn entry_value_for_slot(batch: &ConceptBatch, j: usize) -> (r: Option<Vec<u8>>)
    ensures
        ({
            if j < batch.files@.len() && batch.files@[j as int].start + batch.files@[
                j as int].count <= batch.docs@.len() {
                let rep = (
                    batch.files@[j as int].hash@,
                    spec_slot_pairs(
                        batch.docs@,
                        batch.files@[j as int].start as int,
                        batch.files@[j as int].count as int,
                    ),
                );
                if rep.1.len() == 0 {
                    r is None
                } else {
                    match r {
                        Some(b) => b@ == spec_encode(rep) && spec_rep_wf(rep),
                        None => !spec_rep_wf(rep),
                    }
                }
            } else {
                r is None
            }
        }),
{
    if j >= batch.files.len() {
        return None;
    }
    let start = batch.files[j].start;
    let count = batch.files[j].count;
    let n = batch.docs.len();
    if start > n || count > n - start {
        return None;
    }
    let mut pairs: Vec<(String, Vec<u32>)> = Vec::new();
    let mut k: usize = 0;
    while k < count
        invariant
            n == batch.docs@.len(),
            start + count <= n,
            0 <= k <= count,
            pairs.deep_view() =~~= spec_slot_pairs(batch.docs@, start as int, k as int),
        decreases count - k,
    {
        let d = &batch.docs[start + k];
        match &d.vector {
            Some(v) => {
                let ghost before = pairs.deep_view();
                let mut words: Vec<u32> = Vec::new();
                let mut w: usize = 0;
                while w < v.len()
                    invariant
                        0 <= w <= v@.len(),
                        words@ == v@.take(w as int),
                    decreases v@.len() - w,
                {
                    words.push(v[w]);
                    proof {
                        assert(words@ =~= v@.take(w + 1));
                    }
                    w = w + 1;
                }
                proof {
                    assert(v@.take(v@.len() as int) =~= v@);
                }
                pairs.push((d.function.clone(), words));
                proof {
                    assert(pairs.deep_view() =~~= before.push(
                        pairs@[pairs@.len() - 1].deep_view(),
                    ));
                }
            },
            None => {},
        }
        proof {
            assert(pairs.deep_view() =~~= spec_slot_pairs(batch.docs@, start as int, k + 1));
        }
        k = k + 1;
    }
    if pairs.len() == 0 {
        return None;
    }
    let entry = CachedFileEmbeddings {
        file_content_hash: batch.files[j].hash.clone(),
        function_embeddings: pairs,
    };
    encode_entry(&entry)
}

/// The cache value framed for a slot covers every embedded candidate of
/// its range: looking the candidate's function name up in the slot's pairs
/// finds a vector. With the codec round-trip law and a matching content
/// hash, a later run that reads this value back reuses a vector for each
/// of these functions.
pub proof fn lemma_slot_pairs_cover(docs: Seq<DocRecord>, start: int, count: int, i: int)
    requires
        0 <= start,
        start <= i < start + count,
        start + count <= docs.len(),
        docs[i].vector is Some,
    ensures
        spec_map_find(spec_slot_pairs(docs, start, count), docs[i].function@) is Some,
    decreases count,
{
    let pairs = spec_slot_pairs(docs, start, count);
    let last = docs[start + count - 1];
    if i == start + count - 1 {
        assert(pairs.last() == (last.function@, last.vector->Some_0@));
    } else {
        lemma_slot_pairs_cover(docs, start, count - 1, i);
        match last.vector {
            Some(v) => {
                if last.function@ == docs[i].function@ {
                } else {
                    assert(pairs.drop_last() =~= spec_slot_pairs(docs, start, count - 1));
                }
            },
            None => {},
        }
    }
}

/// The warm-cache law across runs: frame a fully-embedded slot's cache
/// value, hand those very bytes back for a file whose content hash is
/// unchanged, and every function of the slot resolves to a stored vector —
/// the next run reuses the cache completely and embeds nothing anew.
pub proof fn lemma_second_run_reuses_written_entry(
    docs: Seq<DocRecord>,
    start: int,
    count: int,
    i: int,
    hash: Seq<char>,
)
    requires
        0 <= start,
        start <= i < start + count,
        start + count <= docs.len(),
        docs[i].vector is Some,
        spec_rep_wf((hash, spec_slot_pairs(docs, start, count))),
    ensures
        spec_doc_vector(
            spec_decode(spec_encode((hash, spec_slot_pairs(docs, start, count)))),
            hash,
            docs[i].function@,
        ) is Some,
{
    let rep = (hash, spec_slot_pairs(docs, start, count));
    crate::codec::lemma_codec_roundtrip(rep);
    lemma_slot_pairs_cover(docs, start, count, i);
}

/// A batch whose candidates all carry vectors asks the embedding model for
/// nothing: the second run over an unchanged tree embeds no function anew.
pub proof fn lemma_no_pending_when_all_embedded(docs: Seq<DocRecord>)
    requires
        forall|i: int| 0 <= i < docs.len() ==> (#[trigger] docs[i]).vector is Some,
    ensures
        spec_pending_texts(docs).len() == 0,
    decreases docs.len(),
{
    if docs.len() > 0 {
        assert(forall|i: int|
            0 <= i < docs.drop_last().len() ==> (#[trigger] docs.drop_last()[i]).vector is Some);
        lemma_no_pending_when_all_embedded(docs.drop_last());
    }
}

/// The embedded candidates of the batch, in batch order, with their
/// vectors.
pub open spec fn spec_embedded(docs: Seq<DocRecord>) -> Seq<
    (Seq<char>, Seq<char>, Option<Seq<char>>, Seq<u32>),
>
    decreases docs.len(),
{
    if docs.len() == 0 {
        Seq::empty()
    } else {
        let rest = spec_embedded(docs.drop_last());
        let d = docs.last();
        match d.vector {
            Some(v) => rest.push(
                (
                    d.file@,
                    d.function@,
                    match d.body {
                        Some(b) => Some(b@),
                        None => None,
                    },
                    v@,
                ),
            ),
            None => rest,
        }
    }
}

/// Copies the embedded candidates out of the batch, in batch order: the
/// candidate set of the similarity ranking. Candidates the embedding call
/// never covered are left out.
pub fn embedded_docs(batch: &ConceptBatch) -> (r: Vec<DocRecord>)
    ensures
        r@.len() == spec_embedded(batch.docs@).len(),
        forall|k: int|
            0 <= k < r@.len() ==> ({
                let e = spec_embedded(batch.docs@)[k];
                spec_doc_view(#[trigger] r@[k]) == (e.0, e.1, e.2, Some(e.3))
            }),
{
    let mut r: Vec<DocRecord> = Vec::new();
    let mut i: usize = 0;
    while i < batch.docs.len()
        invariant
            0 <= i <= batch.docs@.len(),
            r@.len() == spec_embedded(batch.docs@.take(i as int)).len(),
            forall|k: int|
                0 <= k < r@.len() ==> ({
                    let e = spec_embedded(batch.docs@.take(i as int))[k];
                    spec_doc_view(#[trigger] r@[k]) == (e.0, e.1, e.2, Some(e.3))
                }),
        decreases batch.docs@.len() - i,
    {
        let ghost pref = batch.docs@.take(i + 1);
        proof {
            assert(pref.drop_last() =~= batch.docs@.take(i as int));
            assert(pref.last() == batch.docs@[i as int]);
        }
        let d = &batch.docs[i];
        match &d.vector {
            Some(v) => {
                let mut words: Vec<u32> = Vec::new();
                let mut w: usize = 0;
                while w < v.len()
                    invariant
                        0 <= w <= v@.len(),
                        words@ == v@.take(w as int),
                    decreases v@.len() - w,
                {
                    words.push(v[w]);
                    proof {
                        assert(words@ =~= v@.take(w + 1));
                    }
                    w = w + 1;
                }
                proof {
                    assert(v@.take(v@.len() as int) =~= v@);
                }
                let body: Option<String> = match &d.body {
                    Some(b) => Some(b.clone()),
                    None => None,
                };
                r.push(
                    DocRecord {
                        file: d.file.clone(),
                        function: d.function.clone(),
                        body,
                        vector: Some(words),
                    },
                );
            },
            None => {},
        }
        i = i + 1;
    }
    proof {
        assert(batch.docs@.take(batch.docs@.len() as int) =~= batch.docs@);
    }
    r
}

/// `order` lists the candidate positions of the answer `items`, and is a
/// correct ranking: strictly ordered by descending key with equal keys in
/// candidate order, nothing better left out, and each answer carrying the
/// texts and key of its candidate.
pub open spec fn spec_items_ranked(
    docs: Seq<DocRecord>,
    scores: Seq<i64>,
    order: Seq<usize>,
    items: Seq<ConceptSearchResultItem>,
) -> bool {
    &&& order.len() == items.len()
    &&& spec_ranked(scores, order)
    &&& forall|k: int, j: usize|
        0 <= k < order.len() && (j as int) < scores.len() && !order.contains(j)
            ==> spec_precedes(scores, order[k] as int, j as int)
    &&& forall|k: int|
        0 <= k < order.len() ==> ({
            let d = spec_doc_view(docs[order[k] as int]);
            #[trigger] items[k].file@ == d.0 && items[k].function@ == d.1 && (match items[k].body {
                Some(b) => d.2 matches Some(db) && b@ == db,
                None => d.2 is None,
            }) && items[k].similarity == scores[order[k] as int]
        })
}

/// Ranks the embedded candidates by the host's similarity keys — one key
/// per candidate, in candidate order — and assembles the top answers:
/// descending key, equal keys in candidate order, truncated to `top_n`,
/// and nothing better left out.
pub fn ranked_results(docs: &Vec<DocRecord>, scores: &Vec<i64>, top_n: usize) -> (r: Vec<
    ConceptSearchResultItem,
>)
    requires
        scores@.len() == docs@.len(),
    ensures
        r@.len() == if top_n <= docs@.len() { top_n as int } else { docs@.len() as int },
        exists|order: Seq<usize>| #[trigger] spec_items_ranked(docs@, scores@, order, r@),
{
    let order = rank_top(scores, top_n);
    let mut r: Vec<ConceptSearchResultItem> = Vec::new();
    let mut k: usize = 0;
    while k < order.len()
        invariant
            spec_ranked(scores@, order@),
            scores@.len() == docs@.len(),
            0 <= k <= order@.len(),
            r@.len() == k,
            forall|q: int|
                0 <= q < k ==> ({
                    let d = spec_doc_view(docs@[order@[q] as int]);
                    #[trigger] r@[q].file@ == d.0 && r@[q].function@ == d.1 && (match r@[q].body {
                        Some(b) => d.2 matches Some(db) && b@ == db,
                        None => d.2 is None,
                    }) && r@[q].similarity == scores@[order@[q] as int]
                }),
        decreases order@.len() - k,
    {
        let idx = order[k];
        let d = &docs[idx];
        let body: Option<String> = match &d.body {
            Some(b) => Some(b.clone()),
            None => None,
        };
        r.push(
            ConceptSearchResultItem {
                file: d.file.clone(),
                function: d.function.clone(),
                similarity: scores[idx],
                body,
            },
        );
        k = k + 1;
    }
    proof {
        assert(spec_items_ranked(docs@, scores@, order@, r@));
    }
    r
}

} // verus!
