//! The incremental cache: one persisted entry per file, keyed by the file's
//! relative path, holding the file's content hash and one embedding vector
//! per function name. A lookup is usable only while the stored hash equals
//! the hash of the file's current content; any mismatch re-embeds the whole
//! file. The store itself (sled) is trusted only to hand bytes back; every
//! decision over those bytes is verified.

use vstd::prelude::*;
use vstd::string::StrSliceExecFns;
use vstd::utf8::encode_utf8;
use crate::structs::FunctionInfo;
use crate::text::str_eq;

verus! {

/// One file's persisted cache value: the hash of the content the vectors
/// were computed from, and one vector per function name. Vector components
/// are opaque 32-bit words; the host owns the mapping between its
/// floating-point components and these words.
pub struct CachedFileEmbeddings {
    pub file_content_hash: String,
    pub function_embeddings: Vec<(String, Vec<u32>)>,
}

/// The vector stored under a function name: the last pair with that name
/// wins, mirroring map-insert overwrite order.
pub open spec fn spec_map_find(entries: Seq<(Seq<char>, Seq<u32>)>, name: Seq<char>) -> Option<
    Seq<u32>,
>
    decreases entries.len(),
{
    if entries.len() == 0 {
        None
    } else if entries.last().0 == name {
        Some(entries.last().1)
    } else {
        spec_map_find(entries.drop_last(), name)
    }
}

/// Looks a function name up in an entry's map.
pub fn map_find(entries: &Vec<(String, Vec<u32>)>, name: &str) -> (r: Option<Vec<u32>>)
    ensures
        match spec_map_find(entries.deep_view(), name@) {
            Some(v) => r matches Some(w) && w@ == v,
            None => r is None,
        },
{
    let ghost dv = entries.deep_view();
    let mut i: usize = entries.len();
    proof {
        assert(dv.take(entries@.len() as int) =~= dv);
    }
    while i > 0
        invariant
            dv == entries.deep_view(),
            0 <= i <= entries@.len(),
            spec_map_find(dv, name@) == spec_map_find(dv.take(i as int), name@),
        decreases i,
    {
        i = i - 1;
        let ghost pref = dv.take(i + 1);
        proof {
            assert(pref.last() == dv[i as int]);
            assert(pref.drop_last() =~= dv.take(i as int));
            assert(dv[i as int] == entries@[i as int].deep_view());
        }
        if str_eq(entries[i].0.as_str(), name) {
            let mut copy: Vec<u32> = Vec::new();
            let words = &entries[i].1;
            let mut j: usize = 0;
            while j < words.len()
                invariant
                    0 <= j <= words@.len(),
                    copy@ == words@.take(j as int),
                decreases words@.len() - j,
            {
                copy.push(words[j]);
                proof {
                    assert(copy@ =~= words@.take(j + 1));
                }
                j = j + 1;
            }
            proof {
                assert(words@.take(words@.len() as int) =~= words@);
            }
            return Some(copy);
        }
    }
    None
}

/// Inserts or overwrites one name's vector, as a map insert would: after
/// the put, the name maps to the new vector and every other name maps to
/// what it mapped to before.
pub fn map_put(entries: &mut Vec<(String, Vec<u32>)>, name: String, v: Vec<u32>)
    ensures
        spec_map_find(final (entries).deep_view(), name@) == Some(v@),
        forall|other: Seq<char>|
            other != name@ ==> #[trigger] spec_map_find(final (entries).deep_view(), other)
                == spec_map_find(old(entries).deep_view(), other),
{
    let ghost old_dv = entries.deep_view();
    entries.push((name, v));
    proof {
        let dv = entries.deep_view();
        assert(dv.len() == old_dv.len() + 1);
        assert(dv.last() == entries@[entries@.len() - 1].deep_view());
        assert(dv.drop_last() =~~= old_dv);
    }
}

/// A fresh entry for one file at one content hash, with no vectors yet.
pub fn new_cache_entry(hash: String) -> (r: CachedFileEmbeddings)
    ensures
        r.file_content_hash@ == hash@,
        r.function_embeddings.deep_view() == Seq::<(Seq<char>, Seq<u32>)>::empty(),
{
    let r = CachedFileEmbeddings { file_content_hash: hash, function_embeddings: Vec::new() };
    proof {
        assert(r.function_embeddings.deep_view() =~= Seq::<(Seq<char>, Seq<u32>)>::empty());
    }
    r
}

/// A cache hit is usable only while its stored hash equals the hash of the
/// file's current content.
pub open spec fn spec_cache_valid(hash: Seq<char>, current_hash: Seq<char>) -> bool {
    hash == current_hash
}

/// The functions of a file whose vectors a valid entry already holds, as
/// (function index, vector) in function order.
pub open spec fn spec_reused(
    fns: Seq<FunctionInfo>,
    entries: Seq<(Seq<char>, Seq<u32>)>,
) -> Seq<(int, Seq<u32>)>
    decreases fns.len(),
{
    if fns.len() == 0 {
        Seq::empty()
    } else {
        let rest = spec_reused(fns.drop_last(), entries);
        match spec_map_find(entries, fns.last().name@) {
            Some(v) => rest.push((fns.len() - 1, v)),
            None => rest,
        }
    }
}

/// The functions of a file a valid entry holds no vector for, as function
/// indices in function order.
pub open spec fn spec_missing(fns: Seq<FunctionInfo>, entries: Seq<(Seq<char>, Seq<u32>)>) -> Seq<
    int,
>
    decreases fns.len(),
{
    if fns.len() == 0 {
        Seq::empty()
    } else {
        let rest = spec_missing(fns.drop_last(), entries);
        match spec_map_find(entries, fns.last().name@) {
            Some(v) => rest,
            None => rest.push(fns.len() - 1),
        }
    }
}

/// The per-file reconciliation outcome: which functions reuse a cached
/// vector, and which must be embedded.
pub struct FileReconcile {
    pub reused: Vec<(usize, Vec<u32>)>,
    pub to_embed: Vec<usize>,
}

/// Reconciles one file's functions against its cache lookup.
///
/// With no usable entry — a miss, an undecodable value, or a stored hash
/// other than the current content hash — nothing is reused and every
/// function is queued for embedding, in order. With a usable entry, each
/// function whose name the entry's map holds reuses the stored vector, and
/// each function absent from the map is queued, both in function order.
pub fn reconcile_file(
    fns: &Vec<FunctionInfo>,
    entry: Option<&CachedFileEmbeddings>,
    current_hash: &str,
) -> (r: FileReconcile)
    ensures
        ({
            let usable = entry matches Some(e) && spec_cache_valid(
                e.file_content_hash@,
                current_hash@,
            );
            if usable {
                let es = entry->Some_0.function_embeddings.deep_view();
                &&& r.reused@.len() == spec_reused(fns@, es).len()
                &&& forall|k: int|
                    0 <= k < r.reused@.len() ==> (#[trigger] r.reused@[k]).0
                        == spec_reused(fns@, es)[k].0 && r.reused@[k].1@ == spec_reused(
                        fns@,
                        es,
                    )[k].1
                &&& r.to_embed@.len() == spec_missing(fns@, es).len()
                &&& forall|k: int|
                    0 <= k < r.to_embed@.len() ==> #[trigger] r.to_embed@[k] == spec_missing(
                        fns@,
                        es,
                    )[k]
            } else {
                &&& r.reused@.len() == 0
                &&& r.to_embed@.len() == fns@.len()
                &&& forall|k: int| 0 <= k < fns@.len() ==> #[trigger] r.to_embed@[k] == k
            }
        }),
{
    let usable = match entry {
        Some(e) => str_eq(e.file_content_hash.as_str(), current_hash),
        None => false,
    };
    let mut reused: Vec<(usize, Vec<u32>)> = Vec::new();
    let mut to_embed: Vec<usize> = Vec::new();
    if usable {
        let e = match entry {
            Some(e) => e,
            None => {
                return FileReconcile { reused, to_embed };  // unreachable: usable implies Some
            },
        };
        let ghost es = e.function_embeddings.deep_view();
        let mut i: usize = 0;
        while i < fns.len()
            invariant
                es == e.function_embeddings.deep_view(),
                0 <= i <= fns@.len(),
                reused@.len() == spec_reused(fns@.take(i as int), es).len(),
                forall|k: int|
                    0 <= k < reused@.len() ==> (#[trigger] reused@[k]).0 == spec_reused(
                        fns@.take(i as int),
                        es,
                    )[k].0 && reused@[k].1@ == spec_reused(fns@.take(i as int), es)[k].1,
                to_embed@.len() == spec_missing(fns@.take(i as int), es).len(),
                forall|k: int|
                    0 <= k < to_embed@.len() ==> #[trigger] to_embed@[k] == spec_missing(
                        fns@.take(i as int),
                        es,
                    )[k],
            decreases fns@.len() - i,
        {
            let ghost pref = fns@.take(i + 1);
            proof {
                assert(pref.drop_last() =~= fns@.take(i as int));
                assert(pref.last() == fns@[i as int]);
            }
            match map_find(&e.function_embeddings, fns[i].name.as_str()) {
                Some(v) => {
                    reused.push((i, v));
                },
                None => {
                    to_embed.push(i);
                },
            }
            i = i + 1;
        }
        proof {
            assert(fns@.take(fns@.len() as int) =~= fns@);
        }
        FileReconcile { reused, to_embed }
    } else {
        let mut i: usize = 0;
        while i < fns.len()
            invariant
                0 <= i <= fns@.len(),
                to_embed@.len() == i,
                forall|k: int| 0 <= k < i ==> #[trigger] to_embed@[k] == k,
            decreases fns@.len() - i,
        {
            to_embed.push(i);
            i = i + 1;
        }
        FileReconcile { reused, to_embed }
    }
}

/// The warm-cache law: when a file's entry is usable and its map holds a
/// vector for every one of the file's function names, reconciliation
/// queues nothing for embedding and reuses one vector per function — a
/// second run over an unchanged tree embeds no function anew.
pub proof fn lemma_warm_cache_reembeds_nothing(
    fns: Seq<FunctionInfo>,
    entries: Seq<(Seq<char>, Seq<u32>)>,
)
    requires
        forall|k: int| 0 <= k < fns.len() ==> spec_map_find(entries, (#[trigger] fns[k]).name@) is Some,
    ensures
        spec_missing(fns, entries).len() == 0,
        spec_reused(fns, entries).len() == fns.len(),
    decreases fns.len(),
{
    if fns.len() > 0 {
        assert(forall|k: int|
            0 <= k < fns.drop_last().len() ==> spec_map_find(
                entries,
                (#[trigger] fns.drop_last()[k]).name@,
            ) is Some);
        lemma_warm_cache_reembeds_nothing(fns.drop_last(), entries);
    }
}

/// What the SHA-256 digest of a byte sequence reads as lowercase hex text.
pub uninterp spec fn sha256_hex_of(bytes: Seq<u8>) -> Seq<char>;

/// Relies on `sha2::Sha256` and its hex formatting: the digest depends on
/// the hashed bytes alone.
#[verifier::external_body]
pub fn sha256_hex(content: &str) -> (r: String)
    ensures
        r@ == sha256_hex_of(encode_utf8(content@)),
{
    let mut hasher = <sha2::Sha256 as sha2::Digest>::new();
    sha2::Digest::update(&mut hasher, content.as_bytes());
    format!("{:x}", sha2::Digest::finalize(hasher))
}

#[verifier::external_type_specification]
#[verifier::external_body]
pub struct ExSledDb(sled::Db);

/// Relies on `sled::Tree::get` (through `Db`'s deref): whatever bytes the
/// store holds under the key right now, or nothing on a miss or store
/// error. No promise relates the result to earlier calls; the caller
/// validates whatever comes back.
#[verifier::external_body]
pub fn store_get(db: &sled::Db, key: &str) -> (r: Option<Vec<u8>>) {
    db.get(key.as_bytes()).ok().flatten().map(|v| v.to_vec())
}

/// Relies on `sled::Tree::insert` (through `Db`'s deref): reports whether
/// the upsert was accepted; durability comes only with a later flush.
#[verifier::external_body]
pub fn store_put(db: &sled::Db, key: &str, value: Vec<u8>) -> (r: bool) {
    db.insert(key.as_bytes(), value).is_ok()
}

/// Relies on `sled::Tree::flush` (through `Db`'s deref): reports whether
/// buffered writes reached durable storage.
#[verifier::external_body]
pub fn store_flush(db: &sled::Db) -> (r: bool) {
    db.flush().is_ok()
}

} // verus!
