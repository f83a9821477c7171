//! The cache entry wire format: a verified binary framing of one file's
//! cache entry — its content hash and its function-name-to-vector map — as
//! the byte value stored under the file's key. Little-endian 32-bit length
//! prefixes frame every field; decoding validates every frame and accepts
//! exactly the encodings, proved by the round-trip law.

use vstd::prelude::*;
use vstd::string::StrSliceExecFns;
use vstd::utf8::{encode_utf8, valid_utf8, decode_utf8, encode_utf8_decode_utf8, encode_utf8_valid_utf8};
use crate::text::{bytes_sub, string_from_bytes};
use crate::cache::CachedFileEmbeddings;

verus! {

/// The mathematical content of a cache entry: the hash text and the
/// name-to-vector pairs.
pub type EntryRep = (Seq<char>, Seq<(Seq<char>, Seq<u32>)>);

/// The content of an exec cache entry.
pub open spec fn spec_entry_rep(e: CachedFileEmbeddings) -> EntryRep {
    (e.file_content_hash@, e.function_embeddings.deep_view())
}

/// Four little-endian bytes of one 32-bit word.
pub open spec fn spec_u32_le(x: u32) -> Seq<u8> {
    seq![
        (x & 0xff) as u8,
        ((x >> 8) & 0xff) as u8,
        ((x >> 16) & 0xff) as u8,
        ((x >> 24) & 0xff) as u8,
    ]
}

/// A length-prefixed text: the byte length of its UTF-8 encoding, then the
/// encoding itself.
pub open spec fn spec_text_enc(s: Seq<char>) -> Seq<u8> {
    spec_u32_le(encode_utf8(s).len() as u32) + encode_utf8(s)
}

/// The words of one vector, each as four little-endian bytes.
pub open spec fn spec_words_enc(v: Seq<u32>) -> Seq<u8>
    decreases v.len(),
{
    if v.len() == 0 {
        Seq::empty()
    } else {
        spec_words_enc(v.drop_last()) + spec_u32_le(v.last())
    }
}

/// The name-to-vector pairs, each as a length-prefixed name, a word count,
/// and the words.
pub open spec fn spec_entries_enc(es: Seq<(Seq<char>, Seq<u32>)>) -> Seq<u8>
    decreases es.len(),
{
    if es.len() == 0 {
        Seq::empty()
    } else {
        spec_entries_enc(es.drop_last()) + spec_text_enc(es.last().0) + spec_u32_le(
            es.last().1.len() as u32,
        ) + spec_words_enc(es.last().1)
    }
}

/// The whole entry: hash text, pair count, pairs.
pub open spec fn spec_encode(rep: EntryRep) -> Seq<u8> {
    spec_text_enc(rep.0) + spec_u32_le(rep.1.len() as u32) + spec_entries_enc(rep.1)
}

/// The frame lengths all fit their 32-bit prefixes.
pub open spec fn spec_rep_wf(rep: EntryRep) -> bool {
    &&& encode_utf8(rep.0).len() <= u32::MAX
    &&& rep.1.len() <= u32::MAX
    &&& forall|k: int|
        0 <= k < rep.1.len() ==> encode_utf8(#[trigger] rep.1[k].0).len() <= u32::MAX
            && rep.1[k].1.len() <= u32::MAX
}

/// One 32-bit word off the front of the bytes.
pub open spec fn spec_parse_u32(b: Seq<u8>) -> Option<(u32, Seq<u8>)> {
    if b.len() >= 4 {
        Some(
            (
                (b[0] as u32) | ((b[1] as u32) << 8) | ((b[2] as u32) << 16) | (
                (b[3] as u32) << 24),
                b.skip(4),
            ),
        )
    } else {
        None
    }
}

/// One length-prefixed text off the front of the bytes; the framed bytes
/// must be valid UTF-8.
pub open spec fn spec_parse_text(b: Seq<u8>) -> Option<(Seq<char>, Seq<u8>)> {
    match spec_parse_u32(b) {
        Some((n, rest)) => if rest.len() >= n && valid_utf8(rest.take(n as int)) {
            Some((decode_utf8(rest.take(n as int)), rest.skip(n as int)))
        } else {
            None
        },
        None => None,
    }
}

/// `count` words off the front of the bytes.
pub open spec fn spec_parse_words(b: Seq<u8>, count: int) -> Option<(Seq<u32>, Seq<u8>)>
    decreases count,
{
    if count <= 0 {
        Some((Seq::empty(), b))
    } else {
        match spec_parse_u32(b) {
            Some((w, rest)) => match spec_parse_words(rest, count - 1) {
                Some((ws, rest2)) => Some((seq![w] + ws, rest2)),
                None => None,
            },
            None => None,
        }
    }
}

/// `count` name-to-vector pairs off the front of the bytes.
pub open spec fn spec_parse_entries(b: Seq<u8>, count: int) -> Option<
    (Seq<(Seq<char>, Seq<u32>)>, Seq<u8>),
>
    decreases count,
{
    if count <= 0 {
        Some((Seq::empty(), b))
    } else {
        match spec_parse_text(b) {
            Some((name, rest)) => match spec_parse_u32(rest) {
                Some((wc, rest2)) => match spec_parse_words(rest2, wc as int) {
                    Some((ws, rest3)) => match spec_parse_entries(rest3, count - 1) {
                        Some((es, rest4)) => Some((seq![(name, ws)] + es, rest4)),
                        None => None,
                    },
                    None => None,
                },
                None => None,
            },
            None => None,
        }
    }
}

/// The decoded entry: every frame parsed and nothing left over.
pub open spec fn spec_decode(b: Seq<u8>) -> Option<EntryRep> {
    match spec_parse_text(b) {
        Some((hash, rest)) => match spec_parse_u32(rest) {
            Some((count, rest2)) => match spec_parse_entries(rest2, count as int) {
                Some((es, rest3)) => if rest3.len() == 0 {
                    Some((hash, es))
                } else {
                    None
                },
                None => None,
            },
            None => None,
        },
        None => None,
    }
}

proof fn lemma_parse_u32_rt(x: u32, rest: Seq<u8>)
    ensures
        spec_parse_u32(spec_u32_le(x) + rest) == Some((x, rest)),
{
    let b = spec_u32_le(x) + rest;
    assert(b.len() >= 4);
    let b0 = b[0];
    let b1 = b[1];
    let b2 = b[2];
    let b3 = b[3];
    assert(b0 == (x & 0xff) as u8 && b1 == ((x >> 8) & 0xff) as u8 && b2 == ((x >> 16)
        & 0xff) as u8 && b3 == ((x >> 24) & 0xff) as u8);
    assert((((x & 0xff) as u8) as u32) | ((((x >> 8) & 0xff) as u8) as u32) << 8 | ((((x >> 16)
        & 0xff) as u8) as u32) << 16 | ((((x >> 24) & 0xff) as u8) as u32) << 24 == x)
        by (bit_vector);
    assert(b.skip(4) =~= rest);
}

proof fn lemma_parse_text_rt(s: Seq<char>, rest: Seq<u8>)
    requires
        encode_utf8(s).len() <= u32::MAX,
    ensures
        spec_parse_text(spec_text_enc(s) + rest) == Some((s, rest)),
{
    let enc = encode_utf8(s);
    let n = enc.len() as u32;
    let b = spec_text_enc(s) + rest;
    assert(b =~= spec_u32_le(n) + (enc + rest));
    lemma_parse_u32_rt(n, enc + rest);
    assert((enc + rest).take(n as int) =~= enc);
    assert((enc + rest).skip(n as int) =~= rest);
    encode_utf8_valid_utf8(s);
    encode_utf8_decode_utf8(s);
}

proof fn lemma_words_enc_first(v: Seq<u32>)
    requires
        v.len() > 0,
    ensures
        spec_words_enc(v) == spec_u32_le(v[0]) + spec_words_enc(v.drop_first()),
    decreases v.len(),
{
    if v.len() == 1 {
        assert(v.drop_last() =~= Seq::<u32>::empty());
        assert(v.drop_first() =~= Seq::<u32>::empty());
        assert(spec_words_enc(v) =~= spec_u32_le(v[0]) + spec_words_enc(v.drop_first()));
    } else {
        let w = v.drop_last();
        lemma_words_enc_first(w);
        assert(w.drop_first() =~= v.drop_first().drop_last());
        assert(v.drop_first().last() == v.last());
        assert(spec_words_enc(v.drop_first()) == spec_words_enc(v.drop_first().drop_last())
            + spec_u32_le(v.last()));
        assert(spec_words_enc(v) =~= spec_u32_le(v[0]) + spec_words_enc(v.drop_first()));
    }
}

proof fn lemma_parse_words_rt(v: Seq<u32>, rest: Seq<u8>)
    ensures
        spec_parse_words(spec_words_enc(v) + rest, v.len() as int) == Some((v, rest)),
    decreases v.len(),
{
    if v.len() == 0 {
        assert(spec_words_enc(v) + rest =~= rest);
    } else {
        lemma_words_enc_first(v);
        let tail = v.drop_first();
        assert(spec_words_enc(v) + rest =~= spec_u32_le(v[0]) + (spec_words_enc(tail) + rest));
        lemma_parse_u32_rt(v[0], spec_words_enc(tail) + rest);
        lemma_parse_words_rt(tail, rest);
        assert(seq![v[0]] + tail =~= v);
    }
}

proof fn lemma_entries_enc_first(es: Seq<(Seq<char>, Seq<u32>)>)
    requires
        es.len() > 0,
    ensures
        spec_entries_enc(es) == spec_text_enc(es[0].0) + spec_u32_le(es[0].1.len() as u32)
            + spec_words_enc(es[0].1) + spec_entries_enc(es.drop_first()),
    decreases es.len(),
{
    if es.len() == 1 {
        assert(es.drop_last() =~= Seq::<(Seq<char>, Seq<u32>)>::empty());
        assert(es.drop_first() =~= Seq::<(Seq<char>, Seq<u32>)>::empty());
        assert(spec_entries_enc(es) =~= spec_text_enc(es[0].0) + spec_u32_le(
            es[0].1.len() as u32,
        ) + spec_words_enc(es[0].1) + spec_entries_enc(es.drop_first()));
    } else {
        let w = es.drop_last();
        lemma_entries_enc_first(w);
        assert(w.drop_first() =~= es.drop_first().drop_last());
        assert(es.drop_first().last() == es.last());
        assert(spec_entries_enc(es.drop_first()) == spec_entries_enc(es.drop_first().drop_last())
            + spec_text_enc(es.last().0) + spec_u32_le(es.last().1.len() as u32) + spec_words_enc(
            es.last().1,
        ));
        assert(spec_entries_enc(es) =~= spec_text_enc(es[0].0) + spec_u32_le(es[0].1.len() as u32)
            + spec_words_enc(es[0].1) + spec_entries_enc(es.drop_first()));
    }
}

#[verifier::rlimit(60)]
proof fn lemma_parse_entries_rt(es: Seq<(Seq<char>, Seq<u32>)>, rest: Seq<u8>)
    requires
        forall|k: int|
            0 <= k < es.len() ==> encode_utf8(#[trigger] es[k].0).len() <= u32::MAX
                && es[k].1.len() <= u32::MAX,
    ensures
        spec_parse_entries(spec_entries_enc(es) + rest, es.len() as int) == Some((es, rest)),
    decreases es.len(),
{
    if es.len() == 0 {
        assert(spec_entries_enc(es) + rest =~= rest);
    } else {
        lemma_entries_enc_first(es);
        let tail = es.drop_first();
        let name = es[0].0;
        let v = es[0].1;
        let after_name = spec_u32_le(v.len() as u32) + spec_words_enc(v) + spec_entries_enc(tail)
            + rest;
        assert(spec_entries_enc(es) + rest =~= spec_text_enc(name) + after_name);
        lemma_parse_text_rt(name, after_name);
        let after_count = spec_words_enc(v) + spec_entries_enc(tail) + rest;
        assert(after_name =~= spec_u32_le(v.len() as u32) + after_count);
        lemma_parse_u32_rt(v.len() as u32, after_count);
        let after_words = spec_entries_enc(tail) + rest;
        assert(after_count =~= spec_words_enc(v) + after_words);
        lemma_parse_words_rt(v, after_words);
        assert(forall|k: int|
            0 <= k < tail.len() ==> encode_utf8(#[trigger] tail[k].0).len() <= u32::MAX
                && tail[k].1.len() <= u32::MAX);
        lemma_parse_entries_rt(tail, rest);
        assert(seq![(name, v)] + tail =~= es);
    }
}

/// The round-trip law of the cache entry format: decoding an encoding gives
/// back exactly what was encoded, for every entry whose frames fit their
/// 32-bit length prefixes.
pub proof fn lemma_codec_roundtrip(rep: EntryRep)
    requires
        spec_rep_wf(rep),
    ensures
        spec_decode(spec_encode(rep)) == Some(rep),
{
    let b = spec_encode(rep);
    let after_hash = spec_u32_le(rep.1.len() as u32) + spec_entries_enc(rep.1);
    assert(b =~= spec_text_enc(rep.0) + after_hash);
    lemma_parse_text_rt(rep.0, after_hash);
    let after_count = spec_entries_enc(rep.1);
    assert(after_hash =~= spec_u32_le(rep.1.len() as u32) + after_count);
    lemma_parse_u32_rt(rep.1.len() as u32, after_count);
    assert(after_count =~= spec_entries_enc(rep.1) + Seq::<u8>::empty());
    lemma_parse_entries_rt(rep.1, Seq::<u8>::empty());
}

/// Appends the four little-endian bytes of one word.
fn push_u32_le(out: &mut Vec<u8>, x: u32)
    ensures
        final (out)@ == old(out)@ + spec_u32_le(x),
{
    proof {
        assert((x & 0xff) < 256 && ((x >> 8) & 0xff) < 256 && ((x >> 16) & 0xff) < 256 && ((x
            >> 24) & 0xff) < 256) by (bit_vector);
    }
    out.push((x & 0xff) as u8);
    out.push(((x >> 8) & 0xff) as u8);
    out.push(((x >> 16) & 0xff) as u8);
    out.push(((x >> 24) & 0xff) as u8);
    proof {
        assert(final (out)@ =~= old(out)@ + spec_u32_le(x));
    }
}

/// Appends one length-prefixed text. `None` when the text's encoding does
/// not fit a 32-bit length prefix.
fn push_text(out: &mut Vec<u8>, s: &str) -> (ok: bool)
    ensures
        ok ==> final (out)@ == old(out)@ + spec_text_enc(s@) && encode_utf8(s@).len() <= u32::MAX,
        !ok ==> final (out)@ == old(out)@ && encode_utf8(s@).len() > u32::MAX,
{
    let bytes = s.as_bytes_vec();
    if bytes.len() > u32::MAX as usize {
        return false;
    }
    let ghost before = out@;
    push_u32_le(out, bytes.len() as u32);
    let mut i: usize = 0;
    while i < bytes.len()
        invariant
            bytes@ == encode_utf8(s@),
            bytes@.len() <= u32::MAX,
            0 <= i <= bytes@.len(),
            out@ == before + spec_u32_le(bytes@.len() as u32) + bytes@.take(i as int),
        decreases bytes@.len() - i,
    {
        out.push(bytes[i]);
        proof {
            assert(out@ =~= before + spec_u32_le(bytes@.len() as u32) + bytes@.take(i + 1));
        }
        i = i + 1;
    }
    proof {
        assert(bytes@.take(bytes@.len() as int) =~= bytes@);
        assert(out@ =~= before + spec_text_enc(s@));
    }
    true
}

/// Encodes one cache entry to its byte value. `None` exactly when some
/// frame of the entry does not fit its 32-bit length prefix.
pub fn encode_entry(e: &CachedFileEmbeddings) -> (r: Option<Vec<u8>>)
    ensures
        r matches Some(b) ==> spec_rep_wf(spec_entry_rep(*e)) && b@ == spec_encode(
            spec_entry_rep(*e),
        ),
        r is None ==> !spec_rep_wf(spec_entry_rep(*e)),
{
    let ghost rep = spec_entry_rep(*e);
    let mut out: Vec<u8> = Vec::new();
    if !push_text(&mut out, e.file_content_hash.as_str()) {
        return None;
    }
    if e.function_embeddings.len() > u32::MAX as usize {
        return None;
    }
    push_u32_le(&mut out, e.function_embeddings.len() as u32);
    let ghost head = out@;
    let mut i: usize = 0;
    while i < e.function_embeddings.len()
        invariant
            head == spec_text_enc(rep.0) + spec_u32_le(rep.1.len() as u32),
            rep == spec_entry_rep(*e),
            rep.1.len() <= u32::MAX,
            encode_utf8(rep.0).len() <= u32::MAX,
            0 <= i <= rep.1.len(),
            out@ == head + spec_entries_enc(rep.1.take(i as int)),
            forall|k: int|
                0 <= k < i ==> encode_utf8(#[trigger] rep.1[k].0).len() <= u32::MAX
                    && rep.1[k].1.len() <= u32::MAX,
        decreases rep.1.len() - i,
    {
        let ghost pref = rep.1.take(i + 1);
        proof {
            assert(pref.drop_last() =~= rep.1.take(i as int));
            assert(pref.last() == rep.1[i as int]);
            assert(rep.1[i as int] == e.function_embeddings@[i as int].deep_view());
            assert(rep.1[i as int].0 == e.function_embeddings@[i as int].0@);
            assert(rep.1[i as int].1 =~= e.function_embeddings@[i as int].1@);
        }
        let ghost before_pair = out@;
        if !push_text(&mut out, e.function_embeddings[i].0.as_str()) {
            proof {
                assert(encode_utf8(rep.1[i as int].0).len() > u32::MAX);
                assert(!spec_rep_wf(rep));
            }
            return None;
        }
        let words = &e.function_embeddings[i].1;
        if words.len() > u32::MAX as usize {
            proof {
                assert(rep.1[i as int].1.len() > u32::MAX);
                assert(encode_utf8(rep.1[i as int].0).len() >= 0);
                assert(!spec_rep_wf(rep));
            }
            return None;
        }
        push_u32_le(&mut out, words.len() as u32);
        let ghost before_words = out@;
        let mut j: usize = 0;
        while j < words.len()
            invariant
                0 <= j <= words@.len(),
                out@ == before_words + spec_words_enc(words@.take(j as int)),
            decreases words@.len() - j,
        {
            let ghost wpref = words@.take(j + 1);
            proof {
                assert(wpref.drop_last() =~= words@.take(j as int));
                assert(wpref.last() == words@[j as int]);
            }
            push_u32_le(&mut out, words[j]);
            proof {
                assert(out@ =~= before_words + spec_words_enc(words@.take(j + 1)));
            }
            j = j + 1;
        }
        proof {
            assert(words@.take(words@.len() as int) =~= words@);
            assert(rep.1[i as int].1 == words@);
            assert(spec_words_enc(rep.1[i as int].1) == spec_words_enc(words@));
            assert(spec_entries_enc(pref) == spec_entries_enc(rep.1.take(i as int))
                + spec_text_enc(pref.last().0) + spec_u32_le(pref.last().1.len() as u32)
                + spec_words_enc(pref.last().1));
            assert(out@ =~= head + spec_entries_enc(rep.1.take(i + 1)));
        }
        i = i + 1;
    }
    proof {
        assert(rep.1.take(rep.1.len() as int) =~= rep.1);
    }
    Some(out)
}

/// One word read at a byte position.
fn read_u32(bytes: &Vec<u8>, pos: usize) -> (r: Option<(u32, usize)>)
    requires
        pos <= bytes@.len(),
    ensures
        match spec_parse_u32(bytes@.skip(pos as int)) {
            Some((x, rest)) => r matches Some(p) && p.0 == x && p.1 == pos + 4 && rest == bytes@.skip(
                pos as int + 4,
            ),
            None => r is None,
        },
{
    if bytes.len() - pos < 4 {
        return None;
    }
    let b0 = bytes[pos] as u32;
    let b1 = bytes[pos + 1] as u32;
    let b2 = bytes[pos + 2] as u32;
    let b3 = bytes[pos + 3] as u32;
    let x = b0 | (b1 << 8) | (b2 << 16) | (b3 << 24);
    proof {
        let s = bytes@.skip(pos as int);
        assert(s[0] == bytes@[pos as int] && s[1] == bytes@[pos as int + 1] && s[2] == bytes@[
            pos as int + 2] && s[3] == bytes@[pos as int + 3]);
        assert(s.skip(4) =~= bytes@.skip(pos as int + 4));
    }
    Some((x, pos + 4))
}

/// One length-prefixed text read at a byte position.
fn read_text(bytes: &Vec<u8>, pos: usize) -> (r: Option<(String, usize)>)
    requires
        pos <= bytes@.len(),
    ensures
        match spec_parse_text(bytes@.skip(pos as int)) {
            Some((s, rest)) => r matches Some(p) && p.0@ == s && pos <= p.1 <= bytes@.len() && rest
                == bytes@.skip(p.1 as int),
            None => r is None,
        },
{
    let (n, pos2) = match read_u32(bytes, pos) {
        Some(p) => p,
        None => {
            return None;
        },
    };
    if (bytes.len() - pos2) < (n as usize) {
        return None;
    }
    let sub = bytes_sub(bytes, pos2, pos2 + (n as usize));
    proof {
        assert(bytes@.skip(pos2 as int).take(n as int) =~= sub@);
        assert(bytes@.skip(pos2 as int).skip(n as int) =~= bytes@.skip(pos2 as int + n as int));
    }
    match string_from_bytes(&sub) {
        Some(s) => {
            proof {
                encode_utf8_decode_utf8(s@);
            }
            Some((s, pos2 + (n as usize)))
        },
        None => None,
    }
}

/// `count` words read at a byte position.
fn read_words(bytes: &Vec<u8>, pos: usize, count: u32) -> (r: Option<(Vec<u32>, usize)>)
    requires
        pos <= bytes@.len(),
    ensures
        match spec_parse_words(bytes@.skip(pos as int), count as int) {
            Some((ws, rest)) => r matches Some(p) && p.0@ == ws && pos <= p.1 <= bytes@.len()
                && rest == bytes@.skip(p.1 as int),
            None => r is None,
        },
{
    let mut acc: Vec<u32> = Vec::new();
    let mut cur: usize = pos;
    let mut left: u32 = count;
    while left > 0
        invariant
            pos <= cur <= bytes@.len(),
            0 <= left <= count,
            acc@.len() == count - left,
            match spec_parse_words(bytes@.skip(pos as int), count as int) {
                Some((ws, rest)) => spec_parse_words(bytes@.skip(cur as int), left as int) matches
                    Some(q) && ws == acc@ + q.0 && rest == q.1,
                None => spec_parse_words(bytes@.skip(cur as int), left as int) is None,
            },
        decreases left,
    {
        let (w, next) = match read_u32(bytes, cur) {
            Some(p) => p,
            None => {
                proof {
                    assert(spec_parse_words(bytes@.skip(cur as int), left as int) is None);
                }
                return None;
            },
        };
        let ghost old_acc = acc@;
        acc.push(w);
        proof {
            assert(bytes@.len() - next >= 0);
            let here = spec_parse_words(bytes@.skip(cur as int), left as int);
            let there = spec_parse_words(bytes@.skip(next as int), left as int - 1);
            match there {
                Some(q) => {
                    assert(here matches Some(h) && h.0 == seq![w] + q.0 && h.1 == q.1);
                    assert(old_acc + (seq![w] + q.0) =~= acc@ + q.0);
                },
                None => {
                    assert(here is None);
                },
            }
        }
        cur = next;
        left = left - 1;
    }
    proof {
        assert(spec_parse_words(bytes@.skip(cur as int), 0) == Some(
            (Seq::<u32>::empty(), bytes@.skip(cur as int)),
        ));
        match spec_parse_words(bytes@.skip(pos as int), count as int) {
            Some((ws, rest)) => {
                assert(ws =~= acc@ + Seq::<u32>::empty() && ws =~= acc@);
            },
            None => {},
        }
    }
    Some((acc, cur))
}

/// Decodes one cache entry from its byte value: every frame parsed, the
/// text frames valid UTF-8, and nothing left over; `None` on any other
/// bytes (a corrupt or foreign value is a cache miss, never a failure).
pub fn decode_entry(bytes: &Vec<u8>) -> (r: Option<CachedFileEmbeddings>)
    ensures
        match spec_decode(bytes@) {
            Some(rep) => r matches Some(e) && spec_entry_rep(e) == rep,
            None => r is None,
        },
{
    proof {
        assert(bytes@.skip(0) =~= bytes@);
    }
    let (hash, pos1) = match read_text(bytes, 0) {
        Some(p) => p,
        None => {
            return None;
        },
    };
    let (count, pos2) = match read_u32(bytes, pos1) {
        Some(p) => p,
        None => {
            return None;
        },
    };
    let ghost entries_bytes = bytes@.skip(pos2 as int);
    let mut es: Vec<(String, Vec<u32>)> = Vec::new();
    let mut cur: usize = pos2;
    let mut left: u32 = count;
    proof {
        assert(es.deep_view() =~~= Seq::<(Seq<char>, Seq<u32>)>::empty());
        match spec_parse_entries(entries_bytes, count as int) {
            Some((all, rest)) => {
                assert(es.deep_view() + all =~~= all);
            },
            None => {},
        }
    }
    while left > 0
        invariant
            pos2 <= cur <= bytes@.len(),
            0 <= left <= count,
            entries_bytes == bytes@.skip(pos2 as int),
            spec_decode(bytes@) == (match spec_parse_entries(entries_bytes, count as int) {
                Some((all, rest)) => if rest.len() == 0 {
                    Some((hash@, all))
                } else {
                    None
                },
                None => None,
            }),
            match spec_parse_entries(entries_bytes, count as int) {
                Some((all, rest)) => spec_parse_entries(bytes@.skip(cur as int), left as int)
                    matches Some(q) && all == es.deep_view() + q.0 && rest == q.1,
                None => spec_parse_entries(bytes@.skip(cur as int), left as int) is None,
            },
        decreases left,
    {
        let (name, p1) = match read_text(bytes, cur) {
            Some(p) => p,
            None => {
                proof {
                    assert(spec_parse_entries(bytes@.skip(cur as int), left as int) is None);
                    assert(spec_parse_entries(entries_bytes, count as int) is None);
                }
                return None;
            },
        };
        let (wc, p2) = match read_u32(bytes, p1) {
            Some(p) => p,
            None => {
                proof {
                    assert(spec_parse_entries(bytes@.skip(cur as int), left as int) is None);
                    assert(spec_parse_entries(entries_bytes, count as int) is None);
                }
                return None;
            },
        };
        let (ws, p3) = match read_words(bytes, p2, wc) {
            Some(p) => p,
            None => {
                proof {
                    assert(spec_parse_entries(bytes@.skip(cur as int), left as int) is None);
                    assert(spec_parse_entries(entries_bytes, count as int) is None);
                }
                return None;
            },
        };
        let ghost old_es = es.deep_view();
        es.push((name, ws));
        proof {
            let here = spec_parse_entries(bytes@.skip(cur as int), left as int);
            let there = spec_parse_entries(bytes@.skip(p3 as int), left as int - 1);
            assert(es.deep_view() =~~= old_es.push(
                (es@[es@.len() - 1].0@, es@[es@.len() - 1].1@),
            ));
            match there {
                Some(q) => {
                    assert(here matches Some(h) && h.0 == seq![(name@, ws@)] + q.0 && h.1 == q.1);
                    assert(old_es + (seq![(name@, ws@)] + q.0) =~~= es.deep_view() + q.0);
                },
                None => {
                    assert(here is None);
                },
            }
        }
        cur = p3;
        left = left - 1;
    }
    if cur != bytes.len() {
        proof {
            assert(bytes@.skip(cur as int).len() > 0);
            assert(spec_parse_entries(bytes@.skip(cur as int), 0) == Some(
                (Seq::<(Seq<char>, Seq<u32>)>::empty(), bytes@.skip(cur as int)),
            ));
        }
        return None;
    }
    proof {
        assert(spec_parse_entries(bytes@.skip(cur as int), 0) == Some(
            (Seq::<(Seq<char>, Seq<u32>)>::empty(), bytes@.skip(cur as int)),
        ));
        assert(bytes@.skip(cur as int).len() == 0);
        match spec_parse_entries(entries_bytes, count as int) {
            Some((all, rest)) => {
                assert(all =~~= es.deep_view());
            },
            None => {},
        }
    }
    Some(CachedFileEmbeddings { file_content_hash: hash, function_embeddings: es })
}

} // verus!
