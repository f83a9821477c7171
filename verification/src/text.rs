//! Text primitives shared by the extraction and search engines: byte-level
//! views of strings, UTF-8 aware slicing, and whitespace trimming.

use vstd::prelude::*;
use vstd::string::StrSliceExecFns;
use vstd::utf8::{encode_utf8, valid_utf8, encode_utf8_decode_utf8};

verus! {

/// True when the bytes look binary: any null byte present.
pub open spec fn spec_has_null_byte(bytes: Seq<u8>) -> bool {
    exists|i: int| 0 <= i < bytes.len() && bytes[i] == 0u8
}

/// Null-byte sniffing: the cheap binary-file heuristic applied to a file's
/// full content before any parsing or searching.
pub fn is_binary(bytes: &Vec<u8>) -> (r: bool)
    ensures
        r == spec_has_null_byte(bytes@),
{
    let mut i: usize = 0;
    while i < bytes.len()
        invariant
            0 <= i <= bytes@.len(),
            forall|j: int| 0 <= j < i ==> bytes@[j] != 0u8,
        decreases bytes@.len() - i,
    {
        if bytes[i] == 0u8 {
            return true;
        }
        i = i + 1;
    }
    false
}

/// String equality decided through the UTF-8 byte views; two strings are
/// equal exactly when their encodings are.
pub fn str_eq(a: &str, b: &str) -> (r: bool)
    ensures
        r == (a@ == b@),
{
    let va = a.as_bytes_vec();
    let vb = b.as_bytes_vec();
    let mut i: usize = 0;
    if va.len() != vb.len() {
        proof {
            encode_utf8_decode_utf8(a@);
            encode_utf8_decode_utf8(b@);
        }
        return false;
    }
    while i < va.len()
        invariant
            va@ == encode_utf8(a@),
            vb@ == encode_utf8(b@),
            va@.len() == vb@.len(),
            0 <= i <= va@.len(),
            forall|j: int| 0 <= j < i ==> va@[j] == vb@[j],
        decreases va@.len() - i,
    {
        if va[i] != vb[i] {
            proof {
                encode_utf8_decode_utf8(a@);
                encode_utf8_decode_utf8(b@);
            }
            return false;
        }
        i = i + 1;
    }
    proof {
        assert(va@ =~= vb@);
        encode_utf8_decode_utf8(a@);
        encode_utf8_decode_utf8(b@);
    }
    true
}

/// Copy of a byte subrange, used to cut a span out of a file's content.
pub fn bytes_sub(v: &Vec<u8>, start: usize, end: usize) -> (r: Vec<u8>)
    requires
        start <= end <= v@.len(),
    ensures
        r@ == v@.subrange(start as int, end as int),
{
    let mut out: Vec<u8> = Vec::new();
    let mut i: usize = start;
    while i < end
        invariant
            start <= i <= end <= v@.len(),
            out@ == v@.subrange(start as int, i as int),
        decreases end - i,
    {
        out.push(v[i]);
        proof {
            assert(out@ =~= v@.subrange(start as int, (i + 1) as int));
        }
        i = i + 1;
    }
    out
}

/// Relies on `String::from_utf8`: it returns `Ok` exactly on valid UTF-8
/// input, and the returned string's byte encoding is the input bytes.
#[verifier::external_body]
pub fn string_from_bytes(v: &Vec<u8>) -> (r: Option<String>)
    ensures
        r matches Some(s) ==> valid_utf8(v@) && encode_utf8(s@) == v@,
        r is None ==> !valid_utf8(v@),
{
    String::from_utf8(v.clone()).ok()
}

/// What `str::trim` returns: the character sequence with leading and
/// trailing whitespace removed.
pub uninterp spec fn trim_of(s: Seq<char>) -> Seq<char>;

/// Relies on `str::trim`: the result depends on the characters alone, and is
/// a sub-slice of the input, so it is never longer than the input.
pub assume_specification<'a>[ str::trim ](s: &'a str) -> (r: &'a str)
    ensures
        r@ == trim_of(s@),
        r@.len() <= s@.len(),
;

/// The needle occurs in `s` starting at position `p`.
pub open spec fn spec_occurs_at(s: Seq<char>, needle: Seq<char>, p: int) -> bool {
    0 <= p && p + needle.len() <= s.len() && s.subrange(p, p + needle.len()) == needle
}

/// The needle occurs somewhere in `s` (case-sensitive substring test).
pub open spec fn spec_occurs(s: Seq<char>, needle: Seq<char>) -> bool {
    exists|p: int| spec_occurs_at(s, needle, p)
}

/// Substring test: scans every start position and compares character ranges.
pub fn str_occurs(s: &str, needle: &str) -> (r: bool)
    ensures
        r == spec_occurs(s@, needle@),
{
    let n = s.unicode_len();
    let m = needle.unicode_len();
    if m > n {
        assert(forall|p: int| !spec_occurs_at(s@, needle@, p));
        return false;
    }
    if m == 0 {
        proof {
            assert(s@.subrange(0, 0) =~= needle@);
            assert(spec_occurs_at(s@, needle@, 0));
        }
        return true;
    }
    let mut p: usize = 0;
    while p <= n - m
        invariant
            m <= n == s@.len(),
            1 <= m == needle@.len(),
            0 <= p <= n - m + 1,
            forall|q: int| 0 <= q < p ==> !spec_occurs_at(s@, needle@, q),
        decreases n - m + 1 - p,
    {
        if str_eq(s.substring_char(p, p + m), needle) {
            assert(spec_occurs_at(s@, needle@, p as int));
            return true;
        }
        p = p + 1;
    }
    assert(forall|q: int| spec_occurs_at(s@, needle@, q) ==> 0 <= q <= n - m);
    false
}

/// Splitting on a separator character. Splitting the empty text yields one
/// empty field; every separator opens a further field, so the field count is
/// always one more than the separator count.
pub open spec fn spec_split_char(s: Seq<char>, sep: char) -> Seq<Seq<char>>
    decreases s.len(),
{
    if s.len() == 0 {
        seq![Seq::<char>::empty()]
    } else {
        let rest = spec_split_char(s.drop_first(), sep);
        if s[0] == sep {
            seq![Seq::<char>::empty()] + rest
        } else {
            seq![seq![s[0]] + rest[0]] + rest.drop_first()
        }
    }
}

pub proof fn lemma_split_char_nonempty(s: Seq<char>, sep: char)
    ensures
        spec_split_char(s, sep).len() >= 1,
    decreases s.len(),
{
    if s.len() > 0 {
        lemma_split_char_nonempty(s.drop_first(), sep);
    }
}

/// Splits `s` on `sep`, keeping empty fields.
pub fn split_char(s: &str, sep: char) -> (r: Vec<String>)
    ensures
        r.deep_view() == spec_split_char(s@, sep),
{
    let n = s.unicode_len();
    let mut fields: Vec<String> = Vec::new();
    let mut start: usize = 0;
    let mut i: usize = 0;
    proof {
        lemma_split_char_nonempty(s@, sep);
        assert(s@.subrange(0, n as int) =~= s@);
        assert(s@.subrange(0, 0) + spec_split_char(s@, sep)[0] =~= spec_split_char(s@, sep)[0]);
        assert(spec_split_char(s@, sep) =~~= seq![spec_split_char(s@, sep)[0]] + spec_split_char(
            s@,
            sep,
        ).drop_first());
    }
    while i < n
        invariant
            n == s@.len(),
            0 <= start <= i <= n,
            spec_split_char(s@.subrange(i as int, n as int), sep).len() >= 1,
            spec_split_char(s@, sep) =~~= fields.deep_view() + seq![
                s@.subrange(start as int, i as int) + spec_split_char(
                    s@.subrange(i as int, n as int),
                    sep,
                )[0],
            ] + spec_split_char(s@.subrange(i as int, n as int), sep).drop_first(),
        decreases n - i,
    {
        let ghost rem = s@.subrange(i as int, n as int);
        let ghost rem2 = s@.subrange(i + 1, n as int);
        proof {
            assert(rem.drop_first() =~= rem2);
            lemma_split_char_nonempty(rem2, sep);
        }
        let c = s.get_char(i);
        if c == sep {
            let field = String::from_str(s.substring_char(start, i));
            let ghost old_fields = fields.deep_view();
            fields.push(field);
            proof {
                assert(fields.deep_view() =~~= old_fields.push(s@.subrange(
                    start as int,
                    i as int,
                )));
                assert(spec_split_char(rem, sep) == seq![Seq::<char>::empty()] + spec_split_char(
                    rem2,
                    sep,
                ));
                assert(s@.subrange((i + 1) as int, (i + 1) as int) + spec_split_char(rem2, sep)[0]
                    =~= spec_split_char(rem2, sep)[0]);
                assert(spec_split_char(s@, sep) =~~= fields.deep_view() + seq![
                    s@.subrange((i + 1) as int, (i + 1) as int) + spec_split_char(rem2, sep)[0],
                ] + spec_split_char(rem2, sep).drop_first());
            }
            start = i + 1;
        } else {
            proof {
                assert(rem[0] == s@[i as int]);
                assert(spec_split_char(rem, sep) == seq![
                    seq![rem[0]] + spec_split_char(rem2, sep)[0],
                ] + spec_split_char(rem2, sep).drop_first());
                assert(s@.subrange(start as int, (i + 1) as int) =~= s@.subrange(
                    start as int,
                    i as int,
                ).push(s@[i as int]));
                assert(s@.subrange(start as int, i as int) + spec_split_char(rem, sep)[0]
                    =~= s@.subrange(start as int, (i + 1) as int) + spec_split_char(rem2, sep)[0]);
                assert(spec_split_char(s@, sep) =~~= fields.deep_view() + seq![
                    s@.subrange(start as int, (i + 1) as int) + spec_split_char(rem2, sep)[0],
                ] + spec_split_char(rem2, sep).drop_first());
            }
        }
        i = i + 1;
    }
    let last = String::from_str(s.substring_char(start, n));
    let ghost old_fields = fields.deep_view();
    fields.push(last);
    proof {
        let ghost rem = s@.subrange(n as int, n as int);
        assert(rem =~= Seq::<char>::empty());
        assert(spec_split_char(rem, sep) == seq![Seq::<char>::empty()]);
        assert(s@.subrange(start as int, n as int) + Seq::<char>::empty() =~= s@.subrange(
            start as int,
            n as int,
        ));
        assert(fields.deep_view() =~~= old_fields.push(s@.subrange(start as int, n as int)));
        assert(fields.deep_view() =~~= spec_split_char(s@, sep));
    }
    fields
}

/// A text line as produced by line-oriented reading: a trailing carriage
/// return left by a CRLF ending is removed.
pub open spec fn spec_chop_cr(line: Seq<char>) -> Seq<char> {
    if line.len() > 0 && line.last() == '\r' {
        line.drop_last()
    } else {
        line
    }
}

/// Removes one trailing carriage return, if present.
pub fn chop_trailing_cr(line: &str) -> (r: &str)
    ensures
        r@ == spec_chop_cr(line@),
{
    let n = line.unicode_len();
    if n > 0 && line.get_char(n - 1) == '\r' {
        let r = line.substring_char(0, n - 1);
        proof {
            assert(r@ =~= line@.drop_last());
        }
        r
    } else {
        line
    }
}

/// The lines of a text, as line-oriented reading yields them: fields between
/// newline characters, a trailing carriage return stripped from each, and no
/// final empty line when the text ends with a newline (or is empty).
pub open spec fn spec_lines(s: Seq<char>) -> Seq<Seq<char>> {
    let fields = spec_split_char(s, '\n');
    let kept = if fields.last().len() == 0 {
        fields.drop_last()
    } else {
        fields
    };
    kept.map_values(|l: Seq<char>| spec_chop_cr(l))
}

/// Splits a text into lines.
pub fn split_lines(s: &str) -> (r: Vec<String>)
    ensures
        r.deep_view() == spec_lines(s@),
{
    let fields = split_char(s, '\n');
    proof {
        lemma_split_char_nonempty(s@, '\n');
    }
    let keep = fields.len() - if fields[fields.len() - 1].as_str().unicode_len() == 0 {
        1
    } else {
        0
    };
    let mut out: Vec<String> = Vec::new();
    let mut i: usize = 0;
    let ghost kept = if spec_split_char(s@, '\n').last().len() == 0 {
        spec_split_char(s@, '\n').drop_last()
    } else {
        spec_split_char(s@, '\n')
    };
    proof {
        assert(fields.deep_view().last() == fields[fields@.len() - 1]@);
    }
    while i < keep
        invariant
            keep <= fields@.len(),
            fields.deep_view() == spec_split_char(s@, '\n'),
            kept == spec_split_char(s@, '\n').take(keep as int),
            kept.len() == keep,
            0 <= i <= keep,
            out.deep_view() =~~= kept.map_values(|l: Seq<char>| spec_chop_cr(l)).take(i as int),
        decreases keep - i,
    {
        let line = String::from_str(chop_trailing_cr(fields[i].as_str()));
        let ghost old_out = out.deep_view();
        out.push(line);
        proof {
            assert(fields.deep_view()[i as int] == fields[i as int]@);
            assert(out.deep_view() =~~= old_out.push(spec_chop_cr(kept[i as int])));
            assert(out.deep_view() =~~= kept.map_values(|l: Seq<char>| spec_chop_cr(l)).take(
                i + 1,
            ));
        }
        i = i + 1;
    }
    proof {
        assert(out.deep_view() =~~= kept.map_values(|l: Seq<char>| spec_chop_cr(l)));
        assert(out.deep_view() =~~= spec_lines(s@));
    }
    out
}

} // verus!
