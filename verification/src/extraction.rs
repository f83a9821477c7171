//! The extraction engine: runs a structural query against a parsed syntax
//! tree (through tree-sitter) and turns the raw matches — capture role
//! names with byte spans — into function records at the requested detail
//! level. Everything after the grammar call is verified: name resolution,
//! span slicing, signature cutting, and the detail-level rules.

use vstd::prelude::*;
use vstd::string::StrSliceExecFns;
use vstd::utf8::{encode_utf8, valid_utf8, decode_utf8, encode_utf8_decode_utf8};
use crate::config::{Lang, spec_lang_of_extension, lang_of_extension, spec_query, query_for};
use crate::structs::{FunctionInfo, FileContext};
use crate::text::{bytes_sub, string_from_bytes, str_eq, trim_of, is_binary, spec_has_null_byte};

verus! {

/// A raw structural match: the captures of one query match, each as its
/// capture role name and the byte span of the captured node.
pub type RawMatch = Vec<(String, usize, usize)>;

/// The spec view of a list of raw matches.
pub type SpecMatches = Seq<Seq<(Seq<char>, usize, usize)>>;

/// What tree-sitter's C-sharp grammar yields for a source text and a query
/// text: `None` when parsing or query compilation fails.
pub uninterp spec fn spec_csharp_matches(code: Seq<char>, query: Seq<char>) -> Option<SpecMatches>;

/// What tree-sitter's Python grammar yields for a source text and a query text.
pub uninterp spec fn spec_python_matches(code: Seq<char>, query: Seq<char>) -> Option<SpecMatches>;

/// What tree-sitter's Rust grammar yields for a source text and a query text.
pub uninterp spec fn spec_rust_matches(code: Seq<char>, query: Seq<char>) -> Option<SpecMatches>;

/// What tree-sitter's TypeScript grammar yields for a source text and a query text.
pub uninterp spec fn spec_typescript_matches(code: Seq<char>, query: Seq<char>) -> Option<
    SpecMatches,
>;

/// Relies on `tree_sitter` with `tree_sitter_c_sharp::language`: parsing and
/// query matching are deterministic in the source and query texts alone.
/// tree-sitter's query session hands out iterators that borrow the parser,
/// tree, query and cursor together, so the whole session stands in this one
/// body; each match leaves it as its captures' role names and byte spans.
#[verifier::external_body]
fn csharp_query_matches(code: &str, query_src: &str) -> (r: Option<Vec<RawMatch>>)
    ensures
        r.deep_view() == spec_csharp_matches(code@, query_src@),
{
    let mut parser = tree_sitter::Parser::new();
    parser.set_language(tree_sitter_c_sharp::language()).ok()?;
    let tree = parser.parse(code, None)?;
    let query = tree_sitter::Query::new(tree_sitter_c_sharp::language(), query_src).ok()?;
    let names = query.capture_names();
    let mut cursor = tree_sitter::QueryCursor::new();
    Some(cursor.matches(&query, tree.root_node(), code.as_bytes()).map(|m|
        m.captures.iter().map(|c| (
            names.get(c.index as usize).cloned().unwrap_or_default(),
            c.node.start_byte(),
            c.node.end_byte(),
        )).collect()
    ).collect())
}

/// Relies on `tree_sitter` with `tree_sitter_python::language`; see
/// `csharp_query_matches` for why the session stands in one body.
#[verifier::external_body]
fn python_query_matches(code: &str, query_src: &str) -> (r: Option<Vec<RawMatch>>)
    ensures
        r.deep_view() == spec_python_matches(code@, query_src@),
{
    let mut parser = tree_sitter::Parser::new();
    parser.set_language(tree_sitter_python::language()).ok()?;
    let tree = parser.parse(code, None)?;
    let query = tree_sitter::Query::new(tree_sitter_python::language(), query_src).ok()?;
    let names = query.capture_names();
    let mut cursor = tree_sitter::QueryCursor::new();
    Some(cursor.matches(&query, tree.root_node(), code.as_bytes()).map(|m|
        m.captures.iter().map(|c| (
            names.get(c.index as usize).cloned().unwrap_or_default(),
            c.node.start_byte(),
            c.node.end_byte(),
        )).collect()
    ).collect())
}

/// Relies on `tree_sitter` with `tree_sitter_rust::language`; see
/// `csharp_query_matches` for why the session stands in one body.
#[verifier::external_body]
fn rust_query_matches(code: &str, query_src: &str) -> (r: Option<Vec<RawMatch>>)
    ensures
        r.deep_view() == spec_rust_matches(code@, query_src@),
{
    let mut parser = tree_sitter::Parser::new();
    parser.set_language(tree_sitter_rust::language()).ok()?;
    let tree = parser.parse(code, None)?;
    let query = tree_sitter::Query::new(tree_sitter_rust::language(), query_src).ok()?;
    let names = query.capture_names();
    let mut cursor = tree_sitter::QueryCursor::new();
    Some(cursor.matches(&query, tree.root_node(), code.as_bytes()).map(|m|
        m.captures.iter().map(|c| (
            names.get(c.index as usize).cloned().unwrap_or_default(),
            c.node.start_byte(),
            c.node.end_byte(),
        )).collect()
    ).collect())
}

/// Relies on `tree_sitter` with
/// `tree_sitter_typescript::language_typescript`; see `csharp_query_matches`
/// for why the session stands in one body.
#[verifier::external_body]
fn typescript_query_matches(code: &str, query_src: &str) -> (r: Option<Vec<RawMatch>>)
    ensures
        r.deep_view() == spec_typescript_matches(code@, query_src@),
{
    let mut parser = tree_sitter::Parser::new();
    parser.set_language(tree_sitter_typescript::language_typescript()).ok()?;
    let tree = parser.parse(code, None)?;
    let query = tree_sitter::Query::new(tree_sitter_typescript::language_typescript(), query_src)
        .ok()?;
    let names = query.capture_names();
    let mut cursor = tree_sitter::QueryCursor::new();
    Some(cursor.matches(&query, tree.root_node(), code.as_bytes()).map(|m|
        m.captures.iter().map(|c| (
            names.get(c.index as usize).cloned().unwrap_or_default(),
            c.node.start_byte(),
            c.node.end_byte(),
        )).collect()
    ).collect())
}

/// The structural matches of one language's grammar on one source text.
pub open spec fn spec_structural_matches(lang: Lang, code: Seq<char>, query: Seq<char>) -> Option<
    SpecMatches,
> {
    match lang {
        Lang::CSharp => spec_csharp_matches(code, query),
        Lang::Python => spec_python_matches(code, query),
        Lang::Rust => spec_rust_matches(code, query),
        Lang::TypeScript => spec_typescript_matches(code, query),
    }
}

/// Dispatches to the grammar registered for `lang`.
pub fn structural_matches(lang: Lang, code: &str, query_src: &str) -> (r: Option<Vec<RawMatch>>)
    ensures
        r.deep_view() == spec_structural_matches(lang, code@, query_src@),
{
    match lang {
        Lang::CSharp => csharp_query_matches(code, query_src),
        Lang::Python => python_query_matches(code, query_src),
        Lang::Rust => rust_query_matches(code, query_src),
        Lang::TypeScript => typescript_query_matches(code, query_src),
    }
}

/// The byte span of the last capture whose role is `r1` or `r2`, mirroring
/// how repeated captures of one role overwrite earlier ones.
pub open spec fn spec_find_role2(
    caps: Seq<(Seq<char>, usize, usize)>,
    r1: Seq<char>,
    r2: Seq<char>,
) -> Option<(usize, usize)>
    decreases caps.len(),
{
    if caps.len() == 0 {
        None
    } else {
        let last = caps.last();
        if last.0 == r1 || last.0 == r2 {
            Some((last.1, last.2))
        } else {
            spec_find_role2(caps.drop_last(), r1, r2)
        }
    }
}

/// Finds the byte span of the last capture bound to `r1` or `r2`.
fn find_role2(caps: &Vec<(String, usize, usize)>, r1: &str, r2: &str) -> (r: Option<(usize, usize)>)
    ensures
        r == spec_find_role2(caps.deep_view(), r1@, r2@),
{
    let ghost dv = caps.deep_view();
    let mut i: usize = caps.len();
    proof {
        assert(dv.take(caps@.len() as int) =~= dv);
    }
    while i > 0
        invariant
            dv == caps.deep_view(),
            0 <= i <= caps@.len(),
            spec_find_role2(dv, r1@, r2@) == spec_find_role2(dv.take(i as int), r1@, r2@),
        decreases i,
    {
        i = i - 1;
        let ghost pref = dv.take(i + 1);
        proof {
            assert(pref.last() == dv[i as int]);
            assert(pref.drop_last() =~= dv.take(i as int));
            assert(dv[i as int] == caps@[i as int].deep_view());
        }
        let hit = str_eq(caps[i].0.as_str(), r1) || str_eq(caps[i].0.as_str(), r2);
        if hit {
            return Some((caps[i].1, caps[i].2));
        }
    }
    None
}

/// The text of a byte span of the source: the decoded characters when the
/// span is in bounds and cuts the text on character boundaries, and empty
/// otherwise (a failed slice degrades to empty text, never a failure).
pub open spec fn spec_slice_text(bytes: Seq<u8>, start: int, end: int) -> Seq<char> {
    if 0 <= start <= end <= bytes.len() && valid_utf8(bytes.subrange(start, end)) {
        decode_utf8(bytes.subrange(start, end))
    } else {
        Seq::empty()
    }
}

/// Cuts the text of a byte span out of the source.
fn slice_text(bytes: &Vec<u8>, start: usize, end: usize) -> (r: String)
    ensures
        r@ == spec_slice_text(bytes@, start as int, end as int),
{
    if start <= end && end <= bytes.len() {
        let sub = bytes_sub(bytes, start, end);
        match string_from_bytes(&sub) {
            Some(s) => {
                proof {
                    encode_utf8_decode_utf8(s@);
                }
                s
            },
            None => String::new(),
        }
    } else {
        String::new()
    }
}

/// Trims the surrounding whitespace off an extracted text.
fn trim_string(s: &String) -> (r: String)
    ensures
        r@ == trim_of(s@),
{
    String::from_str(s.as_str().trim())
}

/// The byte spans of every comment capture of one match, in capture order.
pub open spec fn spec_match_comment_spans(caps: Seq<(Seq<char>, usize, usize)>) -> Seq<
    (usize, usize),
>
    decreases caps.len(),
{
    if caps.len() == 0 {
        Seq::empty()
    } else {
        let rest = spec_match_comment_spans(caps.drop_last());
        if caps.last().0 == "comment"@ {
            rest.push((caps.last().1, caps.last().2))
        } else {
            rest
        }
    }
}

/// The byte spans of every comment the grammar reported, in match order.
pub open spec fn spec_comment_spans(ms: SpecMatches) -> Seq<(usize, usize)>
    decreases ms.len(),
{
    if ms.len() == 0 {
        Seq::empty()
    } else {
        spec_comment_spans(ms.drop_last()) + spec_match_comment_spans(ms.last())
    }
}

/// Collects the comment spans of a match list.
pub fn comment_spans(ms: &Vec<RawMatch>) -> (r: Vec<(usize, usize)>)
    ensures
        r@ == spec_comment_spans(ms.deep_view()),
{
    let ghost dv = ms.deep_view();
    let mut r: Vec<(usize, usize)> = Vec::new();
    let mut i: usize = 0;
    while i < ms.len()
        invariant
            dv == ms.deep_view(),
            0 <= i <= ms@.len(),
            r@ == spec_comment_spans(dv.take(i as int)),
        decreases ms@.len() - i,
    {
        let ghost pref = dv.take(i + 1);
        proof {
            assert(pref.drop_last() =~~= dv.take(i as int));
            assert(pref.last() == dv[i as int]);
            assert(dv[i as int] == ms@[i as int].deep_view());
        }
        let caps = &ms[i];
        let ghost cdv = caps.deep_view();
        let ghost before = r@;
        let mut j: usize = 0;
        while j < caps.len()
            invariant
                cdv == caps.deep_view(),
                0 <= j <= caps@.len(),
                r@ == before + spec_match_comment_spans(cdv.take(j as int)),
            decreases caps@.len() - j,
        {
            let ghost cpref = cdv.take(j + 1);
            proof {
                assert(cpref.drop_last() =~= cdv.take(j as int));
                assert(cpref.last() == cdv[j as int]);
                assert(cdv[j as int] == caps@[j as int].deep_view());
            }
            if str_eq(caps[j].0.as_str(), "comment") {
                r.push((caps[j].1, caps[j].2));
            }
            proof {
                assert(r@ =~= before + spec_match_comment_spans(cdv.take(j + 1)));
            }
            j = j + 1;
        }
        proof {
            assert(cdv.take(caps@.len() as int) =~= cdv);
            assert(r@ =~= spec_comment_spans(dv.take(i + 1)));
        }
        i = i + 1;
    }
    proof {
        assert(dv.take(ms@.len() as int) =~~= dv);
    }
    r
}

/// A byte of ASCII whitespace: space, tab, line feed or carriage return.
pub open spec fn spec_is_space_byte(b: u8) -> bool {
    b == 32 || b == 9 || b == 10 || b == 13
}

/// Only whitespace bytes stand between positions `from` and `to`.
pub open spec fn spec_ws_between(bytes: Seq<u8>, from: int, to: int) -> bool {
    &&& 0 <= from <= to <= bytes.len()
    &&& forall|i: int| from <= i < to ==> spec_is_space_byte(#[trigger] bytes[i])
}

/// Decides `spec_ws_between`.
fn ws_between(bytes: &Vec<u8>, from: usize, to: usize) -> (r: bool)
    ensures
        r == spec_ws_between(bytes@, from as int, to as int),
{
    if from > to || to > bytes.len() {
        return false;
    }
    let mut i: usize = from;
    while i < to
        invariant
            from <= i <= to <= bytes@.len(),
            forall|j: int| from <= j < i ==> spec_is_space_byte(#[trigger] bytes@[j]),
        decreases to - i,
    {
        let b = bytes[i];
        if !(b == 32 || b == 9 || b == 10 || b == 13) {
            return false;
        }
        i = i + 1;
    }
    true
}

/// The comment nearest before `target` that only whitespace separates from
/// it: among the spans ending at or before `target` with a whitespace-only
/// gap, the one with the greatest end (greatest start on equal ends).
/// Degenerate spans are ignored.
pub open spec fn spec_nearest_adjacent(
    spans: Seq<(usize, usize)>,
    bytes: Seq<u8>,
    target: int,
) -> Option<(usize, usize)>
    decreases spans.len(),
{
    if spans.len() == 0 {
        None
    } else {
        let rest = spec_nearest_adjacent(spans.drop_last(), bytes, target);
        let c = spans.last();
        if c.0 < c.1 && c.1 <= target && spec_ws_between(bytes, c.1 as int, target) {
            match rest {
                None => Some(c),
                Some(b) => if c.1 > b.1 || (c.1 == b.1 && c.0 >= b.0) {
                    Some(c)
                } else {
                    Some(b)
                },
            }
        } else {
            rest
        }
    }
}

/// Decides `spec_nearest_adjacent`.
fn nearest_adjacent(spans: &Vec<(usize, usize)>, bytes: &Vec<u8>, target: usize) -> (r: Option<
    (usize, usize),
>)
    ensures
        r == spec_nearest_adjacent(spans@, bytes@, target as int),
{
    let mut best: Option<(usize, usize)> = None;
    let mut i: usize = 0;
    while i < spans.len()
        invariant
            0 <= i <= spans@.len(),
            best == spec_nearest_adjacent(spans@.take(i as int), bytes@, target as int),
        decreases spans@.len() - i,
    {
        let ghost pref = spans@.take(i + 1);
        proof {
            assert(pref.drop_last() =~= spans@.take(i as int));
            assert(pref.last() == spans@[i as int]);
        }
        let c = spans[i];
        if c.0 < c.1 && c.1 <= target && ws_between(bytes, c.1, target) {
            best = match best {
                None => Some(c),
                Some(b) => if c.1 > b.1 || (c.1 == b.1 && c.0 >= b.0) {
                    Some(c)
                } else {
                    Some(b)
                },
            };
        }
        i = i + 1;
    }
    proof {
        assert(spans@.take(spans@.len() as int) =~= spans@);
    }
    best
}

/// The start of the contiguous comment group whose front is at `start`:
/// walk to ever-earlier comments while only whitespace separates each from
/// the current front. Every step moves strictly backwards past another
/// span's end, so a fuel of the span count always reaches the fixed point.
pub open spec fn spec_group_start(
    spans: Seq<(usize, usize)>,
    bytes: Seq<u8>,
    start: int,
    fuel: nat,
) -> int
    decreases fuel,
{
    if fuel == 0 {
        start
    } else {
        match spec_nearest_adjacent(spans, bytes, start) {
            Some(c) => if (c.0 as int) < start {
                spec_group_start(spans, bytes, c.0 as int, (fuel - 1) as nat)
            } else {
                start
            },
            None => start,
        }
    }
}

/// Walks `spec_group_start` to its fixed point.
fn group_start(spans: &Vec<(usize, usize)>, bytes: &Vec<u8>, start: usize) -> (r: usize)
    ensures
        r as int == spec_group_start(spans@, bytes@, start as int, spans@.len() as nat),
{
    let mut cur: usize = start;
    let mut fuel: usize = spans.len();
    while fuel > 0
        invariant
            fuel <= spans@.len(),
            spec_group_start(spans@, bytes@, start as int, spans@.len() as nat)
                == spec_group_start(spans@, bytes@, cur as int, fuel as nat),
        decreases fuel,
    {
        match nearest_adjacent(spans, bytes, cur) {
            Some((s, _e)) => {
                if s < cur {
                    cur = s;
                } else {
                    return cur;
                }
            },
            None => {
                return cur;
            },
        }
        fuel = fuel - 1;
    }
    cur
}

/// The comment attached to a declaration starting at byte `def_start`: when
/// a comment ends at or before the declaration with only whitespace
/// between, the text from the start of its contiguous comment group to
/// that nearest comment's end; nothing when no comment is adjacent.
pub open spec fn spec_comment_for(
    spans: Seq<(usize, usize)>,
    bytes: Seq<u8>,
    def_start: int,
) -> Option<Seq<char>> {
    match spec_nearest_adjacent(spans, bytes, def_start) {
        Some(c) => Some(
            spec_slice_text(
                bytes,
                spec_group_start(spans, bytes, c.0 as int, spans.len()),
                c.1 as int,
            ),
        ),
        None => None,
    }
}

/// Cuts the comment text attached to a declaration, if any.
fn comment_for(spans: &Vec<(usize, usize)>, bytes: &Vec<u8>, def_start: usize) -> (r: Option<
    String,
>)
    ensures
        match spec_comment_for(spans@, bytes@, def_start as int) {
            Some(t) => r matches Some(s) && s@ == t,
            None => r is None,
        },
{
    match nearest_adjacent(spans, bytes, def_start) {
        Some((cs, ce)) => {
            let gs = group_start(spans, bytes, cs);
            Some(slice_text(bytes, gs, ce))
        },
        None => None,
    }
}

/// The body text kept for one match at one detail level:
/// - levels 1 and 2 cut the signature: from the definition's start to the
///   body's start, falling back to the whole definition when the body does
///   not begin strictly after the definition or was not captured;
/// - level 3 keeps the whole definition;
/// - every other level keeps nothing.
/// All kept text is trimmed.
pub open spec fn spec_body_text(
    caps: Seq<(Seq<char>, usize, usize)>,
    bytes: Seq<u8>,
    compactness: u8,
) -> Option<Seq<char>> {
    let def = spec_find_role2(caps, "function_definition"@, "function_definition"@);
    let body = spec_find_role2(caps, "body"@, "body"@);
    if compactness == 1 || compactness == 2 {
        match def {
            Some(d) => match body {
                Some(b) => if b.0 > d.0 {
                    Some(trim_of(spec_slice_text(bytes, d.0 as int, b.0 as int)))
                } else {
                    Some(trim_of(spec_slice_text(bytes, d.0 as int, d.1 as int)))
                },
                None => Some(trim_of(spec_slice_text(bytes, d.0 as int, d.1 as int))),
            },
            None => None,
        }
    } else if compactness == 3 {
        match def {
            Some(d) => Some(trim_of(spec_slice_text(bytes, d.0 as int, d.1 as int))),
            None => None,
        }
    } else {
        None
    }
}

/// The comment text kept for one match: at detail levels 2 and 3 exactly,
/// the contiguous comment group immediately preceding the captured
/// definition — only whitespace between the comments and between the group
/// and the declaration, no intervening non-comment text. Every other
/// level, including levels above 3, keeps no comment.
pub open spec fn spec_comment_text(
    caps: Seq<(Seq<char>, usize, usize)>,
    cspans: Seq<(usize, usize)>,
    bytes: Seq<u8>,
    compactness: u8,
) -> Option<Seq<char>> {
    if compactness == 2 || compactness == 3 {
        match spec_find_role2(caps, "function_definition"@, "function_definition"@) {
            Some(d) => spec_comment_for(cspans, bytes, d.0 as int),
            None => None,
        }
    } else {
        None
    }
}

/// The record of one structural match: its resolved name with the kept body
/// and comment texts, or nothing when no name capture resolved to non-empty
/// text (anonymous and partial constructs are silently dropped).
pub open spec fn spec_record_of_match(
    caps: Seq<(Seq<char>, usize, usize)>,
    cspans: Seq<(usize, usize)>,
    bytes: Seq<u8>,
    compactness: u8,
) -> Option<(Seq<char>, Option<Seq<char>>, Option<Seq<char>>)> {
    let name = match spec_find_role2(caps, "method_name"@, "name"@) {
        Some(sp) => spec_slice_text(bytes, sp.0 as int, sp.1 as int),
        None => Seq::empty(),
    };
    if name.len() > 0 {
        Some(
            (name, spec_body_text(caps, bytes, compactness), spec_comment_text(
                caps,
                cspans,
                bytes,
                compactness,
            )),
        )
    } else {
        None
    }
}

/// A function record carries exactly the texts of one spec record.
pub open spec fn spec_info_matches(
    info: FunctionInfo,
    rec: (Seq<char>, Option<Seq<char>>, Option<Seq<char>>),
) -> bool {
    &&& info.name@ == rec.0
    &&& match rec.1 {
        Some(sb) => info.body matches Some(b) && b@ == sb,
        None => info.body is None,
    }
    &&& match rec.2 {
        Some(sc) => info.comment matches Some(c) && c@ == sc,
        None => info.comment is None,
    }
}

/// Builds the record of one match.
fn record_of_match(
    caps: &Vec<(String, usize, usize)>,
    cspans: &Vec<(usize, usize)>,
    bytes: &Vec<u8>,
    compactness: u8,
) -> (r: Option<FunctionInfo>)
    ensures
        match spec_record_of_match(caps.deep_view(), cspans@, bytes@, compactness) {
            Some(rec) => r matches Some(info) && spec_info_matches(info, rec),
            None => r is None,
        },
{
    let name = match find_role2(caps, "method_name", "name") {
        Some((s, e)) => slice_text(bytes, s, e),
        None => String::new(),
    };
    if name.as_str().unicode_len() == 0 {
        return None;
    }
    let def = find_role2(caps, "function_definition", "function_definition");
    let body_span = find_role2(caps, "body", "body");
    let body: Option<String> = if compactness == 1 || compactness == 2 {
        match def {
            Some((ds, de)) => match body_span {
                Some((bs, _be)) => if bs > ds {
                    Some(trim_string(&slice_text(bytes, ds, bs)))
                } else {
                    Some(trim_string(&slice_text(bytes, ds, de)))
                },
                None => Some(trim_string(&slice_text(bytes, ds, de))),
            },
            None => None,
        }
    } else if compactness == 3 {
        match def {
            Some((ds, de)) => Some(trim_string(&slice_text(bytes, ds, de))),
            None => None,
        }
    } else {
        None
    };
    let comment: Option<String> = if compactness == 2 || compactness == 3 {
        match def {
            Some((ds, _de)) => comment_for(cspans, bytes, ds),
            None => None,
        }
    } else {
        None
    };
    Some(FunctionInfo { name, body, comment })
}

/// The records of a whole match list, dropping matches without a resolved
/// name, in match order.
pub open spec fn spec_records_of_matches(
    ms: SpecMatches,
    cspans: Seq<(usize, usize)>,
    bytes: Seq<u8>,
    compactness: u8,
) -> Seq<(Seq<char>, Option<Seq<char>>, Option<Seq<char>>)>
    decreases ms.len(),
{
    if ms.len() == 0 {
        Seq::empty()
    } else {
        let rest = spec_records_of_matches(ms.drop_last(), cspans, bytes, compactness);
        match spec_record_of_match(ms.last(), cspans, bytes, compactness) {
            Some(rec) => rest.push(rec),
            None => rest,
        }
    }
}

/// Builds every function record of a match list.
pub fn functions_from_matches(
    ms: &Vec<RawMatch>,
    cspans: &Vec<(usize, usize)>,
    bytes: &Vec<u8>,
    compactness: u8,
) -> (r: Vec<FunctionInfo>)
    ensures
        r@.len() == spec_records_of_matches(ms.deep_view(), cspans@, bytes@, compactness).len(),
        forall|k: int|
            0 <= k < r@.len() ==> spec_info_matches(
                #[trigger] r@[k],
                spec_records_of_matches(ms.deep_view(), cspans@, bytes@, compactness)[k],
            ),
{
    let ghost dv = ms.deep_view();
    let mut r: Vec<FunctionInfo> = Vec::new();
    let mut i: usize = 0;
    while i < ms.len()
        invariant
            dv == ms.deep_view(),
            0 <= i <= ms@.len(),
            r@.len() == spec_records_of_matches(
                dv.take(i as int),
                cspans@,
                bytes@,
                compactness,
            ).len(),
            forall|k: int|
                0 <= k < r@.len() ==> spec_info_matches(
                    #[trigger] r@[k],
                    spec_records_of_matches(dv.take(i as int), cspans@, bytes@, compactness)[k],
                ),
        decreases ms@.len() - i,
    {
        let ghost pref = dv.take(i + 1);
        proof {
            assert(pref.drop_last() =~~= dv.take(i as int));
            assert(pref.last() == dv[i as int]);
            assert(dv[i as int] == ms@[i as int].deep_view());
        }
        match record_of_match(&ms[i], cspans, bytes, compactness) {
            Some(info) => {
                r.push(info);
            },
            None => {},
        }
        i = i + 1;
    }
    proof {
        assert(dv.take(ms@.len() as int) =~~= dv);
    }
    r
}

/// The names extracted from a match list do not depend on the detail level:
/// levels differ only in the body and comment texts they keep, never in
/// which functions they find or what those are called. Note that this law
/// speaks of one match list: level 0 runs the names-only query, whose match
/// set is the grammar's own and can differ from the detailed query's where
/// a construct has no body block (so name agreement between level 0 and the
/// detailed levels holds only as far as the two match sets agree).
pub proof fn lemma_detail_level_names(
    ms: SpecMatches,
    cspans: Seq<(usize, usize)>,
    bytes: Seq<u8>,
    c1: u8,
    c2: u8,
)
    ensures
        spec_records_of_matches(ms, cspans, bytes, c1).len() == spec_records_of_matches(
            ms,
            cspans,
            bytes,
            c2,
        ).len(),
        forall|k: int|
            0 <= k < spec_records_of_matches(ms, cspans, bytes, c1).len()
                ==> #[trigger] spec_records_of_matches(ms, cspans, bytes, c1)[k].0
                == spec_records_of_matches(ms, cspans, bytes, c2)[k].0,
    decreases ms.len(),
{
    if ms.len() > 0 {
        lemma_detail_level_names(ms.drop_last(), cspans, bytes, c1, c2);
    }
}

/// Detail levels that ask for body text run one shared query, so the
/// grammar reports the same matches for all of them; with
/// `lemma_detail_level_names`, the names extracted at those levels are
/// identical, and only the kept body and comment texts differ.
pub proof fn lemma_detail_levels_share_matches(lang: Lang, code: Seq<char>, c1: u8, c2: u8)
    requires
        crate::config::spec_detailed(c1) == crate::config::spec_detailed(c2),
    ensures
        spec_structural_matches(lang, code, spec_query(lang, c1)) == spec_structural_matches(
            lang,
            code,
            spec_query(lang, c2),
        ),
{
    assert(spec_query(lang, c1) == spec_query(lang, c2));
}

/// Extracts the function records of one file's content. `None` exactly
/// when the content looks binary (a null byte), the extension maps to no
/// supported grammar, the grammar session fails, or no match yields a named
/// record; otherwise the context holds the file's path and every record, in
/// match order, at the requested detail level. At detail levels 2 and 3
/// each record also carries the contiguous comment group immediately
/// preceding its declaration, when one is adjacent.
pub fn extract_source(path: &str, extension: &str, content: &str, compactness: u8) -> (r: Option<
    FileContext,
>)
    ensures
        spec_has_null_byte(encode_utf8(content@)) ==> r is None,
        !spec_has_null_byte(encode_utf8(content@)) ==> match spec_lang_of_extension(extension@) {
            None => r is None,
            Some(lang) => match spec_structural_matches(
                lang,
                content@,
                spec_query(lang, compactness),
            ) {
                None => r is None,
                Some(ms) => {
                    let recs = spec_records_of_matches(
                        ms,
                        spec_comment_spans(ms),
                        encode_utf8(content@),
                        compactness,
                    );
                    if recs.len() == 0 {
                        r is None
                    } else {
                        r matches Some(fc) && fc.path@ == path@ && fc.functions@.len()
                            == recs.len() && forall|k: int|
                            0 <= k < recs.len() ==> spec_info_matches(
                                #[trigger] fc.functions@[k],
                                recs[k],
                            )
                    }
                },
            },
        },
{
    let bytes = content.as_bytes_vec();
    if is_binary(&bytes) {
        return None;
    }
    let lang = match lang_of_extension(extension) {
        Some(l) => l,
        None => {
            return None;
        },
    };
    let query = query_for(lang, compactness);
    let ms = match structural_matches(lang, content, query.as_str()) {
        Some(ms) => ms,
        None => {
            return None;
        },
    };
    let spans = comment_spans(&ms);
    let functions = functions_from_matches(&ms, &spans, &bytes, compactness);
    if functions.len() == 0 {
        return None;
    }
    Some(FileContext { path: String::from_str(path), functions })
}

} // verus!
