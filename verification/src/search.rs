//! The literal search engine: line-oriented, case-sensitive substring
//! matching with a rendered context window around every hit. Independent of
//! the extraction path; the host walks the tree and reads files, every
//! match and every rendered context is computed here.

use vstd::prelude::*;
use vstd::string::StrSliceExecFns;
use crate::structs::{SearchMatch, FileSearchResult, SearchStats};
use crate::text::{split_lines, spec_lines, str_occurs, spec_occurs};

verus! {

/// The 0-based indices of the lines that contain the needle, in order.
pub open spec fn spec_match_indices(lines: Seq<Seq<char>>, needle: Seq<char>) -> Seq<int>
    decreases lines.len(),
{
    if lines.len() == 0 {
        Seq::empty()
    } else {
        let rest = spec_match_indices(lines.drop_last(), needle);
        if spec_occurs(lines.last(), needle) {
            rest.push(lines.len() - 1)
        } else {
            rest
        }
    }
}

/// First line of the context window around a hit at line `i`: `context`
/// lines before it, clamped to the start of the file.
pub open spec fn spec_window_start(i: int, context: int) -> int {
    if i - context >= 0 {
        i - context
    } else {
        0
    }
}

/// One past the last line of the context window around a hit at line `i`:
/// `context` lines after it, clamped to the end of the file.
pub open spec fn spec_window_end(i: int, context: int, line_count: int) -> int {
    if i + context + 1 <= line_count {
        i + context + 1
    } else {
        line_count
    }
}

/// One rendered line of a context window: the hit line carries a marker
/// prefix, surrounding lines a plain one.
pub open spec fn spec_rendered_line(line: Seq<char>, hit: bool) -> Seq<char> {
    (if hit {
        ">> "@
    } else {
        "   "@
    }) + line
}

/// The rendered window lines `[start, j)`, joined with newlines.
pub open spec fn spec_context_upto(lines: Seq<Seq<char>>, i: int, start: int, j: int) -> Seq<char>
    decreases j - start,
{
    if j <= start {
        Seq::empty()
    } else if j == start + 1 {
        spec_rendered_line(lines[start], start == i)
    } else {
        spec_context_upto(lines, i, start, j - 1) + "\n"@ + spec_rendered_line(lines[j - 1], j - 1 == i)
    }
}

/// The full rendered context of a hit at line `i`.
pub open spec fn spec_context(lines: Seq<Seq<char>>, i: int, context: int) -> Seq<char> {
    spec_context_upto(
        lines,
        i,
        spec_window_start(i, context),
        spec_window_end(i, context, lines.len() as int),
    )
}

/// Renders the context window around the hit at line `i`.
pub fn render_context(lines: &Vec<String>, i: usize, context_lines: usize) -> (r: String)
    requires
        i < lines@.len(),
    ensures
        r@ == spec_context(lines.deep_view(), i as int, context_lines as int),
{
    let n = lines.len();
    let start = if i >= context_lines {
        i - context_lines
    } else {
        0
    };
    let end = if context_lines < n - i {
        i + context_lines + 1
    } else {
        n
    };
    let mut acc = String::new();
    let mut j: usize = start;
    while j < end
        invariant
            n == lines@.len(),
            i < n,
            start == spec_window_start(i as int, context_lines as int),
            end == spec_window_end(i as int, context_lines as int, n as int),
            start <= j <= end,
            acc@ == spec_context_upto(lines.deep_view(), i as int, start as int, j as int),
        decreases end - j,
    {
        if j > start {
            acc.append("\n");
        }
        if j == i {
            acc.append(">> ");
        } else {
            acc.append("   ");
        }
        acc.append(lines[j].as_str());
        proof {
            assert(lines.deep_view()[j as int] == lines@[j as int]@);
        }
        j = j + 1;
    }
    acc
}

/// Searches the lines of one file. Result `k` answers the `k`-th matching
/// line: its 1-based line number and its rendered context window.
pub fn search_lines(lines: &Vec<String>, needle: &str, context_lines: usize) -> (r: Vec<
    SearchMatch,
>)
    ensures
        r@.len() == spec_match_indices(lines.deep_view(), needle@).len(),
        forall|k: int|
            0 <= k < r@.len() ==> {
                let idx = spec_match_indices(lines.deep_view(), needle@)[k];
                #[trigger] r@[k].line_number == idx + 1 && r@[k].context@ == spec_context(
                    lines.deep_view(),
                    idx,
                    context_lines as int,
                )
            },
{
    let mut r: Vec<SearchMatch> = Vec::new();
    let mut i: usize = 0;
    let ghost dv = lines.deep_view();
    while i < lines.len()
        invariant
            dv == lines.deep_view(),
            0 <= i <= lines@.len(),
            r@.len() == spec_match_indices(dv.take(i as int), needle@).len(),
            forall|k: int|
                0 <= k < r@.len() ==> {
                    let idx = spec_match_indices(dv.take(i as int), needle@)[k];
                    #[trigger] r@[k].line_number == idx + 1 && r@[k].context@ == spec_context(
                        dv,
                        idx,
                        context_lines as int,
                    )
                },
            forall|k: int|
                0 <= k < spec_match_indices(dv.take(i as int), needle@).len()
                    ==> #[trigger] spec_match_indices(dv.take(i as int), needle@)[k] < i,
        decreases lines@.len() - i,
    {
        let ghost pref = dv.take(i + 1);
        proof {
            assert(pref.drop_last() =~~= dv.take(i as int));
            assert(pref.last() == dv[i as int]);
            assert(dv[i as int] == lines@[i as int]@);
        }
        if str_occurs(lines[i].as_str(), needle) {
            let context = render_context(lines, i, context_lines);
            r.push(SearchMatch { line_number: i + 1, context });
        }
        i = i + 1;
    }
    proof {
        assert(dv.take(lines@.len() as int) =~~= dv);
    }
    r
}

/// Searches one file's full text: splits it into lines, finds every line
/// containing the needle, and renders each context window. `Some` exactly
/// when the file has at least one match, as only matching files are
/// reported.
pub fn search_file(path: &str, content: &str, needle: &str, context_lines: usize) -> (r: Option<
    FileSearchResult,
>)
    ensures
        ({
            let idxs = spec_match_indices(spec_lines(content@), needle@);
            &&& (r is Some <==> idxs.len() > 0)
            &&& r matches Some(fr) ==> {
                &&& fr.path@ == path@
                &&& fr.matches@.len() == idxs.len()
                &&& forall|k: int|
                    0 <= k < idxs.len() ==> #[trigger] fr.matches@[k].line_number == idxs[k] + 1
                        && fr.matches@[k].context@ == spec_context(
                        spec_lines(content@),
                        idxs[k],
                        context_lines as int,
                    )
            }
        }),
{
    let lines = split_lines(content);
    let matches = search_lines(&lines, needle, context_lines);
    if matches.len() == 0 {
        None
    } else {
        Some(FileSearchResult { path: String::from_str(path), matches })
    }
}

/// Fresh counters for a new literal-search run.
pub fn new_search_stats() -> (r: SearchStats)
    ensures
        r.files_scanned == 0,
        r.total_matches == 0,
        !r.timed_out,
{
    SearchStats { files_scanned: 0, total_matches: 0, timed_out: false }
}

/// Accounts one file that passed the pre-filters and was opened for
/// search, with however many matches it contained.
pub fn record_searched_file(stats: &mut SearchStats, match_count: usize)
    requires
        old(stats).files_scanned < usize::MAX,
        old(stats).total_matches + match_count <= usize::MAX,
    ensures
        final (stats).files_scanned == old(stats).files_scanned + 1,
        final (stats).total_matches == old(stats).total_matches + match_count,
        final (stats).timed_out == old(stats).timed_out,
{
    stats.files_scanned = stats.files_scanned + 1;
    stats.total_matches = stats.total_matches + match_count;
}

/// Records a deadline breach in the search counters. Monotone: the flag
/// never resets.
pub fn mark_search_timed_out(stats: &mut SearchStats)
    ensures
        final (stats).timed_out,
        final (stats).files_scanned == old(stats).files_scanned,
        final (stats).total_matches == old(stats).total_matches,
{
    stats.timed_out = true;
}

/// An invalid literal-search request, rejected before any traversal: a
/// zero timeout, an empty root path, an empty needle, or an empty
/// extension list.
pub enum SearchRequestError {
    ZeroTimeout,
    EmptyRoot,
    EmptyNeedle,
    NoExtensions,
}

/// Validates a literal-search request. `None` exactly when the timeout is
/// positive and the root path, the needle and the extension list are all
/// non-empty; the first violated rule is reported otherwise.
pub fn validate_search_request(
    root: &str,
    needle: &str,
    extensions: &Vec<String>,
    timeout_ms: u32,
) -> (r: Option<SearchRequestError>)
    ensures
        timeout_ms == 0 <==> (r matches Some(e) && e is ZeroTimeout),
        (timeout_ms > 0 && root@.len() == 0) <==> (r matches Some(e) && e is EmptyRoot),
        (timeout_ms > 0 && root@.len() > 0 && needle@.len() == 0) <==> (r matches Some(e)
            && e is EmptyNeedle),
        (timeout_ms > 0 && root@.len() > 0 && needle@.len() > 0 && extensions@.len() == 0) <==> (
        r matches Some(e) && e is NoExtensions),
        r is None <==> (timeout_ms > 0 && root@.len() > 0 && needle@.len() > 0
            && extensions@.len() > 0),
{
    if timeout_ms == 0 {
        Some(SearchRequestError::ZeroTimeout)
    } else if root.unicode_len() == 0 {
        Some(SearchRequestError::EmptyRoot)
    } else if needle.unicode_len() == 0 {
        Some(SearchRequestError::EmptyNeedle)
    } else if extensions.len() == 0 {
        Some(SearchRequestError::NoExtensions)
    } else {
        None
    }
}

} // verus!
