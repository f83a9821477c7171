//! The traversal controller's decision logic: request validation, the
//! per-file pre-filters (extension allow-list, size ceiling), the one-shot
//! deadline flag, and the aggregation of per-file results into a scan
//! outcome. The host walks the directory tree and reads files; every
//! decision about an entry is taken here.

use vstd::prelude::*;
use vstd::string::StrSliceExecFns;
use crate::structs::{FileContext, ScanResult};
use crate::text::{str_eq, trim_of, spec_split_char, split_char};

verus! {

/// Files above this many bytes are skipped by the structural scan, never
/// partially read.
pub const SCAN_FILE_SIZE_LIMIT: u64 = 1_000_000;

/// Files above this many bytes are skipped by the literal search.
pub const SEARCH_FILE_SIZE_LIMIT: u64 = 5_000_000;

/// An extension entry with its leading dots removed: the allow-list
/// tolerates entries written as ".rs" as well as "rs".
pub open spec fn spec_strip_dots(e: Seq<char>) -> Seq<char>
    decreases e.len(),
{
    if e.len() > 0 && e[0] == '.' {
        spec_strip_dots(e.drop_first())
    } else {
        e
    }
}

proof fn lemma_strip_dots_at(e: Seq<char>, i: int)
    requires
        0 <= i <= e.len(),
        forall|j: int| 0 <= j < i ==> e[j] == '.',
        i == e.len() || e[i] != '.',
    ensures
        spec_strip_dots(e) == e.subrange(i, e.len() as int),
    decreases i,
{
    if i == 0 {
        assert(e.subrange(0, e.len() as int) =~= e);
    } else {
        let d = e.drop_first();
        assert(forall|j: int| 0 <= j < i - 1 ==> d[j] == '.');
        lemma_strip_dots_at(d, i - 1);
        assert(d.subrange(i - 1, d.len() as int) =~= e.subrange(i, e.len() as int));
    }
}

/// Removes every leading dot from an extension entry.
pub fn strip_leading_dots(e: &str) -> (r: &str)
    ensures
        r@ == spec_strip_dots(e@),
{
    let n = e.unicode_len();
    let mut i: usize = 0;
    while i < n && e.get_char(i) == '.'
        invariant
            n == e@.len(),
            0 <= i <= n,
            forall|j: int| 0 <= j < i ==> e@[j] == '.',
        decreases n - i,
    {
        i = i + 1;
    }
    let r = e.substring_char(i, n);
    proof {
        lemma_strip_dots_at(e@, i as int);
    }
    r
}

/// The structural scan's extension allow-list test: the file's extension
/// equals some entry of the list, each entry read without its leading dots.
pub open spec fn spec_ext_allowed(ext: Seq<char>, extensions: Seq<Seq<char>>) -> bool {
    exists|i: int| 0 <= i < extensions.len() && spec_strip_dots(#[trigger] extensions[i]) == ext
}

/// Decides `spec_ext_allowed` for a file extension.
pub fn ext_allowed(ext: &str, extensions: &Vec<String>) -> (r: bool)
    ensures
        r == spec_ext_allowed(ext@, extensions.deep_view()),
{
    let mut i: usize = 0;
    while i < extensions.len()
        invariant
            0 <= i <= extensions@.len(),
            forall|j: int|
                0 <= j < i ==> spec_strip_dots(#[trigger] extensions.deep_view()[j]) != ext@,
        decreases extensions@.len() - i,
    {
        if str_eq(strip_leading_dots(extensions[i].as_str()), ext) {
            proof {
                assert(extensions.deep_view()[i as int] == extensions@[i as int]@);
            }
            return true;
        }
        proof {
            assert(extensions.deep_view()[i as int] == extensions@[i as int]@);
        }
        i = i + 1;
    }
    false
}

/// The extension list parsed out of a comma-separated request argument:
/// fields split on commas, trimmed, empties dropped.
pub open spec fn spec_parse_extensions_fields(fields: Seq<Seq<char>>) -> Seq<Seq<char>>
    decreases fields.len(),
{
    if fields.len() == 0 {
        Seq::empty()
    } else {
        let rest = spec_parse_extensions_fields(fields.drop_last());
        let t = trim_of(fields.last());
        if t.len() > 0 {
            rest.push(t)
        } else {
            rest
        }
    }
}

pub open spec fn spec_parse_extensions(csv: Seq<char>) -> Seq<Seq<char>> {
    spec_parse_extensions_fields(spec_split_char(csv, ','))
}

/// Parses the request's comma-separated extension list: split on commas,
/// trim each field, keep the non-empty ones. An empty result means the
/// request is invalid.
pub fn parse_extensions(csv: &str) -> (r: Vec<String>)
    ensures
        r.deep_view() == spec_parse_extensions(csv@),
{
    let fields = split_char(csv, ',');
    let mut out: Vec<String> = Vec::new();
    let mut i: usize = 0;
    while i < fields.len()
        invariant
            fields.deep_view() == spec_split_char(csv@, ','),
            0 <= i <= fields@.len(),
            out.deep_view() =~~= spec_parse_extensions_fields(
                fields.deep_view().take(i as int),
            ),
        decreases fields@.len() - i,
    {
        let t = String::from_str(fields[i].as_str().trim());
        let ghost old_out = out.deep_view();
        let ghost pref = fields.deep_view().take(i + 1);
        proof {
            assert(pref.drop_last() =~~= fields.deep_view().take(i as int));
            assert(pref.last() == fields.deep_view()[i as int]);
            assert(fields.deep_view()[i as int] == fields@[i as int]@);
        }
        if t.as_str().unicode_len() > 0 {
            out.push(t);
            proof {
                assert(out.deep_view() =~~= old_out.push(trim_of(fields@[i as int]@)));
            }
        }
        proof {
            assert(out.deep_view() =~~= spec_parse_extensions_fields(pref));
        }
        i = i + 1;
    }
    proof {
        assert(fields.deep_view().take(fields@.len() as int) =~~= fields.deep_view());
    }
    out
}

/// The deadline has been breached: a wall-clock budget was set and the
/// elapsed time exceeds it.
pub open spec fn spec_deadline_exceeded(elapsed_ms: u64, timeout_ms: u32) -> bool {
    timeout_ms > 0 && elapsed_ms > timeout_ms as u64
}

/// The one-shot deadline flag shared by every worker of a request: it can
/// only move from unfired to fired, and reports whether this very
/// observation made the transition, so the transition is logged exactly once.
pub struct DeadlineFlag {
    pub fired: bool,
}

impl DeadlineFlag {
    /// A fresh flag for a new request.
    pub fn new() -> (r: Self)
        ensures
            !r.fired,
    {
        DeadlineFlag { fired: false }
    }

    /// One worker's deadline check before or after a unit of work. The flag
    /// is monotone: once fired it stays fired. Returns whether the worker
    /// must quit, and whether this call made the false-to-true transition.
    pub fn observe(&mut self, elapsed_ms: u64, timeout_ms: u32) -> (r: (bool, bool))
        ensures
            final (self).fired == (old(self).fired || spec_deadline_exceeded(
                elapsed_ms,
                timeout_ms,
            )),
            r.0 == final (self).fired,
            r.1 == (!old(self).fired && spec_deadline_exceeded(elapsed_ms, timeout_ms)),
    {
        let exceeded = timeout_ms > 0 && elapsed_ms > timeout_ms as u64;
        let tripped = !self.fired && exceeded;
        if exceeded {
            self.fired = true;
        }
        (self.fired, tripped)
    }
}

/// The running aggregate of one structural scan: the collected non-empty
/// file contexts, the progress counter, and the timeout state.
pub struct ScanAggregator {
    pub file_contexts: Vec<FileContext>,
    pub files_processed: usize,
    pub timed_out: bool,
    pub debug_log: Option<Vec<String>>,
}

impl ScanAggregator {
    /// A fresh aggregate for a new scan.
    pub fn new(debug: bool) -> (r: Self)
        ensures
            r.file_contexts@.len() == 0,
            r.files_processed == 0,
            !r.timed_out,
            debug ==> (r.debug_log matches Some(l) && l@.len() == 0),
            !debug ==> r.debug_log is None,
    {
        ScanAggregator {
            file_contexts: Vec::new(),
            files_processed: 0,
            timed_out: false,
            debug_log: if debug {
                Some(Vec::new())
            } else {
                None
            },
        }
    }

    /// Counts one entry that reached the "is a regular file" test. This is
    /// the progress counter, not a "functions found" counter: skipped files
    /// count too.
    pub fn note_file(&mut self)
        requires
            old(self).files_processed < usize::MAX,
        ensures
            final (self).files_processed == old(self).files_processed + 1,
            final (self).file_contexts == old(self).file_contexts,
            final (self).timed_out == old(self).timed_out,
            final (self).debug_log == old(self).debug_log,
    {
        self.files_processed = self.files_processed + 1;
    }

    /// Collects one successfully parsed file. Only files that produced at
    /// least one function are kept.
    pub fn add_context(&mut self, context: FileContext)
        requires
            context.functions@.len() > 0,
        ensures
            final (self).file_contexts@ == old(self).file_contexts@.push(context),
            final (self).files_processed == old(self).files_processed,
            final (self).timed_out == old(self).timed_out,
            final (self).debug_log == old(self).debug_log,
    {
        self.file_contexts.push(context);
    }

    /// Records a deadline breach. Monotone: the flag never resets.
    pub fn mark_timed_out(&mut self)
        ensures
            final (self).timed_out,
            final (self).file_contexts == old(self).file_contexts,
            final (self).files_processed == old(self).files_processed,
            final (self).debug_log == old(self).debug_log,
    {
        self.timed_out = true;
    }

    /// Appends one diagnostic line, kept only when diagnostics were asked
    /// for at construction.
    pub fn log(&mut self, line: String)
        ensures
            final (self).file_contexts == old(self).file_contexts,
            final (self).files_processed == old(self).files_processed,
            final (self).timed_out == old(self).timed_out,
            old(self).debug_log matches Some(l) ==> final (self).debug_log matches Some(l2)
                && l2@ == l@.push(line),
            old(self).debug_log is None ==> final (self).debug_log is None,
    {
        match &mut self.debug_log {
            Some(l) => {
                l.push(line);
            },
            None => {},
        }
    }

    /// The assembled scan outcome.
    pub fn finish(self) -> (r: ScanResult)
        ensures
            r.file_contexts == self.file_contexts,
            r.files_processed_before_timeout == self.files_processed,
            r.timed_out_internally == self.timed_out,
            r.debug_log == self.debug_log,
    {
        ScanResult {
            file_contexts: self.file_contexts,
            debug_log: self.debug_log,
            timed_out_internally: self.timed_out,
            files_processed_before_timeout: self.files_processed,
        }
    }
}

/// An invalid structural-scan request, rejected before any traversal: a
/// zero timeout, an empty root path, or an empty extension list.
pub enum ScanRequestError {
    ZeroTimeout,
    EmptyRoot,
    NoExtensions,
}

/// Validates a structural-scan request. `None` exactly when the timeout is
/// positive, the root path is non-empty, and the parsed extension list is
/// non-empty; the first violated rule is reported otherwise.
pub fn validate_scan_request(root: &str, extensions: &Vec<String>, timeout_ms: u32) -> (r: Option<
    ScanRequestError,
>)
    ensures
        timeout_ms == 0 <==> (r matches Some(e) && e is ZeroTimeout),
        (timeout_ms > 0 && root@.len() == 0) <==> (r matches Some(e) && e is EmptyRoot),
        (timeout_ms > 0 && root@.len() > 0 && extensions@.len() == 0) <==> (r matches Some(e)
            && e is NoExtensions),
        r is None <==> (timeout_ms > 0 && root@.len() > 0 && extensions@.len() > 0),
{
    if timeout_ms == 0 {
        Some(ScanRequestError::ZeroTimeout)
    } else if root.unicode_len() == 0 {
        Some(ScanRequestError::EmptyRoot)
    } else if extensions.len() == 0 {
        Some(ScanRequestError::NoExtensions)
    } else {
        None
    }
}

} // verus!
