//! The data model: function records, per-file contexts, scan and search
//! results, and the statistics that accompany them.

use vstd::prelude::*;

verus! {

/// One extracted function: a required name, and, depending on the requested
/// detail level, the text of its signature or full definition and the
/// comment immediately preceding it.
pub struct FunctionInfo {
    pub name: String,
    pub body: Option<String>,
    pub comment: Option<String>,
}

/// All functions extracted from one successfully parsed file.
pub struct FileContext {
    pub path: String,
    pub functions: Vec<FunctionInfo>,
}

/// Aggregate outcome of one structural scan.
pub struct ScanResult {
    pub file_contexts: Vec<FileContext>,
    pub debug_log: Option<Vec<String>>,
    pub timed_out_internally: bool,
    pub files_processed_before_timeout: usize,
}

/// One matching line of a literal search, with its rendered context window.
pub struct SearchMatch {
    pub line_number: usize,
    pub context: String,
}

/// All literal-search matches found in one file.
pub struct FileSearchResult {
    pub path: String,
    pub matches: Vec<SearchMatch>,
}

/// Counters accumulated over a whole literal-search run.
pub struct SearchStats {
    pub files_scanned: usize,
    pub total_matches: usize,
    pub timed_out: bool,
}

/// Aggregate outcome of one literal search.
pub struct SearchServiceResult {
    pub results: Vec<FileSearchResult>,
    pub stats: SearchStats,
    pub debug_log: Option<Vec<String>>,
}

/// One ranked answer of a concept search. `similarity` is the host-supplied
/// similarity key: an integer whose order is the order of the similarity
/// scores (the host owns the floating-point cosine values and maps them to
/// keys through any order-preserving injection).
pub struct ConceptSearchResultItem {
    pub file: String,
    pub function: String,
    pub similarity: i64,
    pub body: Option<String>,
}

/// Counters accumulated over a whole concept-search run. Wall-clock duration
/// is measured by the host, which owns the clock.
pub struct ConceptSearchStats {
    pub functions_analyzed: usize,
}

/// Aggregate outcome of one concept search.
pub struct ConceptSearchServiceResult {
    pub results: Vec<ConceptSearchResultItem>,
    pub stats: ConceptSearchStats,
    pub error: Option<String>,
    pub debug_log: Option<Vec<String>>,
}

impl Clone for FunctionInfo {
    fn clone(&self) -> (r: Self)
        ensures
            r == *self,
    {
        FunctionInfo {
            name: self.name.clone(),
            body: match &self.body {
                Some(b) => Some(b.clone()),
                None => None,
            },
            comment: match &self.comment {
                Some(c) => Some(c.clone()),
                None => None,
            },
        }
    }
}

} // verus!
