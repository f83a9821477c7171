//! The language registry: which file extensions are supported, and the
//! structural query text run against a parsed tree for each supported
//! language and detail level.

use vstd::prelude::*;
use crate::text::str_eq;

verus! {

/// A supported language. The registry maps a file extension to one of these;
/// everything else is "unsupported" and excludes the file, never fails.
#[derive(PartialEq, Eq, Structural, Clone, Copy, Debug)]
pub enum Lang {
    CSharp,
    Python,
    Rust,
    TypeScript,
}

/// The extension-to-language registry, as a predicate on the extension text.
pub open spec fn spec_lang_of_extension(e: Seq<char>) -> Option<Lang> {
    if e == "cs"@ {
        Some(Lang::CSharp)
    } else if e == "py"@ {
        Some(Lang::Python)
    } else if e == "rs"@ {
        Some(Lang::Rust)
    } else if e == "ts"@ {
        Some(Lang::TypeScript)
    } else {
        None
    }
}

/// True when the detail level asks for body text: signature (1 and 2) or
/// full definition (3). Level 0 and any other value keep names only.
pub open spec fn spec_detailed(compactness: u8) -> bool {
    1 <= compactness <= 3
}

/// The structural query text for one language and detail level. Levels 1-3
/// share one query (they differ only in what text is kept afterwards),
/// which also captures every comment node so the extraction engine can
/// attach the comment group adjacent to each declaration; level 0 and any
/// unrecognized level run the names-only query.
pub open spec fn spec_query(lang: Lang, compactness: u8) -> Seq<char> {
    match lang {
        Lang::CSharp => if spec_detailed(compactness) {
            "((method_declaration (identifier) @method_name body: (block) @body) @function_definition)\n((comment) @comment)"@
        } else {
            "((method_declaration (identifier) @method_name))"@
        },
        Lang::Python => if spec_detailed(compactness) {
            "((function_definition name: (identifier) @method_name body: (block) @body) @function_definition)\n((comment) @comment)"@
        } else {
            "((function_definition name: (identifier) @method_name))"@
        },
        Lang::Rust => if spec_detailed(compactness) {
            "((function_item name: (identifier) @method_name body: (block) @body) @function_definition)\n((line_comment) @comment)\n((block_comment) @comment)"@
        } else {
            "((function_item name: (identifier) @method_name))"@
        },
        Lang::TypeScript => if spec_detailed(compactness) {
            "((function_declaration name: (identifier) @method_name body: (statement_block) @body) @function_definition)\n((method_definition name: (property_identifier) @method_name body: (statement_block) @body) @function_definition)\n((comment) @comment)"@
        } else {
            "((function_declaration name: (identifier) @method_name))\n((method_definition name: (property_identifier) @method_name))"@
        },
    }
}

/// Registry lookup by extension tag; `None` means the language is
/// unsupported and the file is excluded.
pub fn lang_of_extension(extension: &str) -> (r: Option<Lang>)
    ensures
        r == spec_lang_of_extension(extension@),
{
    if str_eq(extension, "cs") {
        Some(Lang::CSharp)
    } else if str_eq(extension, "py") {
        Some(Lang::Python)
    } else if str_eq(extension, "rs") {
        Some(Lang::Rust)
    } else if str_eq(extension, "ts") {
        Some(Lang::TypeScript)
    } else {
        None
    }
}

/// The query text run for one supported language at one detail level.
pub fn query_for(lang: Lang, compactness: u8) -> (r: String)
    ensures
        r@ == spec_query(lang, compactness),
{
    let detailed = 1 <= compactness && compactness <= 3;
    match lang {
        Lang::CSharp => if detailed {
            String::from_str("((method_declaration (identifier) @method_name body: (block) @body) @function_definition)\n((comment) @comment)")
        } else {
            String::from_str("((method_declaration (identifier) @method_name))")
        },
        Lang::Python => if detailed {
            String::from_str("((function_definition name: (identifier) @method_name body: (block) @body) @function_definition)\n((comment) @comment)")
        } else {
            String::from_str("((function_definition name: (identifier) @method_name))")
        },
        Lang::Rust => if detailed {
            String::from_str("((function_item name: (identifier) @method_name body: (block) @body) @function_definition)\n((line_comment) @comment)\n((block_comment) @comment)")
        } else {
            String::from_str("((function_item name: (identifier) @method_name))")
        },
        Lang::TypeScript => if detailed {
            String::from_str("((function_declaration name: (identifier) @method_name body: (statement_block) @body) @function_definition)\n((method_definition name: (property_identifier) @method_name body: (statement_block) @body) @function_definition)\n((comment) @comment)")
        } else {
            String::from_str("((function_declaration name: (identifier) @method_name))\n((method_definition name: (property_identifier) @method_name))")
        },
    }
}

/// The query text for a file extension: registry lookup, then the query for
/// the found language. `None` exactly when the extension is unsupported.
pub fn get_query(extension: &str, compactness: u8) -> (r: Option<String>)
    ensures
        match spec_lang_of_extension(extension@) {
            Some(l) => r matches Some(q) && q@ == spec_query(l, compactness),
            None => r is None,
        },
{
    match lang_of_extension(extension) {
        Some(l) => Some(query_for(l, compactness)),
        None => None,
    }
}

} // verus!
