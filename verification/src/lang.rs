//! The grammars the indexer can parse, keyed by file extension.

use vstd::prelude::*;

verus! {

/// The grammars the indexer can parse, one per supported file extension
/// family. A file whose extension maps to none is stored as an opaque blob
/// with no entities, and no parser is invoked for it.
#[derive(PartialEq, Eq, Structural, Clone, Copy, Debug)]
pub enum LanguageKind {
    Python,
    Rust,
    Zig,
    Cpp,
    C,
    TypeScript,
    Tsx,
    JavaScript,
}

/// Which grammar parses files with the given extension.
pub open spec fn spec_language_for(ext: Seq<char>) -> Option<LanguageKind> {
    if ext == "py"@ {
        Some(LanguageKind::Python)
    } else if ext == "rs"@ {
        Some(LanguageKind::Rust)
    } else if ext == "zig"@ {
        Some(LanguageKind::Zig)
    } else if ext == "cpp"@ || ext == "cc"@ || ext == "cxx"@ {
        Some(LanguageKind::Cpp)
    } else if ext == "c"@ || ext == "h"@ {
        Some(LanguageKind::C)
    } else if ext == "ts"@ {
        Some(LanguageKind::TypeScript)
    } else if ext == "tsx"@ {
        Some(LanguageKind::Tsx)
    } else if ext == "js"@ || ext == "jsx"@ {
        Some(LanguageKind::JavaScript)
    } else {
        None
    }
}

/// The grammar for a file extension, or `None` when the extension is
/// unsupported.
pub fn get_language(ext: &String) -> (r: Option<LanguageKind>)
    ensures
        r == spec_language_for(ext@),
{
    if *ext == String::from_str("py") {
        Some(LanguageKind::Python)
    } else if *ext == String::from_str("rs") {
        Some(LanguageKind::Rust)
    } else if *ext == String::from_str("zig") {
        Some(LanguageKind::Zig)
    } else if *ext == String::from_str("cpp") || *ext == String::from_str("cc") || *ext
        == String::from_str("cxx") {
        Some(LanguageKind::Cpp)
    } else if *ext == String::from_str("c") || *ext == String::from_str("h") {
        Some(LanguageKind::C)
    } else if *ext == String::from_str("ts") {
        Some(LanguageKind::TypeScript)
    } else if *ext == String::from_str("tsx") {
        Some(LanguageKind::Tsx)
    } else if *ext == String::from_str("js") || *ext == String::from_str("jsx") {
        Some(LanguageKind::JavaScript)
    } else {
        None
    }
}

} // verus!
