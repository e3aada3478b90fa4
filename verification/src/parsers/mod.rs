//! Syntax checks on source text, by language, and the parser's own reading
//! of a file's language from its path.
pub mod rust;

use vstd::prelude::*;
use crate::item::chars_are;
use crate::languages::{extension_of, name_extension, plain_file_name};
use crate::text::chars_of;

verus! {

/// The parser's name for the language of a file extension: Rust, TypeScript
/// (for `.ts` and `.tsx`), JavaScript (for `.js` and `.jsx`) and Python.
pub open spec fn parser_language_of_extension(e: Seq<char>) -> Option<Seq<char>> {
    if e == "rs"@ {
        Some("rust"@)
    } else if e == "ts"@ || e == "tsx"@ {
        Some("typescript"@)
    } else if e == "js"@ || e == "jsx"@ {
        Some("javascript"@)
    } else if e == "py"@ {
        Some("python"@)
    } else {
        None
    }
}

/// The parser's name for the language of a file extension, if any (see
/// [`parser_language_of_extension`]).
pub fn parser_language_for_extension(ext: Option<&str>) -> (r: Option<String>)
    ensures
        match ext {
            Some(e) => match (r, parser_language_of_extension(e@)) {
                (Some(x), Some(m)) => x@ == m,
                (None, None) => true,
                _ => false,
            },
            None => r is None,
        },
{
    match ext {
        None => None,
        Some(ext) => {
            let c = chars_of(ext);
            proof {
                reveal_strlit("rs");
                reveal_strlit("ts");
                reveal_strlit("tsx");
                reveal_strlit("js");
                reveal_strlit("jsx");
                reveal_strlit("py");
            }
            if chars_are(&c, "rs") {
                Some(String::from_str("rust"))
            } else if chars_are(&c, "ts") || chars_are(&c, "tsx") {
                Some(String::from_str("typescript"))
            } else if chars_are(&c, "js") || chars_are(&c, "jsx") {
                Some(String::from_str("javascript"))
            } else if chars_are(&c, "py") {
                Some(String::from_str("python"))
            } else {
                None
            }
        },
    }
}

/// The parser's name for the language of a file, from its extension; `None`
/// for a path without one or with one the parser does not know. For a path
/// that is a plain file name after its last `/`, the extension is that of the
/// name (see [`name_extension`]).
pub fn detect_language_from_path(file_path: &str) -> (r: Option<String>)
    ensures
        plain_file_name(file_path@) matches Some(n) ==> match name_extension(n) {
            Some(e) => match (r, parser_language_of_extension(e)) {
                (Some(x), Some(m)) => x@ == m,
                (None, None) => true,
                _ => false,
            },
            None => r is None,
        },
        r matches Some(x) ==> exists|e: Seq<char>| parser_language_of_extension(e) == Some(x@),
{
    let ext = extension_of(file_path);
    match &ext {
        Some(e) => parser_language_for_extension(Some(e.as_str())),
        None => parser_language_for_extension(None),
    }
}

} // verus!
