//! The languages the editor knows, and how a file's language is recognized.
use vstd::prelude::*;
use crate::item::chars_are;
use crate::text::chars_of;

pub mod ecma;
pub mod rust;
pub mod semantic_grouping;
pub mod toml;
pub mod python;
pub mod markdown;
pub mod traits;
pub mod formatter;

verus! {

/// A supported language; `Other` is plain text, edited without a grammar.
#[derive(Debug, Clone, Copy, PartialEq, Eq, Hash, Structural)]
pub enum LanguageName {
    Rust,
    Json,
    Toml,
    Javascript,
    Typescript,
    Tsx,
    Python,
    Jsx,
    Other,
}

/// The snake-case name of a language.
pub open spec fn language_text(l: LanguageName) -> Seq<char> {
    match l {
        LanguageName::Rust => "rust"@,
        LanguageName::Json => "json"@,
        LanguageName::Toml => "toml"@,
        LanguageName::Javascript => "javascript"@,
        LanguageName::Typescript => "typescript"@,
        LanguageName::Tsx => "tsx"@,
        LanguageName::Python => "python"@,
        LanguageName::Jsx => "jsx"@,
        LanguageName::Other => "other"@,
    }
}

/// The language a name or abbreviation stands for (`rs`, `js`, `ts`, `py` are
/// accepted); anything else is `Other`.
pub open spec fn language_named(s: Seq<char>) -> LanguageName {
    if s == "rust"@ || s == "rs"@ {
        LanguageName::Rust
    } else if s == "json"@ {
        LanguageName::Json
    } else if s == "toml"@ {
        LanguageName::Toml
    } else if s == "javascript"@ || s == "js"@ {
        LanguageName::Javascript
    } else if s == "jsx"@ {
        LanguageName::Jsx
    } else if s == "ts"@ || s == "typescript"@ {
        LanguageName::Typescript
    } else if s == "tsx"@ {
        LanguageName::Tsx
    } else if s == "py"@ || s == "python"@ {
        LanguageName::Python
    } else {
        LanguageName::Other
    }
}

/// The language a file extension belongs to, if any.
pub open spec fn language_of_extension(ext: Seq<char>) -> Option<LanguageName> {
    if ext == "rs"@ {
        Some(LanguageName::Rust)
    } else if ext == "json"@ {
        Some(LanguageName::Json)
    } else if ext == "toml"@ {
        Some(LanguageName::Toml)
    } else if ext == "js"@ {
        Some(LanguageName::Javascript)
    } else if ext == "ts"@ {
        Some(LanguageName::Typescript)
    } else if ext == "tsx"@ {
        Some(LanguageName::Tsx)
    } else if ext == "py"@ || ext == "pyi"@ {
        Some(LanguageName::Python)
    } else if ext == "jsx"@ {
        Some(LanguageName::Jsx)
    } else {
        None
    }
}

impl LanguageName {
    /// The language's snake-case name.
    pub fn as_str(&self) -> (s: &'static str)
        ensures
            s@ == language_text(*self),
    {
        match self {
            LanguageName::Rust => "rust",
            LanguageName::Json => "json",
            LanguageName::Toml => "toml",
            LanguageName::Javascript => "javascript",
            LanguageName::Typescript => "typescript",
            LanguageName::Tsx => "tsx",
            LanguageName::Python => "python",
            LanguageName::Jsx => "jsx",
            LanguageName::Other => "other",
        }
    }

    /// Read a language name; unknown names are `Other`.
    pub fn from_name(s: &str) -> (l: LanguageName)
        ensures
            l == language_named(s@),
    {
        let c = chars_of(s);
        if chars_are(&c, "rust") || chars_are(&c, "rs") {
            LanguageName::Rust
        } else if chars_are(&c, "json") {
            LanguageName::Json
        } else if chars_are(&c, "toml") {
            LanguageName::Toml
        } else if chars_are(&c, "javascript") || chars_are(&c, "js") {
            LanguageName::Javascript
        } else if chars_are(&c, "jsx") {
            LanguageName::Jsx
        } else if chars_are(&c, "ts") || chars_are(&c, "typescript") {
            LanguageName::Typescript
        } else if chars_are(&c, "tsx") {
            LanguageName::Tsx
        } else if chars_are(&c, "py") || chars_are(&c, "python") {
            LanguageName::Python
        } else {
            LanguageName::Other
        }
    }

}

/// The text after the last `/` of a path, when it is a file name: not
/// empty, `.` or `..`, in a path with no `\\` and no `:`. On every
/// platform such a name is the path's last component (`\\` separates and
/// `:` begins a prefix only on some).
pub open spec fn plain_file_name(path: Seq<char>) -> Option<Seq<char>> {
    let k = last_index_of(path, '/');
    let name = path.skip(k + 1);
    if last_index_of(path, '\\') >= 0 || last_index_of(path, ':') >= 0 {
        None
    } else if name.len() == 0 || name == "."@ || name == ".."@ {
        None
    } else {
        Some(name)
    }
}

/// The index of the last `c` in `s`, or -1.
pub open spec fn last_index_of(s: Seq<char>, c: char) -> int
    decreases s.len(),
{
    if s.len() == 0 {
        -1
    } else if s.last() == c {
        s.len() - 1
    } else {
        last_index_of(s.drop_last(), c)
    }
}

/// The extension of a file name as the documentation of `Path::extension`
/// gives it: the part after the final `.`, unless there is none or the only
/// one begins the name.
pub open spec fn name_extension(name: Seq<char>) -> Option<Seq<char>> {
    let k = last_index_of(name, '.');
    if k <= 0 {
        None
    } else {
        Some(name.skip(k + 1))
    }
}

/// `Path::new(path).extension()`, when it is valid UTF-8. Where the path is
/// a plain file name after its last `/` (see [`plain_file_name`]), the result
/// is that name's extension by the documented rule. For other paths the
/// result follows the path rules of the platform the program runs on, so
/// nothing is said of it.
#[verifier::external_body]
pub(crate) fn extension_of(path: &str) -> (e: Option<String>)
    ensures
        plain_file_name(path@) matches Some(n) ==> match e {
            Some(x) => name_extension(n) == Some(x@),
            None => name_extension(n) is None,
        },
{
    std::path::Path::new(path).extension().and_then(|x| x.to_str()).map(|x| x.to_string())
}

/// The language of a file extension, if any (see [`language_of_extension`]).
pub fn language_for_extension(ext: Option<&str>) -> (l: Option<LanguageName>)
    ensures
        l == (match ext {
            Some(e) => language_of_extension(e@),
            None => None,
        }),
{
    match ext {
        None => None,
        Some(ext) => {
            let c = chars_of(ext);
            if chars_are(&c, "rs") {
                Some(LanguageName::Rust)
            } else if chars_are(&c, "json") {
                Some(LanguageName::Json)
            } else if chars_are(&c, "toml") {
                Some(LanguageName::Toml)
            } else if chars_are(&c, "js") {
                Some(LanguageName::Javascript)
            } else if chars_are(&c, "ts") {
                Some(LanguageName::Typescript)
            } else if chars_are(&c, "tsx") {
                Some(LanguageName::Tsx)
            } else if chars_are(&c, "py") || chars_are(&c, "pyi") {
                Some(LanguageName::Python)
            } else if chars_are(&c, "jsx") {
                Some(LanguageName::Jsx)
            } else {
                None
            }
        },
    }
}

/// The language a file's extension names: for a path that is a plain file
/// name after its last `/`, that of its extension (see [`name_extension`]);
/// for any path, the language of some extension or none (see
/// [`language_for_extension`] for each extension).
pub open spec fn path_language(path: Seq<char>, l: Option<LanguageName>) -> bool {
    &&& plain_file_name(path) matches Some(n) ==> l == (match name_extension(n) {
        Some(e) => language_of_extension(e),
        None => None,
    })
    &&& l is Some ==> exists|e: Seq<char>| language_of_extension(e) == l
}

/// The language of a file, from its extension.
pub fn detect_language_from_path(file_path: &str) -> (l: Option<LanguageName>)
    ensures
        path_language(file_path@, l),
{
    let ext = extension_of(file_path);
    let l = match &ext {
        Some(e) => language_for_extension(Some(e.as_str())),
        None => language_for_extension(None),
    };
    proof {
        if let Some(e) = ext {
            if l is Some {
                assert(language_of_extension(e@) == l);
            }
        }
    }
    l
}

/// The language of a file, by extension, falling back to `Other`, unless a
/// hint names it.
pub fn language_with_hint(file_path: &str, hint: Option<LanguageName>) -> (l: LanguageName)
    ensures
        hint matches Some(h) ==> l == h,
        hint is None ==> exists|d: Option<LanguageName>| path_language(file_path@, d) && l == (match d {
            Some(x) => x,
            None => LanguageName::Other,
        }),
{
    match hint {
        Some(h) => h,
        None => match detect_language_from_path(file_path) {
            Some(l) => l,
            None => LanguageName::Other,
        },
    }
}

} // verus!
