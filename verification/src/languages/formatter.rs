//! The external formatter each language's output is run through, as a
//! program and its arguments.
use vstd::prelude::*;
use crate::indentation::{Indentation, has_votes, is_detected};
use crate::languages::LanguageName;
use crate::languages::python::lemma_detected_unique;
use crate::text::{decimal, push_decimal, push_str};

verus! {

/// A formatter to run: the program and its arguments. The source goes to
/// its standard input and the formatted text comes from its standard
/// output.
#[derive(Debug, Clone)]
pub struct FormatterCommand {
    pub program: String,
    pub args: Vec<String>,
}

/// The indentation biome is told to use: the file's own, two spaces when
/// none is detected.
pub open spec fn biome_style(s: Seq<char>) -> Indentation {
    if has_votes(s) {
        choose|k: Indentation| is_detected(s, k)
    } else {
        Indentation::Spaces(2)
    }
}

pub open spec fn texts(v: Seq<String>) -> Seq<Seq<char>> {
    v.map_values(|x: String| x@)
}

/// The program and arguments that format `language` source: rustfmt at the
/// crate's edition, ruff, or biome with the file's path and indentation.
/// TOML and plain text are formatted without a program.
pub open spec fn formatter_for(language: LanguageName, source: Seq<char>, path: Seq<char>, edition: Seq<char>) -> Option<(Seq<char>, Seq<Seq<char>>)> {
    match language {
        LanguageName::Rust => Some(("rustfmt"@, seq!["--emit"@, "stdout"@, "--edition"@, edition])),
        LanguageName::Python => Some(("ruff"@, seq!["format"@, "-"@])),
        LanguageName::Toml | LanguageName::Other => None,
        _ => Some((
            "biome"@,
            seq!["format"@, "--stdin-file-path="@ + path, "--diagnostic-level=error"@] + match biome_style(source) {
                Indentation::Spaces(n) => seq!["--indent-style=space"@, "--indent-width="@ + decimal(n as nat)],
                Indentation::Tabs => seq!["--indent-style=tab"@],
            },
        )),
    }
}

fn owned(s: &str) -> (r: String)
    ensures
        r@ == s@,
{
    s.to_owned()
}

fn prefixed(prefix: &str, s: &str) -> (r: String)
    ensures
        r@ == prefix@ + s@,
{
    let mut r = String::new();
    push_str(&mut r, prefix);
    push_str(&mut r, s);
    r
}

/// The command that formats `source` in `language` (see
/// [`formatter_for`]); `edition` is the Rust edition to format at.
pub fn formatter_command(language: LanguageName, source: &str, file_path: &str, edition: &str) -> (r: Option<FormatterCommand>)
    ensures
        match (r, formatter_for(language, source@, file_path@, edition@)) {
            (Some(c), Some((p, a))) => c.program@ == p && texts(c.args@) == a,
            (None, None) => true,
            _ => false,
        },
{
    match language {
        LanguageName::Rust => {
            let args = vec![owned("--emit"), owned("stdout"), owned("--edition"), owned(edition)];
            proof {
                assert(texts(args@) =~= seq!["--emit"@, "stdout"@, "--edition"@, edition@]);
            }
            Some(FormatterCommand { program: owned("rustfmt"), args })
        },
        LanguageName::Python => {
            let args = vec![owned("format"), owned("-")];
            proof {
                assert(texts(args@) =~= seq!["format"@, "-"@]);
            }
            Some(FormatterCommand { program: owned("ruff"), args })
        },
        LanguageName::Toml | LanguageName::Other => None,
        _ => {
            let style = match Indentation::determine(source) {
                Some(k) => {
                    proof {
                        let w = choose|w: Indentation| is_detected(source@, w);
                        lemma_detected_unique(source@, k, w);
                    }
                    k
                },
                None => Indentation::Spaces(2),
            };
            let mut args = vec![owned("format"), prefixed("--stdin-file-path=", file_path), owned("--diagnostic-level=error")];
            let ghost head = texts(args@);
            match style {
                Indentation::Spaces(n) => {
                    args.push(owned("--indent-style=space"));
                    let mut w = owned("--indent-width=");
                    push_decimal(&mut w, n as usize);
                    args.push(w);
                },
                Indentation::Tabs => {
                    args.push(owned("--indent-style=tab"));
                },
            }
            proof {
                assert(head =~= seq!["format"@, "--stdin-file-path="@ + file_path@, "--diagnostic-level=error"@]);
                match style {
                    Indentation::Spaces(n) => {
                        assert(texts(args@) =~= head + seq!["--indent-style=space"@, "--indent-width="@ + decimal(n as nat)]);
                    },
                    Indentation::Tabs => {
                        assert(texts(args@) =~= head + seq!["--indent-style=tab"@]);
                    },
                }
            }
            Some(FormatterCommand { program: owned("biome"), args })
        },
    }
}

} // verus!
