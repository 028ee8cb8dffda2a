//! Selecting snippets for export and naming their destination files.
//!
//! Exporting narrows the collection by identifier, tag and language in
//! turn, and writes each selected snippet's code to `<id>.<ext>`, the
//! extension taken from a fixed language-name table with `txt` for an
//! unrecognised or absent language.  Writing the files, and skipping one
//! that already exists, is the front end's concern.

use crate::errors::VaultError;
use crate::filter::{
    language_dim_ok, language_matches, tag_dim_ok, tag_matches, terms_correspond,
};
use crate::snippet::{clone_snippets, Snippet};
use crate::text::{dec_rep, split_and_trim, u32_to_string};
use vstd::prelude::*;
use vstd::string::{StrSliceExecFns, StringExecFns};

verus! {

/// The snippets an export call selects: narrowed to the requested
/// identifier, then to the tag dimension, then to the language dimension;
/// an absent criterion narrows nothing.
pub open spec fn export_selected(
    c: Seq<Snippet>,
    id: Option<u32>,
    tag: Option<String>,
    language: Option<String>,
) -> Seq<Snippet> {
    let by_id = match id {
        Some(v) => c.filter(|s: Snippet| s.id == v),
        None => c,
    };
    let by_tag = match tag {
        Some(q) => by_id.filter(|s: Snippet| tag_matches(s, q@)),
        None => by_id,
    };
    match language {
        Some(q) => by_tag.filter(|s: Snippet| language_matches(s, q@)),
        None => by_tag,
    }
}

fn filter_by_id(v: Vec<Snippet>, id: u32) -> (r: Vec<Snippet>)
    ensures
        r@ == v@.filter(|s: Snippet| s.id == id),
{
    let ghost p = |s: Snippet| s.id == id;
    let mut r: Vec<Snippet> = Vec::new();
    let mut j: usize = 0;
    proof {
        assert(v@.take(0) =~= Seq::<Snippet>::empty());
        assert(Seq::<Snippet>::empty().filter(p) =~= Seq::<Snippet>::empty());
    }
    while j < v.len()
        invariant
            j <= v@.len(),
            p == (|s: Snippet| s.id == id),
            r@ == v@.take(j as int).filter(p),
        decreases v@.len() - j,
    {
        proof {
            assert(v@.take(j + 1) =~= v@.take(j as int).push(v@[j as int]));
            v@.take(j as int).lemma_filter_push(v@[j as int], p);
        }
        if v[j].id == id {
            r.push(v[j].clone());
        }
        j += 1;
    }
    proof {
        assert(v@.take(v@.len() as int) =~= v@);
    }
    r
}

fn filter_by_tag(v: Vec<Snippet>, q: &String) -> (r: Vec<Snippet>)
    ensures
        r@ == v@.filter(|s: Snippet| tag_matches(s, q@)),
{
    let ghost p = |s: Snippet| tag_matches(s, q@);
    let terms = Some(split_and_trim(q.as_str()));
    let mut r: Vec<Snippet> = Vec::new();
    let mut j: usize = 0;
    proof {
        assert(v@.take(0) =~= Seq::<Snippet>::empty());
        assert(Seq::<Snippet>::empty().filter(p) =~= Seq::<Snippet>::empty());
    }
    while j < v.len()
        invariant
            j <= v@.len(),
            p == (|s: Snippet| tag_matches(s, q@)),
            terms_correspond(Some(*q), terms),
            r@ == v@.take(j as int).filter(p),
        decreases v@.len() - j,
    {
        let keep = tag_dim_ok(&v[j], Ghost(Some(*q)), &terms);
        proof {
            assert(v@.take(j + 1) =~= v@.take(j as int).push(v@[j as int]));
            v@.take(j as int).lemma_filter_push(v@[j as int], p);
        }
        if keep {
            r.push(v[j].clone());
        }
        j += 1;
    }
    proof {
        assert(v@.take(v@.len() as int) =~= v@);
    }
    r
}

fn filter_by_language(v: Vec<Snippet>, q: &String) -> (r: Vec<Snippet>)
    ensures
        r@ == v@.filter(|s: Snippet| language_matches(s, q@)),
{
    let ghost p = |s: Snippet| language_matches(s, q@);
    let terms = Some(split_and_trim(q.as_str()));
    let mut r: Vec<Snippet> = Vec::new();
    let mut j: usize = 0;
    proof {
        assert(v@.take(0) =~= Seq::<Snippet>::empty());
        assert(Seq::<Snippet>::empty().filter(p) =~= Seq::<Snippet>::empty());
    }
    while j < v.len()
        invariant
            j <= v@.len(),
            p == (|s: Snippet| language_matches(s, q@)),
            terms_correspond(Some(*q), terms),
            r@ == v@.take(j as int).filter(p),
        decreases v@.len() - j,
    {
        let keep = language_dim_ok(&v[j], Ghost(Some(*q)), &terms);
        proof {
            assert(v@.take(j + 1) =~= v@.take(j as int).push(v@[j as int]));
            v@.take(j as int).lemma_filter_push(v@[j as int], p);
        }
        if keep {
            r.push(v[j].clone());
        }
        j += 1;
    }
    proof {
        assert(v@.take(v@.len() as int) =~= v@);
    }
    r
}

/// Selects the snippets an export call addresses.  An empty selection is
/// an error naming the criterion that failed, except when no criterion
/// was supplied at all; a non-empty selection is returned in collection
/// order.
pub fn select_for_export(
    snippets: &Vec<Snippet>,
    id: &Option<u32>,
    tag: &Option<String>,
    language: &Option<String>,
) -> (r: Result<Vec<Snippet>, VaultError>)
    ensures
        ({
            let sel = export_selected(snippets@, *id, *tag, *language);
            match r {
                Ok(v) => v@ == sel && (sel.len() == 0 ==> id is None && tag is None && language
                    is None),
                Err(e) => sel.len() == 0 && match (id, tag, language) {
                    (Some(v), _, _) => e == VaultError::IdNotFound(*v),
                    (None, Some(t), Some(l)) => (e matches VaultError::ExportTagLanguageMismatch(
                        ts,
                        ls,
                    ) && terms_correspond(Some(*t), Some(ts)) && terms_correspond(
                        Some(*l),
                        Some(ls),
                    )),
                    (None, Some(t), None) => (e matches VaultError::ExportTagNotFound(ts)
                        && terms_correspond(Some(*t), Some(ts))),
                    (None, None, Some(l)) => (e matches VaultError::ExportLanguageNotFound(ls)
                        && terms_correspond(Some(*l), Some(ls))),
                    (None, None, None) => false,
                },
            }
        }),
{
    let mut current = clone_snippets(snippets);
    if let Some(v) = id {
        current = filter_by_id(current, *v);
    }
    if let Some(q) = tag {
        current = filter_by_tag(current, q);
    }
    if let Some(q) = language {
        current = filter_by_language(current, q);
    }
    if current.len() == 0 {
        if let Some(v) = id {
            return Err(VaultError::IdNotFound(*v));
        }
        match (tag, language) {
            (Some(t), Some(l)) => {
                return Err(VaultError::ExportTagLanguageMismatch(
                    split_and_trim(t.as_str()),
                    split_and_trim(l.as_str()),
                ));
            },
            (Some(t), None) => {
                return Err(VaultError::ExportTagNotFound(split_and_trim(t.as_str())));
            },
            (None, Some(l)) => {
                return Err(VaultError::ExportLanguageNotFound(split_and_trim(l.as_str())));
            },
            (None, None) => {},
        }
    }
    Ok(current)
}

fn str_eq(a: &str, b: &str) -> (r: bool)
    ensures
        r == (a@ == b@),
{
    let n = a.unicode_len();
    if n != b.unicode_len() {
        return false;
    }
    let mut i: usize = 0;
    while i < n
        invariant
            n == a@.len(),
            n == b@.len(),
            i <= n,
            forall|k: int| 0 <= k < i ==> a@[k] == b@[k],
        decreases n - i,
    {
        if a.get_char(i) != b.get_char(i) {
            return false;
        }
        i += 1;
    }
    proof {
        assert(a@ =~= b@);
    }
    true
}

/// The file extension the export table assigns to a language name, `txt`
/// for an unrecognised one.
pub open spec fn extension_spec(lang: Seq<char>) -> Seq<char> {
    if lang == "AppleScript"@ {
        "applescript"@
    } else if lang == "ASP"@ {
        "asp"@
    } else if lang == "Batch File"@ {
        "bat"@
    } else if lang == "BibTeX"@ {
        "bib"@
    } else if lang == "Bourne Again Shell (bash)"@ {
        "sh"@
    } else if lang == "C"@ {
        "c"@
    } else if lang == "C#"@ {
        "cs"@
    } else if lang == "C++"@ {
        "cpp"@
    } else if lang == "Cargo Build Results"@ {
        "log"@
    } else if lang == "Clojure"@ {
        "clj"@
    } else if lang == "commands-builtin-shell-bash"@ {
        "sh"@
    } else if lang == "CSS"@ {
        "css"@
    } else if lang == "D"@ {
        "d"@
    } else if lang == "Diff"@ {
        "diff"@
    } else if lang == "Erlang"@ {
        "erl"@
    } else if lang == "Go"@ {
        "go"@
    } else if lang == "Graphviz (DOT)"@ {
        "dot"@
    } else if lang == "Groovy"@ {
        "groovy"@
    } else if lang == "Haml"@ {
        "haml"@
    } else if lang == "Haskell"@ {
        "hs"@
    } else if lang == "HTML"@ {
        "html"@
    } else if lang == "Java"@ {
        "java"@
    } else if lang == "Java Properties"@ {
        "properties"@
    } else if lang == "JavaScript"@ {
        "js"@
    } else if lang == "JSON"@ {
        "json"@
    } else if lang == "LaTeX"@ {
        "tex"@
    } else if lang == "LaTeX Log"@ {
        "log"@
    } else if lang == "Lisp"@ {
        "lisp"@
    } else if lang == "Lua"@ {
        "lua"@
    } else if lang == "Make Output"@ {
        "mak"@
    } else if lang == "Makefile"@ {
        "mak"@
    } else if lang == "Markdown"@ {
        "md"@
    } else if lang == "MATLAB"@ {
        "m"@
    } else if lang == "MultiMarkdown"@ {
        "mmd"@
    } else if lang == "NAnt Build File"@ {
        "build"@
    } else if lang == "Objective-C"@ {
        "m"@
    } else if lang == "Objective-C++"@ {
        "mm"@
    } else if lang == "OCaml"@ {
        "ml"@
    } else if lang == "OCamllex"@ {
        "mll"@
    } else if lang == "OCamlyacc"@ {
        "mly"@
    } else if lang == "Pascal"@ {
        "pas"@
    } else if lang == "Perl"@ {
        "pl"@
    } else if lang == "PHP"@ {
        "php"@
    } else if lang == "Python"@ {
        "py"@
    } else if lang == "R"@ {
        "R"@
    } else if lang == "R Console"@ {
        "Rout"@
    } else if lang == "Rd (R Documentation)"@ {
        "Rd"@
    } else if lang == "Regular Expression"@ {
        "regex"@
    } else if lang == "Regular Expressions (Javascript)"@ {
        "js"@
    } else if lang == "Regular Expressions (Python)"@ {
        "py"@
    } else if lang == "reStructuredText"@ {
        "rst"@
    } else if lang == "Ruby"@ {
        "rb"@
    } else if lang == "Ruby on Rails"@ {
        "rb"@
    } else if lang == "Rust"@ {
        "rs"@
    } else if lang == "Scala"@ {
        "scala"@
    } else if lang == "Shell-Unix-Generic"@ {
        "sh"@
    } else if lang == "SQL"@ {
        "sql"@
    } else if lang == "Tcl"@ {
        "tcl"@
    } else if lang == "TeX"@ {
        "tex"@
    } else if lang == "Textile"@ {
        "textile"@
    } else if lang == "XML"@ {
        "xml"@
    } else if lang == "YAML"@ {
        "yaml"@
    } else {
        "txt"@
    }
}

/// Returns the file extension for a snippet's language.
pub fn extension_for(language: &Option<String>) -> (r: &'static str)
    ensures
        match language {
            Some(l) => r@ == extension_spec(l@),
            None => r@ == "txt"@,
        },
{
    let l: &str = match language {
        Some(l) => l.as_str(),
        None => {
            return "txt";
        },
    };
    if str_eq(l, "AppleScript") {
        "applescript"
    } else if str_eq(l, "ASP") {
        "asp"
    } else if str_eq(l, "Batch File") {
        "bat"
    } else if str_eq(l, "BibTeX") {
        "bib"
    } else if str_eq(l, "Bourne Again Shell (bash)") {
        "sh"
    } else if str_eq(l, "C") {
        "c"
    } else if str_eq(l, "C#") {
        "cs"
    } else if str_eq(l, "C++") {
        "cpp"
    } else if str_eq(l, "Cargo Build Results") {
        "log"
    } else if str_eq(l, "Clojure") {
        "clj"
    } else if str_eq(l, "commands-builtin-shell-bash") {
        "sh"
    } else if str_eq(l, "CSS") {
        "css"
    } else if str_eq(l, "D") {
        "d"
    } else if str_eq(l, "Diff") {
        "diff"
    } else if str_eq(l, "Erlang") {
        "erl"
    } else if str_eq(l, "Go") {
        "go"
    } else if str_eq(l, "Graphviz (DOT)") {
        "dot"
    } else if str_eq(l, "Groovy") {
        "groovy"
    } else if str_eq(l, "Haml") {
        "haml"
    } else if str_eq(l, "Haskell") {
        "hs"
    } else if str_eq(l, "HTML") {
        "html"
    } else if str_eq(l, "Java") {
        "java"
    } else if str_eq(l, "Java Properties") {
        "properties"
    } else if str_eq(l, "JavaScript") {
        "js"
    } else if str_eq(l, "JSON") {
        "json"
    } else if str_eq(l, "LaTeX") {
        "tex"
    } else if str_eq(l, "LaTeX Log") {
        "log"
    } else if str_eq(l, "Lisp") {
        "lisp"
    } else if str_eq(l, "Lua") {
        "lua"
    } else if str_eq(l, "Make Output") {
        "mak"
    } else if str_eq(l, "Makefile") {
        "mak"
    } else if str_eq(l, "Markdown") {
        "md"
    } else if str_eq(l, "MATLAB") {
        "m"
    } else if str_eq(l, "MultiMarkdown") {
        "mmd"
    } else if str_eq(l, "NAnt Build File") {
        "build"
    } else if str_eq(l, "Objective-C") {
        "m"
    } else if str_eq(l, "Objective-C++") {
        "mm"
    } else if str_eq(l, "OCaml") {
        "ml"
    } else if str_eq(l, "OCamllex") {
        "mll"
    } else if str_eq(l, "OCamlyacc") {
        "mly"
    } else if str_eq(l, "Pascal") {
        "pas"
    } else if str_eq(l, "Perl") {
        "pl"
    } else if str_eq(l, "PHP") {
        "php"
    } else if str_eq(l, "Python") {
        "py"
    } else if str_eq(l, "R") {
        "R"
    } else if str_eq(l, "R Console") {
        "Rout"
    } else if str_eq(l, "Rd (R Documentation)") {
        "Rd"
    } else if str_eq(l, "Regular Expression") {
        "regex"
    } else if str_eq(l, "Regular Expressions (Javascript)") {
        "js"
    } else if str_eq(l, "Regular Expressions (Python)") {
        "py"
    } else if str_eq(l, "reStructuredText") {
        "rst"
    } else if str_eq(l, "Ruby") {
        "rb"
    } else if str_eq(l, "Ruby on Rails") {
        "rb"
    } else if str_eq(l, "Rust") {
        "rs"
    } else if str_eq(l, "Scala") {
        "scala"
    } else if str_eq(l, "Shell-Unix-Generic") {
        "sh"
    } else if str_eq(l, "SQL") {
        "sql"
    } else if str_eq(l, "Tcl") {
        "tcl"
    } else if str_eq(l, "TeX") {
        "tex"
    } else if str_eq(l, "Textile") {
        "textile"
    } else if str_eq(l, "XML") {
        "xml"
    } else if str_eq(l, "YAML") {
        "yaml"
    } else {
        "txt"
    }
}

/// The destination file name of a snippet's export: its identifier in
/// decimal, a dot, and the extension its language maps to.
pub fn export_file_name(id: u32, language: &Option<String>) -> (r: String)
    ensures
        r@ == dec_rep(id as int) + "."@ + match language {
            Some(l) => extension_spec(l@),
            None => "txt"@,
        },
{
    let mut name = u32_to_string(id);
    name.append(".");
    let ext = extension_for(language);
    name.append(ext);
    name
}

} // verus!
