//! Languages of source files.
use vstd::prelude::*;

use crate::text;

verus! {

/// The language of files with extension `e`.
pub open spec fn language_of(e: Seq<char>) -> Seq<char> {
    if e == "rs"@ {
        "rust"@
    } else if e == "java"@ {
        "java"@
    } else if e == "py"@ {
        "python"@
    } else if e == "js"@ || e == "mjs"@ || e == "cjs"@ {
        "javascript"@
    } else if e == "ts"@ || e == "tsx"@ || e == "jsx"@ {
        "typescript"@
    } else if e == "json"@ {
        "json"@
    } else if e == "md"@ {
        "markdown"@
    } else if e == "toml"@ {
        "toml"@
    } else if e == "yml"@ || e == "yaml"@ {
        "yaml"@
    } else if e == "html"@ {
        "html"@
    } else if e == "css"@ {
        "css"@
    } else if e == "xml"@ {
        "xml"@
    } else if e == "sh"@ || e == "zsh"@ || e == "bash"@ {
        "bash"@
    } else if e == "go"@ {
        "go"@
    } else if e == "c"@ || e == "h"@ {
        "c"@
    } else if e == "cpp"@ || e == "cc"@ || e == "hpp"@ {
        "cpp"@
    } else {
        "text"@
    }
}

/// The language of a file, by what follows the last dot of its path.
pub fn language_for(path: &str) -> (r: &'static str)
    ensures
        r@ == language_of(text::after_last(path@, '.')),
{
    let ext = text::take_after_last(path, '.');
    let e = ext.as_str();
    if text::str_eq(e, "rs") {
        "rust"
    } else if text::str_eq(e, "java") {
        "java"
    } else if text::str_eq(e, "py") {
        "python"
    } else if text::str_eq(e, "js") || text::str_eq(e, "mjs") || text::str_eq(e, "cjs") {
        "javascript"
    } else if text::str_eq(e, "ts") || text::str_eq(e, "tsx") || text::str_eq(e, "jsx") {
        "typescript"
    } else if text::str_eq(e, "json") {
        "json"
    } else if text::str_eq(e, "md") {
        "markdown"
    } else if text::str_eq(e, "toml") {
        "toml"
    } else if text::str_eq(e, "yml") || text::str_eq(e, "yaml") {
        "yaml"
    } else if text::str_eq(e, "html") {
        "html"
    } else if text::str_eq(e, "css") {
        "css"
    } else if text::str_eq(e, "xml") {
        "xml"
    } else if text::str_eq(e, "sh") || text::str_eq(e, "zsh") || text::str_eq(e, "bash") {
        "bash"
    } else if text::str_eq(e, "go") {
        "go"
    } else if text::str_eq(e, "c") || text::str_eq(e, "h") {
        "c"
    } else if text::str_eq(e, "cpp") || text::str_eq(e, "cc") || text::str_eq(e, "hpp") {
        "cpp"
    } else {
        "text"
    }
}

/// The name under which the language `e` is shown.
pub open spec fn display_of(e: Seq<char>) -> Seq<char> {
    if e == "rust"@ {
        "Rust"@
    } else if e == "java"@ {
        "Java"@
    } else if e == "typescript"@ {
        "TypeScript"@
    } else if e == "javascript"@ {
        "JavaScript"@
    } else if e == "python"@ {
        "Python"@
    } else if e == "markdown"@ {
        "Markdown"@
    } else if e == "json"@ {
        "JSON"@
    } else if e == "yaml"@ {
        "YAML"@
    } else if e == "toml"@ {
        "TOML"@
    } else if e == "html"@ {
        "HTML"@
    } else if e == "css"@ {
        "CSS"@
    } else if e == "xml"@ {
        "XML"@
    } else if e == "bash"@ {
        "Shell"@
    } else if e == "go"@ {
        "Go"@
    } else if e == "c"@ {
        "C"@
    } else if e == "cpp"@ {
        "C++"@
    } else {
        "Plain Text"@
    }
}

/// The name under which a language is shown.
pub fn lang_display(lang: &str) -> (r: &'static str)
    ensures
        r@ == display_of(lang@),
{
    if text::str_eq(lang, "rust") {
        "Rust"
    } else if text::str_eq(lang, "java") {
        "Java"
    } else if text::str_eq(lang, "typescript") {
        "TypeScript"
    } else if text::str_eq(lang, "javascript") {
        "JavaScript"
    } else if text::str_eq(lang, "python") {
        "Python"
    } else if text::str_eq(lang, "markdown") {
        "Markdown"
    } else if text::str_eq(lang, "json") {
        "JSON"
    } else if text::str_eq(lang, "yaml") {
        "YAML"
    } else if text::str_eq(lang, "toml") {
        "TOML"
    } else if text::str_eq(lang, "html") {
        "HTML"
    } else if text::str_eq(lang, "css") {
        "CSS"
    } else if text::str_eq(lang, "xml") {
        "XML"
    } else if text::str_eq(lang, "bash") {
        "Shell"
    } else if text::str_eq(lang, "go") {
        "Go"
    } else if text::str_eq(lang, "c") {
        "C"
    } else if text::str_eq(lang, "cpp") {
        "C++"
    } else {
        "Plain Text"
    }
}

/// The language of a file is told by what follows its last dot, wherever the file lies.
pub proof fn law_extensions_tell_the_language(before: Seq<char>, ext: Seq<char>, p: &str, r: &'static str)
    requires
        call_ensures(language_for, (p,), r),
        p@ == before + seq!['.'] + ext,
        !ext.contains('.'),
    ensures
        ext == "java"@ ==> r@ == "java"@,
        ext == "rs"@ ==> r@ == "rust"@,
        ext == "md"@ ==> r@ == "markdown"@,
        ext == "py"@ ==> r@ == "python"@,
        ext == "go"@ ==> r@ == "go"@,
        ext == "xml"@ ==> r@ == "xml"@,
        ext == "json"@ ==> r@ == "json"@,
        ext == "yaml"@ || ext == "yml"@ ==> r@ == "yaml"@,
        ext == "js"@ ==> r@ == "javascript"@,
        ext == "ts"@ || ext == "tsx"@ ==> r@ == "typescript"@,
        ext.len() > 4 ==> r@ == "text"@,
{
    text::law_around_a_character(before, '.', ext);
    reveal_strlit("rs");
    reveal_strlit("java");
    reveal_strlit("py");
    reveal_strlit("js");
    reveal_strlit("mjs");
    reveal_strlit("cjs");
    reveal_strlit("ts");
    reveal_strlit("tsx");
    reveal_strlit("jsx");
    reveal_strlit("json");
    reveal_strlit("md");
    reveal_strlit("toml");
    reveal_strlit("yml");
    reveal_strlit("yaml");
    reveal_strlit("html");
    reveal_strlit("css");
    reveal_strlit("xml");
    reveal_strlit("sh");
    reveal_strlit("zsh");
    reveal_strlit("bash");
    reveal_strlit("go");
    reveal_strlit("c");
    reveal_strlit("h");
    reveal_strlit("cpp");
    reveal_strlit("cc");
    reveal_strlit("hpp");
    assert("rs"@.len() == 2 && "rs"@[0] == 'r');
    assert("py"@.len() == 2 && "py"@[0] == 'p');
    assert("js"@.len() == 2 && "js"@[0] == 'j');
    assert("ts"@.len() == 2 && "ts"@[0] == 't');
    assert("md"@.len() == 2 && "md"@[0] == 'm');
    assert("go"@.len() == 2 && "go"@[0] == 'g');
    assert("sh"@.len() == 2 && "sh"@[0] == 's');
    assert("cc"@.len() == 2 && "cc"@[0] == 'c');
    assert("java"@.len() == 4 && "java"@[0] == 'j' && "java"@[1] == 'a');
    assert("json"@.len() == 4 && "json"@[0] == 'j' && "json"@[1] == 's');
    assert("toml"@.len() == 4 && "toml"@[0] == 't');
    assert("yaml"@.len() == 4 && "yaml"@[0] == 'y');
    assert("html"@.len() == 4 && "html"@[0] == 'h');
    assert("bash"@.len() == 4 && "bash"@[0] == 'b');
    assert("mjs"@.len() == 3 && "cjs"@.len() == 3 && "css"@.len() == 3 && "zsh"@.len() == 3
        && "cpp"@.len() == 3 && "hpp"@.len() == 3 && "jsx"@.len() == 3);
    assert("tsx"@.len() == 3 && "tsx"@[0] == 't');
    assert("yml"@.len() == 3 && "yml"@[0] == 'y');
    assert("xml"@.len() == 3 && "xml"@[0] == 'x');
    assert("mjs"@[0] == 'm' && "cjs"@[0] == 'c' && "jsx"@[0] == 'j' && "css"@[0] == 'c'
        && "zsh"@[0] == 'z' && "cpp"@[0] == 'c' && "hpp"@[0] == 'h');
    assert("c"@.len() == 1 && "h"@.len() == 1);
}

/// A language is shown by its name: written in lower case, it is the name that it goes by, but for the
/// shell and for C++.
pub proof fn law_languages_are_shown_by_name(lang: &str, r: &'static str)
    requires
        call_ensures(lang_display, (lang,), r),
        r@ != "Plain Text"@,
        lang@ != "bash"@,
        lang@ != "cpp"@,
    ensures
        text::ascii_lowered(r@) == lang@,
{
    lemma_lower_names();
}

proof fn lemma_lower_names()
    ensures
        text::ascii_lowered("Rust"@) == "rust"@,
        text::ascii_lowered("Java"@) == "java"@,
        text::ascii_lowered("TypeScript"@) == "typescript"@,
        text::ascii_lowered("JavaScript"@) == "javascript"@,
        text::ascii_lowered("Python"@) == "python"@,
        text::ascii_lowered("Markdown"@) == "markdown"@,
        text::ascii_lowered("JSON"@) == "json"@,
        text::ascii_lowered("YAML"@) == "yaml"@,
        text::ascii_lowered("TOML"@) == "toml"@,
        text::ascii_lowered("HTML"@) == "html"@,
        text::ascii_lowered("CSS"@) == "css"@,
        text::ascii_lowered("XML"@) == "xml"@,
        text::ascii_lowered("Go"@) == "go"@,
        text::ascii_lowered("C"@) == "c"@,
{
    reveal_strlit("Rust");
    reveal_strlit("rust");
    assert(text::ascii_lowered("Rust"@) =~= "rust"@);
    reveal_strlit("Java");
    reveal_strlit("java");
    assert(text::ascii_lowered("Java"@) =~= "java"@);
    reveal_strlit("TypeScript");
    reveal_strlit("typescript");
    assert(text::ascii_lowered("TypeScript"@) =~= "typescript"@);
    reveal_strlit("JavaScript");
    reveal_strlit("javascript");
    assert(text::ascii_lowered("JavaScript"@) =~= "javascript"@);
    reveal_strlit("Python");
    reveal_strlit("python");
    assert(text::ascii_lowered("Python"@) =~= "python"@);
    reveal_strlit("Markdown");
    reveal_strlit("markdown");
    assert(text::ascii_lowered("Markdown"@) =~= "markdown"@);
    reveal_strlit("JSON");
    reveal_strlit("json");
    assert(text::ascii_lowered("JSON"@) =~= "json"@);
    reveal_strlit("YAML");
    reveal_strlit("yaml");
    assert(text::ascii_lowered("YAML"@) =~= "yaml"@);
    reveal_strlit("TOML");
    reveal_strlit("toml");
    assert(text::ascii_lowered("TOML"@) =~= "toml"@);
    reveal_strlit("HTML");
    reveal_strlit("html");
    assert(text::ascii_lowered("HTML"@) =~= "html"@);
    reveal_strlit("CSS");
    reveal_strlit("css");
    assert(text::ascii_lowered("CSS"@) =~= "css"@);
    reveal_strlit("XML");
    reveal_strlit("xml");
    assert(text::ascii_lowered("XML"@) =~= "xml"@);
    reveal_strlit("Go");
    reveal_strlit("go");
    assert(text::ascii_lowered("Go"@) =~= "go"@);
    reveal_strlit("C");
    reveal_strlit("c");
    assert(text::ascii_lowered("C"@) =~= "c"@);
}

} // verus!
