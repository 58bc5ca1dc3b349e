//! Glyph, colour and emphasis of a file's icon, the same wherever the file is shown.
use vstd::prelude::*;

use crate::text;

verus! {

/// The icon of a file.
pub struct FileIconMeta {
    pub glyph: &'static str,
    /// Colour as `0xrrggbb`.
    pub color: u32,
    /// Files that are noise (locks, ignore lists) are shown dimmed.
    pub dim: bool,
}

/// The model of an icon.
pub struct IconModel {
    pub glyph: Seq<char>,
    pub color: u32,
    pub dim: bool,
}

impl View for FileIconMeta {
    type V = IconModel;

    open spec fn view(&self) -> IconModel {
        IconModel { glyph: self.glyph@, color: self.color, dim: self.dim }
    }
}

fn meta(glyph: &'static str, color: u32, dim: bool) -> (m: FileIconMeta)
    ensures
        m@ == (IconModel { glyph: glyph@, color, dim }),
{
    FileIconMeta { glyph, color, dim }
}

/// The icon of files with extension `e`.
pub open spec fn icon_of_extension(e: Seq<char>) -> IconModel {
    if e == "java"@ {
        IconModel { glyph: "J"@, color: 0xd08a5c, dim: false }
    } else if e == "kt"@ || e == "kts"@ {
        IconModel { glyph: "K"@, color: 0xb997d2, dim: false }
    } else if e == "ts"@ || e == "tsx"@ {
        IconModel { glyph: "T"@, color: 0x74b8d6, dim: false }
    } else if e == "js"@ || e == "jsx"@ || e == "mjs"@ || e == "cjs"@ {
        IconModel { glyph: "J"@, color: 0xd8bf6a, dim: false }
    } else if e == "json"@ {
        IconModel { glyph: "{}"@, color: 0xd8bf6a, dim: false }
    } else if e == "xml"@ {
        IconModel { glyph: "X"@, color: 0xb997d2, dim: false }
    } else if e == "html"@ || e == "htm"@ {
        IconModel { glyph: "H"@, color: 0xd88964, dim: false }
    } else if e == "css"@ || e == "scss"@ || e == "sass"@ || e == "less"@ {
        IconModel { glyph: "#"@, color: 0x66b7bd, dim: false }
    } else if e == "md"@ || e == "markdown"@ {
        IconModel { glyph: "M"@, color: 0x7faedb, dim: false }
    } else if e == "py"@ {
        IconModel { glyph: "P"@, color: 0x74b8d6, dim: false }
    } else if e == "rs"@ {
        IconModel { glyph: "R"@, color: 0xd88964, dim: false }
    } else if e == "go"@ {
        IconModel { glyph: "G"@, color: 0x66b7bd, dim: false }
    } else if e == "sh"@ || e == "bash"@ || e == "zsh"@ {
        IconModel { glyph: "$"@, color: 0x8fbc8f, dim: false }
    } else if e == "yaml"@ || e == "yml"@ {
        IconModel { glyph: "Y"@, color: 0xa7b0b6, dim: false }
    } else if e == "properties"@ {
        IconModel { glyph: "P"@, color: 0xa7b0b6, dim: false }
    } else if e == "toml"@ || e == "ini"@ || e == "conf"@ || e == "cfg"@ || e == "editorconfig"@ || e == "classpath"@ || e == "project"@ {
        IconModel { glyph: "≡"@, color: 0xd6a457, dim: false }
    } else if e == "png"@ || e == "jpg"@ || e == "jpeg"@ || e == "gif"@ || e == "svg"@ || e == "webp"@ || e == "ico"@ || e == "bmp"@ {
        IconModel { glyph: "▣"@, color: 0x8fbc8f, dim: false }
    } else if e == "txt"@ || e == "log"@ {
        IconModel { glyph: "≡"@, color: 0x69737b, dim: true }
    } else {
        IconModel { glyph: "·"@, color: 0xa7b0b6, dim: false }
    }
}

/// The extension of a lower-case name, empty without a dot.
pub open spec fn extension_part(lower: Seq<char>) -> Seq<char> {
    if lower.contains('.') {
        text::after_last(lower, '.')
    } else {
        Seq::empty()
    }
}

/// The icon of a file with the lower-case name `lower`: by the name for a few, else by the
/// extension.
pub open spec fn icon_of(lower: Seq<char>) -> IconModel {
    if lower == "pom.xml"@ {
        IconModel { glyph: "m"@, color: 0x7faedb, dim: false }
    } else if lower == ".gitignore"@ || lower == ".gitattributes"@ || lower == ".gitmodules"@ {
        IconModel { glyph: "≡"@, color: 0x69737b, dim: true }
    } else if ".lock"@.is_suffix_of(lower) || "-lock.json"@.is_suffix_of(lower)
        || "-lock.yaml"@.is_suffix_of(lower) {
        IconModel { glyph: "≡"@, color: 0x69737b, dim: true }
    } else {
        icon_of_extension(extension_part(lower))
    }
}

fn icon_for_extension(e: &str) -> (m: FileIconMeta)
    ensures
        m@ == icon_of_extension(e@),
{
    if text::str_eq(e, "java") {
        meta("J", 0xd08a5c, false)
    } else if text::str_eq(e, "kt") || text::str_eq(e, "kts") {
        meta("K", 0xb997d2, false)
    } else if text::str_eq(e, "ts") || text::str_eq(e, "tsx") {
        meta("T", 0x74b8d6, false)
    } else if text::str_eq(e, "js") || text::str_eq(e, "jsx") || text::str_eq(e, "mjs") || text::str_eq(e, "cjs") {
        meta("J", 0xd8bf6a, false)
    } else if text::str_eq(e, "json") {
        meta("{}", 0xd8bf6a, false)
    } else if text::str_eq(e, "xml") {
        meta("X", 0xb997d2, false)
    } else if text::str_eq(e, "html") || text::str_eq(e, "htm") {
        meta("H", 0xd88964, false)
    } else if text::str_eq(e, "css") || text::str_eq(e, "scss") || text::str_eq(e, "sass") || text::str_eq(e, "less") {
        meta("#", 0x66b7bd, false)
    } else if text::str_eq(e, "md") || text::str_eq(e, "markdown") {
        meta("M", 0x7faedb, false)
    } else if text::str_eq(e, "py") {
        meta("P", 0x74b8d6, false)
    } else if text::str_eq(e, "rs") {
        meta("R", 0xd88964, false)
    } else if text::str_eq(e, "go") {
        meta("G", 0x66b7bd, false)
    } else if text::str_eq(e, "sh") || text::str_eq(e, "bash") || text::str_eq(e, "zsh") {
        meta("$", 0x8fbc8f, false)
    } else if text::str_eq(e, "yaml") || text::str_eq(e, "yml") {
        meta("Y", 0xa7b0b6, false)
    } else if text::str_eq(e, "properties") {
        meta("P", 0xa7b0b6, false)
    } else if text::str_eq(e, "toml") || text::str_eq(e, "ini") || text::str_eq(e, "conf") || text::str_eq(e, "cfg") || text::str_eq(e, "editorconfig") || text::str_eq(e, "classpath") || text::str_eq(e, "project") {
        meta("≡", 0xd6a457, false)
    } else if text::str_eq(e, "png") || text::str_eq(e, "jpg") || text::str_eq(e, "jpeg") || text::str_eq(e, "gif") || text::str_eq(e, "svg") || text::str_eq(e, "webp") || text::str_eq(e, "ico") || text::str_eq(e, "bmp") {
        meta("▣", 0x8fbc8f, false)
    } else if text::str_eq(e, "txt") || text::str_eq(e, "log") {
        meta("≡", 0x69737b, true)
    } else {
        meta("·", 0xa7b0b6, false)
    }
}

/// The icon of a file whose name is `lower` in lower case.
pub fn icon_for(lower: &str) -> (m: FileIconMeta)
    ensures
        m@ == icon_of(lower@),
{
    if text::str_eq(lower, "pom.xml") {
        return meta("m", 0x7faedb, false);
    }
    if text::str_eq(lower, ".gitignore") || text::str_eq(lower, ".gitattributes") || text::str_eq(
        lower,
        ".gitmodules",
    ) {
        return meta("≡", 0x69737b, true);
    }
    if text::ends_with(lower, ".lock") || text::ends_with(lower, "-lock.json") || text::ends_with(
        lower,
        "-lock.yaml",
    ) {
        return meta("≡", 0x69737b, true);
    }
    match text::rsplit_once(lower, '.') {
        Some((_, e)) => icon_for_extension(e.as_str()),
        None => {
            proof {
                reveal_strlit("");
                assert(""@ =~= Seq::<char>::empty());
            }
            icon_for_extension("")
        },
    }
}

/// The icon of the file `name`, whatever the case of its letters.
pub fn file_icon_meta(name: &str) -> (m: FileIconMeta)
    ensures
        m@ == icon_of(text::lowercase(name@)),
        text::is_ascii_text(name@) ==> m@ == icon_of(text::ascii_lowered(name@)),
{
    let lower = text::to_lowercase(name);
    icon_for(lower.as_str())
}

/// The icon of an ASCII name is that of every name that differs from it in the case of letters
/// alone, its lower-case form among them.
pub proof fn law_ascii_case_does_not_matter(a: Seq<char>, b: Seq<char>)
    requires
        text::is_ascii_text(a),
        a.len() == b.len(),
        forall|i: int|
            0 <= i < a.len() ==> #[trigger] b[i] == a[i] || b[i] == text::ascii_lower(a[i]) || a[i]
                == text::ascii_lower(b[i]),
    ensures
        text::is_ascii_text(b),
        icon_of(text::ascii_lowered(b)) == icon_of(text::ascii_lowered(a)),
{
    assert forall|i: int| 0 <= i < b.len() implies (#[trigger] b[i] as u32) < 0x80
        && text::ascii_lower(b[i]) == text::ascii_lower(a[i]) by {
        assert((a[i] as u32) < 0x80);
    }
    assert(text::ascii_lowered(b) =~= text::ascii_lowered(a));
}

/// Files with the same extension have the same icon, unless their name alone has one; lock files are
/// dimmed.
pub proof fn law_the_extension_tells_the_icon(
    a: &str,
    b: &str,
    m: FileIconMeta,
    n: FileIconMeta,
    s: Seq<char>,
    t: Seq<char>,
    ext: Seq<char>,
)
    requires
        call_ensures(icon_for, (a,), m),
        call_ensures(icon_for, (b,), n),
        a@ == s + seq!['.'] + ext,
        b@ == t + seq!['.'] + ext,
        s.len() > 0,
        t.len() > 0,
        !ext.contains('.'),
    ensures
        ext != "xml"@ && ext != "json"@ && ext != "yaml"@ ==> m.glyph@ == n.glyph@ && m.color == n.color
            && m.dim == n.dim,
        ext == "lock"@ ==> m.dim,
        ext == "xml"@ && s != "pom"@ && t != "pom"@ ==> m.glyph@ == n.glyph@ && m.color == n.color,
{
    lemma_extension_part(s, ext);
    lemma_extension_part(t, ext);
    lemma_named_alone(s, ext);
    lemma_named_alone(t, ext);
}

proof fn lemma_extension_part(s: Seq<char>, ext: Seq<char>)
    requires
        !ext.contains('.'),
    ensures
        extension_part(s + seq!['.'] + ext) == ext,
{
    text::law_around_a_character(s, '.', ext);
    let name = s + seq!['.'] + ext;
    assert(name[s.len() as int] == '.');
}

proof fn lemma_named_alone(s: Seq<char>, ext: Seq<char>)
    requires
        s.len() > 0,
        !ext.contains('.'),
    ensures
        ({
            let name = s + seq!['.'] + ext;
            &&& name == "pom.xml"@ ==> ext == "xml"@ && s == "pom"@
            &&& name != ".gitignore"@ && name != ".gitattributes"@ && name != ".gitmodules"@
            &&& ".lock"@.is_suffix_of(name) <==> ext == "lock"@
            &&& "-lock.json"@.is_suffix_of(name) ==> ext == "json"@
            &&& "-lock.yaml"@.is_suffix_of(name) ==> ext == "yaml"@
            &&& "xml"@ != "lock"@
            &&& "xml"@ != "json"@
            &&& "xml"@ != "yaml"@
        }),
{
    let name = s + seq!['.'] + ext;
    lemma_extension_part(s, ext);
    reveal_strlit("pom.xml");
    reveal_strlit("pom");
    reveal_strlit("xml");
    assert("pom.xml"@ =~= "pom"@ + seq!['.'] + "xml"@);
    assert(!"xml"@.contains('.'));
    lemma_extension_part("pom"@, "xml"@);
    if name == "pom.xml"@ {
        assert(s =~= name.take(s.len() as int));
        assert("pom"@ =~= name.take(3));
    }
    reveal_strlit(".gitignore");
    reveal_strlit("gitignore");
    assert(".gitignore"@ =~= Seq::<char>::empty() + seq!['.'] + "gitignore"@);
    assert(!"gitignore"@.contains('.'));
    lemma_extension_part(Seq::empty(), "gitignore"@);
    reveal_strlit(".gitattributes");
    reveal_strlit("gitattributes");
    assert(".gitattributes"@ =~= Seq::<char>::empty() + seq!['.'] + "gitattributes"@);
    assert(!"gitattributes"@.contains('.'));
    lemma_extension_part(Seq::empty(), "gitattributes"@);
    reveal_strlit(".gitmodules");
    reveal_strlit("gitmodules");
    assert(".gitmodules"@ =~= Seq::<char>::empty() + seq!['.'] + "gitmodules"@);
    assert(!"gitmodules"@.contains('.'));
    lemma_extension_part(Seq::empty(), "gitmodules"@);
    reveal_strlit(".lock");
    reveal_strlit("lock");
    assert(".lock"@ =~= seq!['.'] + "lock"@);
    assert(!"lock"@.contains('.'));
    if ".lock"@.is_suffix_of(name) {
        let u = name.take(name.len() - 5);
        assert(name =~= u + ".lock"@);
        assert(name =~= u + seq!['.'] + "lock"@);
        lemma_extension_part(u, "lock"@);
    }
    if ext == "lock"@ {
        assert(name.skip(name.len() - 5) =~= ".lock"@);
    }
    reveal_strlit("-lock.json");
    reveal_strlit("-lock");
    reveal_strlit("json");
    assert("-lock.json"@ =~= "-lock"@ + seq!['.'] + "json"@);
    assert(!"json"@.contains('.'));
    if "-lock.json"@.is_suffix_of(name) {
        let u = name.take(name.len() - "-lock.json"@.len());
        assert(name =~= u + "-lock.json"@);
        assert(name =~= (u + "-lock"@) + seq!['.'] + "json"@);
        lemma_extension_part(u + "-lock"@, "json"@);
    }
    reveal_strlit("-lock.yaml");
    reveal_strlit("-lock");
    reveal_strlit("yaml");
    assert("-lock.yaml"@ =~= "-lock"@ + seq!['.'] + "yaml"@);
    assert(!"yaml"@.contains('.'));
    if "-lock.yaml"@.is_suffix_of(name) {
        let u = name.take(name.len() - "-lock.yaml"@.len());
        assert(name =~= u + "-lock.yaml"@);
        assert(name =~= (u + "-lock"@) + seq!['.'] + "yaml"@);
        lemma_extension_part(u + "-lock"@, "yaml"@);
    }
    assert("lock"@.len() == 4 && "json"@.len() == 4 && "yaml"@.len() == 4 && "xml"@.len() == 3);
}

} // verus!
