//! Going to a definition: which question to ask next, and where to go in the end.
use vstd::prelude::*;

use crate::path;
use crate::text;
use crate::usages_view::LspUsage;

verus! {

/// A place that the language server names.
pub struct Location {
    pub uri: String,
    /// The file that a `file://` address names.
    pub path: String,
    pub line: u32,
    pub character: u32,
}

/// Where a library class came from: its address and the project that it was opened from.
pub struct JdtSource {
    pub uri: String,
    pub project: String,
}

impl Clone for JdtSource {
    fn clone(&self) -> (r: Self)
        ensures
            r == *self,
    {
        JdtSource { uri: self.uri.clone(), project: self.project.clone() }
    }
}

/// The place from which to go, and what is known about it.
pub struct GotoContext {
    pub file: String,
    /// What the tab of the file is called.
    pub title: String,
    pub line: u32,
    pub character: u32,
    pub project_root: String,
    /// Set where the file is the source of a library class.
    pub jdt: Option<JdtSource>,
}

/// Which question to ask.
pub enum GotoQuery {
    /// Ask the server of the file.
    InProject,
    /// Ask about the library class, in the project that it was opened from.
    ViaJdt(JdtSource),
    /// Look for a symbol in the project.
    WorkspaceSymbol,
}

/// What to do next.
pub enum GotoStep {
    /// Ask who uses the symbol.
    References(GotoQuery),
    /// Fetch the source of a library class, for the project of this path.
    FetchSource { uri: String, ctx: String },
    /// Write the source to this file.
    WriteSource { path: String },
    /// Search the text of the project.
    TextFallback,
    Done(Goto),
}

/// Where to go.
pub enum Goto {
    File { path: String, line: u32, character: u32, jdt: Option<JdtSource> },
    /// Show these uses.
    Usages(Vec<LspUsage>),
    Status(String),
    NotFound,
}

/// What identifies a library class: its address up to the first `?`.
pub open spec fn class_key(uri: Seq<char>) -> Seq<char> {
    text::before_first(uri, '?')
}

/// The parts of a text between slashes that are not empty.
pub open spec fn segments(s: Seq<char>) -> Seq<Seq<char>> {
    text::split_on(s, '/').filter(|p: Seq<char>| p.len() > 0)
}

/// The file for the source of a library class, below the directory `temp`: the package of the class
/// becomes a directory.
pub open spec fn temp_path(uri: Seq<char>, temp: Seq<char>) -> Option<Seq<char>> {
    let head = class_key(uri);
    if !"jdt://contents/"@.is_prefix_of(head) {
        None
    } else {
        let segs = segments(head.skip("jdt://contents/"@.len() as int));
        if segs.len() == 0 {
            None
        } else {
            let base = path::joined_path(temp, "nib-jdt-sources"@);
            let dir = if segs.len() >= 2 {
                path::joined_path(base, text::replaced(segs[segs.len() - 2], "."@, "/"@))
            } else {
                base
            };
            Some(path::joined_path(dir, segs.last()))
        }
    }
}

fn nonempty_segments(s: &str) -> (r: Vec<String>)
    ensures
        text::texts(r@) == segments(s@),
{
    let pieces = text::split(s, '/');
    let ghost all = text::split_on(s@, '/');
    let ghost keep = |p: Seq<char>| p.len() > 0;
    let mut out: Vec<String> = Vec::new();
    let mut i: usize = 0;
    assert(all.take(0).filter(keep) =~= Seq::<Seq<char>>::empty()) by {
        reveal(Seq::filter);
    }
    assert(text::texts(out@) =~= all.take(0).filter(keep));
    while i < pieces.len()
        invariant
            i <= pieces@.len(),
            all == text::texts(pieces@),
            keep == (|p: Seq<char>| p.len() > 0),
            text::texts(out@) == all.take(i as int).filter(keep),
        decreases pieces@.len() - i,
    {
        proof {
            reveal(Seq::filter);
            assert(all.take(i + 1).drop_last() =~= all.take(i as int));
            assert(all.take(i + 1).last() == pieces@[i as int]@);
        }
        let ghost prev = text::texts(out@);
        if text::first_char(pieces[i].as_str()).is_some() {
            out.push(pieces[i].clone());
            assert(text::texts(out@) =~= prev.push(pieces@[i as int]@));
        }
        i += 1;
    }
    assert(all.take(all.len() as int) =~= all);
    out
}

/// The file for the source of a library class, below the directory `temp`.
pub fn jdt_temp_path(uri: &str, temp: &str) -> (r: Option<String>)
    ensures
        text::opt_text(r) == temp_path(uri@, temp@),
{
    let head = text::take_before(uri, '?');
    match text::strip_prefix(head.as_str(), "jdt://contents/") {
        None => None,
        Some(after) => {
            let segs = nonempty_segments(after.as_str());
            let n = segs.len();
            assert(text::texts(segs@).len() == n);
            if n == 0 {
                return None;
            }
            assert(text::texts(segs@).last() == segs@[n - 1]@);
            let base = path::join(temp, "nib-jdt-sources");
            let dir = if n >= 2 {
                assert(text::texts(segs@)[n - 2] == segs@[n - 2]@);
                proof {
                    reveal_strlit(".");
                }
                let package = text::replace(segs[n - 2].as_str(), ".", "/");
                path::join(base.as_str(), package.as_str())
            } else {
                base
            };
            Some(path::join(dir.as_str(), segs[n - 1].as_str()))
        },
    }
}

impl GotoContext {
    /// Whether the file belongs to the project.
    pub open spec fn in_project(self) -> bool {
        self.project_root@.is_prefix_of(self.file@)
    }

    /// The path by which the server of the project is found.
    pub open spec fn server_ctx(self) -> Seq<char> {
        if self.in_project() {
            self.file@
        } else {
            self.project_root@
        }
    }

    /// Whether `q` is the question to ask first.
    pub open spec fn asks(self, q: GotoQuery) -> bool {
        if self.in_project() {
            q is InProject
        } else {
            match self.jdt {
                Some(s) => q == GotoQuery::ViaJdt(s),
                None => q is WorkspaceSymbol,
            }
        }
    }

    /// The question to ask first.
    pub fn first_query(&self) -> (q: GotoQuery)
        ensures
            self.asks(q),
    {
        if text::starts_with(self.file.as_str(), self.project_root.as_str()) {
            GotoQuery::InProject
        } else {
            match &self.jdt {
                Some(s) => GotoQuery::ViaJdt(s.clone()),
                None => GotoQuery::WorkspaceSymbol,
            }
        }
    }

    /// Whether the definition `u` is where the question came from: the same line of the same file,
    /// or of the same library class.
    pub open spec fn on_declaration(self, u: Location) -> bool {
        u.line == self.line && (if self.in_project() {
            u.path@ == self.file@
        } else {
            self.jdt is Some && class_key(u.uri@) == class_key(self.jdt->0.uri@)
        })
    }

    fn is_declaration(&self, u: &Location) -> (r: bool)
        ensures
            r == self.on_declaration(*u),
    {
        if u.line != self.line {
            return false;
        }
        if text::starts_with(self.file.as_str(), self.project_root.as_str()) {
            text::str_eq(u.path.as_str(), self.file.as_str())
        } else {
            match &self.jdt {
                Some(s) => {
                    let a = text::take_before(u.uri.as_str(), '?');
                    let b = text::take_before(s.uri.as_str(), '?');
                    text::str_eq(a.as_str(), b.as_str())
                },
                None => false,
            }
        }
    }

    /// What to do once the server has said where the definition is: on a declaration ask who uses
    /// it; go to a file; fetch a library class; search the text where the server knows nothing.
    pub open spec fn follows(self, found: Result<Option<Location>, String>, step: GotoStep) -> bool {
        match found {
            Ok(Some(u)) => if self.on_declaration(u) {
                step is References && (if self.in_project() {
                    step->References_0 is InProject
                } else {
                    self.jdt is Some && step->References_0 == GotoQuery::ViaJdt(self.jdt->0)
                })
            } else if "file://"@.is_prefix_of(u.uri@) {
                step == GotoStep::Done(
                    Goto::File {
                        path: u.path,
                        line: u.line,
                        character: u.character,
                        jdt: None,
                    },
                )
            } else if "jdt://"@.is_prefix_of(u.uri@) {
                step is FetchSource && step->uri == u.uri && step->ctx@ == self.server_ctx()
            } else {
                step == GotoStep::Done(Goto::NotFound)
            },
            _ => step is TextFallback,
        }
    }

    /// What to do once the server has said where the definition is.
    pub fn after_definition(&self, found: &Result<Option<Location>, String>) -> (step: GotoStep)
        ensures
            self.follows(*found, step),
    {
        match found {
            Ok(Some(u)) => {
                if self.is_declaration(u) {
                    return GotoStep::References(self.first_query());
                }
                if text::starts_with(u.uri.as_str(), "file://") {
                    return GotoStep::Done(
                        Goto::File {
                            path: u.path.clone(),
                            line: u.line,
                            character: u.character,
                            jdt: None,
                        },
                    );
                }
                if text::starts_with(u.uri.as_str(), "jdt://") {
                    let in_project = text::starts_with(
                        self.file.as_str(),
                        self.project_root.as_str(),
                    );
                    let ctx = if in_project {
                        self.file.clone()
                    } else {
                        self.project_root.clone()
                    };
                    return GotoStep::FetchSource { uri: u.uri.clone(), ctx };
                }
                GotoStep::Done(Goto::NotFound)
            },
            _ => GotoStep::TextFallback,
        }
    }

    /// What to do once the uses of the symbol are there, or none where they could not be read: show
    /// them as they came, where there are any.
    pub fn after_references(&self, uses: Option<Vec<LspUsage>>) -> (g: Goto)
        ensures
            g == (if uses is Some && uses->0@.len() > 0 {
                Goto::Usages(uses->0)
            } else {
                Goto::NotFound
            }),
    {
        match uses {
            Some(v) => if v.len() > 0 {
                Goto::Usages(v)
            } else {
                Goto::NotFound
            },
            None => Goto::NotFound,
        }
    }

    /// What to do once the source of the library class is there: where to write it.
    pub fn after_source(&self, uri: &str, fetched: &Result<(), String>, temp: &str) -> (step:
        GotoStep)
        ensures
            match *fetched {
                Err(e) => step is Done && step->Done_0 is Status && step->Done_0->Status_0@
                    == "取库源码失败: "@ + e@,
                Ok(_) => match temp_path(uri@, temp@) {
                    Some(p) => step is WriteSource && step->WriteSource_path@ == p,
                    None => step is Done && step->Done_0 is Status && step->Done_0->Status_0@
                        == "无法解析库类 URI: "@ + uri@,
                },
            },
    {
        match fetched {
            Err(e) => GotoStep::Done(Goto::Status(text::cat2("取库源码失败: ", e.as_str()))),
            Ok(_) => match jdt_temp_path(uri, temp) {
                Some(p) => GotoStep::WriteSource { path: p },
                None => GotoStep::Done(Goto::Status(text::cat2("无法解析库类 URI: ", uri))),
            },
        }
    }

    /// What to do once the source is written: go there, and remember where it came from.
    pub fn after_write(
        &self,
        u: &Location,
        p: String,
        ctx: String,
        written: Result<(), String>,
    ) -> (g: Goto)
        ensures
            match written {
                Ok(_) => g == (Goto::File {
                    path: p,
                    line: u.line,
                    character: u.character,
                    jdt: Some(JdtSource { uri: u.uri, project: ctx }),
                }),
                Err(e) => g is Status && g->Status_0@ == "写库源码临时文件失败: "@ + e@,
            },
    {
        match written {
            Ok(_) => Goto::File {
                path: p,
                line: u.line,
                character: u.character,
                jdt: Some(JdtSource { uri: u.uri.clone(), project: ctx }),
            },
            Err(e) => Goto::Status(text::cat2("写库源码临时文件失败: ", e.as_str())),
        }
    }

    /// What to do once the text of the project was searched.
    pub fn after_fallback(&self, found: Option<Location>) -> (g: Goto)
        ensures
            match found {
                Some(u) => g == (Goto::File {
                    path: u.path,
                    line: u.line,
                    character: u.character,
                    jdt: None,
                }),
                None => g == Goto::NotFound,
            },
    {
        match found {
            Some(u) => Goto::File {
                path: u.path,
                line: u.line,
                character: u.character,
                jdt: None,
            },
            None => Goto::NotFound,
        }
    }
}

/// The source of a library class is kept below the temporary folder, in the folders of its package and
/// under its own name.
pub proof fn law_library_sources_lie_in_their_package(
    jar: Seq<char>,
    package: Seq<char>,
    file: Seq<char>,
    rest: Seq<char>,
    uri: &str,
    temp: &str,
    r: Option<String>,
)
    requires
        call_ensures(jdt_temp_path, (uri, temp), r),
        uri@ == "jdt://contents/"@ + (jar + seq!['/'] + package + seq!['/'] + file) + seq!['?'] + rest,
        jar.len() > 0 && package.len() > 0 && file.len() > 0,
        !jar.contains('/') && !package.contains('/') && !file.contains('/'),
        !jar.contains('?') && !package.contains('?') && !file.contains('?'),
    ensures
        r is Some,
        r->0@ == path::joined_path(
            path::joined_path(
                path::joined_path(temp@, "nib-jdt-sources"@),
                Seq::new(
                    package.len(),
                    |i: int|
                        if package[i] == '.' {
                            '/'
                        } else {
                            package[i]
                        },
                ),
            ),
            file,
        ),
{
    lemma_parts_of_an_address(jar, package, file, rest, uri@);
    lemma_dots_become_slashes(package);
}

proof fn lemma_parts_of_an_address(
    jar: Seq<char>,
    package: Seq<char>,
    file: Seq<char>,
    rest: Seq<char>,
    uri: Seq<char>,
)
    requires
        uri == "jdt://contents/"@ + (jar + seq!['/'] + package + seq!['/'] + file) + seq!['?'] + rest,
        jar.len() > 0 && package.len() > 0 && file.len() > 0,
        !jar.contains('/') && !package.contains('/') && !file.contains('/'),
        !jar.contains('?') && !package.contains('?') && !file.contains('?'),
    ensures
        "jdt://contents/"@.is_prefix_of(class_key(uri)),
        segments(class_key(uri).skip("jdt://contents/"@.len() as int)) == seq![jar, package, file],
{
    reveal_strlit("jdt://contents/");
    let start = "jdt://contents/"@;
    let inner = jar + seq!['/'] + package + seq!['/'] + file;
    let key = start + inner;
    assert(!key.contains('?')) by {
        if key.contains('?') {
            let k = key.index_of('?');
            assert(!start.contains('?'));
            if k < start.len() {
                assert(start[k] == '?');
            } else {
                let j = k - start.len();
                assert(inner[j] == '?');
                if j < jar.len() {
                    assert(jar[j] == '?');
                } else if j == jar.len() {
                } else if j < jar.len() + 1 + package.len() {
                    assert(package[j - jar.len() - 1] == '?');
                } else if j > jar.len() + 1 + package.len() {
                    assert(file[j - jar.len() - package.len() - 2] == '?');
                }
            }
        }
    }
    text::law_around_a_character(key, '?', rest);
    assert(class_key(uri) == key);
    assert(key.take(start.len() as int) =~= start);
    assert(start.is_prefix_of(key));
    assert(key.skip(start.len() as int) =~= inner);
    text::law_split_where_it_stands(jar, '/', package);
    text::law_split_where_it_stands(jar + seq!['/'] + package, '/', file);
    text::law_split_where_it_stands(package, '/', file);
    text::law_split_where_it_stands(file, '/', jar);
    let pieces = text::split_on(inner, '/');
    assert(pieces =~= seq![jar, package, file]);
    reveal(Seq::filter);
    let named = |p: Seq<char>| p.len() > 0;
    assert(pieces.drop_last() =~= seq![jar, package]);
    assert(seq![jar, package].drop_last() =~= seq![jar]);
    assert(seq![jar].drop_last() =~= Seq::<Seq<char>>::empty());
    assert(Seq::<Seq<char>>::empty().filter(named) =~= Seq::<Seq<char>>::empty());
    assert(seq![jar].filter(named) =~= seq![jar]);
    assert(seq![jar, package].filter(named) =~= seq![jar, package]);
    assert(pieces.filter(named) =~= pieces);
}

/// A definition that is found elsewhere is gone to, at its line and column; where the cursor stands on
/// the definition itself its uses are asked for, and where nothing is found the text is searched.
pub proof fn law_definitions_are_gone_to(c: GotoContext, u: Location, step: GotoStep, nothing: GotoStep)
    requires
        call_ensures(GotoContext::after_definition, (&c, &Ok(Some(u))), step),
        call_ensures(GotoContext::after_definition, (&c, &Ok(None)), nothing),
        c.project_root@.is_prefix_of(c.file@),
        "file://"@.is_prefix_of(u.uri@),
    ensures
        nothing is TextFallback,
        u.path@ == c.file@ && u.line == c.line ==> step is References,
        u.path@ != c.file@ || u.line != c.line ==> (step matches GotoStep::Done(
            Goto::File { path, line, character, jdt },
        ) && path == u.path && line == u.line && character == u.character && jdt is None),
{
}

/// A file of the project is asked about directly, a library class through where it was opened from, and
/// any other file by the name of the symbol.
pub proof fn law_who_is_asked(c: GotoContext, q: GotoQuery)
    requires
        call_ensures(GotoContext::first_query, (&c,), q),
    ensures
        q is InProject <==> c.project_root@.is_prefix_of(c.file@),
        q is ViaJdt <==> !c.project_root@.is_prefix_of(c.file@) && c.jdt is Some,
        q matches GotoQuery::ViaJdt(s) ==> c.jdt == Some(s),
{
}

/// A definition in a library is opened at its place and can be gone on from; what is not found by any
/// way is told.
pub proof fn law_library_definitions_are_opened(
    c: GotoContext,
    u: Location,
    p: String,
    ctx: String,
    written: Result<(), String>,
    g: Goto,
    found: Option<Location>,
    f: Goto,
    uses: Option<Vec<LspUsage>>,
    h: Goto,
)
    requires
        call_ensures(GotoContext::after_write, (&c, &u, p, ctx, written), g),
        call_ensures(GotoContext::after_fallback, (&c, found), f),
        call_ensures(GotoContext::after_references, (&c, uses), h),
    ensures
        written is Ok <==> g is File,
        g matches Goto::File { path, line, character, jdt } ==> path == p && line == u.line && character
            == u.character && (jdt matches Some(j) && j.uri == u.uri && j.project == ctx),
        written matches Err(e) ==> (g matches Goto::Status(s) && e@.is_suffix_of(s@)),
        found is None ==> f is NotFound,
        found matches Some(l) ==> (f matches Goto::File { path, line, character, jdt } && path == l.path
            && line == l.line && character == l.character && jdt is None),
        h is Usages <==> uses is Some && uses->0@.len() > 0,
        h matches Goto::Usages(v) ==> uses == Some(v),
        h is Usages || h is NotFound,
{
    if let Err(e) = written {
        let s = g->Status_0@;
        assert(s.skip(s.len() - e@.len()) =~= e@);
    }
}

proof fn lemma_dots_become_slashes(s: Seq<char>)
    ensures
        text::replaced(s, "."@, "/"@) == Seq::new(
            s.len(),
            |i: int|
                if s[i] == '.' {
                    '/'
                } else {
                    s[i]
                },
        ),
    decreases s.len(),
{
    reveal_strlit(".");
    reveal_strlit("/");
    let r = text::replaced(s, "."@, "/"@);
    let t = Seq::new(
        s.len(),
        |i: int|
            if s[i] == '.' {
                '/'
            } else {
                s[i]
            },
    );
    if s.len() > 0 {
        lemma_dots_become_slashes(s.drop_first());
        assert(s.skip(1) =~= s.drop_first());
        assert("."@.is_prefix_of(s) <==> s[0] == '.') by {
            if s[0] == '.' {
                assert(s.subrange(0, 1) =~= "."@);
            }
            if "."@.is_prefix_of(s) {
                assert(s.subrange(0, 1)[0] == "."@[0]);
            }
        }
        assert(r =~= t);
    } else {
        assert(r =~= t);
    }
}

/// From a library class, its own declaration leads to its usages, another class is fetched, and what
/// lies in neither a file nor a library is not found.
pub proof fn law_from_a_library_class(c: GotoContext, u: Location, step: GotoStep, j: JdtSource)
    requires
        call_ensures(GotoContext::after_definition, (&c, &Ok(Some(u))), step),
        !c.project_root@.is_prefix_of(c.file@),
        c.jdt == Some(j),
    ensures
        u.line == c.line && u.uri@ == j.uri@ ==> step == GotoStep::References(GotoQuery::ViaJdt(j)),
        u.line != c.line && "jdt://"@.is_prefix_of(u.uri@) ==> (step matches GotoStep::FetchSource {
            uri,
            ctx,
        } && uri == u.uri && ctx@ == c.project_root@),
        u.line != c.line && "file://"@.is_prefix_of(u.uri@) ==> (step matches GotoStep::Done(
            Goto::File { path, line, character, jdt },
        ) && path == u.path && line == u.line && character == u.character),
        u.line != c.line && !"jdt://"@.is_prefix_of(u.uri@) && !"file://"@.is_prefix_of(u.uri@)
            ==> step == GotoStep::Done(Goto::NotFound),
{
    reveal_strlit("jdt://");
    reveal_strlit("file://");
    if "jdt://"@.is_prefix_of(u.uri@) && "file://"@.is_prefix_of(u.uri@) {
        assert(u.uri@[0] == "jdt://"@[0]);
        assert(u.uri@[0] == "file://"@[0]);
    }
}

} // verus!
