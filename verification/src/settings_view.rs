//! The settings page. Every change takes effect at once.
use vstd::prelude::*;

use crate::session::EditorSettings;
use crate::text;

verus! {

/// What the page asks of its owner.
pub enum SettingsEvent {
    Apply(EditorSettings),
}

/// The categories that can be chosen.
#[derive(Clone, Copy, Debug, PartialEq, Eq, Structural)]
pub enum Cat {
    Editor,
    Maven,
}

/// An entry of the navigation.
pub struct CatItem {
    pub label: &'static str,
    pub cat: Cat,
    pub on: bool,
}

/// A choice of the tab width.
pub struct TabSegment {
    pub width: u32,
    pub on: bool,
}

/// How a setting is presented.
pub struct FieldText {
    pub name: &'static str,
    pub key: &'static str,
    pub desc: &'static str,
}

/// The settings page. Its font size is always the one that the slider shows, so whatever is
/// changed, the slider's size is applied and kept with it.
pub struct SettingsView {
    pub cat: Cat,
    pub settings: EditorSettings,
}

/// The names of the categories that cannot be chosen yet.
pub open spec fn proposals() -> Seq<Seq<char>> {
    seq!["外观"@, "终端"@, "Git"@, "Arthas"@, "Astore"@]
}

/// The names of the categories that cannot be chosen yet.
pub fn proposal_cats() -> (r: Vec<String>)
    ensures
        text::texts(r@) == proposals(),
{
    let mut r: Vec<String> = Vec::new();
    r.push("外观".to_owned());
    r.push("终端".to_owned());
    r.push("Git".to_owned());
    r.push("Arthas".to_owned());
    r.push("Astore".to_owned());
    assert(text::texts(r@) =~= proposals());
    r
}

/// The code that the preview shows.
pub open spec fn sample() -> Seq<Seq<char>> {
    seq![
        "public class Demo {"@,
        "    // 实时预览:字号/缩进/换行随设置变化"@,
        "    private final String name = \"nib\";"@,
        "    public String greet(String who) {"@,
        "        return \"Hello, \" + who + \" from \" + name;"@,
        "    }"@,
    ]
}

/// A line of the sample with each run of four spaces as wide as a tab.
pub open spec fn indented(line: Seq<char>, tab_size: u32) -> Seq<char> {
    text::replaced(line, "    "@, Seq::new(tab_size as nat, |i: int| ' '))
}

impl SettingsView {
    /// The page for the given settings, whose font size is the one that the slider shows for
    /// them: the whole number nearest to the slider's value, as the bits of an IEEE 754 single.
    pub fn new(settings: EditorSettings, slider: u32) -> (v: Self)
        ensures
            v.cat == Cat::Editor,
            v.settings == (EditorSettings { font_size: slider, ..settings }),
    {
        Self { cat: Cat::Editor, settings: EditorSettings { font_size: slider, ..settings } }
    }

    /// Brings the Maven category to the front.
    pub fn show_maven(&mut self)
        ensures
            *final(self) == (Self { cat: Cat::Maven, ..*old(self) }),
    {
        self.cat = Cat::Maven;
    }

    /// Brings a category to the front.
    pub fn select_cat(&mut self, cat: Cat)
        ensures
            *final(self) == (Self { cat, ..*old(self) }),
    {
        self.cat = cat;
    }

    /// All settings, to be applied and kept.
    pub fn apply(&self) -> (r: SettingsEvent)
        ensures
            r == SettingsEvent::Apply(self.settings),
    {
        SettingsEvent::Apply(self.settings.clone())
    }

    /// The slider was moved to a font size: the whole number nearest to its value, as the bits of
    /// an IEEE 754 single.
    pub fn set_font_size(&mut self, font_size: u32) -> (r: SettingsEvent)
        ensures
            *final(self) == (Self {
                settings: EditorSettings { font_size, ..old(self).settings },
                ..*old(self)
            }),
            r == SettingsEvent::Apply(final(self).settings),
    {
        self.settings.font_size = font_size;
        self.apply()
    }

    /// The tab width was set.
    pub fn set_tab_size(&mut self, tab_size: u32) -> (r: SettingsEvent)
        ensures
            *final(self) == (Self {
                settings: EditorSettings { tab_size, ..old(self).settings },
                ..*old(self)
            }),
            r == SettingsEvent::Apply(final(self).settings),
    {
        self.settings.tab_size = tab_size;
        self.apply()
    }

    /// Wrapping long lines was switched.
    pub fn set_word_wrap(&mut self, word_wrap: bool) -> (r: SettingsEvent)
        ensures
            *final(self) == (Self {
                settings: EditorSettings { word_wrap, ..old(self).settings },
                ..*old(self)
            }),
            r == SettingsEvent::Apply(final(self).settings),
    {
        self.settings.word_wrap = word_wrap;
        self.apply()
    }

    /// Folding was switched.
    pub fn set_folding(&mut self, folding: bool) -> (r: SettingsEvent)
        ensures
            *final(self) == (Self {
                settings: EditorSettings { folding, ..old(self).settings },
                ..*old(self)
            }),
            r == SettingsEvent::Apply(final(self).settings),
    {
        self.settings.folding = folding;
        self.apply()
    }

    /// One of the Maven paths was edited.
    pub fn set_maven(&mut self, home: String, settings: String, repo: String) -> (r: SettingsEvent)
        ensures
            *final(self) == (Self {
                settings: EditorSettings {
                    maven_home: home,
                    maven_settings: settings,
                    maven_repo: repo,
                    ..old(self).settings
                },
                ..*old(self)
            }),
            r == SettingsEvent::Apply(final(self).settings),
    {
        self.settings.maven_home = home;
        self.settings.maven_settings = settings;
        self.settings.maven_repo = repo;
        self.apply()
    }

    /// The entries of the navigation.
    pub fn cat_items(&self) -> (r: Vec<CatItem>)
        ensures
            r@.len() == 2,
            r@[0].label@ == "编辑器"@ && r@[0].cat == Cat::Editor,
            r@[1].label@ == "Maven"@ && r@[1].cat == Cat::Maven,
            forall|i: int| 0 <= i < 2 ==> (#[trigger] r@[i]).on == (r@[i].cat == self.cat),
    {
        let mut r: Vec<CatItem> = Vec::new();
        r.push(CatItem { label: "编辑器", cat: Cat::Editor, on: self.cat == Cat::Editor });
        r.push(CatItem { label: "Maven", cat: Cat::Maven, on: self.cat == Cat::Maven });
        r
    }

    /// The choices of the tab width.
    pub fn tab_segments(&self) -> (r: Vec<TabSegment>)
        ensures
            r@.len() == 3,
            r@[0].width == 2 && r@[1].width == 4 && r@[2].width == 8,
            forall|i: int|
                0 <= i < 3 ==> (#[trigger] r@[i]).on == (r@[i].width == self.settings.tab_size),
    {
        let t = self.settings.tab_size;
        let mut r: Vec<TabSegment> = Vec::new();
        r.push(TabSegment { width: 2, on: t == 2 });
        r.push(TabSegment { width: 4, on: t == 4 });
        r.push(TabSegment { width: 8, on: t == 8 });
        r
    }

    /// Title and description of the category in front.
    pub fn header(&self) -> (r: (&'static str, &'static str))
        ensures
            (r.0@, r.1@) == (match self.cat {
                Cat::Editor => (
                    "编辑器"@,
                    "字体、缩进与换行。改动立即作用于已打开的编辑器(Tab 宽度对新开标签生效)。"@,
                ),
                Cat::Maven => (
                    "Maven"@,
                    "像 IDEA 一样指定 Maven home / settings.xml / 本地仓库。留空则用 PATH 里的 mvn 与默认 ~/.m2。改动即时生效,Maven 面板会按新配置重新解析。"@,
                ),
            }),
    {
        match self.cat {
            Cat::Editor => (
                "编辑器",
                "字体、缩进与换行。改动立即作用于已打开的编辑器(Tab 宽度对新开标签生效)。",
            ),
            Cat::Maven => (
                "Maven",
                "像 IDEA 一样指定 Maven home / settings.xml / 本地仓库。留空则用 PATH 里的 mvn 与默认 ~/.m2。改动即时生效,Maven 面板会按新配置重新解析。",
            ),
        }
    }

    /// The settings of the category in front, from top to bottom.
    pub fn fields(&self) -> (r: Vec<FieldText>)
        ensures
            self.cat == Cat::Editor ==> {
                &&& r@.len() == 4
                &&& r@[0].name@ == "字号"@ && r@[0].key@ == "editor.fontSize"@ && r@[0].desc@
                    == "编辑器正文字号(11–22)。"@
                &&& r@[1].name@ == "Tab 宽度"@ && r@[1].key@ == "editor.tabSize"@ && r@[1].desc@
                    == "一个缩进等于多少空格。"@
                &&& r@[2].name@ == "自动换行"@ && r@[2].key@ == "editor.wordWrap"@ && r@[2].desc@
                    == "超出视宽的长行是否折行显示。"@
                &&& r@[3].name@ == "代码折叠"@ && r@[3].key@ == "editor.folding"@ && r@[3].desc@
                    == "显示折叠槽,可折叠函数/块。"@
            },
            self.cat == Cat::Maven ==> {
                &&& r@.len() == 3
                &&& r@[0].name@ == "Maven home"@ && r@[0].key@ == "maven.home"@ && r@[0].desc@
                    == "自定义 Maven 目录(含 bin/mvn),如 ~/amaven-3.5.0。留空=用 PATH 的 mvn。"@
                &&& r@[1].name@ == "settings.xml"@ && r@[1].key@ == "maven.settings"@
                    && r@[1].desc@ == "内网仓库等配置文件路径。留空=mvn 默认 ~/.m2/settings.xml。"@
                &&& r@[2].name@ == "本地仓库"@ && r@[2].key@ == "maven.repo"@ && r@[2].desc@
                    == "依赖本地缓存目录。留空=mvn 默认 ~/.m2/repository。"@
            },
    {
        let mut r: Vec<FieldText> = Vec::new();
        match self.cat {
            Cat::Editor => {
                r.push(
                    FieldText {
                        name: "字号",
                        key: "editor.fontSize",
                        desc: "编辑器正文字号(11–22)。",
                    },
                );
                r.push(
                    FieldText {
                        name: "Tab 宽度",
                        key: "editor.tabSize",
                        desc: "一个缩进等于多少空格。",
                    },
                );
                r.push(
                    FieldText {
                        name: "自动换行",
                        key: "editor.wordWrap",
                        desc: "超出视宽的长行是否折行显示。",
                    },
                );
                r.push(
                    FieldText {
                        name: "代码折叠",
                        key: "editor.folding",
                        desc: "显示折叠槽,可折叠函数/块。",
                    },
                );
            },
            Cat::Maven => {
                r.push(
                    FieldText {
                        name: "Maven home",
                        key: "maven.home",
                        desc: "自定义 Maven 目录(含 bin/mvn),如 ~/amaven-3.5.0。留空=用 PATH 的 mvn。",
                    },
                );
                r.push(
                    FieldText {
                        name: "settings.xml",
                        key: "maven.settings",
                        desc: "内网仓库等配置文件路径。留空=mvn 默认 ~/.m2/settings.xml。",
                    },
                );
                r.push(
                    FieldText {
                        name: "本地仓库",
                        key: "maven.repo",
                        desc: "依赖本地缓存目录。留空=mvn 默认 ~/.m2/repository。",
                    },
                );
            },
        }
        r
    }

    /// The lines of the preview.
    pub fn preview(&self) -> (r: Vec<String>)
        ensures
            r@.len() == sample().len(),
            forall|i: int|
                0 <= i < r@.len() ==> (#[trigger] r@[i])@ == indented(
                    sample()[i],
                    self.settings.tab_size,
                ),
    {
        let indent = text::spaces(self.settings.tab_size as usize);
        let tab = indent.as_str();
        proof {
            reveal_strlit("    ");
        }
        let mut r: Vec<String> = Vec::new();
        r.push(text::replace("public class Demo {", "    ", tab));
        r.push(text::replace("    // 实时预览:字号/缩进/换行随设置变化", "    ", tab));
        r.push(text::replace("    private final String name = \"nib\";", "    ", tab));
        r.push(text::replace("    public String greet(String who) {", "    ", tab));
        r.push(
            text::replace("        return \"Hello, \" + who + \" from \" + name;", "    ", tab),
        );
        r.push(text::replace("    }", "    ", tab));
        r
    }
}

/// In the preview each indent of four spaces is as wide as a tab, and a line without one stays as it
/// is.
pub proof fn law_an_indent_is_as_wide_as_a_tab(rest: Seq<char>, tab_size: u32)
    ensures
        indented(seq![' ', ' ', ' ', ' '] + rest, tab_size) == Seq::new(
            tab_size as nat,
            |i: int| ' ',
        ) + indented(rest, tab_size),
        !text::has_part(rest, seq![' ', ' ', ' ', ' ']) ==> indented(rest, tab_size) == rest,
{
    reveal_strlit("    ");
    assert("    "@ =~= seq![' ', ' ', ' ', ' ']);
    text::law_replacing_goes_on_after_the_part(
        rest,
        "    "@,
        Seq::new(tab_size as nat, |i: int| ' '),
    );
}

/// A change of one setting leaves the others as they are, and all of them are applied.
pub proof fn law_settings_change_one_by_one(
    v: &mut SettingsView,
    tab_size: u32,
    r: SettingsEvent,
)
    requires
        call_ensures(SettingsView::set_tab_size, (v, tab_size), r),
    ensures
        r matches SettingsEvent::Apply(s) ==> s.tab_size == tab_size && s.font_size == old(
            v,
        ).settings.font_size && s.word_wrap == old(v).settings.word_wrap && s.folding == old(
            v,
        ).settings.folding && s.maven_home == old(v).settings.maven_home && s.maven_settings
            == old(v).settings.maven_settings && s.maven_repo == old(v).settings.maven_repo,
{
}

/// A line of the preview whose sample begins with an indent begins with a tab of the width that is
/// set, and what follows is drawn by the same rule.
pub proof fn law_the_preview_follows_the_tab_width(
    v: SettingsView,
    r: Vec<String>,
    i: int,
    rest: Seq<char>,
)
    requires
        call_ensures(SettingsView::preview, (&v,), r),
        0 <= i < r@.len(),
        sample()[i] == seq![' ', ' ', ' ', ' '] + rest,
    ensures
        r@.len() == 6,
        r@[i]@ == Seq::new(v.settings.tab_size as nat, |k: int| ' ') + indented(
            rest,
            v.settings.tab_size,
        ),
{
    law_an_indent_is_as_wide_as_a_tab(rest, v.settings.tab_size);
}

/// Word wrap, folding and the font size change alone as well, and Maven's three paths together.
pub proof fn law_each_setting_is_applied(
    a: &mut SettingsView,
    b: &mut SettingsView,
    c: &mut SettingsView,
    d: &mut SettingsView,
    wrap: bool,
    folding: bool,
    size: u32,
    home: String,
    file: String,
    repo: String,
    ra: SettingsEvent,
    rb: SettingsEvent,
    rc: SettingsEvent,
    rd: SettingsEvent,
)
    requires
        call_ensures(SettingsView::set_word_wrap, (a, wrap), ra),
        *old(b) == *final(a),
        call_ensures(SettingsView::set_folding, (b, folding), rb),
        *old(c) == *final(b),
        call_ensures(SettingsView::set_font_size, (c, size), rc),
        *old(d) == *final(c),
        call_ensures(SettingsView::set_maven, (d, home, file, repo), rd),
    ensures
        final(a).settings.word_wrap == wrap && final(a).settings.folding == old(a).settings.folding
            && final(a).settings.font_size == old(a).settings.font_size,
        final(b).settings.folding == folding && final(b).settings.word_wrap == wrap,
        rd matches SettingsEvent::Apply(s) && s.word_wrap == wrap && s.folding == folding
            && s.font_size == size && s.maven_home == home && s.maven_settings == file
            && s.maven_repo == repo && s.tab_size == old(a).settings.tab_size && s.maven_offline
            == old(a).settings.maven_offline,
        ra == SettingsEvent::Apply(final(a).settings),
        rb == SettingsEvent::Apply(final(b).settings),
        rc == SettingsEvent::Apply(final(c).settings),
        final(d).cat == old(a).cat,
{
}

/// Of the tab widths the one that is set is on, and of the groups of settings the one that is shown.
pub proof fn law_what_is_set_is_on(
    v: &mut SettingsView,
    w: &mut SettingsView,
    size: u32,
    r: SettingsEvent,
    segments: Vec<TabSegment>,
    cat: Cat,
    items: Vec<CatItem>,
    i: int,
    j: int,
)
    requires
        call_ensures(SettingsView::set_tab_size, (v, size), r),
        call_ensures(SettingsView::tab_segments, (&*final(v),), segments),
        call_ensures(SettingsView::select_cat, (w, cat), ()),
        call_ensures(SettingsView::cat_items, (&*final(w),), items),
        0 <= i < segments@.len(),
        0 <= j < items@.len(),
    ensures
        segments@[i].on <==> segments@[i].width == size,
        i > 0 ==> segments@[i].width == 2 * segments@[i - 1].width,
        segments@[0].width == 2,
        items@[j].on <==> items@[j].cat == cat,
        final(w).settings == old(w).settings,
{
    assert(i == 0 || i == 1 || i == 2);
}

} // verus!
