//! What is kept between runs: the open projects and the editor settings.
use vstd::prelude::*;

use crate::path;
use crate::text;

verus! {

/// One open project.
pub struct ProjectSession {
    pub path: String,
    pub open_files: Vec<String>,
    pub active_file: Option<String>,
}

/// The model of an open project.
#[verifier::ext_equal]
pub struct ProjectModel {
    pub path: Seq<char>,
    pub open_files: Seq<Seq<char>>,
    pub active_file: Option<Seq<char>>,
}

impl View for ProjectSession {
    type V = ProjectModel;

    open spec fn view(&self) -> ProjectModel {
        ProjectModel {
            path: self.path@,
            open_files: text::texts(self.open_files@),
            active_file: text::opt_text(self.active_file),
        }
    }
}

impl Clone for ProjectSession {
    fn clone(&self) -> (r: Self)
        ensures
            r@ == self@,
    {
        ProjectSession {
            path: self.path.clone(),
            open_files: text::copy_strings(&self.open_files),
            active_file: text::copy_opt(&self.active_file),
        }
    }
}

/// The models of a list of projects.
pub open spec fn models(projects: Seq<ProjectSession>) -> Seq<ProjectModel> {
    projects.map_values(|p: ProjectSession| p@)
}

/// A copy of a list of projects.
pub fn copy_projects(projects: &Vec<ProjectSession>) -> (r: Vec<ProjectSession>)
    ensures
        models(r@) == models(projects@),
{
    let mut out: Vec<ProjectSession> = Vec::new();
    let ghost all = models(projects@);
    let mut i: usize = 0;
    assert(models(out@) =~= all.take(0));
    while i < projects.len()
        invariant
            i <= projects@.len(),
            all == models(projects@),
            models(out@) == all.take(i as int),
        decreases projects@.len() - i,
    {
        let ghost prev = models(out@);
        out.push(projects[i].clone());
        assert(models(out@) =~= prev.push(all[i as int]));
        i += 1;
        assert(models(out@) =~= all.take(i as int));
    }
    assert(all.take(all.len() as int) =~= all);
    out
}

/// All open projects and which of them is in front.
pub struct PersistedSession {
    pub version: u32,
    pub projects: Vec<ProjectSession>,
    pub active_project_index: usize,
}

/// The model of a session.
#[verifier::ext_equal]
pub struct SessionModel {
    pub version: u32,
    pub projects: Seq<ProjectModel>,
    pub active_project_index: usize,
}

impl View for PersistedSession {
    type V = SessionModel;

    open spec fn view(&self) -> SessionModel {
        SessionModel {
            version: self.version,
            projects: models(self.projects@),
            active_project_index: self.active_project_index,
        }
    }
}

impl Clone for PersistedSession {
    fn clone(&self) -> (r: Self)
        ensures
            r@ == self@,
    {
        PersistedSession {
            version: self.version,
            projects: copy_projects(&self.projects),
            active_project_index: self.active_project_index,
        }
    }
}

impl Default for PersistedSession {
    /// A session without projects.
    fn default() -> (r: Self)
        ensures
            r@ == (SessionModel {
                version: 0,
                projects: Seq::<ProjectModel>::empty(),
                active_project_index: 0,
            }),
    {
        let r = PersistedSession { version: 0, projects: Vec::new(), active_project_index: 0 };
        assert(models(r.projects@) =~= Seq::<ProjectModel>::empty());
        r
    }
}

/// Where the application keeps its files.
pub struct DataDirs {
    pub app_data: String,
    pub cache: String,
    pub astore_session: String,
}

/// The model of the directories.
pub struct DirsModel {
    pub app_data: Seq<char>,
    pub cache: Seq<char>,
    pub astore_session: Seq<char>,
}

impl View for DataDirs {
    type V = DirsModel;

    open spec fn view(&self) -> DirsModel {
        DirsModel {
            app_data: self.app_data@,
            cache: self.cache@,
            astore_session: self.astore_session@,
        }
    }
}

/// `sub` below `base`, or below the working directory where there is no `base`.
pub open spec fn below(base: Option<Seq<char>>, sub: Seq<char>) -> Seq<char> {
    match base {
        Some(b) => path::joined_path(b, sub),
        None => path::joined_path("."@, sub),
    }
}

/// The application's directories for the given user directories.
pub open spec fn dirs_for(local: Option<Seq<char>>, cache: Option<Seq<char>>) -> DirsModel {
    let app_data = below(local, "nib"@);
    DirsModel {
        app_data,
        cache: below(cache, "nib"@),
        astore_session: path::joined_path(app_data, "astore-session.json"@),
    }
}

/// `dirs::data_local_dir` as text. It depends on the user's environment; nothing is claimed.
#[verifier::external_body]
fn user_data_dir() -> (r: Option<String>) {
    dirs::data_local_dir().map(|p| p.to_string_lossy().to_string())
}

/// `dirs::cache_dir` as text. It depends on the user's environment; nothing is claimed.
#[verifier::external_body]
fn user_cache_dir() -> (r: Option<String>) {
    dirs::cache_dir().map(|p| p.to_string_lossy().to_string())
}

fn join_below(base: Option<String>, sub: &str) -> (r: String)
    ensures
        r@ == below(text::opt_text(base), sub@),
{
    match base {
        Some(b) => path::join(b.as_str(), sub),
        None => path::join(".", sub),
    }
}

/// The application's directories for the given user directories.
pub fn data_dirs_in(local: Option<String>, cache: Option<String>) -> (r: DataDirs)
    ensures
        r@ == dirs_for(text::opt_text(local), text::opt_text(cache)),
{
    let app_data = join_below(local, "nib");
    let cache = join_below(cache, "nib");
    let astore_session = path::join(app_data.as_str(), "astore-session.json");
    DataDirs { app_data, cache, astore_session }
}

/// The application's directories.
pub fn data_dirs() -> (r: DataDirs)
    ensures
        exists|local: Option<Seq<char>>, cache: Option<Seq<char>>|
            r@ == #[trigger] dirs_for(local, cache),
{
    data_dirs_in(user_data_dir(), user_cache_dir())
}

/// The data directory of Lite Editor, which is only read, for the given user directory.
pub fn legacy_dir_in(local: Option<String>) -> (r: String)
    ensures
        r@ == below(text::opt_text(local), "com.lite-editor.app"@),
{
    join_below(local, "com.lite-editor.app")
}

/// The data directory of Lite Editor.
pub fn legacy_app_data() -> (r: String)
    ensures
        exists|local: Option<Seq<char>>| r@ == #[trigger] below(local, "com.lite-editor.app"@),
{
    legacy_dir_in(user_data_dir())
}

/// What loading a session does next.
pub enum LoadStep {
    /// The store could not be read: there is no session.
    GiveUp,
    /// Read the session out of this text.
    Parse(String),
    /// Nothing is stored yet: read Lite Editor's files.
    ReadLegacy,
}

/// What to do once the application's own store has answered.
pub fn load_local(stored: Result<Option<String>, String>) -> (r: LoadStep)
    ensures
        stored is Err ==> r is GiveUp,
        stored matches Ok(Some(raw)) ==> r == LoadStep::Parse(raw),
        stored matches Ok(None) ==> r is ReadLegacy,
{
    match stored {
        Err(_) => LoadStep::GiveUp,
        Ok(Some(raw)) => LoadStep::Parse(raw),
        Ok(None) => LoadStep::ReadLegacy,
    }
}

/// What to take over from Lite Editor, whose files have the same format.
pub struct ImportPlan {
    /// Settings to write to the application's own store, unchanged.
    pub settings: Option<String>,
    /// Session to write to the application's own store, unchanged, and to read.
    pub session: Option<String>,
}

/// What to take over from the files of Lite Editor: whatever is there. The settings
/// are taken over even where there is no session.
pub fn import_legacy(session: Option<String>, settings: Option<String>) -> (r: ImportPlan)
    ensures
        r.settings == settings,
        r.session == session,
{
    ImportPlan { settings, session }
}

/// Preferences of the editor.
pub struct EditorSettings {
    /// Font size, as the bits of an IEEE 754 single.
    pub font_size: u32,
    pub tab_size: u32,
    pub word_wrap: bool,
    pub folding: bool,
    /// Maven installation, `settings.xml` and local repository; empty for the default.
    pub maven_home: String,
    pub maven_settings: String,
    pub maven_repo: String,
    pub maven_offline: bool,
}

/// The font size 13, as the bits of an IEEE 754 single.
pub fn default_font_size() -> (r: u32)
    ensures
        r == 0x4150_0000,
{
    0x4150_0000
}

pub fn default_tab_size() -> (r: u32)
    ensures
        r == 4,
{
    4
}

pub fn default_true() -> (r: bool)
    ensures
        r,
{
    true
}

impl Clone for EditorSettings {
    fn clone(&self) -> (r: Self)
        ensures
            r == *self,
    {
        EditorSettings {
            font_size: self.font_size,
            tab_size: self.tab_size,
            word_wrap: self.word_wrap,
            folding: self.folding,
            maven_home: self.maven_home.clone(),
            maven_settings: self.maven_settings.clone(),
            maven_repo: self.maven_repo.clone(),
            maven_offline: self.maven_offline,
        }
    }
}

impl Default for EditorSettings {
    fn default() -> (r: Self)
        ensures
            r.font_size == 0x4150_0000,
            r.tab_size == 4,
            !r.word_wrap,
            r.folding,
            r.maven_home@.len() == 0,
            r.maven_settings@.len() == 0,
            r.maven_repo@.len() == 0,
            !r.maven_offline,
    {
        EditorSettings {
            font_size: default_font_size(),
            tab_size: default_tab_size(),
            word_wrap: false,
            folding: default_true(),
            maven_home: String::new(),
            maven_settings: String::new(),
            maven_repo: String::new(),
            maven_offline: false,
        }
    }
}

/// The settings to use: those that were read, or the defaults where the store holds none that can
/// be read.
pub fn settings_or_default(read: Option<EditorSettings>) -> (r: EditorSettings)
    ensures
        read matches Some(s) ==> r == s,
        read is None ==> r.font_size == 0x4150_0000 && r.tab_size == 4 && !r.word_wrap && r.folding
            && r.maven_home@.len() == 0 && r.maven_settings@.len() == 0 && r.maven_repo@.len() == 0
            && !r.maven_offline,
{
    match read {
        Some(s) => s,
        None => EditorSettings::default(),
    }
}

/// The program keeps its data in a folder of its own below the user's, and the session of the store in
/// it; without a user's folder it keeps them where it runs.
pub proof fn law_data_lies_in_a_folder_of_its_own(local: String, cache: Option<String>, r: DataDirs)
    requires
        call_ensures(data_dirs_in, (Some(local), cache), r),
        local@.len() > 0,
    ensures
        path::components(r.app_data@) == path::components(local@).push("nib"@),
        path::components(r.astore_session@) == path::components(r.app_data@).push(
            "astore-session.json"@,
        ),
        cache matches Some(c) ==> c@.len() > 0 ==> path::components(r.cache@) == path::components(
            c@,
        ).push("nib"@),
{
    reveal_strlit("nib");
    reveal_strlit("astore-session.json");
    assert("nib"@.len() == 3 && "nib"@[0] == 'n' && "nib"@[1] == 'i' && "nib"@[2] == 'b');
    assert(!"nib"@.contains('/'));
    assert(seq!['.'].len() == 1);
    assert(path::is_name("nib"@));
    assert("astore-session.json"@.len() == 19);
    assert(!"astore-session.json"@.contains('/'));
    assert(path::is_name("astore-session.json"@));
    path::law_a_name_below_a_folder(local@, "nib"@);
    assert(r@.app_data == r.app_data@);
    assert(r.app_data@.len() > 0);
    path::law_a_name_below_a_folder(r.app_data@, "astore-session.json"@);
    if let Some(c) = cache {
        if c@.len() > 0 {
            path::law_a_name_below_a_folder(c@, "nib"@);
        }
    }
}

/// What is stored locally is used; what an earlier program left is looked for only where nothing is
/// stored, and settings that were read are kept as they are.
pub proof fn law_stored_values_come_first(
    stored: Result<Option<String>, String>,
    step: LoadStep,
    read: Option<EditorSettings>,
    r: EditorSettings,
    tab: u32,
    font: u32,
)
    requires
        call_ensures(load_local, (stored,), step),
        call_ensures(settings_or_default, (read,), r),
        call_ensures(default_tab_size, (), tab),
        call_ensures(default_font_size, (), font),
    ensures
        step is ReadLegacy <==> stored is Ok && stored->Ok_0 is None,
        step is GiveUp <==> stored is Err,
        step matches LoadStep::Parse(raw) ==> stored == Ok::<Option<String>, String>(Some(raw)),
        read is Some ==> Some(r) == read,
        read is None ==> r.tab_size == tab && r.font_size == font,
{
}

} // verus!
