use nib::commands::{self, GotoEnd, PaletteTarget, UsagePlace};
use nib::editing::{centered_top, OpenAt, OpenFile};
use nib::explorer::{CopySearch, FileTask, NameOp, PasteStep, UndoOp};
use nib::explorer;
use nib::file_ops::paste_undo;
use nib::frame::{self, DotTone, GitSummary, MainArea, MenuEntry, PanelContent};
use nib::git_marks::{file_row, folder_row, NameColor};
use nib::git_panel::{GitChange, GitPanelMode, Tone};
use nib::goto::{Goto, JdtSource};
use nib::projects::front_path;
use nib::session::{EditorSettings, PersistedSession, ProjectSession};
use nib::terminal_panel::Modifiers;
use nib::tree::FileNode;
use nib::usages_view::LspUsage;
use nib::welcome::{self, Markers, ProjectKind, RecentEntry, RecentsSection};
use nib::workbench::{LspPhase, OpenProject, Overlay, PanelTab, SidebarView, Workbench};

fn owned(v: &[&str]) -> Vec<String> {
    v.iter().map(|s| s.to_string()).collect()
}

fn some(s: &str) -> Option<String> {
    Some(s.to_string())
}

fn project(path: &str, files: &[&str], active: Option<&str>) -> ProjectSession {
    ProjectSession {
        path: path.to_string(),
        open_files: owned(files),
        active_file: active.map(|s| s.to_string()),
    }
}

fn bench(root: &str) -> Workbench {
    let mut w = Workbench::new("/".to_string());
    let _ = w.load_project(root.to_string());
    w
}

fn show(w: &mut Workbench, p: &str, now: u64) {
    assert!(w.file_read(p.to_string(), Ok(()), now).is_some());
}

fn leaf(name: &str, path: &str) -> FileNode {
    FileNode { name: name.to_string(), path: path.to_string(), children: None }
}

fn dir(name: &str, path: &str, children: Vec<FileNode>) -> FileNode {
    FileNode { name: name.to_string(), path: path.to_string(), children: Some(children) }
}

fn paths(s: &PersistedSession) -> Vec<String> {
    s.projects.iter().map(|p| p.path.clone()).collect()
}

fn mods(shift: bool, control: bool) -> Modifiers {
    Modifiers { control, alt: false, shift, platform: false, function: false }
}

#[test]
fn loading_a_project_starts_it_afresh() {
    let mut w = bench("/p/one");
    assert_eq!(w.project_name, "one");
    assert_eq!(w.status, "/p/one");
    w.explorer.toggle_multi_select("/p/one/a".to_string());
    w.explorer.remember(vec![UndoOp::Created { path: "/p/one/b".to_string() }]);
    w.folder_toggled("/p/one/src".to_string(), true);
    w.show_overlay(Overlay::Search);
    w.lsp_phase = LspPhase::Ready;
    let plan = w.load_project("/p/two".to_string());
    assert_eq!(plan.stop_watcher, "/p/one");
    assert_eq!(plan.stop_lsp, some("/p/one"));
    assert!(plan.tree.items.is_empty() && plan.tree.selected.is_none());
    assert!(w.explorer.selected.is_empty());
    assert!(w.explorer.undo.is_empty());
    assert!(w.expanded.is_empty());
    assert!(w.overlay.is_none());
    assert_eq!(w.lsp_phase, LspPhase::Off);
    assert_eq!((w.project_name.as_str(), w.status.as_str()), ("two", "/p/two"));
}

#[test]
fn a_project_that_is_loaded_again_keeps_its_server() {
    let mut w = bench("/p/one");
    assert_eq!(w.load_project("/p/one".to_string()).stop_lsp, None);
    let mut fresh = Workbench::new("/".to_string());
    assert_eq!(fresh.load_project("/p/one".to_string()).stop_lsp, None);
}

#[test]
fn trees_are_kept_per_project_and_shown_when_current() {
    let mut w = bench("/p/one");
    let tree = || dir("one", "/p/one", vec![dir("a", "/p/one/a", vec![dir("b", "/p/one/a/b", vec![leaf("c", "/p/one/a/b/c")])]), leaf("x", "/p/one/x")]);
    w.folder_toggled("/p/one/a/b".to_string(), true);
    let v = w.tree_loaded("/p/one".to_string(), tree()).unwrap();
    assert_eq!(v.items.len(), 2);
    assert_eq!((v.items[0].id.as_str(), v.items[0].label.as_str(), v.items[0].expanded), ("/p/one/a/b", "a/b", true));
    assert_eq!(v.items[0].children[0].id, "/p/one/a/b/c");
    assert!(w.tree_loaded("/p/two".to_string(), dir("two", "/p/two", vec![leaf("y", "/p/two/y")])).is_none());
    let plan = w.load_project("/p/two".to_string());
    assert_eq!(plan.tree.items[0].id, "/p/two/y");
}

#[test]
fn trees_of_other_projects_are_read_ahead_once() {
    let mut w = bench("/p/one");
    let sess = PersistedSession {
        version: 1,
        projects: vec![project("/p/one", &[], None), project("/p/two", &[], None), project("/p/three", &[], None)],
        active_project_index: 0,
    };
    w.start_session(sess, false).unwrap();
    assert_eq!(w.prewarm_roots(), owned(&["/p/two", "/p/three"]));
    w.prewarmed("/p/two".to_string(), leaf("two", "/p/two"));
    assert!(!w.needs_prewarm("/p/two/"));
    assert_eq!(w.prewarm_roots(), owned(&["/p/three"]));
}

#[test]
fn files_are_listed_in_order_for_the_open_project_only() {
    let mut w = bench("/p/one");
    assert!(!w.files_listed("/p/two", &owned(&["/p/two/a"])));
    assert!(w.all_files.is_empty());
    assert!(w.files_listed("/p/one/", &owned(&["/p/one/b", "/p/one/a"])));
    assert_eq!(w.all_files, owned(&["/p/one/a", "/p/one/b"]));
}

#[test]
fn opening_a_file_inserts_and_fronts_its_tab() {
    let mut w = bench("/p");
    assert!(matches!(w.open_file("/p/src/a/Main.java", 5), OpenFile::Read));
    assert_eq!(w.status, "打开 /p/src/a/Main.java …");
    let (opened, sess) = w.file_read("/p/src/a/Main.java".to_string(), Ok(()), 6).unwrap();
    assert!(opened.tab.fresh && opened.starts_lsp);
    assert_eq!(w.lsp_phase, LspPhase::Starting);
    assert_eq!(w.status, "");
    assert_eq!(w.title(), "p — Main.java");
    assert!(w.expanded.contains("/p/src") && w.expanded.contains("/p/src/a"));
    assert!(!w.expanded.contains("/p"));
    assert_eq!(sess.version, 1);
    assert_eq!(sess.projects[0].open_files, owned(&["/p/src/a/Main.java"]));
    assert_eq!(sess.projects[0].active_file, some("/p/src/a/Main.java"));
    assert_eq!(w.last_op.as_ref().unwrap().label, "切换标签 Main.java");
    assert!(matches!(w.open_file("/p/src//a/Main.java", 7), OpenFile::Front));
    assert!(w.file_read("/p/x".to_string(), Err("denied".to_string()), 8).is_none());
    assert_eq!(w.status, "打开失败: denied");
}

#[test]
fn java_outside_the_project_starts_no_server() {
    let mut w = bench("/p");
    let (opened, _) = w.file_read("/tmp/X.java".to_string(), Ok(()), 1).unwrap();
    assert!(!opened.starts_lsp);
    assert_eq!(w.lsp_phase, LspPhase::Off);
    w.lsp_phase = LspPhase::Ready;
    let (inside, _) = w.file_read("/p/Y.java".to_string(), Ok(()), 2).unwrap();
    assert!(inside.starts_lsp);
    assert_eq!(w.lsp_phase, LspPhase::Ready);
    w.lsp_failed();
    assert_eq!(w.lsp_phase, LspPhase::Failed);
}

#[test]
fn the_oldest_saved_tab_gives_way() {
    let mut w = bench("/p");
    for i in 0..30 {
        show(&mut w, &format!("/p/f{}.txt", i), 10 + i);
    }
    let id0 = w.tabs.tabs[0].id;
    w.editor_changed(id0);
    let (opened, _) = w.file_read("/p/new.txt".to_string(), Ok(()), 100).unwrap();
    assert_eq!(opened.tab.evicted, Some(1));
    assert_eq!(w.tabs.tabs.len(), 30);
    assert_eq!(w.tabs.tabs[0].path, "/p/f0.txt");
    assert_eq!(w.tabs.tabs[1].path, "/p/f2.txt");
    assert_eq!(w.tabs.active, Some(29));
}

#[test]
fn unsaved_tabs_never_give_way() {
    let mut w = bench("/p");
    for i in 0..30 {
        show(&mut w, &format!("/p/f{}.txt", i), 10 + i);
        let id = w.tabs.tabs[i as usize].id;
        w.editor_changed(id);
    }
    let (opened, _) = w.file_read("/p/new.txt".to_string(), Ok(()), 100).unwrap();
    assert_eq!(opened.tab.evicted, None);
    assert_eq!(w.tabs.tabs.len(), 31);
}

#[test]
fn closing_the_front_tab_fronts_its_neighbour() {
    let mut w = bench("/p");
    show(&mut w, "/p/a", 1);
    show(&mut w, "/p/b", 2);
    show(&mut w, "/p/c", 3);
    assert!(w.activate_tab(1, 4).is_some());
    let (_, sess) = w.on_close_tab().unwrap();
    assert_eq!(w.tabs.active, Some(1));
    assert_eq!(sess.projects[0].active_file, some("/p/c"));
    w.close_tab_at(0).unwrap();
    assert_eq!(w.tabs.active, Some(0));
    w.on_close_tab().unwrap();
    assert_eq!(w.tabs.active, None);
    assert!(w.on_close_tab().is_none());
    assert!(w.close_tab_at(0).is_none());
    assert!(w.activate_tab(0, 9).is_none());
}

#[test]
fn saving_clears_the_mark_of_the_saved_tab() {
    let mut w = bench("/p");
    assert!(w.on_save().is_none());
    show(&mut w, "/p/A.java", 1);
    let id = w.tabs.tabs[0].id;
    assert!(w.editor_changed(id).newly_dirty);
    assert!(!w.editor_changed(id).newly_dirty);
    let q = w.on_save().unwrap();
    assert_eq!((q.path.as_str(), q.is_java), ("/p/A.java", true));
    assert_eq!(w.status, "保存 /p/A.java …");
    assert!(!w.saved("/p/A.java", Err("full".to_string())));
    assert_eq!(w.status, "保存失败: full");
    assert!(w.tabs.tabs[0].dirty);
    assert!(w.saved("/p//A.java", Ok(())));
    assert_eq!(w.status, "已保存 /p//A.java");
    assert!(!w.tabs.tabs[0].dirty);
}

#[test]
fn typing_counts_per_tab() {
    let mut w = bench("/p");
    show(&mut w, "/p/A.java", 1);
    show(&mut w, "/p/B.java", 2);
    let (a, b) = (w.tabs.tabs[0].id, w.tabs.tabs[1].id);
    let first = w.editor_changed(a).report.unwrap();
    assert_eq!(first, ("/p/A.java".to_string(), 1));
    let other = w.editor_changed(b).report.unwrap();
    assert_eq!(other, ("/p/B.java".to_string(), 1));
    assert_eq!(w.did_change_due("/p/A.java", 1), Some(0));
    let second = w.editor_changed(a).report.unwrap();
    assert_eq!(second.1, 2);
    assert_eq!(w.did_change_due("/p/A.java", 1), None);
    assert_eq!(w.did_change_due("/p/A.java", 2), Some(0));
    assert_eq!(w.did_change_due("/p/B.java", 1), Some(1));
    assert_eq!(w.did_change_due("/p/C.java", 1), None);
}

#[test]
fn typing_refreshes_the_preview_once_it_rests() {
    let mut w = bench("/p");
    show(&mut w, "/p/a.md", 1);
    let id = w.tabs.tabs[0].id;
    assert_eq!(w.editor_changed(id).preview, None);
    w.on_toggle_md_preview();
    assert_eq!(w.editor_changed(id).preview, Some(1));
    let c = w.editor_changed(id);
    assert_eq!(c.preview, Some(2));
    assert!(c.report.is_none());
    assert!(!w.md_refresh_due(1));
    assert!(w.md_refresh_due(2));
    w.on_toggle_md_preview();
    assert!(!w.md_refresh_due(2));
}

#[test]
fn the_server_becomes_ready_by_its_own_word_only() {
    let mut w = bench("/p");
    assert!(!w.lsp_progress("rust", "serviceReady", None));
    assert!(w.lsp_progress("java", "report", Some(250)));
    assert_eq!(w.lsp_phase, LspPhase::Indexing(Some(100)));
    assert!(w.lsp_progress("java", "end", None));
    assert_eq!(w.lsp_phase, LspPhase::Indexing(None));
    assert!(w.lsp_progress("java", "serviceReady", None));
    assert_eq!(w.lsp_phase, LspPhase::Ready);
    assert!(w.lsp_progress("java", "report", Some(3)));
    assert_eq!(w.lsp_phase, LspPhase::Ready);
}

#[test]
fn changed_files_are_read_again_unless_unsaved() {
    let mut w = bench("/p");
    show(&mut w, "/p/A.java", 1);
    show(&mut w, "/p/b.txt", 2);
    show(&mut w, "/p/c.txt", 3);
    let b = w.tabs.tabs[1].id;
    w.editor_changed(b);
    let changed = owned(&["/p/A.java", "/p/b.txt", "/p/other"]);
    assert!(w.files_changed("/q", true, &changed, 4).is_none());
    let c = w.files_changed("/p", true, &changed, 5).unwrap();
    assert!(c.structural);
    assert_eq!(c.reload.len(), 1);
    assert_eq!((c.reload[0].ix, c.reload[0].path.as_str(), c.reload[0].is_java), (0, "/p/A.java", true));
    assert_eq!(w.last_op.as_ref().unwrap().label, "文件变更·重建树+git");
    assert!(!w.files_changed("/p", false, &changed, 6).unwrap().structural);
    assert_eq!(w.last_op.as_ref().unwrap().label, "文件变更·git刷新");
    assert_eq!(w.reload_tab(0, "/p/A.java", "new", "old"), Some(false));
    assert_eq!(w.reload_tab(2, "/p/c.txt", "new", "old"), Some(true));
    assert_eq!(w.reload_tab(0, "/p/A.java", "same", "same"), None);
    assert_eq!(w.reload_tab(1, "/p/b.txt", "new", "old"), None);
    assert_eq!(w.reload_tab(0, "/p/moved", "new", "old"), None);
    assert_eq!(w.reload_tab(7, "/p/A.java", "new", "old"), None);
}

#[test]
fn diagnostics_are_applied_once() {
    let raw = "{\"uri\":\"file:///p/A.java\",\"diagnostics\":[{\"range\":{\"start\":{\"line\":1,\"character\":2},\"end\":{\"line\":3,\"character\":4}},\"severity\":1,\"message\":\"bad\"},{\"range\":{\"start\":{\"line\":5,\"character\":0},\"end\":{\"line\":5,\"character\":1}},\"message\":\"hm\"}]}";
    assert_eq!(nib::diagnostics::published_uri(raw), some("file:///p/A.java"));
    assert_eq!(nib::diagnostics::published_uri("{\"uri\":\"jdt://x\"}"), None);
    assert_eq!(nib::diagnostics::published_uri("{\"uri\":7}"), None);
    assert_eq!(nib::diagnostics::published_uri("no json"), None);
    let mut w = bench("/p");
    assert!(w.apply_diagnostics(raw, "/p/A.java", 1).is_none());
    show(&mut w, "/p/A.java", 2);
    assert!(w.apply_diagnostics("{\"uri\":\"file:///p/A.java\"}", "/p/A.java", 3).is_none());
    let (ix, items) = w.apply_diagnostics(raw, "/p/A.java", 4).unwrap();
    assert_eq!((ix, items.len()), (0, 2));
    assert_eq!((items[0].start_line, items[0].start_character, items[0].end_line, items[0].end_character), (1, 2, 3, 4));
    assert_eq!((items[0].severity.clone(), items[0].message.as_str()), (some("Error"), "bad"));
    assert_eq!((items[1].severity.clone(), items[1].message.as_str()), (None, "hm"));
    assert_eq!(w.last_op.as_ref().unwrap().label, "LSP诊断 A.java");
    assert!(w.apply_diagnostics(raw, "/p/A.java", 5).is_none());
    let empty = "{\"uri\":\"file:///p/A.java\",\"diagnostics\":[]}";
    assert_eq!(w.apply_diagnostics(empty, "/p/A.java", 6).unwrap().1.len(), 0);
    assert!(w.apply_diagnostics(empty, "/p/A.java", 7).is_none());
}

#[test]
fn jumps_are_recorded_and_can_be_taken_back() {
    let mut w = bench("/p");
    show(&mut w, "/p/a", 1);
    show(&mut w, "/p/b", 2);
    assert!(w.activate_tab(0, 3).is_some());
    assert!(matches!(w.open_file_at("/p/b".to_string(), 40, 7, 4), OpenAt::Jump(1, _)));
    assert_eq!(w.nav.index, 1);
    let (loc, at) = w.on_nav_back(5).unwrap();
    assert_eq!((loc.path.as_str(), loc.line), ("/p/a", 7));
    assert!(matches!(at, OpenAt::Jump(0, _)));
    assert!(w.on_nav_back(6).is_none());
    let (loc, _) = w.on_nav_forward(7).unwrap();
    assert_eq!((loc.path.as_str(), loc.line), ("/p/b", 40));
    assert!(w.on_nav_forward(8).is_none());
    assert!(matches!(w.open_file_at("/p/c".to_string(), 1, 2, 9), OpenAt::Read));
    assert_eq!(w.status, "打开 /p/c …");
    assert!(w.file_read_at("/p/c".to_string(), false, 10).is_none());
    assert!(w.file_read_at("/p/c".to_string(), true, 11).is_some());
    assert_eq!(w.tabs.active, Some(2));
}

#[test]
fn histories_stay_with_their_projects() {
    let mut w = bench("/p/one");
    let _ = w.open_file_at("/p/one/a".to_string(), 1, 0, 1);
    let _ = w.open_file_at("/p/one/b".to_string(), 2, 0, 2);
    let _ = w.load_project("/p/two".to_string());
    assert_eq!(w.nav.history.len(), 0);
    assert_eq!(w.nav.index, -1);
    assert!(w.on_nav_back(3).is_none());
    let _ = w.load_project("/p/one".to_string());
    assert_eq!((w.nav.history.len(), w.nav.index), (2, 1));
}

#[test]
fn the_history_keeps_a_hundred_places() {
    let mut w = bench("/p");
    for i in 0..130 {
        let _ = w.open_file_at("/p/a".to_string(), i, 0, 1);
    }
    assert_eq!((w.nav.history.len(), w.nav.index), (100, 99));
    assert_eq!(w.nav.history[0].line, 30);
    let _ = w.open_file_at("/p/a".to_string(), 129, 0, 1);
    assert_eq!(w.nav.history.len(), 100);
}

#[test]
fn restoring_fronts_the_stored_tab() {
    let mut w = bench("/p");
    assert!(w.restore_file("/p/a".to_string(), true, 1).is_some());
    assert!(w.restore_file("/p/gone".to_string(), false, 2).is_none());
    assert!(w.restore_file("/p/b".to_string(), true, 3).is_some());
    w.restoring_tabs = true;
    let s = w.restore_done(some("/p/a"), 4);
    assert!(!w.restoring_tabs);
    assert_eq!(w.tabs.active, Some(0));
    assert_eq!(s.projects[0].open_files, owned(&["/p/a", "/p/b"]));
    assert_eq!(s.projects[0].active_file, some("/p/a"));
}

#[test]
fn restoring_without_a_stored_front_takes_the_last() {
    let mut w = bench("/p");
    w.restore_file("/p/a".to_string(), true, 1);
    w.restore_file("/p/b".to_string(), true, 2);
    let _ = w.restore_done(None, 3);
    assert_eq!(w.tabs.active, Some(1));
    let mut v = bench("/p");
    v.restore_file("/p/a".to_string(), true, 1);
    let s = v.restore_done(some("/p/gone"), 2);
    assert_eq!(v.tabs.active, None);
    assert_eq!(s.projects[0].active_file, None);
    let mut e = bench("/p");
    assert_eq!(e.restore_done(None, 1).projects[0].open_files.len(), 0);
}

#[test]
fn a_stored_session_is_taken_over() {
    let mut w = Workbench::new("/".to_string());
    let sess = PersistedSession {
        version: 1,
        projects: vec![project("/p/one", &["/p/one/a"], Some("/p/one/a")), project("/p/two", &[], None)],
        active_project_index: 9,
    };
    let (target, plan) = w.start_session(sess, true).unwrap();
    assert_eq!(target.path, "/p/two");
    assert!(plan.is_some());
    assert_eq!(w.projects.active, 1);
    assert_eq!(w.project_root, "/p/two");
    assert!(w.start_session(PersistedSession::default(), true).is_none());
}

#[test]
fn switching_notes_the_project_that_is_left() {
    let mut w = Workbench::new("/".to_string());
    let sess = PersistedSession {
        version: 1,
        projects: vec![project("/p/one", &[], None), project("/p/two", &["/p/two/x"], Some("/p/two/x"))],
        active_project_index: 0,
    };
    w.start_session(sess, true).unwrap();
    show(&mut w, "/p/one/a", 1);
    let s = w.switch_project(1, true, 2).unwrap();
    assert_eq!(s.session.projects[0].open_files, owned(&["/p/one/a"]));
    assert_eq!(s.session.projects[1].open_files, owned(&["/p/two/x"]));
    assert_eq!(s.session.active_project_index, 0);
    assert_eq!(s.target.path, "/p/two");
    assert!(s.plan.is_some() && s.missing.is_none());
    assert_eq!(w.projects.active, 1);
    assert!(w.restoring_tabs);
    assert!(w.tabs.tabs.is_empty());
    assert_eq!(w.last_op.as_ref().unwrap().label, "切换项目 two");
    assert_eq!(w.projects.projects[0].open_files, owned(&["/p/one/a"]));
    assert!(w.switch_project(1, true, 3).is_none());
    assert!(w.switch_project(2, true, 4).is_none());
    assert!(matches!(w.main_area(), MainArea::Loading(t) if t == "正在切换到 two …"));
}

#[test]
fn switching_to_a_missing_project_stores_both() {
    let mut w = Workbench::new("/".to_string());
    let sess = PersistedSession {
        version: 1,
        projects: vec![project("/p/one", &[], None), project("/p/gone", &["/p/gone/x"], None)],
        active_project_index: 0,
    };
    w.start_session(sess, true).unwrap();
    show(&mut w, "/p/one/a", 1);
    let s = w.switch_project(1, false, 2).unwrap();
    assert!(s.plan.is_none());
    let m = s.missing.unwrap();
    assert_eq!(m.active_project_index, 1);
    assert_eq!(m.projects[0].open_files, owned(&["/p/one/a"]));
    assert_eq!(m.projects[0].active_file, some("/p/one/a"));
    assert_eq!(m.projects[1].open_files, owned(&["/p/gone/x"]));
    assert_eq!(w.project_root, "/p/one");
    assert!(!w.restoring_tabs);
}

#[test]
fn closing_projects_keeps_one() {
    let mut w = Workbench::new("/".to_string());
    let sess = PersistedSession {
        version: 1,
        projects: vec![project("/p/a", &[], None), project("/p/b", &["/p/b/x"], None), project("/p/c", &[], None)],
        active_project_index: 2,
    };
    w.start_session(sess, true).unwrap();
    assert_eq!(w.project_after_closing(0), None);
    let c = w.close_project(0, true).unwrap();
    assert!(c.target.is_none() && c.plan.is_none());
    assert_eq!(paths(&c.session), owned(&["/p/b", "/p/c"]));
    assert_eq!(c.session.active_project_index, 1);
    assert_eq!(w.project_after_closing(1), some("/p/b"));
    let c = w.close_project(1, true).unwrap();
    assert_eq!(c.target.unwrap().path, "/p/b");
    assert_eq!(w.project_root, "/p/b");
    assert!(w.restoring_tabs);
    assert!(w.close_project(0, true).is_none());
    assert!(w.close_project(5, true).is_none());
}

#[test]
fn opening_a_project_adds_or_fronts_it() {
    let mut w = bench("/p/one");
    show(&mut w, "/p/one/a", 1);
    match w.open_project_path("/p/two".to_string(), true, 2) {
        OpenProject::Added(first, plan, last) => {
            assert_eq!(paths(&first), owned(&["/p/one"]));
            assert_eq!(plan.stop_watcher, "/p/one");
            assert_eq!(paths(&last), owned(&["/p/one", "/p/two"]));
            assert_eq!(last.active_project_index, 1);
            assert_eq!(last.projects[0].open_files, owned(&["/p/one/a"]));
        }
        _ => panic!("not added"),
    }
    assert!(matches!(w.open_project_path("/p/two".to_string(), true, 3), OpenProject::Front(_)));
    match w.open_project_path("/p/one".to_string(), true, 4) {
        OpenProject::Switched(_, s) => assert_eq!(s.target.open_files, owned(&["/p/one/a"])),
        _ => panic!("not switched"),
    }
    assert_eq!(w.project_root, "/p/one");
}

#[test]
fn noting_never_loses_a_project() {
    let mut w = bench("/p/one");
    w.projects.projects.push(project("/p/x", &["/p/x/f"], None));
    let s = w.persist_session();
    assert_eq!(paths(&s), owned(&["/p/x", "/p/one"]));
    assert_eq!(s.active_project_index, 1);
    let again = w.persist_session();
    assert_eq!(paths(&again), owned(&["/p/x", "/p/one"]));
    assert_eq!(again.projects[0].open_files, owned(&["/p/x/f"]));
}

#[test]
fn deleting_closes_what_goes() {
    let mut w = bench("/p");
    show(&mut w, "/p/d/a", 1);
    show(&mut w, "/p/keep", 2);
    show(&mut w, "/p/d/e/b", 3);
    assert!(w.activate_tab(1, 4).is_some());
    assert!(w.on_delete_item(&None).is_none());
    let (first, last) = (w.tabs.tabs[0].id, w.tabs.tabs[2].id);
    let d = w.on_delete_item(&some("/p/d")).unwrap();
    assert_eq!(d.paths, owned(&["/p/d"]));
    assert_eq!(d.closed, vec![last, first]);
    assert_eq!(w.tabs.tabs.len(), 1);
    assert_eq!((w.tabs.tabs[0].path.as_str(), w.tabs.active), ("/p/keep", Some(0)));
    assert_eq!(d.session.unwrap().projects[0].open_files, owned(&["/p/keep"]));
    assert_eq!(w.status, "已删除 1 项(cmd+Z 撤销)");
    w.delete_done(&d.paths, &vec![some("/trash/d")]);
    assert_eq!(w.explorer.undo.len(), 1);
    match w.on_undo_file_op().unwrap() {
        FileTask::Rename { from, to } => assert_eq!((from.as_str(), to.as_str()), ("/trash/d", "/p/d")),
        _ => panic!("no rename"),
    }
    assert_eq!(w.status, "撤销中…");
    w.undo_done();
    assert_eq!(w.status, "已撤销");
    assert!(w.on_undo_file_op().is_none());
    assert_eq!(w.status, "没有可撤销的文件操作");
}

#[test]
fn deleting_takes_the_whole_selection() {
    let mut w = bench("/p");
    w.explorer.toggle_multi_select("/p/a".to_string());
    w.explorer.toggle_multi_select("/p/b".to_string());
    w.explorer.toggle_multi_select("/p/a".to_string());
    w.explorer.toggle_multi_select("/p/c".to_string());
    let d = w.on_delete_item(&some("/p/z")).unwrap();
    assert_eq!(d.paths, owned(&["/p/b", "/p/c"]));
    assert!(d.session.is_none());
    assert_eq!(w.status, "已删除 2 项(cmd+Z 撤销)");
    assert!(w.explorer.selected.is_empty());
    w.delete_done(&d.paths, &vec![None, some("/trash/c")]);
    assert_eq!(w.explorer.undo.len(), 1);
}

#[test]
fn copying_and_pasting() {
    let mut w = bench("/p");
    assert!(!w.on_copy_or_cut(&None, false));
    assert!(w.on_paste_item(&None, false).is_none());
    assert!(w.on_copy_or_cut(&some("/p/a.txt"), false));
    assert_eq!(w.status, "已复制 1 项");
    let plan = w.on_paste_item(&some("/p/dir"), true).unwrap();
    assert_eq!((plan.dir.as_str(), plan.is_cut, plan.sources), ("/p/dir", false, owned(&["/p/a.txt"])));
    assert_eq!(w.status, "正在粘贴…");
    assert!(w.explorer.clipboard.is_some());
    assert!(w.on_copy_or_cut(&some("/p/a.txt"), true));
    assert_eq!(w.status, "已剪切 1 项");
    let plan = w.on_paste_item(&some("/p/dir/file"), false).unwrap();
    assert_eq!((plan.dir.as_str(), plan.is_cut), ("/p/dir", true));
    assert_eq!(w.status, "正在移动…");
    assert!(w.explorer.clipboard.is_none());
    w.explorer.toggle_multi_select("/p/a.txt".to_string());
    w.paste_done(vec![paste_undo(true, "/p/a.txt".to_string(), "/p/dir/a.txt".to_string())], true);
    assert_eq!(w.status, "");
    assert!(w.explorer.selected.is_empty());
    assert!(matches!(w.on_undo_file_op().unwrap(), FileTask::Rename { from, to } if from == "/p/dir/a.txt" && to == "/p/a.txt"));
    assert!(matches!(paste_undo(false, "/a".to_string(), "/b".to_string()), UndoOp::Created { path } if path == "/b"));
    assert_eq!(w.on_copy_path(&some("/p/q")), some("/p/q"));
    assert_eq!(w.status, "已复制路径");
    assert_eq!(w.on_copy_path(&None), None);
}

#[test]
fn pasting_steps_depend_on_the_place() {
    assert!(matches!(explorer::paste_step("/p/a", "/q", true), PasteStep::Move { from, to } if from == "/p/a" && to == "/q/a"));
    assert!(matches!(explorer::paste_step("/p/a", "/p", true), PasteStep::Skip));
    assert!(matches!(explorer::paste_step("/p/a", "/p/", false), PasteStep::Copy { from: _, to, taken: true } if to == "/p/a"));
    assert!(matches!(explorer::paste_step("/p/a", "/q", false), PasteStep::Copy { from: _, to: _, taken: false }));
    assert!(matches!(explorer::paste_step("/", "/q", false), PasteStep::Skip));
}

#[test]
fn copies_get_free_names() {
    let mut s = CopySearch::new("/p".to_string(), "a.tar.gz".to_string());
    assert_eq!(s.candidate(), "/p/a.tar copy.gz");
    assert_eq!(s.answer(true), None);
    assert_eq!(s.candidate(), "/p/a.tar copy 2.gz");
    assert_eq!(s.answer(false), some("/p/a.tar copy 2.gz"));
    let mut all = CopySearch::new("/p".to_string(), "x".to_string());
    for _ in 0..1500 {
        assert_eq!(all.answer(true), None);
    }
    assert_eq!(all.answer(false), some("/p/x copy 1501"));
}

#[test]
fn names_are_asked_for_and_confirmed() {
    let mut w = bench("/p");
    w.on_new_file(&some("/p/src/A.java"), false);
    assert!(matches!(&w.overlay, Some(Overlay::NameInput { title, op: NameOp::NewFile(d) }) if title == "新建文件" && d == "/p/src"));
    assert_eq!(w.palette_confirm(), Some(PaletteTarget::NameInput));
    assert!(w.confirm_name_input("  ").is_none());
    assert!(w.overlay.is_some());
    let (task, undo) = w.confirm_name_input(" B.java ").unwrap();
    assert!(matches!(task, FileTask::CreateFile(p) if p == "/p/src/B.java"));
    assert!(matches!(&undo, UndoOp::Created { path } if path == "/p/src/B.java"));
    assert!(w.overlay.is_none());
    w.name_done(Some(undo));
    assert!(matches!(w.on_undo_file_op().unwrap(), FileTask::Trash(p) if p == "/p/src/B.java"));
    w.on_new_folder(&None, false);
    assert!(matches!(w.confirm_name_input("d").unwrap().0, FileTask::CreateDir(p) if p == "/p/d"));
    assert_eq!(w.on_rename_item(&None), None);
    assert_eq!(w.on_rename_item(&some("/p/old.txt")), some("old.txt"));
    let (task, undo) = w.confirm_name_input("new.txt").unwrap();
    assert!(matches!(task, FileTask::Rename { from, to } if from == "/p/old.txt" && to == "/p/new.txt"));
    w.name_done(Some(undo));
    w.name_done(None);
    assert!(matches!(w.on_undo_file_op().unwrap(), FileTask::Rename { from, to } if from == "/p/new.txt" && to == "/p/old.txt"));
    assert!(w.confirm_name_input("x").is_none());
}

#[test]
fn overlays_toggle() {
    let mut w = bench("/p");
    assert!(w.toggle_palette());
    assert_eq!(w.palette_list(), Some(PaletteTarget::QuickOpen));
    assert_eq!(w.palette_confirm(), None);
    assert!(!w.toggle_palette());
    assert!(w.overlay.is_none());
    assert!(w.on_toggle_search());
    assert!(w.on_open_settings());
    assert_eq!(w.palette_list(), None);
    assert!(!w.open_settings_at_maven());
    assert!(!w.on_open_settings());
    assert!(w.open_settings_at_maven());
    assert!(w.on_show_recents());
    w.show_overlay(Overlay::Recents);
    assert_eq!(w.palette_confirm(), Some(PaletteTarget::Recents));
    assert!(!w.on_show_recents());
    w.show_overlay(Overlay::Recents);
    assert!(!w.recent_chosen("/p/"));
    assert!(w.recent_chosen("/q"));
    assert!(w.diff_ready(Ok(())));
    assert_eq!(w.palette_list(), None);
    w.close_palette();
    assert!(!w.diff_ready(Err("no HEAD".to_string())));
    assert_eq!(w.status, "no HEAD");
}

#[test]
fn two_presses_of_shift_open_the_finder() {
    let mut w = bench("/p");
    let ms = 1_000_000;
    assert_eq!(w.on_modifiers_changed(&mods(true, false), 1000 * ms), None);
    assert_eq!(w.on_modifiers_changed(&mods(false, false), 1050 * ms), None);
    assert_eq!(w.on_modifiers_changed(&mods(true, false), 1399 * ms), Some(true));
    assert_eq!(w.on_modifiers_changed(&mods(false, false), 1400 * ms), None);
    assert_eq!(w.on_modifiers_changed(&mods(true, false), 1500 * ms), None);
    assert_eq!(w.on_modifiers_changed(&mods(false, false), 1550 * ms), None);
    assert_eq!(w.on_modifiers_changed(&mods(true, false), 1900 * ms), None);
    assert_eq!(w.on_modifiers_changed(&mods(false, false), 1950 * ms), None);
    assert_eq!(w.on_modifiers_changed(&mods(true, true), 2000 * ms), None);
    assert_eq!(w.on_modifiers_changed(&mods(false, false), 2050 * ms), None);
    assert_eq!(w.on_modifiers_changed(&mods(true, false), 2100 * ms), Some(false));
}

#[test]
fn going_to_a_definition_opens_or_tells() {
    let mut w = bench("/p");
    assert!(w.on_goto_definition(1, 2).is_none());
    show(&mut w, "/p/a.txt", 1);
    assert!(w.on_goto_definition(1, 2).is_none());
    assert!(w.on_find_usages(1, 2).is_none());
    show(&mut w, "/p/A.java", 2);
    let c = w.on_goto_definition(3, 4).unwrap();
    assert_eq!((c.file.as_str(), c.line, c.character, c.jdt.is_none()), ("/p/A.java", 3, 4, true));
    assert_eq!(w.status, "跳转定义…");
    let jdt = JdtSource { uri: "jdt://contents/x".to_string(), project: "/p".to_string() };
    let g = Goto::File { path: "/tmp/L.java".to_string(), line: 9, character: 0, jdt: Some(jdt) };
    assert!(matches!(w.goto_done(g, c.title, 3, 5), GotoEnd::Opened(OpenAt::Read)));
    assert!(w.file_read_at("/tmp/L.java".to_string(), true, 6).is_some());
    let c = w.on_goto_definition(0, 0).unwrap();
    assert_eq!(c.jdt.unwrap().uri, "jdt://contents/x");
    assert!(matches!(w.goto_done(Goto::NotFound, String::new(), 0, 7), GotoEnd::Said));
    assert_eq!(w.status, "未找到定义");
    assert!(matches!(w.goto_done(Goto::Status("x".to_string()), String::new(), 0, 8), GotoEnd::Said));
    assert_eq!(w.status, "x");
    let found = vec![used("/p/X.java", 1), used("/p/Y.java", 2), used("/p/Z.java", 3)];
    match w.goto_done(Goto::Usages(found), "L.java".to_string(), 0, 9) {
        GotoEnd::Usages { view, .. } => {
            assert_eq!((view.title().as_str(), view.selected), ("3 处引用 — L.java", 0));
            assert_eq!(view.usages.iter().map(|u| u.line).collect::<Vec<_>>(), vec![1, 2, 3]);
        }
        _ => panic!("no uses"),
    }
    assert_eq!(w.status, "3 处引用");
    assert_eq!(w.palette_list(), Some(PaletteTarget::Usages));
    assert_eq!(w.usage_chosen("jdt://a"), UsagePlace::Library);
    assert_eq!(w.usage_chosen("file:///a"), UsagePlace::File);
    let q = w.on_find_usages(2, 6).unwrap();
    assert_eq!((q.file.as_str(), q.title.as_str(), q.line, q.character), ("/tmp/L.java", "L.java", 2, 6));
    assert_eq!(w.status, "查找引用…");
    assert!(w.find_usages_done(q, Ok(Vec::new())).is_none());
    assert_eq!(w.status, "未找到引用");
    let q = w.on_find_usages(2, 6).unwrap();
    assert!(w.find_usages_done(q, Err("gone".to_string())).is_none());
    assert_eq!(w.status, "查找失败: gone");
    let q = w.on_find_usages(2, 6).unwrap();
    let (view, _) = w.find_usages_done(q, Ok(vec![used("/p/X.java", 1), used("/tmp/L.java", 2)])).unwrap();
    assert_eq!((view.usages.len(), view.selected), (2, 1));
    assert_eq!(w.status, "2 处引用");
}

fn used(path: &str, line: u32) -> LspUsage {
    LspUsage {
        uri: format!("file://{}", path),
        path: path.to_string(),
        label: "x".to_string(),
        line,
        character: 4,
        text: "x".to_string(),
    }
}

#[test]
fn arthas_commands_are_for_java() {
    let mut w = bench("/p");
    assert!(w.arthas_command().is_none());
    assert_eq!(w.status, "/p");
    show(&mut w, "/p/a.txt", 1);
    assert!(w.arthas_command().is_none());
    assert_eq!(w.status, "Arthas 仅支持 Java 文件");
    show(&mut w, "/p/A.java", 2);
    assert_eq!(w.arthas_command(), some("/p/A.java"));
    assert_eq!(commands::class_name("", "A"), "A");
    assert_eq!(commands::class_name("x.y", "A"), "x.y.A");
    let call = Some(("B".to_string(), "m".to_string()));
    assert_eq!(commands::arthas_target(call, "A".to_string(), None, None), ("B".to_string(), some("m")));
    assert_eq!(commands::arthas_target(None, "A".to_string(), some("s"), some("l")), ("A".to_string(), some("s")));
    assert_eq!(commands::arthas_target(None, "A".to_string(), None, some("l")), ("A".to_string(), some("l")));
    w.arthas_copied("watch A m", Ok(()));
    assert_eq!(w.status, "已复制: watch A m");
    w.arthas_copied("watch A m", Err("no".to_string()));
    assert_eq!(w.status, "复制失败: no");
}

#[test]
fn settings_are_taken_over() {
    let mut w = bench("/p");
    let s = EditorSettings::default();
    assert!(commands::prompts_for_maven(true, &s));
    assert!(!commands::prompts_for_maven(false, &s));
    assert!(!w.apply_settings(s.clone()));
    assert_eq!(w.status, "设置已更新 ✓");
    let mut t = s.clone();
    t.maven_repo = " /repo ".to_string();
    assert!(!commands::prompts_for_maven(true, &t));
    assert!(w.apply_settings(t));
    w.settings_loaded(s);
    assert_eq!(w.settings.maven_repo, "");
}

#[test]
fn views_and_panels() {
    let mut w = bench("/p");
    assert_eq!(w.set_sidebar_view(SidebarView::Commit), Some(GitPanelMode::Commit));
    assert_eq!(w.set_sidebar_view(SidebarView::Git), Some(GitPanelMode::Branches));
    assert_eq!(w.set_sidebar_view(SidebarView::Maven), None);
    assert_eq!(SidebarView::Git.title(), "Git 图");
    assert_eq!(SidebarView::Git.heading(), SidebarView::Git.title().to_uppercase());
    assert_eq!(SidebarView::Maven.heading(), SidebarView::Maven.title().to_uppercase());
    assert_eq!(SidebarView::Files.heading(), SidebarView::Files.title().to_uppercase());
    assert_eq!(SidebarView::Commit.heading(), SidebarView::Commit.title().to_uppercase());
    assert!(SidebarView::Files.has_file_actions() && !SidebarView::Git.has_file_actions());
    assert_eq!(w.locate_path_in_tree("/p/src".to_string()), ("/p/src".to_string(), "src".to_string()));
    assert_eq!(w.sidebar_view, SidebarView::Files);
    assert!(w.locate_current_file().is_none());
    assert!(w.on_toggle_terminal());
    assert!(!w.on_toggle_terminal());
    assert!(!w.on_toggle_terminal());
    assert!(w.terminal_visible && w.has_terminal);
    w.on_toggle_terminal();
    w.show_problems();
    assert!(w.terminal_visible);
    assert_eq!(w.panel_tab, PanelTab::Problems);
    w.set_panel_tab(PanelTab::Output);
    assert_eq!(w.panel_tab, PanelTab::Output);
    assert_eq!(centered_top(100, Some(41)), 80);
    assert_eq!(centered_top(3, None), 0);
    assert_eq!(centered_top(15, None), 5);
}

#[test]
fn anchors_are_followed_in_markdown() {
    let mut w = bench("/p");
    assert_eq!(w.scroll_md_to_anchor("x", Some(1)), None);
    show(&mut w, "/p/a.md", 1);
    assert_eq!(w.scroll_md_to_anchor("x", Some(1)), Some(1));
    assert_eq!(w.scroll_md_to_anchor("x", None), None);
    assert_eq!(w.status, "未找到章节: #x");
}

fn change(path: &str, status: &str) -> GitChange {
    GitChange { repo: "/p".to_string(), path: path.to_string(), status: status.to_string(), staged: false }
}

#[test]
fn the_first_change_marks_a_file() {
    let mut w = bench("/p");
    let changes = vec![change("a", "Modified"), change("b", "Added"), change("a", "Deleted"), change("c", "")];
    assert!(!w.git_marks_read("/q", &changes));
    assert_eq!(w.git_marks.get("/p/a"), None);
    assert!(w.git_marks_read("/p", &changes));
    assert_eq!(w.git_marks.get("/p/a"), Some('M'));
    assert_eq!(w.git_marks.get("/p/b"), Some('A'));
    assert_eq!(w.git_marks.get("/p/c"), Some(' '));
    assert_eq!(w.git_marks.get("/p/d"), None);
}

#[test]
fn rows_of_the_tree_are_coloured_by_marks() {
    let r = file_row(Some('R'), true, false);
    assert!(r.name == NameColor::Marked(Tone::Warning) && r.badge == Some(('R', Tone::Warning)));
    assert!(file_row(Some('U'), false, false).badge == Some(('U', Tone::Success)));
    assert!(file_row(Some('D'), false, true).name == NameColor::Marked(Tone::Danger));
    let plain = file_row(Some('?'), true, true);
    assert!(plain.name == NameColor::Muted && plain.badge.is_none() && plain.in_multi);
    assert!(file_row(None, false, false).name == NameColor::Plain);
    assert_eq!(folder_row(true, false).fold, Some('▾'));
    assert_eq!(folder_row(false, false).fold, Some('▸'));
}

#[test]
fn recent_projects_are_classified() {
    let m = |c, p, g, k| Markers { cargo_toml: c, pom_xml: p, build_gradle: g, build_gradle_kts: k };
    let e = welcome::classify_for("/home/u/nib", some("/home/u"), &m(true, true, false, false));
    assert_eq!((e.name.as_str(), e.display_path.as_str(), e.fav), ("nib", "~/nib", 'N'));
    assert_eq!((e.kind.tag(), e.kind.color()), ("Rust", 0xd08a5c));
    let e = welcome::classify_for("/srv/x", some("/home/u"), &m(false, true, true, false));
    assert_eq!((e.display_path.as_str(), e.kind), ("/srv/x", ProjectKind::Maven));
    assert_eq!(e.kind.color(), 0x7faedb);
    let e = welcome::classify_for("/", None, &m(false, false, false, true));
    assert_eq!((e.name.as_str(), e.fav, e.kind.tag(), e.kind.color()), ("/", '/', "Gradle", 0x3fb950));
    let e = welcome::classify_recent("/srv/y", &m(false, false, false, false));
    assert_eq!((e.path.as_str(), e.kind.tag(), e.kind.color()), ("/srv/y", "", 0x7a8699));
}

#[test]
fn the_welcome_page_lists_other_projects() {
    let none = Markers { cargo_toml: false, pom_xml: false, build_gradle: false, build_gradle_kts: false };
    let all: Vec<_> = (0..12).map(|i| welcome::classify_for(&format!("/p/{}", i), None, &none)).collect();
    match welcome::recents_section(&all, "/p/2") {
        RecentsSection::Rows(v) => assert_eq!(v, vec![0, 1, 3, 4, 5, 6, 7, 8]),
        RecentsSection::Empty => panic!("empty"),
    }
    assert!(matches!(welcome::recents_section(&Vec::new(), "/p"), RecentsSection::Empty));
    let row = welcome::shortcut_row(1);
    assert_eq!((row[0].label, row[0].keys), ("跳转定义", "F12"));
    assert_eq!((row[2].label, row[2].keys), ("切换终端", "⌃`"));
    assert_eq!(welcome::shortcut_row(2)[2].keys, "⌘,");
}

#[test]
fn the_frame_shows_tabs_and_crumbs() {
    let mut w = bench("/p");
    assert!(w.project_bar().is_none());
    assert!(w.breadcrumb().is_none());
    assert!(matches!(w.main_area(), MainArea::Welcome));
    show(&mut w, "/p/src/a/Main.java", 1);
    show(&mut w, "/etc/hosts", 2);
    let rows = w.tab_rows();
    assert_eq!((rows[0].tooltip.as_str(), rows[0].active), ("src/a/Main.java", false));
    assert_eq!((rows[1].tooltip.as_str(), rows[1].active), ("/etc/hosts", true));
    let crumbs = w.breadcrumb().unwrap();
    assert_eq!(crumbs.iter().map(|c| c.label.clone()).collect::<Vec<_>>(), owned(&["p", "/", "etc", "hosts"]));
    assert_eq!((crumbs[0].target.clone(), crumbs[2].target.clone()), (some("/p"), some("/etc")));
    w.activate_tab(0, 3);
    let crumbs = w.breadcrumb().unwrap();
    assert_eq!(crumbs.iter().map(|c| c.label.clone()).collect::<Vec<_>>(), owned(&["p", "src", "a", "Main.java"]));
    assert_eq!((crumbs[1].target.clone(), crumbs[2].target.clone(), crumbs[3].target.clone()), (some("/p/src"), some("/p/src/a"), None));
    assert!(crumbs[3].icon.is_some() && crumbs[2].icon.is_none());
    assert_eq!(w.editor_menu().len(), 8);
    assert_eq!(w.editor_menu()[0], MenuEntry::ArthasWatch);
    show(&mut w, "/p/a.md", 4);
    assert_eq!(w.editor_menu(), vec![MenuEntry::Copy, MenuEntry::Paste, MenuEntry::Separator, MenuEntry::ShowPreview]);
    w.on_toggle_md_preview();
    assert_eq!(w.editor_menu()[3], MenuEntry::HidePreview);
    assert!(matches!(w.main_area(), MainArea::Editor { preview: true }));
    w.activate_tab(0, 5);
    assert!(matches!(w.main_area(), MainArea::Editor { preview: false }));
    w.persist_session();
    let _ = w.open_project_path("/q/two".to_string(), true, 6);
    let bar = w.project_bar().unwrap();
    assert_eq!((bar[0].name.as_str(), bar[0].active, bar[1].name.as_str(), bar[1].active), ("p", false, "two", true));
}

#[test]
fn the_bottom_panel_lists_problems() {
    let mut w = bench("/p");
    show(&mut w, "/p/a", 1);
    show(&mut w, "/p/b", 2);
    assert!(w.bottom_panel(&vec![0, 0]).is_none());
    w.terminal_visible = true;
    assert!(matches!(w.bottom_panel(&vec![0, 0]).unwrap().content, PanelContent::TerminalMissing));
    w.show_problems();
    let b = w.bottom_panel(&vec![0, 0]).unwrap();
    assert_eq!(b.problems_label, "问题");
    assert!(matches!(b.content, PanelContent::NoProblems));
    let b = w.bottom_panel(&vec![0, 5]).unwrap();
    assert_eq!(b.problems_label, "问题 5");
    match b.content {
        PanelContent::Problems(rows) => {
            assert_eq!((rows.len(), rows[0].ix, rows[0].title.as_str(), rows[0].count), (1, 1, "b", 5))
        }
        _ => panic!("no rows"),
    }
    w.set_panel_tab(PanelTab::Output);
    assert!(matches!(w.bottom_panel(&vec![0, 5]).unwrap().content, PanelContent::Output));
}

#[test]
fn the_status_bar_says_where_things_stand() {
    let mut w = bench("/p");
    let none = GitSummary { branch: "".to_string(), ahead: 0, behind: 0, changes: 0 };
    let bar = w.status_bar(&none, &Vec::new(), 0, (0, 0));
    assert!(bar.branch.is_none() && bar.distance.is_none() && bar.changes.is_none() && bar.problems.is_none());
    assert!(bar.stalls.is_none() && bar.position.is_none() && bar.indent.is_none() && bar.language.is_none());
    assert_eq!(bar.status, "/p");
    show(&mut w, "/p/A.java", 1);
    let git = GitSummary { branch: "main".to_string(), ahead: 2, behind: 0, changes: 7 };
    let bar = w.status_bar(&git, &vec![3], 4, (9, 0));
    assert_eq!(bar.branch, some("main"));
    assert_eq!(bar.distance, some("↑2 ↓0"));
    assert_eq!(bar.changes, some("● 7"));
    assert_eq!(bar.problems, some("⚠ 3"));
    assert_eq!(bar.stalls, some("卡顿 ×4"));
    assert_eq!(bar.position, some("Ln 10, Col 1"));
    assert_eq!(bar.indent, some("空格:4"));
    assert_eq!(bar.language, Some("Java"));
    let s = bar.server.unwrap();
    assert_eq!((s.dot, s.label, s.bar, s.percent), (DotTone::Warning, "jdtls 启动中", Some(0), None));
    let s = frame::server_state(LspPhase::Indexing(Some(42)));
    assert_eq!((s.bar, s.percent), (Some(42), Some(42)));
    assert_eq!(frame::server_state(LspPhase::Ready).label, "jdtls 就绪");
    assert_eq!(frame::server_state(LspPhase::Failed).dot, DotTone::Danger);
    assert_eq!(frame::server_state(LspPhase::Off).label, "jdtls 未连接");
    assert_eq!((frame::badge(0), frame::badge(99), frame::badge(100)), (None, some("99"), some("99+")));
}

#[test]
fn the_stored_front_is_found() {
    let mut s = PersistedSession {
        version: 1,
        projects: vec![project("/a", &[], None), project("/b", &[], None)],
        active_project_index: 0,
    };
    assert_eq!(front_path(&s), some("/a"));
    s.active_project_index = 9;
    assert_eq!(front_path(&s), some("/b"));
    assert_eq!(front_path(&PersistedSession::default()), None);
}

#[test]
fn recent_projects_are_kept_for_the_welcome_page() {
    let mut w = bench("/p");
    let e = RecentEntry {
        path: "/q".to_string(),
        name: "q".to_string(),
        display_path: "/q".to_string(),
        kind: ProjectKind::Maven,
        fav: 'Q',
    };
    w.recents_read(vec![e]);
    assert_eq!(w.recents[0].path, "/q");
}
