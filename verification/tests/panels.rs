use nib::arthas_panel::{
    cmd_blurb, ArthasCommand, ArthasPanel, JavaProc, Param, WatchExpr, WatchWhen,
};
use nib::astore_panel::{AstoreOp, AstorePanel, AstoreReply, AstoreSession};
use nib::git_panel::{
    abs_in_repo, change_abs, collect_changes, collect_conflicts, group_by_repo, on_branch, repo_to_read, repos_or_root,
    status_color, CommitTally, GitBranch, GitChange, GitCommit, GitPanel, GitPanelEvent, GitPanelMode, GitRepo,
    RepoConflicts, Tone,
};
use nib::maven_panel::{MavenDep, MavenDepTree, MavenModule, MavenPanel};
use nib::session::EditorSettings;
use nib::settings_view::{proposal_cats, Cat, SettingsEvent, SettingsView};
use nib::terminal_panel::{
    blank_snapshot, fit_grid, indexed_color, is_paste, keystroke_bytes, resolve_bg, resolve_fg, run_colors,
    selection_spans, KeyAction, Keystroke, Modifiers, TermColor, TermRun, TerminalPanel,
};
use nib::utf16::is_range_in;

fn s(t: &str) -> String {
    t.to_string()
}

fn change(repo: &str, path: &str, status: &str) -> GitChange {
    GitChange { repo: s(repo), path: s(path), status: s(status), staged: false }
}

fn repo(path: &str) -> GitRepo {
    GitRepo { name: s(path.rsplit('/').next().unwrap()), path: s(path) }
}

fn branch(name: &str, current: bool, remote: bool, ahead: i32, behind: i32) -> GitBranch {
    GitBranch { name: s(name), current, remote, ahead, behind }
}

fn commit(subject: &str) -> GitCommit {
    GitCommit { short_hash: s("abc1234"), subject: s(subject), date: s("today") }
}

fn filled() -> GitPanel {
    let (mut p, q) = GitPanel::new(s("/w"));
    let event = p.refresh_done(
        q.refresh_seq,
        q.log_seq,
        vec![repo("/w/a"), repo("/w/b")],
        s("main"),
        vec![change("/w/a", "src/x.rs", "Modified"), change("/w/b", "y.rs", "Added"), change("/w/a", "z.rs", "Deleted")],
        vec![s("/w/b/y.rs")],
        Some(vec![
            branch("main", true, false, 2, 1),
            branch("Feature/Login", false, false, 0, 0),
            branch("origin/main", false, true, 0, 0),
        ]),
        Some(vec![commit("first")]),
    );
    assert!(matches!(event, Some(GitPanelEvent::StatusUpdated(ref c)) if c.len() == 3));
    p
}

#[test]
fn git_refresh_is_taken_over_by_the_latest_only() {
    let (mut p, first) = GitPanel::new(s("/w"));
    let second = p.refresh();
    assert_ne!(first.refresh_seq, second.refresh_seq);
    assert_eq!(second.root, "/w");
    let none = p.refresh_done(
        first.refresh_seq,
        first.log_seq,
        vec![repo("/w")],
        s("old"),
        vec![change("/w", "a", "Added")],
        vec![],
        None,
        None,
    );
    assert!(none.is_none());
    assert_eq!(p.branch(), "");
    assert_eq!(p.change_count(), 0);
}

#[test]
fn git_light_refresh_keeps_the_history() {
    let mut p = filled();
    let q = p.refresh_light();
    assert_eq!(q.repo_paths, vec![s("/w/a"), s("/w/b")]);
    assert_eq!((q.active_repo, q.branch_path.as_str()), (0, "/w/a"));
    assert!(p.light_done(q.seq, 0, s("next"), vec![change("/w/a", "z.rs", "Deleted")], vec![]).is_some());
    assert_eq!(p.change_count(), 1);
    assert_eq!(p.branch(), "next");
    assert_eq!(p.log.len(), 1);
    assert!(p.light_done(q.seq - 1, 0, s("old"), vec![], vec![]).is_none());
    assert_eq!(p.change_count(), 1);
    let q = p.refresh_light();
    assert!(p.select_repo(1).is_some());
    assert!(p.light_done(q.seq, q.active_repo, s("of a"), vec![], vec![]).is_some());
    assert_eq!(p.branch(), "");
    let (mut bare, _) = GitPanel::new(s("/w"));
    assert_eq!(bare.refresh_light().repo_paths, vec![s("/w")]);
}

#[test]
fn git_counts_and_rows() {
    let p = filled();
    assert_eq!(p.ahead_behind(), (2, 1));
    assert_eq!(p.change_count(), 3);
    assert!(p.shows_repo_selector());
    let g = p.change_groups();
    assert_eq!(g.len(), 2);
    assert_eq!((g[0].total, g[0].rows.len(), g[0].hidden), (2, 2, 0));
    assert_eq!(g[0].rows[0].filename, "x.rs");
    assert_eq!(g[0].rows[0].dir, "src");
    assert_eq!(g[0].rows[0].mark, "M");
    assert_eq!(g[0].rows[0].tone, Tone::Warning);
    assert_eq!(g[0].rows[1].index, 2);
    assert!(g[1].rows[0].conflicted);
    assert_eq!(g[1].rows[0].tone, Tone::Danger);
    let (none, _) = GitPanel::new(s("/w"));
    assert_eq!(none.ahead_behind(), (0, 0));
}

#[test]
fn git_lists_four_hundred_changes_at_most() {
    let (mut p, q) = GitPanel::new(s("/w"));
    let mut changes = Vec::new();
    for i in 0..300 {
        changes.push(change("/w/a", &format!("f{}", i), "Modified"));
    }
    for i in 0..300 {
        changes.push(change("/w/b", &format!("g{}", i), "Modified"));
    }
    p.refresh_done(q.refresh_seq, q.log_seq, vec![repo("/w/a"), repo("/w/b")], s(""), changes, vec![], None, None);
    let g = p.change_groups();
    assert_eq!((g[0].rows.len(), g[0].hidden), (300, 0));
    assert_eq!((g[1].rows.len(), g[1].hidden, g[1].total), (100, 200, 300));
}

#[test]
fn git_status_colours() {
    assert_eq!(status_color("Modified"), Tone::Warning);
    assert_eq!(status_color("Added"), Tone::Success);
    assert_eq!(status_color("Untracked"), Tone::Success);
    assert_eq!(status_color("Deleted"), Tone::Danger);
    assert_eq!(status_color("Renamed"), Tone::Info);
}

#[test]
fn git_branches_are_filtered_without_regard_to_case() {
    let mut p = filled();
    let all = p.branch_rows("");
    assert_eq!(all.iter().map(|r| r.name.as_str()).collect::<Vec<_>>(), vec!["main", "Feature/Login"]);
    assert_eq!(all[0].distance, Some(s("↑2 ↓1")));
    assert!(all[0].viewing && all[0].current);
    let some = p.branch_rows("  LOGIN ");
    assert_eq!(some.iter().map(|r| r.name.as_str()).collect::<Vec<_>>(), vec!["Feature/Login"]);
    let q = p.select_branch(s("Feature/Login"));
    assert_eq!((q.cwd.as_str(), q.branch.as_str()), ("/w/a", "Feature/Login"));
    assert!(p.branch_rows("")[1].viewing);
    assert!(!p.branch_rows("")[0].viewing);
    assert_eq!(p.log_title(), "历史 · Feature/Login");
    assert!(p.log_read(q.log_seq, Some(vec![commit("a"), commit("b")])));
    assert_eq!(p.log.len(), 2);
    assert!(!p.log_read(q.log_seq - 1, None));
    assert_eq!(p.log.len(), 2);
}

#[test]
fn git_commit_asks_for_a_message_and_changes() {
    let mut p = filled();
    assert!(p.commit(s(" \n"), false).is_none());
    assert_eq!(p.status, "commit message 不能为空");
    let (mut empty, _) = GitPanel::new(s("/w"));
    assert!(empty.commit(s("m"), false).is_none());
    assert_eq!(empty.status, "没有可提交的变更");
    let q = p.commit(s("m"), true).unwrap();
    assert!(p.busy);
    assert_eq!(p.status, "提交并推送中…");
    assert!(q.and_push);
    assert_eq!(q.groups.len(), 2);
    assert!(p.commit(s("m"), false).is_none());
    assert_eq!(p.status, "提交并推送中…");
    let mut t = CommitTally::new();
    assert!(t.committed(Ok(()), true));
    t.pushed(Ok(()));
    assert!(t.committed(Ok(()), true));
    t.pushed(Ok(()));
    let (clear, _) = p.commit_done(t, true);
    assert!(clear && !p.busy);
    assert_eq!(p.status, "已提交 2 个仓并推送 ✓");
}

#[test]
fn git_commit_reports_the_first_failure() {
    let mut p = filled();
    p.commit(s("m"), false).unwrap();
    assert_eq!(p.status, "提交中…");
    let mut t = CommitTally::new();
    assert!(!t.committed(Err(s("one")), true));
    assert!(!t.committed(Err(s("two")), false));
    assert!(!t.committed(Ok(()), false));
    assert_eq!(t.ok, 1);
    let (clear, _) = p.commit_done(t, false);
    assert!(!clear);
    assert_eq!(p.status, "部分失败: one");
    p.commit(s("m"), false).unwrap();
    p.commit_done(CommitTally::new(), false);
    assert_eq!(p.status, "已提交 0 个仓 ✓");
}

#[test]
fn git_changes_are_grouped_by_repository() {
    let g = group_by_repo(&vec![change("/a", "1", ""), change("/b", "2", ""), change("/a", "3", "")]);
    assert_eq!(g.len(), 2);
    let a = g.iter().find(|g| g.repo == "/a").unwrap();
    assert_eq!(a.files, vec![s("1"), s("3")]);
    let b = g.iter().find(|g| g.repo == "/b").unwrap();
    assert_eq!(b.files, vec![s("2")]);
}

#[test]
fn git_sync_shows_the_first_line() {
    let mut p = filled();
    let q = p.sync_remote(true).unwrap();
    assert_eq!((q.cwd.as_str(), q.branch.as_str(), q.push), ("/w/a", "main", true));
    assert_eq!(p.status, "推送中…");
    assert!(p.sync_remote(false).is_none());
    p.sync_done(Ok(s("Everything up-to-date\r\nmore")));
    assert_eq!(p.status, "Everything up-to-date ✓");
    p.sync_remote(false).unwrap();
    assert_eq!(p.status, "拉取中…");
    p.sync_done(Ok(s("")));
    assert_eq!(p.status, "完成 ✓");
    p.sync_remote(false).unwrap();
    p.sync_done(Ok(s("\nrest")));
    assert_eq!(p.status, "完成 ✓");
    p.sync_remote(false).unwrap();
    p.sync_done(Err(s("no network")));
    assert_eq!(p.status, "失败: no network");
}

#[test]
fn git_rollback_needs_a_selection() {
    let mut p = filled();
    assert!(!p.can_rollback());
    assert!(p.rollback_selected().is_none());
    assert_eq!(p.status, "先选择一个变更");
    assert!(
        matches!(p.open_change(0), GitPanelEvent::OpenDiff { ref repo, ref rel_path, ref abs_path }
            if repo == "/w/a" && rel_path == "src/x.rs" && abs_path == "/w/a/src/x.rs")
    );
    assert!(matches!(p.open_change(1), GitPanelEvent::OpenMerge { ref repo, ref rel_path }
        if repo == "/w/b" && rel_path == "y.rs"));
    assert!(p.can_rollback());
    let q = p.rollback_selected().unwrap();
    assert_eq!((q.cwd.as_str(), q.path.as_str(), q.status.as_str()), ("/w/b", "y.rs", "Added"));
    assert_eq!(p.status, "Rollback y.rs …");
    p.rollback_done("y.rs", Ok(()));
    assert_eq!(p.status, "已 rollback y.rs");
    p.rollback_selected().unwrap();
    p.rollback_done("y.rs", Err(s("locked")));
    assert_eq!(p.status, "Rollback 失败: locked");
}

#[test]
fn git_checkout_leaves_the_current_branch_alone() {
    let mut p = filled();
    assert!(p.checkout(s("main")).is_none());
    assert!(p.checkout_context().is_none());
    p.set_context(s("Feature/Login"));
    let q = p.checkout_context().unwrap();
    assert_eq!((q.cwd.as_str(), q.branch.as_str()), ("/w/a", "Feature/Login"));
    assert_eq!(p.status, "切换到 Feature/Login …");
    p.checkout_done("Feature/Login", Ok(()));
    assert_eq!(p.status, "已切换到 Feature/Login ✓");
    p.checkout(s("Feature/Login")).unwrap();
    p.checkout_done("Feature/Login", Err(s("dirty")));
    assert_eq!(p.status, "切换失败: dirty");
    assert!(p.checkout_context().is_none());
}

#[test]
fn git_repositories_are_read_one_at_a_time() {
    let mut p = filled();
    let q = p.select_repo(1).unwrap();
    assert_eq!(q.path, "/w/b");
    assert_eq!(p.active_repo_path(), "/w/b");
    assert!(p.repo_read(q.log_seq, s("dev"), None, Some(vec![commit("b")])));
    assert_eq!(p.branch(), "dev");
    assert!(!p.repo_read(q.log_seq - 1, s("late"), None, None));
    assert_eq!(p.branch(), "dev");
}

#[test]
fn git_drafts_stay_with_their_project() {
    let (mut p, _) = GitPanel::new(s("/a"));
    let (draft, q) = p.set_project(s("/b"), s("work on a"));
    assert_eq!(draft, "");
    assert_eq!(q.root, "/b");
    let (draft, _) = p.set_project(s("/a"), s("work on b"));
    assert_eq!(draft, "work on a");
    let (draft, _) = p.set_project(s("/b/"), s(""));
    assert_eq!(draft, "work on b");
    let (draft, _) = p.set_project(s("/a"), s("b again"));
    assert_eq!(draft, "");
    let (draft, _) = p.set_project(s("/b"), s(""));
    assert_eq!(draft, "b again");
}

#[test]
fn git_mode_changes_once() {
    let (mut p, _) = GitPanel::new(s("/a"));
    assert!(!p.set_mode(GitPanelMode::Commit));
    assert!(p.set_mode(GitPanelMode::Branches));
    assert!(!p.set_mode(GitPanelMode::Branches));
}

#[test]
fn git_results_of_all_repositories_are_collected() {
    assert_eq!(abs_in_repo("/r", "a/b"), "/r/a/b");
    assert_eq!(change_abs(&change("/r", "x", "")), "/r/x");
    let all = collect_changes(&vec![Some(vec![change("/a", "1", "")]), None, Some(vec![change("/b", "2", "")])]);
    assert_eq!(all.iter().map(change_abs).collect::<Vec<_>>(), vec![s("/a/1"), s("/b/2")]);
    let per = vec![
        RepoConflicts { repo: s("/a"), files: Some(vec![s("1"), s("2")]) },
        RepoConflicts { repo: s("/b"), files: None },
    ];
    assert_eq!(collect_conflicts(&per), vec![s("/a/1"), s("/a/2")]);
    let own = repos_or_root(vec![], "/w/proj");
    assert_eq!((own[0].name.as_str(), own[0].path.as_str()), ("proj", "/w/proj"));
    assert_eq!(repos_or_root(vec![repo("/x")], "/w").len(), 1);
    assert_eq!(repo_to_read(&own, 7, "/w"), "/w/proj");
    assert_eq!(repo_to_read(&vec![], 0, "/w"), "/w");
}

fn module(name: &str) -> MavenModule {
    MavenModule { name: s(name), version: s("1.0"), pom_path: format!("/p/{}/pom.xml", name) }
}

#[test]
fn maven_modules_are_listed() {
    let (mut p, q) = MavenPanel::new(s("/p"));
    assert_eq!(q.root, "/p");
    assert!(p.modules_read(q.seq, Ok(vec![])));
    assert_eq!(p.status, "未发现 pom.xml");
    let q = p.refresh_modules();
    assert!(!p.modules_read(q.seq - 1, Ok(vec![module("late")])));
    assert!(p.modules_read(q.seq, Ok(vec![module("core"), module("web")])));
    assert_eq!(p.status, "2 个模块");
    p.select_module(1);
    let rows = p.module_rows();
    assert_eq!(rows[1].name, "web");
    assert!(rows[1].selected && !rows[0].selected);
    assert_eq!(rows[0].version, "1.0");
}

#[test]
fn maven_dependencies_are_read() {
    let (mut p, q) = MavenPanel::new(s("/p"));
    p.modules_read(q.seq, Ok(vec![module("core")]));
    assert!(p.load_deps(3).is_none());
    let d = p.load_deps(0).unwrap();
    assert_eq!(d.module_dir, "/p/core");
    assert!(p.loading);
    assert_eq!(p.status, "mvn dependency:tree — core …");
    let dep = |a: &str, o: Option<&str>| MavenDep {
        artifact_id: s(a),
        version: s("2"),
        omitted_for: o.map(s),
        is_conflict: o.is_some(),
    };
    let tree = MavenDepTree { flat: vec![dep("x", None), dep("y", Some("3"))], conflicts: 1 };
    assert!(p.deps_read(d.seq, Ok(tree)));
    assert!(!p.loading);
    assert_eq!(p.status, "2 个依赖,1 组冲突");
    let rows = p.dep_rows();
    assert_eq!(rows[0].label, "x : 2");
    assert_eq!(rows[1].omitted, Some(s("omitted→3")));
    assert!(rows[1].conflict && !rows[0].conflict);
}

#[test]
fn maven_failures_are_told_apart() {
    let (mut p, q) = MavenPanel::new(s("/p"));
    p.modules_read(q.seq, Ok(vec![module("core")]));
    let missing = "未找到 mvn —— 请到 设置(⌘,)→ Maven 配置 Maven home(如 amaven)";
    for e in ["No such file or directory", "Failed to run mvn: x"] {
        let d = p.load_deps(0).unwrap();
        assert!(p.deps_read(d.seq, Err(s(e))));
        assert_eq!(p.status, missing);
    }
    let d = p.load_deps(0).unwrap();
    assert!(p.deps_read(d.seq, Err(s("bad pom"))));
    assert_eq!(p.status, "解析失败: bad pom");
    assert!(!p.deps_read(d.seq - 1, Err(s("late"))));
    assert_eq!(p.status, "解析失败: bad pom");
}

fn session(token: &str, template: Option<i64>) -> AstoreSession {
    AstoreSession {
        sso_token: s(token),
        nick_name: s("nick"),
        current_env: s(""),
        project_type: s("sku"),
        template_id: template,
    }
}

#[test]
fn astore_runs_one_operation_at_a_time() {
    let mut p = AstorePanel::new(s("/p"));
    p.op_done(Ok(AstoreReply::LoggedOut), session("", None));
    assert!(!p.logged_in());
    assert!(p.login(s(""), s("x")).is_none());
    assert_eq!(p.status, "请输入账号与密码");
    let op = p.login(s("me"), s("pw"));
    assert!(matches!(op, Some(AstoreOp::Login { ref username, ref password }) if username == "me" && password == "pw"));
    assert!(p.busy);
    assert_eq!(p.status, "登录…");
    assert!(p.publish().is_none());
    p.op_done(Ok(AstoreReply::LoggedIn { nick_name: s("nick") }), session("tok", Some(7)));
    assert_eq!(p.status, "已登录: nick");
    assert!(p.logged_in() && !p.busy);
    assert_eq!(p.project_line(), "项目: sku · 模板: 7");
    assert!(matches!(p.set_env(s("日常环境")), Some(AstoreOp::SetEnv { .. })));
    assert_eq!(p.status, "切换环境…");
    p.op_done(Ok(AstoreReply::EnvSet { env: s("日常环境") }), session("tok", None));
    assert_eq!(p.status, "已切到日常环境");
    assert_eq!(p.project_line(), "项目: sku · 模板: -");
    assert!(matches!(p.sync_code(), Some(AstoreOp::SyncCode { ref cwd }) if cwd == "/p"));
    p.op_done(Err(s("refused")), session("tok", None));
    assert_eq!(p.status, "失败: refused");
    assert!(matches!(p.logout(), Some(AstoreOp::Logout)));
    p.op_done(Ok(AstoreReply::LoggedOut), session("", None));
    assert_eq!(p.status, "已登出");
    assert_eq!(p.url_read(Ok(s("http://x"))), Some(s("http://x")));
    assert_eq!(p.status, "已在浏览器打开");
    assert_eq!(p.url_read(Err(s("none"))), None);
    assert_eq!(p.status, "失败: none");
}

fn arthas() -> ArthasPanel {
    let procs = vec![JavaProc { pid: s("1"), name: s("App") }, JavaProc { pid: s("2"), name: s("Other") }];
    ArthasPanel::new(procs, Some(s("/boot.jar")))
}

#[test]
fn arthas_commands_are_built() {
    let mut p = arthas();
    assert_eq!(p.build_command(), None);
    assert_eq!(p.command_line(), "$ —");
    assert_eq!(p.target_label(), "(未定位目标方法)");
    p.set_target(s("a.B"), Some(s("run")), ArthasCommand::Watch);
    assert_eq!(p.build_command(), Some(s("watch a.B run '{params,returnObj,throwExp}' -n 5 -x 3")));
    p.set_when(WatchWhen::Exception);
    p.toggle_expr(WatchExpr::Cost);
    p.toggle_expr(WatchExpr::Ret);
    assert_eq!(p.build_command(), Some(s("watch a.B run '{params,throwExp,#cost}' -e -n 5 -x 3")));
    p.toggle_expr(WatchExpr::Cost);
    p.toggle_expr(WatchExpr::Params);
    p.toggle_expr(WatchExpr::Throw);
    assert_eq!(p.build_command(), Some(s("watch a.B run '{params}' -e -n 5 -x 3")));
    p.select(ArthasCommand::Trace);
    assert_eq!(p.build_command(), Some(s("trace a.B run -n 5 -x 3 --skipJDKMethod false")));
    p.select(ArthasCommand::Stack);
    assert_eq!(p.build_command(), Some(s("stack a.B run -n 5")));
    p.select(ArthasCommand::Monitor);
    assert_eq!(p.build_command(), Some(s("monitor a.B run -c 5 -n 5")));
    p.set_target(s("a.B"), None, ArthasCommand::Tt);
    assert_eq!(p.build_command(), Some(s("tt -t a.B * -n 5 -x 3")));
    assert_eq!(p.target_label(), "a.B # *");
}

#[test]
fn arthas_parameters_stay_in_range() {
    let mut p = arthas();
    p.adjust(Param::Count, -100);
    p.adjust(Param::Depth, 100);
    p.adjust(Param::Interval, 2);
    assert_eq!((p.count, p.depth, p.interval), (1, 10, 7));
    p.adjust(Param::Count, 5000);
    p.adjust(Param::Depth, -9);
    p.adjust(Param::Interval, 600);
    assert_eq!((p.count, p.depth, p.interval), (999, 1, 60));
}

#[test]
fn arthas_shows_what_fits_the_command() {
    let mut p = arthas();
    p.set_target(s("a.B"), None, ArthasCommand::Watch);
    assert_eq!(p.expr_chips().len(), 5);
    assert!(p.when_chips()[0].1.on);
    assert_eq!(p.steppers().iter().map(|t| t.label).collect::<Vec<_>>(), vec!["遍历深度 -x", "执行次数 -n"]);
    p.select(ArthasCommand::Stack);
    assert!(p.expr_chips().is_empty());
    assert_eq!(p.steppers().len(), 1);
    p.select(ArthasCommand::Monitor);
    assert_eq!(p.steppers()[0].label, "统计周期 -c(秒)");
    let on: Vec<bool> = p.tabs().iter().map(|t| t.1.on).collect();
    assert_eq!(on, vec![false, false, false, true, false]);
    assert_ne!(cmd_blurb(ArthasCommand::Watch), cmd_blurb(ArthasCommand::Tt));
}

#[test]
fn arthas_runs_need_target_process_and_boot() {
    let mut p = arthas();
    assert!(p.run_command().is_none());
    assert_eq!(p.status, "尚无目标方法,无法执行");
    p.set_target(s("a.B"), Some(s("m")), ArthasCommand::Stack);
    p.selected_pid = None;
    assert!(p.run_command().is_none());
    assert_eq!(p.status, "先选一个目标 Java 进程(下方进程行 / 刷新)");
    p.select_process(s("2"));
    assert_eq!(p.connection(), "arthas-boot ✓ · pid 2 · 2 进程");
    assert!(p.process_rows()[1].selected);
    assert_eq!(p.process_rows()[0].label, "App · 1");
    let q = p.run_command().unwrap();
    assert_eq!((q.boot.as_str(), q.pid.as_str(), q.command.as_str()), ("/boot.jar", "2", "stack a.B m -n 5"));
    p.run_started(&q, Err(s("no java")));
    assert_eq!(p.status, "启动失败: no java");
    assert!(!p.run_news(true, false, vec![s("x")]));
    p.run_started(&q, Ok(()));
    assert_eq!(p.status, "正在 attach pid 2 执行: stack a.B m -n 5");
    assert!(p.run_news(true, false, vec![s("[INFO] x"), s("ts=1"), s("Press Q")]));
    assert_eq!(p.console().iter().map(|r| r.is_log).collect::<Vec<_>>(), vec![true, false, true]);
    assert!(p.run_news(false, false, vec![]));
    assert_eq!(p.output.len(), 3);
    assert!(!p.run_news(false, true, vec![s("end")]));
    assert_eq!(p.status, "执行结束(命令已完成)");
    assert_eq!(p.output, vec![s("end")]);
    p.boot = None;
    assert!(p.run_command().is_none());
    assert_eq!(p.status, "未找到 arthas-boot.jar:设 ARTHAS_BOOT_JAR 或放到 ~/.arthas-boot.jar");
    assert_eq!(p.connection(), "arthas-boot ✗");
    assert!(!p.can_run());
}

#[test]
fn settings_are_applied_at_once() {
    let mut v = SettingsView::new(EditorSettings::default(), f32::to_bits(13.0));
    assert!(v.cat == Cat::Editor);
    let SettingsEvent::Apply(e) = v.set_tab_size(2);
    assert_eq!(e.tab_size, 2);
    let SettingsEvent::Apply(e) = v.set_font_size(f32::to_bits(14.0));
    assert_eq!(f32::from_bits(e.font_size), 14.0);
    let SettingsEvent::Apply(e) = v.set_word_wrap(true);
    assert!(e.word_wrap && e.folding);
    let SettingsEvent::Apply(e) = v.set_folding(false);
    assert!(!e.folding);
    v.show_maven();
    assert!(v.cat == Cat::Maven);
    let SettingsEvent::Apply(e) = v.set_maven(s("/m"), s("/s.xml"), s("/repo"));
    assert_eq!((e.maven_home.as_str(), e.maven_settings.as_str(), e.maven_repo.as_str()), ("/m", "/s.xml", "/repo"));
    assert_eq!(e.tab_size, 2);
    assert_eq!(v.header().0, "Maven");
    v.select_cat(Cat::Editor);
    assert_eq!(v.header().0, "编辑器");
    assert!(v.cat_items()[0].on && !v.cat_items()[1].on);
    assert!(!proposal_cats().is_empty());
}

#[test]
fn any_change_of_the_settings_applies_the_size_of_the_slider() {
    let kept = EditorSettings { font_size: f32::to_bits(13.5), ..EditorSettings::default() };
    let mut v = SettingsView::new(kept, f32::to_bits(14.0));
    let SettingsEvent::Apply(e) = v.set_tab_size(8);
    assert_eq!((f32::from_bits(e.font_size), e.tab_size), (14.0, 8));
    let SettingsEvent::Apply(e) = v.set_maven(s("/m"), s(""), s(""));
    assert_eq!(f32::from_bits(e.font_size), 14.0);
    let SettingsEvent::Apply(e) = v.set_font_size(f32::to_bits(22.0));
    assert_eq!(f32::from_bits(e.font_size), 22.0);
    let SettingsEvent::Apply(e) = v.set_folding(false);
    assert_eq!(f32::from_bits(e.font_size), 22.0);
}

#[test]
fn settings_preview_follows_the_tab_width() {
    let mut v = SettingsView::new(EditorSettings::default(), f32::to_bits(13.0));
    assert_eq!(v.preview()[2], "    private final String name = \"nib\";");
    v.set_tab_size(2);
    assert_eq!(v.preview()[2], "  private final String name = \"nib\";");
    assert_eq!(v.preview()[4], "    return \"Hello, \" + who + \" from \" + name;");
    assert_eq!(v.preview()[0], "public class Demo {");
    let on: Vec<u32> = v.tab_segments().iter().filter(|t| t.on).map(|t| t.width).collect();
    assert_eq!(on, vec![2]);
}

#[test]
fn terminal_colours() {
    assert_eq!(indexed_color(1), 0xff7b72);
    assert_eq!(indexed_color(16), 0x000000);
    assert_eq!(indexed_color(21), 0x0000ff);
    assert_eq!(indexed_color(67), 0x5f87af);
    assert_eq!(indexed_color(231), 0xffffff);
    assert_eq!(indexed_color(232), 0x080808);
    assert_eq!(indexed_color(255), 0xeeeeee);
    assert_eq!(resolve_fg(TermColor::Default), 0xc9d3e0);
    assert_eq!(resolve_fg(TermColor::Palette(200)), 0xffffff);
    assert_eq!(resolve_fg(TermColor::Rgb(1, 2, 3)), 0x010203);
    assert_eq!(resolve_bg(TermColor::Default), None);
    assert_eq!(resolve_bg(TermColor::Palette(0)), Some(0x1b2230));
    let run = |inverse: bool| TermRun {
        text: s("x"),
        fg: TermColor::Default,
        bg: TermColor::Default,
        bold: false,
        inverse,
    };
    assert_eq!(run_colors(&run(false)), (0xc9d3e0, None));
    assert_eq!(run_colors(&run(true)), (0x0d1017, Some(0xc9d3e0)));
}

fn key(k: &str, c: Option<&str>, m: &str) -> Keystroke {
    Keystroke {
        modifiers: Modifiers {
            control: m.contains('c'),
            alt: m.contains('a'),
            shift: m.contains('s'),
            platform: m.contains('p'),
            function: false,
        },
        key: s(k),
        key_char: c.map(s),
    }
}

#[test]
fn terminal_keys_become_bytes() {
    let bytes = |k: &str, c: Option<&str>, m: &str| keystroke_bytes(&key(k, c, m));
    assert_eq!(bytes("enter", None, ""), Some(b"\r".to_vec()));
    assert_eq!(bytes("backspace", None, ""), Some(vec![0x7f]));
    assert_eq!(bytes("delete", None, ""), Some(b"\x1b[3~".to_vec()));
    assert_eq!(bytes("tab", None, ""), Some(b"\t".to_vec()));
    assert_eq!(bytes("escape", None, ""), Some(vec![0x1b]));
    assert_eq!(bytes("up", None, ""), Some(b"\x1b[A".to_vec()));
    assert_eq!(bytes("down", None, ""), Some(b"\x1b[B".to_vec()));
    assert_eq!(bytes("right", None, ""), Some(b"\x1b[C".to_vec()));
    assert_eq!(bytes("left", None, ""), Some(b"\x1b[D".to_vec()));
    assert_eq!(bytes("home", None, ""), Some(b"\x1b[H".to_vec()));
    assert_eq!(bytes("end", None, ""), Some(b"\x1b[F".to_vec()));
    assert_eq!(bytes("pageup", None, ""), Some(b"\x1b[5~".to_vec()));
    assert_eq!(bytes("pagedown", None, ""), Some(b"\x1b[6~".to_vec()));
    assert_eq!(bytes("c", Some("c"), "c"), Some(vec![3]));
    assert_eq!(bytes("Z", None, "c"), Some(vec![26]));
    assert_eq!(bytes("space", None, "c"), Some(vec![0]));
    assert_eq!(bytes("1", Some("1"), "c"), None);
    assert_eq!(bytes("", None, "c"), None);
    assert_eq!(bytes("a", Some("a"), "p"), None);
    assert_eq!(bytes("enter", None, "p"), None);
    assert_eq!(bytes("a", Some("中"), ""), Some("中".as_bytes().to_vec()));
    assert_eq!(bytes("f", Some("ƒ😀"), "a"), Some("\u{1b}ƒ😀".as_bytes().to_vec()));
    assert_eq!(bytes("f1", None, ""), None);
}

fn terminal() -> TerminalPanel {
    let (mut p, q) = TerminalPanel::new(s("/w/app"));
    assert_eq!((q.cwd.as_str(), q.cols, q.rows), ("/w/app", 80, 12));
    assert_eq!(p.session_spawned(Ok(())), Some(1));
    p
}

#[test]
fn terminal_sessions_are_named_and_numbered() {
    let mut p = terminal();
    assert_eq!(p.active_tab().unwrap().name, "app (1)");
    assert_eq!(p.session_spawned(Ok(())), Some(2));
    assert_eq!(p.active, 1);
    assert_eq!(p.session_spawned(Err(s("no pty"))), None);
    assert_eq!(p.status, "终端启动失败: no pty");
    assert_eq!(p.tab_rows().len(), 2);
    p.activate(0);
    let c = p.close_session(1);
    assert_eq!(c.shutdown, Some(2));
    assert!(c.spawn.is_none());
    let c = p.close_session(0);
    assert_eq!(c.shutdown, Some(1));
    assert_eq!(c.spawn.unwrap().cwd, "/w/app");
    assert!(p.close_session(5).shutdown.is_none());
}

#[test]
fn terminal_sessions_belong_to_projects() {
    let mut p = terminal();
    assert!(p.set_project(s("/w/other")).is_some());
    assert!(p.tab_rows().is_empty());
    p.session_spawned(Ok(()));
    assert_eq!(p.tab_rows().len(), 1);
    assert_eq!(p.tab_rows()[0].name, "other (2)");
    assert!(p.set_project(s("/w/app")).is_none());
    assert_eq!(p.active, 0);
    assert_eq!(p.align_active(), Some(0));
}

#[test]
fn terminal_keys_are_handled_by_the_live_session() {
    let mut p = terminal();
    p.on_cc_done(10_000);
    assert!(p.cc_done());
    assert!(matches!(p.on_key(&key("a", Some("a"), ""), None, None), KeyAction::Write(b) if b == b"a"));
    assert!(!p.cc_done());
    assert!(matches!(p.on_key(&key("c", None, "p"), Some(s("sel")), None), KeyAction::Copy(t) if t == "sel"));
    assert!(matches!(p.on_key(&key("c", None, "p"), None, None), KeyAction::Bubble));
    assert!(matches!(p.on_key(&key("v", None, "p"), None, Some(s("clip"))), KeyAction::Paste(Some(t)) if t == "clip"));
    assert!(p.pull(1, blank_snapshot(), true, 7));
    assert!(!p.pull(9, blank_snapshot(), true, 8));
    assert_eq!(p.last_op, Some((s("终端输出 app (1)"), 7)));
    assert!(matches!(p.on_key(&key("a", Some("a"), ""), None, None), KeyAction::Bubble));
    assert!(!p.accepts_text_input());
}

#[test]
fn terminal_counts_a_turn_once() {
    let mut p = terminal();
    assert!(p.on_cc_done(10_000_000_000));
    assert!(!p.on_cc_done(14_999_999_999));
    assert!(p.on_cc_done(19_999_999_999));
}

#[test]
fn terminal_grid_is_resized_when_it_changes() {
    let mut p = terminal();
    assert_eq!(p.sync_grid(80, 12), None);
    assert_eq!(p.sync_grid(100, 30), Some(1));
    assert_eq!(p.sync_grid(100, 30), None);
    assert_eq!(p.scrollback_label(0), None);
    assert_eq!(p.scrollback_label(12), Some(s("回看 -12 行")));
}

#[test]
fn terminal_grid_stays_within_its_limits() {
    assert_eq!(fit_grid(0, 1), (2, 2));
    assert_eq!(fit_grid(2, 100), (2, 100));
    assert_eq!(fit_grid(120, 40), (120, 40));
    assert_eq!(fit_grid(501, 65535), (500, 100));
}

#[test]
fn terminal_pastes_with_the_platform_key_alone() {
    assert!(is_paste(&key("v", None, "p")));
    assert!(is_paste(&key("v", None, "ps")));
    assert!(!is_paste(&key("v", Some("v"), "")));
    assert!(!is_paste(&key("c", None, "p")));
}

#[test]
fn terminal_composes_at_the_end_of_its_text() {
    let mut p = terminal();
    p.replace_and_mark_text_in_range(None, "a😀");
    assert!(is_range_in(&p.ime_marked, 10, 7));
    assert!(is_range_in(&p.ime_marked, 2, 1));
    assert!(!is_range_in(&p.ime_marked, 3, 2));
    assert!(!is_range_in(&p.ime_marked, 10, 0));
    p.replace_and_mark_text_in_range(Some((10, 7)), "b");
    assert_eq!(p.ime_marked, "a😀b");
    p.replace_and_mark_text_in_range(Some((2, 1)), "-");
    assert_eq!(p.ime_marked, "a-😀b");
    assert_eq!(p.text_for_range(9, 8), Some((s(""), 5, 5)));
    assert_eq!(p.text_for_range(1, 0), None);
}

#[test]
fn git_reads_and_pushes_on_a_branch_only() {
    assert!(on_branch("main"));
    assert!(on_branch(" "));
    assert!(!on_branch(""));
}

#[test]
fn terminal_selection_is_drawn_row_by_row() {
    let all: Vec<(usize, usize, usize)> =
        selection_spans((1, 5, 3, 4), 10).iter().map(|t| (t.row, t.start, t.width)).collect();
    assert_eq!(all, vec![(1, 5, 5), (2, 0, 10), (3, 0, 4)]);
    assert!(selection_spans((3, 0, 1, 0), 10).is_empty());
    let mut p = terminal();
    assert_eq!(p.mouse_down(true), Some(0));
    assert!(p.mouse_move(true));
    assert!(!p.mouse_move(false));
    assert!(!p.mouse_move(true));
    assert_eq!(p.mouse_down(false), None);
    p.mouse_up();
    assert!(!p.selecting);
}

#[test]
fn terminal_text_is_composed_in_utf16() {
    let mut p = terminal();
    assert_eq!(p.marked_text_range(), None);
    p.replace_and_mark_text_in_range(None, "a😀b");
    assert_eq!(p.marked_text_range(), Some((0, 4)));
    assert_eq!(p.selected_text_range(), (4, 4));
    assert_eq!(p.text_for_range(1, 3), Some((s("😀"), 1, 3)));
    p.replace_and_mark_text_in_range(Some((1, 3)), "xy");
    assert_eq!(p.ime_marked, "axyb");
    assert_eq!(p.replace_text_in_range("中"), Some("中".as_bytes().to_vec()));
    assert_eq!(p.ime_marked, "");
    assert!(!p.unmark_text());
    p.replace_and_mark_text_in_range(None, "q");
    assert!(p.unmark_text());
    assert_eq!(p.marked_text_range(), None);
    p.replace_and_mark_text_in_range(None, "long");
    p.replace_and_mark_text_in_range(None, "");
    assert_eq!(p.marked_text_range(), None);
}

#[test]
fn terminal_restart_replaces_the_shown_session() {
    let mut p = terminal();
    p.session_spawned(Ok(()));
    p.session_spawned(Ok(()));
    p.activate(1);
    let c = p.restart();
    assert_eq!(c.shutdown, Some(2));
    assert_eq!(c.spawn.unwrap().cwd, "/w/app");
    assert_eq!(p.active, 1);
    assert_eq!(p.session_spawned(Ok(())), Some(4));
    assert_eq!(p.tabs.iter().map(|t| t.id).collect::<Vec<_>>(), vec![1, 3, 4]);
    assert_eq!(p.active, 2);
    let (mut none, _) = TerminalPanel::new(s("/w/app"));
    let c = none.restart();
    assert!(c.shutdown.is_none() && c.spawn.is_some());
}

#[test]
fn terminal_scrolling_shows_older_lines() {
    let mut p = terminal();
    p.session_spawned(Ok(()));
    let mut snap = blank_snapshot();
    snap.display_offset = 9;
    p.scrolled(snap);
    assert_eq!(p.tabs[1].snap.display_offset, 9);
    assert_eq!(p.tabs[0].snap.display_offset, 0);
    let (mut none, _) = TerminalPanel::new(s("/w/app"));
    none.scrolled(blank_snapshot());
    assert!(none.tabs.is_empty());
}

#[test]
fn arthas_keeps_the_chosen_process_while_it_runs() {
    let mut p = arthas();
    p.select_process(s("2"));
    p.refresh_processes(vec![JavaProc { pid: s("7"), name: s("X") }, JavaProc { pid: s("2"), name: s("Y") }]);
    assert_eq!(p.selected_pid, Some(s("2")));
    assert_eq!(p.status, "已刷新:发现 2 个 Java 进程");
    p.refresh_processes(vec![JavaProc { pid: s("7"), name: s("X") }]);
    assert_eq!(p.selected_pid, Some(s("7")));
    p.refresh_processes(vec![]);
    assert_eq!(p.selected_pid, None);
    assert!(!p.stop());
    assert_eq!(p.status, "已停止");
}

#[test]
fn maven_modules_are_read_again_with_another_configuration() {
    let (mut p, _) = MavenPanel::new(s("/w"));
    assert!(p.set_config(s(""), s(""), s("")).is_none());
    let q = p.set_config(s("/mvn"), s(""), s("")).unwrap();
    assert_eq!((q.modules.seq, q.modules.root.as_str()), (2, "/w"));
    assert!(q.deps.is_none());
    assert_eq!(p.config.home, "/mvn");
    assert!(p.set_config(s("/mvn"), s(""), s("")).is_none());
    p.modules_read(2, Ok(vec![module("core")]));
    let d = p.load_deps(0).unwrap();
    assert!(p.deps_read(d.seq, Ok(MavenDepTree { flat: vec![], conflicts: 0 })));
    let q = p.set_config(s("/mvn"), s("/s.xml"), s("")).unwrap();
    let d = q.deps.unwrap();
    assert_eq!((d.seq, d.config.settings.as_str(), d.module_dir.as_str()), (q.modules.seq, "/s.xml", "/p/core"));
    assert!(p.dep_tree.is_none() && p.loading);
    assert!(p.modules_read(q.modules.seq, Ok(vec![module("core")])));
    assert!(p.deps_read(d.seq, Ok(MavenDepTree { flat: vec![], conflicts: 0 })));
    assert!(p.dep_tree.is_some() && !p.loading);
}

#[test]
fn a_selected_maven_module_without_a_tree_stays_without_one() {
    let (mut p, _) = MavenPanel::new(s("/w"));
    assert!(p.modules_read(1, Ok(vec![module("core")])));
    p.select_module(0);
    let q = p.set_config(s("/mvn"), s(""), s("")).unwrap();
    assert!(q.deps.is_none());
    assert!(p.dep_tree.is_none() && !p.loading);
    assert_eq!(p.selected_module, Some(0));
    assert_eq!(p.status, "1 个模块");
    p.load_deps(0).unwrap();
    let q = p.set_config(s("/amaven"), s(""), s("")).unwrap();
    assert_eq!(q.deps.unwrap().config.home, "/amaven");
    assert!(p.loading);
}

#[test]
fn astore_sessions_are_taken_over() {
    let mut p = AstorePanel::new(s("/w"));
    assert!(!p.logged_in());
    p.session_read(AstoreSession {
        sso_token: s("token"),
        nick_name: s("n"),
        current_env: s("daily"),
        project_type: s("t"),
        template_id: Some(-3),
    });
    assert!(p.logged_in());
    assert_eq!(p.project_line(), "项目: t · 模板: -3");
}

#[test]
fn settings_are_listed_by_category() {
    let mut v = SettingsView::new(EditorSettings::default(), f32::to_bits(13.0));
    assert_eq!(v.fields().iter().map(|f| f.key).collect::<Vec<_>>(), vec![
        "editor.fontSize",
        "editor.tabSize",
        "editor.wordWrap",
        "editor.folding"
    ]);
    v.show_maven();
    assert_eq!(v.fields().iter().map(|f| f.key).collect::<Vec<_>>(), vec!["maven.home", "maven.settings", "maven.repo"]);
}
