use nib::diff_view::{
    reverted_content, DiffCell, DiffKind, DiffLine, DiffRow, DiffStat, DiffView, DiffViewEvent, LineDiff,
};
use nib::goto::{jdt_temp_path, Goto, GotoContext, GotoQuery, GotoStep, JdtSource, Location};
use nib::merge_view::{ConflictChunk, MergeRequest, MergeSide, MergeView};
use nib::nav::{NavArchive, NavLoc, NavState};
use nib::path_map::PathMap;
use nib::preview::{line_text, PreviewDoc, PreviewPane, PreviewStep};
use nib::quick_open::{rank_lengths, rank_scores, rel_of, QuickOpen, QuickOpenEvent};
use nib::recents_view::{RecentsEvent, RecentsView};
use nib::search_panel::{SearchEvent, SearchPanel, SearchResult};
use nib::session::{
    data_dirs, data_dirs_in, default_font_size, default_tab_size, default_true, import_legacy, legacy_app_data,
    legacy_dir_in, load_local, settings_or_default, EditorSettings, LoadStep,
};
use nib::stall::{Op, Sentinel};
use nib::string_set::StringSet;
use nib::tree::{file_node_to_tree_item, reveal_ancestors, tree_items_from_node, FileNode};
use nib::usages_view::{usage_name, LspUsage, UsagesEvent, UsagesView};

fn owned(v: &[&str]) -> Vec<String> {
    v.iter().map(|s| s.to_string()).collect()
}

fn some(s: &str) -> Option<String> {
    Some(s.to_string())
}

fn same(n: u32, m: u32, t: &str) -> DiffRow {
    DiffRow { kind: DiffKind::Same, old_line: Some(n), new_line: Some(m), text: t.to_string() }
}

fn gone(n: u32, t: &str) -> DiffRow {
    DiffRow { kind: DiffKind::Removed, old_line: Some(n), new_line: None, text: t.to_string() }
}

fn new(m: u32, t: &str) -> DiffRow {
    DiffRow { kind: DiffKind::Added, old_line: None, new_line: Some(m), text: t.to_string() }
}

fn view(rows: Vec<DiffRow>) -> DiffView {
    let added = rows.iter().filter(|r| r.kind == DiffKind::Added).count();
    let removed = rows.iter().filter(|r| r.kind == DiffKind::Removed).count();
    DiffView::new("a.txt".to_string(), "/r/a.txt".to_string(), LineDiff { rows, stat: DiffStat { added, removed } })
}

fn cell_text(c: &DiffCell) -> String {
    match c {
        DiffCell::Filler => "-".to_string(),
        DiffCell::Line { lineno, tinted, text } => format!("{}{}{}", lineno, if *tinted { "*" } else { " " }, text),
    }
}

fn drawn(v: &DiffView) -> Vec<String> {
    v.render()
        .lines
        .iter()
        .map(|l| match l {
            DiffLine::Hunk { index, label } => format!("{}{}", index, label),
            DiffLine::Pair { left, right } => format!("{}|{}", cell_text(left), cell_text(right)),
        })
        .collect()
}

#[test]
fn a_change_is_drawn_side_by_side() {
    let v = view(vec![same(1, 1, "a"), gone(2, "b"), gone(3, "c"), new(2, "B"), same(4, 3, "d")]);
    assert_eq!(v.hunks, vec![(0, 4)]);
    assert_eq!(
        drawn(&v),
        owned(&["0@@ -1,4 +1,3 @@", "1 a|1 a", "2*b|2*B", "3*c|-", "4 d|3 d"])
    );
    let f = v.render();
    assert_eq!((f.title.as_str(), f.added.as_str(), f.removed.as_str()), ("a.txt", "+1", "-2"));
    assert!(matches!(v.open_file(), DiffViewEvent::OpenFile(p) if p == "/r/a.txt"));
}

#[test]
fn an_unchanged_file_is_drawn_whole() {
    let v = view(vec![same(1, 1, "a"), same(2, 2, "b")]);
    assert!(v.hunks.is_empty());
    assert_eq!(drawn(&v), owned(&["1 a|1 a", "2 b|2 b"]));
    assert!(v.revert_hunk(0).is_none());
    assert!(drawn(&view(Vec::new())).is_empty());
}

#[test]
fn distant_changes_are_separate_hunks() {
    let mut rows: Vec<DiffRow> = Vec::new();
    for i in 1..=20 {
        if i == 4 || i == 16 {
            rows.push(new(i, "+"));
        } else {
            rows.push(same(i, i, "="));
        }
    }
    assert_eq!(view(rows).hunks, vec![(0, 6), (12, 18)]);
    let mut near: Vec<DiffRow> = Vec::new();
    for i in 1..=20 {
        if i == 4 || i == 11 {
            near.push(new(i, "+"));
        } else {
            near.push(same(i, i, "="));
        }
    }
    assert_eq!(view(near).hunks, vec![(0, 13)]);
}

#[test]
fn reverting_a_hunk_puts_the_old_lines_back() {
    let v = view(vec![same(1, 1, "a"), gone(2, "b"), new(2, "B"), new(3, "C"), same(3, 4, "d")]);
    match v.revert_hunk(0).unwrap() {
        DiffViewEvent::RevertHunk { path, new_start, new_count, old_content } => {
            assert_eq!((path.as_str(), new_start, new_count), ("/r/a.txt", 1, 4));
            assert_eq!(old_content, owned(&["a", "b", "d"]));
            assert_eq!(reverted_content("a\nB\nC\nd\n", new_start, new_count, &old_content), "a\nb\nd\n");
            assert_eq!(reverted_content("a\nB\nC\nd", new_start, new_count, &old_content), "a\nb\nd");
        }
        _ => panic!("no revert"),
    }
    assert!(v.revert_hunk(1).is_none());
    assert!(view(vec![gone(1, "x")]).revert_hunk(0).is_none());
    assert_eq!(reverted_content("x\ny\n", 9, 2, &owned(&["z"])), "x\ny\nz\n");
    assert_eq!(reverted_content("x\ny", 9, 2, &owned(&["z"])), "x\ny\nz");
}

#[test]
fn reverting_keeps_the_line_ends_around_a_hunk() {
    assert_eq!(reverted_content("a\r\nb\n", 2, 1, &owned(&["c"])), "a\r\nc\n");
    assert_eq!(reverted_content("a\r\nb\r\nc\r\n", 2, 1, &Vec::new()), "a\r\nc\r\n");
    assert_eq!(reverted_content("a\nb\r\nc", 1, 1, &owned(&["x", "y"])), "x\ny\nb\r\nc");
    assert_eq!(reverted_content("a\r\nb\r\n", 1, 2, &owned(&["a\r", "b\r"])), "a\r\nb\r\n");
    assert_eq!(reverted_content("a\nb", 2, 1, &Vec::new()), "a\n");
    assert_eq!(reverted_content("a\n", 1, 1, &Vec::new()), "");
    assert_eq!(reverted_content("", 1, 0, &owned(&["z"])), "z");
    assert_eq!(reverted_content("a\n\nb\n", 2, 0, &owned(&["z"])), "a\nz\n\nb\n");
}

#[test]
fn every_change_is_shown_once() {
    let mut rows: Vec<DiffRow> = Vec::new();
    for i in 1..=30 {
        match i {
            4 => rows.push(gone(i, "4")),
            5 | 25 => rows.push(new(i, &i.to_string())),
            _ => rows.push(same(i, i, "=")),
        }
    }
    let frame = view(rows).render();
    let (mut heads, mut changes) = (Vec::new(), Vec::new());
    for line in &frame.lines {
        match line {
            DiffLine::Hunk { index, .. } => heads.push(*index),
            DiffLine::Pair { left, right } => {
                for cell in [left, right] {
                    if let DiffCell::Line { tinted: true, text, .. } = cell {
                        changes.push(text.clone());
                    }
                }
            }
        }
    }
    assert_eq!(heads, vec![0, 1]);
    assert_eq!(changes, owned(&["4", "5", "25"]));
}

#[test]
fn previews_cut_lines_out_of_the_text() {
    let d = PreviewDoc::new("/a".to_string(), "one\r\ntwo\n字\n".to_string(), 99);
    assert_eq!(d.line_count(), 4);
    assert_eq!(d.match_line, 3);
    let all: Vec<String> = (0..4).map(|i| d.line(i)).collect();
    assert_eq!(all, owned(&["one", "two", "字", ""]));
    assert_eq!(line_text("a\n\r\nb", &[0, 2, 4], 1), "");
    assert_eq!(line_text("a\n\r\nb", &[0, 2, 4], 2), "b");
    let r = d.row(3);
    assert_eq!((r.number.as_str(), r.text.as_str(), r.hit), ("4", "", true));
    assert!(!d.row(0).hit);
    let mut e = PreviewDoc::new("/b".to_string(), String::new(), 5);
    assert_eq!((e.line_count(), e.match_line), (1, 0));
    e.aim(7);
    assert_eq!(e.match_line, 0);
}

#[test]
fn late_previews_are_dropped() {
    let mut p = PreviewPane::new();
    let first = p.show("/a", 1);
    assert!(matches!(&first, PreviewStep::Read { seq: 1, path, line: 1 } if path == "/a"));
    assert!(matches!(p.show("/b", 2), PreviewStep::Read { seq: 2, .. }));
    assert!(!p.arrive(1, "/a".to_string(), 1, some("x")));
    assert!(p.doc.is_none());
    assert!(p.arrive(2, "/b".to_string(), 2, some("x\ny\nz")));
    assert_eq!(p.doc.as_ref().unwrap().match_line, 2);
    assert!(matches!(p.show("/b", 1), PreviewStep::Scroll(1)));
    assert!(matches!(p.show("/c", 0), PreviewStep::Read { seq: 4, .. }));
    assert!(p.arrive(4, "/c".to_string(), 0, None));
    assert!(p.doc.is_none());
    assert!(matches!(p.clear(), PreviewStep::Cleared));
}

#[test]
fn only_the_last_selection_is_previewed() {
    let mut p = PreviewPane::new();
    assert!(matches!(p.show("/a", 0), PreviewStep::Read { seq: 1, .. }));
    assert!(p.arrive(1, "/a".to_string(), 0, some("1\n2\n3")));
    assert!(matches!(p.show("/b", 0), PreviewStep::Read { seq: 2, .. }));
    assert!(matches!(p.show("/a", 2), PreviewStep::Scroll(2)));
    assert!(!p.arrive(2, "/b".to_string(), 0, some("late")));
    assert_eq!((p.doc.as_ref().unwrap().path.as_str(), p.doc.as_ref().unwrap().match_line), ("/a", 2));
    assert!(matches!(p.show("/b", 0), PreviewStep::Read { seq: 4, .. }));
    assert!(matches!(p.clear(), PreviewStep::Cleared));
    assert!(!p.arrive(4, "/b".to_string(), 0, some("late")));
    assert!(p.doc.is_none());
}

#[test]
fn the_finder_ranks_by_score() {
    let files = owned(&["/p/src/main.rs", "/p/README.md", "/p/src/manifest.rs", "/p/docs/remain.txt"]);
    let mut q = QuickOpen::new("/p", files);
    assert_eq!(q.rels, owned(&["src/main.rs", "README.md", "src/manifest.rs", "docs/remain.txt"]));
    assert_eq!(q.matches, vec![1, 0, 2, 3]);
    q.refilter("main");
    assert_eq!(q.matches[0], 0);
    assert!(q.matches.contains(&3) && !q.matches.contains(&1));
    q.refilter("zzz");
    assert!(q.matches.is_empty());
    assert!(q.confirm().is_none());
    q.move_selection(1);
    assert_eq!(q.selected, 0);
    q.refilter("readme");
    assert_eq!(q.matches, vec![1]);
    assert!(matches!(q.confirm(), Some(QuickOpenEvent::Open(p)) if p == "/p/README.md"));
    q.refilter("Readme");
    assert!(q.matches.is_empty());
}

#[test]
fn the_finder_tells_which_queries_it_takes() {
    let mut q = QuickOpen::new("/p", owned(&["/p/\u{b5}-\u{3bc}-\u{fc}-文.txt", "/p/b"]));
    assert!(!q.can_score("\u{3bc}\u{fc}"));
    assert!(!q.can_score("b \u{3bc}\u{fc}"));
    assert!(q.can_score("b"));
    assert!(q.can_score(" "));
    for (query, found) in [
        ("文", true),
        ("\u{3bc}", true),
        ("\u{3bc}文", true),
        ("\u{3bc} \u{fc}", true),
        ("-\u{fc}", true),
        ("\u{fc}\u{3bc}", false),
        ("-\u{3bc}\u{fc}", true),
        ("\u{3b1}\u{fc}", false),
    ] {
        assert!(q.can_score(query));
        q.refilter(query);
        assert_eq!(q.matches.contains(&0), found, "{query}");
    }
    let long_s = QuickOpen::new("/p", owned(&["/p/\u{17f}-s\u{fc}"]));
    assert!(!long_s.can_score("s\u{fc}"));
    assert!(!long_s.can_score("s\\ \u{fc}"));
    assert!(long_s.can_score("s \u{fc}"));
    assert!(long_s.can_score("s"));
    let mut plain = QuickOpen::new("/p", owned(&["/p/文件.txt", "/p/b"]));
    assert!(plain.can_score("文"));
    assert!(plain.can_score(&"x".repeat(65536)));
    assert!(!plain.can_score(&"x".repeat(65537)));
    plain.refilter("文");
    assert_eq!(plain.matches, vec![0]);
    plain.refilter(&"b".repeat(3000));
    assert!(plain.matches.is_empty());
}

#[test]
fn the_finder_waits_for_the_last_key() {
    let mut q = QuickOpen::new("/p", owned(&["/p/a", "/p/b/c"]));
    let first = q.schedule_refilter();
    let second = q.schedule_refilter();
    assert!(!q.fire_refilter(first, "c"));
    assert_eq!(q.matches, vec![0, 1]);
    assert!(q.fire_refilter(second, "c"));
    assert_eq!(q.matches, vec![1]);
    let rows = q.render();
    assert_eq!((rows[0].name.as_str(), rows[0].dir.clone(), rows[0].selected), ("c", some("b"), true));
    q.refilter(" ");
    q.move_selection(-1);
    assert_eq!(q.selected, 1);
    assert!(matches!(q.select_and_open(0), Some(QuickOpenEvent::Open(p)) if p == "/p/a"));
    assert_eq!(q.render()[0].dir, None);
}

#[test]
fn ranking_keeps_the_best_sixty() {
    let scores: Vec<Option<u32>> = (0..100).map(|i| if i % 2 == 0 { Some(i) } else { None }).collect();
    assert_eq!(rank_scores(&scores).len(), 50);
    let all: Vec<Option<u32>> = (0..100).map(Some).collect();
    let top = rank_scores(&all);
    assert_eq!((top.len(), top[0], top[59]), (60, 99, 40));
    assert_eq!(rank_scores(&vec![Some(1), Some(5), Some(5), None]), vec![1, 2, 0]);
    assert_eq!(rank_lengths(&owned(&["ccc", "a", "bb", "d"])), vec![1, 3, 2, 0]);
    assert_eq!(rank_lengths(&owned(&["字", "ab"])), vec![1, 0]);
    assert_eq!(rel_of("/p", "/p//a"), "a");
    assert_eq!(rel_of("/p", "/q/a"), "/q/a");
}

fn hit(path: &str, line: u32) -> SearchResult {
    SearchResult { path: path.to_string(), line, column: 3, text: "code".to_string() }
}

#[test]
fn late_search_results_are_dropped() {
    let mut p = SearchPanel::new("/p".to_string());
    let first = p.start_search("x").unwrap();
    assert_eq!((first.root.as_str(), first.query.as_str(), first.case_sensitive, first.limit), ("/p", "x", false, 500));
    assert_eq!(p.summary(), "搜索中…");
    let second = p.start_search("xy").unwrap();
    assert!(p.finish_search(first.seq, Ok(vec![hit("/p/a", 1)])).is_none());
    assert!(p.results.is_empty());
    let step = p.finish_search(second.seq, Ok(vec![hit("/p/b", 4), hit("/p/c", 0)])).unwrap();
    assert!(matches!(step, PreviewStep::Read { seq: 1, path, line: 4 } if path == "/p/b"));
    assert_eq!(p.summary(), "2 个结果");
    assert_eq!(p.rows()[0].place, "b 5");
    assert!(p.move_selection(-1).is_some());
    assert_eq!(p.selected, 1);
    assert!(matches!(p.confirm(), Some(SearchEvent::Open { path, line: 0, column: 3 }) if path == "/p/c"));
    assert!(p.start_search("  ").is_none());
    assert!(p.results.is_empty() && !p.searching);
    assert!(p.move_selection(1).is_none());
    let q = p.start_search("z").unwrap();
    assert!(matches!(p.finish_search(q.seq, Err("no".to_string())), Some(PreviewStep::Cleared)));
}

#[test]
fn searches_list_a_hundred_hits() {
    let mut p = SearchPanel::new("/p".to_string());
    let q = p.start_search("x").unwrap();
    p.finish_search(q.seq, Ok((0..120).map(|i| hit("/p/a", i)).collect()));
    assert_eq!(p.rows().len(), 100);
    assert_eq!(p.summary(), "120 个结果(显示前 100)");
    p.move_selection(-1);
    assert_eq!(p.selected, 99);
    p.move_selection(-733);
    p.move_selection(733);
    assert_eq!(p.selected, 99);
}

#[test]
fn an_earlier_search_changes_nothing_after_the_later_one() {
    let mut p = SearchPanel::new("/p".to_string());
    let first = p.start_search("x").unwrap();
    let second = p.start_search("y").unwrap();
    assert!(p.finish_search(second.seq, Ok(vec![hit("/p/b", 4)])).is_some());
    assert!(p.finish_search(first.seq, Ok(vec![hit("/p/a", 1), hit("/p/c", 1)])).is_none());
    assert_eq!((p.results.len(), p.results[0].path.as_str()), (1, "/p/b"));
}

fn usage(uri: &str, path: &str, text: &str) -> LspUsage {
    LspUsage {
        uri: uri.to_string(),
        path: path.to_string(),
        label: usage_name(uri),
        line: 4,
        character: 2,
        text: text.to_string(),
    }
}

#[test]
fn uses_are_listed_with_their_places() {
    assert_eq!(usage_name("jdt://contents/a.jar/x.y/C.class?=p/%3Cq/C.class"), "C.class");
    let (mut v, step) = UsagesView::new(
        "A.java".to_string(),
        vec![usage("file:///p/A.java", "/p/A.java", "   foo();"), usage("jdt://c/L.class?x", "", "  ")],
        None,
    );
    assert!(matches!(step, PreviewStep::Read { seq: 1, line: 4, .. }));
    let rows = v.rows();
    assert_eq!((rows[0].code.as_str(), rows[0].place.as_str(), rows[0].selected), ("foo();", "A.java 5", true));
    assert_eq!((rows[1].code.as_str(), rows[1].place.as_str()), ("L.class", "L.class 5"));
    assert!(matches!(v.move_selection(1), Some(PreviewStep::Cleared)));
    assert!(matches!(v.confirm(), Some(UsagesEvent::Open { uri, line: 4, character: 2 }) if uri.starts_with("jdt://")));
    assert!(v.select_and_open(0).is_some());
    let (mut e, step) = UsagesView::new("A".to_string(), Vec::new(), None);
    assert!(matches!(step, PreviewStep::Cleared));
    assert!(e.confirm().is_none() && e.move_selection(1).is_none());
}

#[test]
fn the_use_at_the_cursor_is_selected() {
    let at = |path: &str, line: u32, character: u32| LspUsage {
        line,
        character,
        ..usage(&format!("file://{}", path), path, "x")
    };
    let uses = || vec![at("/p/B.java", 7, 4), at("/p/A.java", 7, 0), at("/p/A.java", 7, 9), at("/p/A.java", 8, 1)];
    let chosen = |o: Option<(String, u32, u32)>| UsagesView::new("A".to_string(), uses(), o).0.selected;
    assert_eq!(chosen(None), 0);
    assert_eq!(chosen(Some(("/p/A.java".to_string(), 7, 11))), 2);
    assert_eq!(chosen(Some(("/p/A.java".to_string(), 7, 8))), 1);
    assert_eq!(chosen(Some(("/p/A.java".to_string(), 8, 0))), 0);
    assert_eq!(chosen(Some(("/p/C.java".to_string(), 7, 4))), 0);
}

#[test]
fn recent_projects_are_chosen() {
    let mut v = RecentsView::new(owned(&["/a/one", "/b/two"]));
    v.move_selection(-1);
    assert!(matches!(v.confirm(), Some(RecentsEvent::Open(p)) if p == "/b/two"));
    assert_eq!(v.rows()[1].name, "two");
    assert!(matches!(v.select_and_open(0), Some(RecentsEvent::Open(p)) if p == "/a/one"));
    assert!(RecentsView::new(Vec::new()).confirm().is_none());
}

fn chunk(a: &str, b: &str) -> ConflictChunk {
    ConflictChunk { ours_text: a.to_string(), theirs_text: b.to_string() }
}

#[test]
fn conflicts_are_resolved_block_by_block() {
    let (mut v, q) = MergeView::new("/r".to_string(), "a.txt".to_string());
    assert!(matches!(q, MergeRequest::Parse(p) if p.ends_with("a.txt")));
    assert!(v.frame().parsing);
    v.parsed(Ok(vec![chunk("a\r\nb", "c"), chunk("", "d")]));
    assert!(!v.frame().can_apply);
    assert!(v.apply().is_none());
    v.choose_side(0, MergeSide::Theirs);
    assert!(!v.frame().can_apply);
    v.choose_side(1, MergeSide::Ours);
    assert!(v.frame().can_apply);
    assert!(v.pane(0, MergeSide::Theirs).selected && v.pane(0, MergeSide::Ours).rejected);
    assert_eq!(v.pane(0, MergeSide::Ours).lines, owned(&["a", "b"]));
    assert!(v.pane(1, MergeSide::Ours).empty);
    assert_eq!(v.block_title(1), "冲突 #2");
    assert_eq!(v.frame().progress, "2/2 块已选边");
    match v.apply().unwrap() {
        MergeRequest::Resolve { cwd, rel_path, choices } => {
            assert_eq!((cwd.as_str(), rel_path.as_str(), choices.len()), ("/r", "a.txt", 2));
            assert!(matches!(choices[0], MergeSide::Theirs) && matches!(choices[1], MergeSide::Ours));
        }
        _ => panic!("no resolution"),
    }
    assert!(v.apply().is_none());
    assert!(v.written(Err("disk".to_string())).is_none());
    assert!(v.apply().is_some());
    assert!(v.written(Ok(())).is_some());
}

#[test]
fn choosing_all_blocks_completes_a_merge() {
    let (mut v, _) = MergeView::new("/r".to_string(), "a.txt".to_string());
    v.parsed(Ok(vec![chunk("a", "b"), chunk("c", "d"), chunk("e", "f")]));
    v.choose_all(MergeSide::Ours);
    assert!(v.frame().can_apply);
    assert!(v.take_whole(MergeSide::Theirs).is_some());
}

fn loc(p: &str, line: u32) -> NavLoc {
    NavLoc { path: p.to_string(), line }
}

#[test]
fn histories_forget_what_lay_ahead() {
    let mut n = NavState::new();
    n.nav_record_jump(Some(loc("/a", 1)), loc("/b", 2));
    n.nav_record_jump(Some(loc("/b", 2)), loc("/c", 3));
    assert_eq!((n.history.len(), n.index), (3, 2));
    assert_eq!(n.back().unwrap().path, "/b");
    assert_eq!(n.forward().unwrap().path, "/c");
    n.back();
    n.back();
    n.nav_record_jump(Some(loc("/a", 1)), loc("/d", 4));
    assert_eq!((n.history.len(), n.index), (2, 1));
    assert!(n.forward().is_none());
    n.restoring = true;
    n.nav_record_jump(None, loc("/e", 5));
    assert_eq!(n.history.len(), 2);
}

#[test]
fn histories_are_archived_by_project() {
    let mut a = NavArchive::new();
    let mut n = NavState::new();
    n.nav_push(loc("/x/a", 1));
    let m = a.switch(n, "/x", "/y");
    assert_eq!(m.index, -1);
    let back = a.switch(m, "/y/", "/x/");
    assert_eq!((back.history.len(), back.index), (1, 0));
}

#[test]
fn maps_of_paths_ignore_how_a_path_is_written() {
    let mut m: PathMap<u32> = PathMap::new();
    m.insert("/a/b".to_string(), 1);
    m.insert("/a//b/".to_string(), 2);
    assert_eq!(m.get("/a/./b"), Some(&2));
    assert_eq!(m.remove("/a/b/"), Some(2));
    assert_eq!(m.get("/a/b"), None);
}

fn node(name: &str, path: &str, children: Option<Vec<FileNode>>) -> FileNode {
    FileNode { name: name.to_string(), path: path.to_string(), children }
}

#[test]
fn chains_of_directories_are_one_entry() {
    let t = node("com", "/p/com", Some(vec![node("x", "/p/com/x", Some(vec![node("A", "/p/com/x/A", None), node("d", "/p/com/x/d", Some(Vec::new()))]))]));
    let item = file_node_to_tree_item(&t, &StringSet::new());
    assert_eq!((item.id.as_str(), item.label.as_str(), item.expanded, item.children.len()), ("/p/com/x", "com/x", false, 2));
    let single = node("p", "/p", None);
    assert_eq!(tree_items_from_node(&single, &StringSet::new()).len(), 1);
    let mut s = StringSet::new();
    reveal_ancestors(&mut s, "/p//a/b/c", "/p");
    assert_eq!(s.items, owned(&["/p//a/b", "/p//a"]));
    reveal_ancestors(&mut s, "/q/x", "/p");
    assert_eq!(s.items.len(), 2);
}

const MS: u64 = 1_000_000;

#[test]
fn stalls_are_counted_and_logged() {
    let mut s = Sentinel::new(0, true);
    let b = s.beat(110 * MS, true, None, None, 7, 9);
    assert!(b.clear_badge && b.stall.is_none() && b.line.is_none());
    let own = Op { label: "打开 \"x\"".to_string(), started: 150 * MS };
    let term = Op { label: "t".to_string(), started: 140 * MS };
    let b = s.beat(250 * MS, true, Some(own), Some(term), 1700, 12);
    assert_eq!(b.stall, Some(40));
    assert_eq!(
        b.line.unwrap(),
        "{\"ts_ms\":1700,\"drift_ms\":40,\"op\":\"打开 \\\"x\\\"\",\"op_age_ms\":100,\"render_us\":12,\"count\":1}\n"
    );
    let b = s.beat(450 * MS, true, None, None, 1900, 0);
    assert_eq!((b.stall, b.line.is_none(), s.stall_count), (Some(100), true, 2));
    let b = s.beat(900 * MS, true, None, None, 2400, 0);
    assert_eq!(b.line.unwrap(), "{\"ts_ms\":2400,\"drift_ms\":350,\"op\":\"?\",\"op_age_ms\":-1,\"render_us\":0,\"count\":3}\n");
}

#[test]
fn time_in_the_background_is_no_stall() {
    let mut s = Sentinel::new(0, true);
    assert!(s.beat(5000 * MS, false, None, None, 0, 0).stall.is_none());
    assert!(s.beat(9000 * MS, true, None, None, 0, 0).stall.is_none());
    assert_eq!(s.beat(9133 * MS, true, None, None, 0, 0).stall, Some(33));
    assert!(s.beat(9265 * MS, true, None, None, 0, 0).stall.is_none());
}

fn ctx(file: &str, jdt: Option<JdtSource>) -> GotoContext {
    GotoContext {
        file: file.to_string(),
        title: "A.java".to_string(),
        line: 5,
        character: 1,
        project_root: "/p".to_string(),
        jdt,
    }
}

fn at(uri: &str, path: &str, line: u32) -> Result<Option<Location>, String> {
    Ok(Some(Location { uri: uri.to_string(), path: path.to_string(), line, character: 2 }))
}

fn lib(uri: &str) -> Option<JdtSource> {
    Some(JdtSource { uri: uri.to_string(), project: "/p".to_string() })
}

#[test]
fn definitions_are_asked_for_where_they_can_be_known() {
    assert!(matches!(ctx("/p/A.java", None).first_query(), GotoQuery::InProject));
    assert!(matches!(ctx("/t/L.java", lib("jdt://l?x")).first_query(), GotoQuery::ViaJdt(s) if s.uri == "jdt://l?x"));
    assert!(matches!(ctx("/t/L.java", None).first_query(), GotoQuery::WorkspaceSymbol));
}

#[test]
fn definitions_lead_on() {
    let c = ctx("/p/A.java", None);
    assert!(matches!(c.after_definition(&at("file:///p/A.java", "/p/A.java", 5)), GotoStep::References(GotoQuery::InProject)));
    match c.after_definition(&at("file:///p/B.java", "/p/B.java", 5)) {
        GotoStep::Done(Goto::File { path, line, character, jdt }) => {
            assert_eq!((path.as_str(), line, character, jdt.is_none()), ("/p/B.java", 5, 2, true))
        }
        _ => panic!("no file"),
    }
    assert!(matches!(c.after_definition(&at("jdt://contents/x", "", 9)), GotoStep::FetchSource { uri, ctx } if uri == "jdt://contents/x" && ctx == "/p/A.java"));
    assert!(matches!(c.after_definition(&at("http://x", "", 9)), GotoStep::Done(Goto::NotFound)));
    assert!(matches!(c.after_definition(&Ok(None)), GotoStep::TextFallback));
    assert!(matches!(c.after_definition(&Err("no".to_string())), GotoStep::TextFallback));
    let l = ctx("/t/L.java", lib("jdt://contents/l?a"));
    assert!(matches!(l.after_definition(&at("jdt://contents/l?b", "", 5)), GotoStep::References(GotoQuery::ViaJdt(_))));
    assert!(matches!(l.after_definition(&at("jdt://contents/m?b", "", 5)), GotoStep::FetchSource { uri: _, ctx } if ctx == "/p"));
    let uses = vec![usage("file:///p/A.java", "/p/A.java", "a"), usage("file:///p/B.java", "/p/B.java", "b")];
    assert!(matches!(c.after_references(Some(uses)), Goto::Usages(u) if u[0].text == "a" && u[1].text == "b"));
    assert!(matches!(c.after_references(Some(Vec::new())), Goto::NotFound));
    assert!(matches!(c.after_references(None), Goto::NotFound));
}

#[test]
fn sources_of_library_classes_get_a_file() {
    let uri = "jdt://contents/a.jar/com.x.y/Foo.class?=p/q";
    assert_eq!(jdt_temp_path(uri, "/tmp"), some("/tmp/nib-jdt-sources/com/x/y/Foo.class"));
    assert_eq!(jdt_temp_path("jdt://contents//Foo.class", "/tmp"), some("/tmp/nib-jdt-sources/Foo.class"));
    assert_eq!(jdt_temp_path("jdt://contents/?x", "/tmp"), None);
    assert_eq!(jdt_temp_path("file:///x", "/tmp"), None);
    let c = ctx("/p/A.java", None);
    assert!(matches!(c.after_source(uri, &Ok(()), "/tmp"), GotoStep::WriteSource { path } if path.ends_with("/Foo.class")));
    assert!(matches!(c.after_source("jdt://other", &Ok(()), "/tmp"), GotoStep::Done(Goto::Status(s)) if s == "无法解析库类 URI: jdt://other"));
    assert!(matches!(c.after_source(uri, &Err("x".to_string()), "/tmp"), GotoStep::Done(Goto::Status(s)) if s == "取库源码失败: x"));
    let u = Location { uri: uri.to_string(), path: String::new(), line: 8, character: 3 };
    match c.after_write(&u, "/tmp/f".to_string(), "/p".to_string(), Ok(())) {
        Goto::File { path, line, character, jdt } => {
            let j = jdt.unwrap();
            assert_eq!((path.as_str(), line, character, j.uri.as_str(), j.project.as_str()), ("/tmp/f", 8, 3, uri, "/p"))
        }
        _ => panic!("no file"),
    }
    assert!(matches!(c.after_write(&u, "/tmp/f".to_string(), "/p".to_string(), Err("full".to_string())), Goto::Status(s) if s == "写库源码临时文件失败: full"));
    assert!(matches!(c.after_fallback(None), Goto::NotFound));
    assert!(matches!(c.after_fallback(Some(u)), Goto::File { line: 8, jdt: None, .. }));
}

#[test]
fn files_are_kept_below_the_user_directories() {
    let d = data_dirs_in(some("/home/u/.local/share"), some("/home/u/.cache"));
    assert_eq!(d.app_data, "/home/u/.local/share/nib");
    assert_eq!(d.cache, "/home/u/.cache/nib");
    assert_eq!(d.astore_session, "/home/u/.local/share/nib/astore-session.json");
    assert_eq!(data_dirs_in(None, None).app_data, "./nib");
    assert_eq!(legacy_dir_in(some("/d")), "/d/com.lite-editor.app");
    assert!(data_dirs().app_data.ends_with("/nib"));
    assert!(data_dirs().cache.ends_with("/nib"));
    assert!(legacy_app_data().ends_with("/com.lite-editor.app"));
    if let Some(local) = dirs::data_local_dir() {
        assert_eq!(data_dirs().app_data, local.join("nib").to_string_lossy());
    }
    if let Some(cache) = dirs::cache_dir() {
        assert_eq!(data_dirs().cache, cache.join("nib").to_string_lossy());
    }
}

#[test]
fn sessions_are_loaded_or_taken_over() {
    assert!(matches!(load_local(Err("x".to_string())), LoadStep::GiveUp));
    assert!(matches!(load_local(Ok(some("{}"))), LoadStep::Parse(s) if s == "{}"));
    assert!(matches!(load_local(Ok(None)), LoadStep::ReadLegacy));
    let p = import_legacy(None, some("s"));
    assert_eq!((p.session, p.settings), (None, some("s")));
}

#[test]
fn settings_have_defaults() {
    assert_eq!(f32::from_bits(default_font_size()), 13.0);
    assert_eq!((default_tab_size(), default_true()), (4, true));
    let d = settings_or_default(None);
    assert!(!d.word_wrap && d.folding && d.maven_home.is_empty());
    let mut s = EditorSettings::default();
    s.tab_size = 8;
    assert_eq!(settings_or_default(Some(s)).tab_size, 8);
}
