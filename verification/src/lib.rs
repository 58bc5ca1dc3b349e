//! Editor workbench logic.
pub mod arthas_panel;
pub mod astore_panel;
pub mod commands;
pub mod diagnostics;
pub mod diff_view;
pub mod editing;
pub mod explorer;
pub mod file_icons;
pub mod file_ops;
pub mod following;
pub mod frame;
pub mod git_marks;
pub mod git_panel;
pub mod goto;
pub mod lang;
pub mod maven_panel;
pub mod merge_view;
pub mod nav;
pub mod order;
pub mod path;
pub mod path_map;
pub mod preview;
pub mod projects;
pub mod quick_open;
pub mod recents_view;
pub mod search_panel;
pub mod select;
pub mod session;
pub mod settings_view;
pub mod stall;
pub mod string_set;
pub mod tabs;
pub mod terminal_panel;
pub mod text;
pub mod tree;
pub mod usages_view;
pub mod utf16;
pub mod welcome;
pub mod workbench;
