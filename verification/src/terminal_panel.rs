//! Terminal sessions: their tabs, colours, keys and input method.
use vstd::prelude::*;
use vstd::string::*;
use vstd::utf8::*;

use crate::path;
use crate::text;
use crate::utf16;

verus! {

/// Background, foreground and cursor colours, as `0xrrggbb`.
pub const TERM_BG: u32 = 0x0d1017;

pub const TERM_FG: u32 = 0xc9d3e0;

pub const TERM_CURSOR: u32 = 0x3b82f6;

/// Size of a new session.
pub const START_COLS: u16 = 80;

pub const START_ROWS: u16 = 12;

/// The smallest and the largest size of a session.
pub const MIN_CELLS: u16 = 2;

pub const MAX_COLS: u16 = 500;

pub const MAX_ROWS: u16 = 100;

/// The nearest number to `n` from `MIN_CELLS` to `most`.
pub open spec fn within(n: int, most: int) -> int {
    if n < MIN_CELLS {
        MIN_CELLS as int
    } else if n > most {
        most
    } else {
        n
    }
}

/// The size of a session on a screen with room for `cols` by `rows` cells.
pub fn fit_grid(cols: u16, rows: u16) -> (grid: (u16, u16))
    ensures
        grid.0 == within(cols as int, MAX_COLS as int),
        grid.1 == within(rows as int, MAX_ROWS as int),
{
    let c = if cols < MIN_CELLS {
        MIN_CELLS
    } else if cols > MAX_COLS {
        MAX_COLS
    } else {
        cols
    };
    let r = if rows < MIN_CELLS {
        MIN_CELLS
    } else if rows > MAX_ROWS {
        MAX_ROWS
    } else {
        rows
    };
    (c, r)
}

/// Two reports of a finished turn within this many nanoseconds are one.
pub const SAME_TURN_NS: u64 = 5_000_000_000;

/// A colour as a terminal names it.
#[derive(Clone, Copy, Debug, PartialEq, Eq, Structural)]
pub enum TermColor {
    Default,
    Palette(u8),
    Indexed(u8),
    Rgb(u8, u8, u8),
}

/// A stretch of a terminal row in one style.
pub struct TermRun {
    pub text: String,
    pub fg: TermColor,
    pub bg: TermColor,
    pub bold: bool,
    pub inverse: bool,
}

/// What a session shows.
pub struct TermSnapshot {
    pub rows: Vec<Vec<TermRun>>,
    pub cursor: Option<(usize, usize)>,
    pub display_offset: usize,
    /// First row and column and last row and end column of the selection.
    pub selection: Option<(usize, usize, usize, usize)>,
}

/// A terminal session.
pub struct TermTab {
    pub id: u64,
    pub name: String,
    pub project_root: String,
    pub snap: TermSnapshot,
    pub exited: bool,
    pub grid: (u16, u16),
}

/// A session to start.
pub struct SpawnRequest {
    pub cwd: String,
    pub cols: u16,
    pub rows: u16,
}

/// Modifier keys.
#[derive(Clone, Copy, Debug, PartialEq, Eq, Structural)]
pub struct Modifiers {
    pub control: bool,
    pub alt: bool,
    pub shift: bool,
    pub platform: bool,
    pub function: bool,
}

/// A pressed key and the text that it types.
pub struct Keystroke {
    pub modifiers: Modifiers,
    pub key: String,
    pub key_char: Option<String>,
}

/// What a key does in the terminal.
pub enum KeyAction {
    /// Nothing here; the application may use it.
    Bubble,
    Copy(String),
    /// Paste the clipboard, where it holds a text.
    Paste(Option<String>),
    Write(Vec<u8>),
}

/// What is left to do when a session is closed.
pub struct Closed {
    /// The session to end.
    pub shutdown: Option<u64>,
    /// The session to start.
    pub spawn: Option<SpawnRequest>,
}

/// A tab of the panel.
pub struct TermTabRow {
    /// Position among the sessions.
    pub index: usize,
    pub name: String,
    pub selected: bool,
    pub exited: bool,
}

/// One row of the selection: where it starts and how many cells it covers.
pub struct SelectionSpan {
    pub row: usize,
    pub start: usize,
    pub width: usize,
}

/// The terminal panel.
pub struct TerminalPanel {
    pub project_root: String,
    pub tabs: Vec<TermTab>,
    pub active: usize,
    pub next_id: u64,
    pub status: String,
    /// The last work for a session, and when.
    pub last_op: Option<(String, u64)>,
    /// Text that the input method is still composing.
    pub ime_marked: String,
    /// Whether a turn was finished that nobody has looked at.
    pub cc_done: bool,
    pub cc_done_at: Option<u64>,
    /// Whether a selection is being dragged.
    pub selecting: bool,
}

/// The sixteen basic colours.
pub open spec fn palette_of(ix: int) -> u32 {
    if ix == 0 {
        0x1b2230
    } else if ix == 1 || ix == 9 {
        0xff7b72
    } else if ix == 2 || ix == 10 {
        0x3fb950
    } else if ix == 3 || ix == 11 {
        0xd29922
    } else if ix == 4 || ix == 12 {
        0x79c0ff
    } else if ix == 5 || ix == 13 {
        0xc699ff
    } else if ix == 6 || ix == 14 {
        0x39c5cf
    } else if ix == 7 {
        0xd4dde8
    } else if ix == 8 {
        0x4d5870
    } else {
        0xffffff
    }
}

/// A colour from its three parts.
pub open spec fn rgb_of(r: int, g: int, b: int) -> int {
    r * 0x10000 + g * 0x100 + b
}

/// The strength of step `n` of the colour cube.
pub open spec fn cube_step(n: int) -> int {
    if n == 0 {
        0
    } else {
        55 + n * 40
    }
}

/// Colour `ix` of the 256: the basic ones, a cube of six steps a side, and 24 greys.
pub open spec fn indexed_of(ix: int) -> int {
    if ix < 16 {
        palette_of(ix) as int
    } else if ix >= 232 {
        let v = 8 + (ix - 232) * 10;
        rgb_of(v, v, v)
    } else {
        let k = ix - 16;
        rgb_of(cube_step(k / 36), cube_step((k / 6) % 6), cube_step(k % 6))
    }
}

fn palette(ix: u8) -> (c: u32)
    ensures
        c == palette_of(ix as int),
{
    match ix {
        0 => 0x1b2230,
        1 | 9 => 0xff7b72,
        2 | 10 => 0x3fb950,
        3 | 11 => 0xd29922,
        4 | 12 => 0x79c0ff,
        5 | 13 => 0xc699ff,
        6 | 14 => 0x39c5cf,
        7 => 0xd4dde8,
        8 => 0x4d5870,
        _ => 0xffffff,
    }
}

fn step(n: u32) -> (r: u32)
    requires
        n < 6,
    ensures
        r == cube_step(n as int),
        r <= 255,
{
    if n == 0 {
        0
    } else {
        55 + n * 40
    }
}

/// Colour `ix` of the 256.
pub fn indexed_color(ix: u8) -> (c: u32)
    ensures
        c == indexed_of(ix as int),
{
    if ix < 16 {
        return palette(ix);
    }
    if ix >= 232 {
        let v: u32 = 8 + (ix as u32 - 232) * 10;
        return v * 0x10000 + v * 0x100 + v;
    }
    let k: u32 = ix as u32 - 16;
    let r = step(k / 36);
    let g = step((k / 6) % 6);
    let b = step(k % 6);
    r * 0x10000 + g * 0x100 + b
}

/// The colour in which text of colour `c` is drawn.
pub open spec fn fg_of(c: TermColor) -> int {
    match c {
        TermColor::Default => TERM_FG as int,
        TermColor::Palette(ix) => palette_of(
            if ix < 15 {
                ix as int
            } else {
                15
            },
        ) as int,
        TermColor::Indexed(ix) => indexed_of(ix as int),
        TermColor::Rgb(r, g, b) => rgb_of(r as int, g as int, b as int),
    }
}

/// The colour in which text of colour `c` is drawn.
pub fn resolve_fg(c: TermColor) -> (r: u32)
    ensures
        r == fg_of(c),
{
    match c {
        TermColor::Default => TERM_FG,
        TermColor::Palette(ix) => palette(
            if ix < 15 {
                ix
            } else {
                15
            },
        ),
        TermColor::Indexed(ix) => indexed_color(ix),
        TermColor::Rgb(r, g, b) => (r as u32) * 0x10000 + (g as u32) * 0x100 + b as u32,
    }
}

/// The colour of the cell behind the text; the default colour is not drawn.
pub fn resolve_bg(c: TermColor) -> (r: Option<u32>)
    ensures
        r is None <==> c == TermColor::Default,
        r matches Some(v) ==> v == fg_of(c),
{
    match c {
        TermColor::Default => None,
        other => Some(resolve_fg(other)),
    }
}

/// Text and cell colours of a run; an inverse run swaps them.
pub fn run_colors(run: &TermRun) -> (r: (u32, Option<u32>))
    ensures
        !run.inverse ==> r.0 == fg_of(run.fg) && (r.1 is None <==> run.bg == TermColor::Default)
            && (r.1 matches Some(v) ==> v == fg_of(run.bg)),
        run.inverse ==> r.1 is Some && r.1->0 == fg_of(run.fg) && r.0 == (if run.bg
            == TermColor::Default {
            TERM_BG as int
        } else {
            fg_of(run.bg)
        }),
{
    let fg = resolve_fg(run.fg);
    let bg = resolve_bg(run.bg);
    if run.inverse {
        (
            match bg {
                Some(b) => b,
                None => TERM_BG,
            },
            Some(fg),
        )
    } else {
        (fg, bg)
    }
}

/// Whether `c` is a letter from `a` to `z` in either case.
pub open spec fn is_letter(c: char) -> bool {
    ('a' <= c <= 'z') || ('A' <= c <= 'Z')
}

/// The byte of the control key with letter `c`.
pub open spec fn control_byte(c: char) -> u8 {
    if 'a' <= c <= 'z' {
        (c as u32 - 'a' as u32 + 1) as u8
    } else {
        (c as u32 - 'A' as u32 + 1) as u8
    }
}

/// The bytes of the keys that have a name.
pub open spec fn named_key(key: Seq<char>) -> Option<Seq<u8>> {
    if key == "enter"@ {
        Some(seq![0x0du8])
    } else if key == "backspace"@ {
        Some(seq![0x7fu8])
    } else if key == "delete"@ {
        Some(seq![0x1bu8, 0x5b, 0x33, 0x7e])
    } else if key == "tab"@ {
        Some(seq![0x09u8])
    } else if key == "escape"@ {
        Some(seq![0x1bu8])
    } else if key == "up"@ {
        Some(seq![0x1bu8, 0x5b, 0x41])
    } else if key == "down"@ {
        Some(seq![0x1bu8, 0x5b, 0x42])
    } else if key == "right"@ {
        Some(seq![0x1bu8, 0x5b, 0x43])
    } else if key == "left"@ {
        Some(seq![0x1bu8, 0x5b, 0x44])
    } else if key == "home"@ {
        Some(seq![0x1bu8, 0x5b, 0x48])
    } else if key == "end"@ {
        Some(seq![0x1bu8, 0x5b, 0x46])
    } else if key == "pageup"@ {
        Some(seq![0x1bu8, 0x5b, 0x35, 0x7e])
    } else if key == "pagedown"@ {
        Some(seq![0x1bu8, 0x5b, 0x36, 0x7e])
    } else {
        None
    }
}

/// The bytes that a key sends to the shell. Keys with the platform modifier belong to the
/// application.
pub open spec fn key_bytes(ks: Keystroke) -> Option<Seq<u8>> {
    if ks.modifiers.platform {
        None
    } else if named_key(ks.key@) is Some {
        named_key(ks.key@)
    } else if ks.modifiers.control {
        if ks.key@ == "space"@ {
            Some(seq![0u8])
        } else if ks.key@.len() == 1 && is_letter(ks.key@[0]) {
            Some(seq![control_byte(ks.key@[0])])
        } else {
            None
        }
    } else {
        match ks.key_char {
            Some(t) => Some(
                (if ks.modifiers.alt {
                    seq![0x1bu8]
                } else {
                    Seq::<u8>::empty()
                }) + encode_utf8(t@),
            ),
            None => None,
        }
    }
}

fn bytes4(a: u8, b: u8, c: u8, d: u8) -> (r: Vec<u8>)
    ensures
        r@ == seq![a, b, c, d],
{
    let mut v: Vec<u8> = Vec::new();
    v.push(a);
    v.push(b);
    v.push(c);
    v.push(d);
    assert(v@ =~= seq![a, b, c, d]);
    v
}

fn bytes3(a: u8, b: u8, c: u8) -> (r: Vec<u8>)
    ensures
        r@ == seq![a, b, c],
{
    let mut v: Vec<u8> = Vec::new();
    v.push(a);
    v.push(b);
    v.push(c);
    assert(v@ =~= seq![a, b, c]);
    v
}

fn byte1(a: u8) -> (r: Vec<u8>)
    ensures
        r@ == seq![a],
{
    let mut v: Vec<u8> = Vec::new();
    v.push(a);
    assert(v@ =~= seq![a]);
    v
}

fn named_bytes(key: &str) -> (r: Option<Vec<u8>>)
    ensures
        r is Some <==> named_key(key@) is Some,
        r matches Some(v) ==> Some(v@) == named_key(key@),
{
    if text::str_eq(key, "enter") {
        Some(byte1(0x0d))
    } else if text::str_eq(key, "backspace") {
        Some(byte1(0x7f))
    } else if text::str_eq(key, "delete") {
        Some(bytes4(0x1b, 0x5b, 0x33, 0x7e))
    } else if text::str_eq(key, "tab") {
        Some(byte1(0x09))
    } else if text::str_eq(key, "escape") {
        Some(byte1(0x1b))
    } else if text::str_eq(key, "up") {
        Some(bytes3(0x1b, 0x5b, 0x41))
    } else if text::str_eq(key, "down") {
        Some(bytes3(0x1b, 0x5b, 0x42))
    } else if text::str_eq(key, "right") {
        Some(bytes3(0x1b, 0x5b, 0x43))
    } else if text::str_eq(key, "left") {
        Some(bytes3(0x1b, 0x5b, 0x44))
    } else if text::str_eq(key, "home") {
        Some(bytes3(0x1b, 0x5b, 0x48))
    } else if text::str_eq(key, "end") {
        Some(bytes3(0x1b, 0x5b, 0x46))
    } else if text::str_eq(key, "pageup") {
        Some(bytes4(0x1b, 0x5b, 0x35, 0x7e))
    } else if text::str_eq(key, "pagedown") {
        Some(bytes4(0x1b, 0x5b, 0x36, 0x7e))
    } else {
        None
    }
}

/// The bytes of a text.
fn text_bytes(s: &str, alt: bool) -> (r: Vec<u8>)
    ensures
        r@ == (if alt {
            seq![0x1bu8]
        } else {
            Seq::<u8>::empty()
        }) + encode_utf8(s@),
{
    let mut v: Vec<u8> = Vec::new();
    if alt {
        v.push(0x1b);
    }
    let ghost head = v@;
    assert(head =~= if alt {
        seq![0x1bu8]
    } else {
        Seq::<u8>::empty()
    });
    let bytes = s.as_bytes();
    let mut i: usize = 0;
    assert(v@ =~= head + bytes@.take(0));
    while i < bytes.len()
        invariant
            i <= bytes@.len(),
            v@ == head + bytes@.take(i as int),
        decreases bytes@.len() - i,
    {
        v.push(bytes[i]);
        i += 1;
        assert(v@ =~= head + bytes@.take(i as int));
    }
    assert(bytes@.take(bytes@.len() as int) =~= bytes@);
    v
}

/// The bytes that a key sends to the shell.
pub fn keystroke_bytes(ks: &Keystroke) -> (r: Option<Vec<u8>>)
    ensures
        r is Some <==> key_bytes(*ks) is Some,
        r matches Some(v) ==> Some(v@) == key_bytes(*ks),
{
    if ks.modifiers.platform {
        return None;
    }
    let named = named_bytes(ks.key.as_str());
    if named.is_some() {
        return named;
    }
    if ks.modifiers.control {
        if text::str_eq(ks.key.as_str(), "space") {
            return Some(byte1(0));
        }
        let cs = text::chars_of(ks.key.as_str());
        if cs.len() == 1 {
            let c = cs[0];
            if 'a' <= c && c <= 'z' {
                return Some(byte1(c as u8 - 96));
            }
            if 'A' <= c && c <= 'Z' {
                return Some(byte1(c as u8 - 64));
            }
        }
        return None;
    }
    match &ks.key_char {
        Some(t) => Some(text_bytes(t.as_str(), ks.modifiers.alt)),
        None => None,
    }
}

/// Whether tab `i` belongs to the project at `root`.
pub open spec fn tab_of(tabs: Seq<TermTab>, root: Seq<char>, i: int) -> bool {
    0 <= i < tabs.len() && path::same(tabs[i].project_root@, root)
}

/// Whether `i` is the tab that the project shows: the active one where it belongs to the project,
/// else the first one that does.
pub open spec fn is_shown_tab(tabs: Seq<TermTab>, root: Seq<char>, active: int, i: int) -> bool {
    if tab_of(tabs, root, active) {
        i == active
    } else {
        tab_of(tabs, root, i) && forall|j: int| j < i ==> !tab_of(tabs, root, j)
    }
}

/// The active position once position `ix` was taken out and `left` tabs remain.
pub open spec fn active_after(active: int, left: int) -> int {
    if active < left {
        active
    } else if left == 0 {
        0
    } else {
        left - 1
    }
}

/// Whether a report at time `now` is about the same turn as the one at time `last`.
pub open spec fn same_turn(last: Option<u64>, now: u64) -> bool {
    match last {
        Some(t) => now < t || now - t < SAME_TURN_NS,
        None => false,
    }
}

/// The positions of the project's tabs among the first `n`.
pub open spec fn project_tabs(tabs: Seq<TermTab>, root: Seq<char>, n: int) -> Seq<int>
    decreases n,
{
    if n <= 0 {
        Seq::empty()
    } else {
        let rest = project_tabs(tabs, root, n - 1);
        if tab_of(tabs, root, n - 1) {
            rest.push(n - 1)
        } else {
            rest
        }
    }
}

/// An empty screen.
pub fn blank_snapshot() -> (s: TermSnapshot)
    ensures
        s.rows@.len() == 0,
        s.cursor is None,
        s.display_offset == 0,
        s.selection is None,
{
    TermSnapshot { rows: Vec::new(), cursor: None, display_offset: 0, selection: None }
}

/// The rows of a selection on a screen of `cols` columns: the first from its column, those between
/// whole, the last up to its column.
pub fn selection_spans(sel: (usize, usize, usize, usize), cols: usize) -> (spans: Vec<
    SelectionSpan,
>)
    ensures
        spans@.len() == (if sel.0 <= sel.2 {
            sel.2 - sel.0 + 1
        } else {
            0
        }),
        forall|i: int|
            0 <= i < spans@.len() ==> {
                let row = sel.0 + i;
                let start = if row == sel.0 {
                    sel.1 as int
                } else {
                    0
                };
                let end = if row == sel.2 {
                    sel.3 as int
                } else {
                    cols as int
                };
                &&& (#[trigger] spans@[i]).row == row
                &&& spans@[i].start == start
                &&& spans@[i].width == (if end > start {
                    end - start
                } else {
                    0
                })
            },
{
    let (sr, sc, er, ec) = sel;
    let mut spans: Vec<SelectionSpan> = Vec::new();
    if sr > er {
        return spans;
    }
    let mut row: usize = sr;
    let mut done = false;
    while !done
        invariant
            sr <= row <= er,
            sel == (sr, sc, er, ec),
            spans@.len() == row - sr + (if done {
                1int
            } else {
                0int
            }),
            done ==> row == er,
            forall|i: int|
                0 <= i < spans@.len() ==> {
                    let row = sel.0 + i;
                    let start = if row == sel.0 {
                        sel.1 as int
                    } else {
                        0
                    };
                    let end = if row == sel.2 {
                        sel.3 as int
                    } else {
                        cols as int
                    };
                    &&& (#[trigger] spans@[i]).row == row
                    &&& spans@[i].start == start
                    &&& spans@[i].width == (if end > start {
                        end - start
                    } else {
                        0
                    })
                },
        decreases (er - row) + (if done {
            0int
        } else {
            1int
        }),
    {
        let start: usize = if row == sr {
            sc
        } else {
            0
        };
        let end: usize = if row == er {
            ec
        } else {
            cols
        };
        let width: usize = if end > start {
            end - start
        } else {
            0
        };
        spans.push(SelectionSpan { row, start, width });
        if row == er {
            done = true;
        } else {
            row += 1;
        }
    }
    spans
}

/// The range of the composed text `s` in UTF-16 units, where there is one.
pub open spec fn marked_range(s: Seq<char>) -> Option<(int, int)> {
    if s.len() == 0 {
        None
    } else {
        Some((0, utf16::units_of(s) as int))
    }
}

/// Whether a key pastes the text on the clipboard.
pub fn is_paste(ks: &Keystroke) -> (r: bool)
    ensures
        r == (ks.modifiers.platform && ks.key@ == "v"@),
{
    ks.modifiers.platform && text::str_eq(ks.key.as_str(), "v")
}

impl TerminalPanel {
    /// No two sessions have the same number, and the active one is one of them.
    pub open spec fn inv(self) -> bool {
        &&& self.active < self.tabs@.len() || (self.tabs@.len() == 0 && self.active == 0)
        &&& forall|i: int, j: int|
            #![trigger self.tabs@[i], self.tabs@[j]]
            0 <= i < j < self.tabs@.len() ==> self.tabs@[i].id != self.tabs@[j].id
        &&& forall|i: int|
            0 <= i < self.tabs@.len() ==> (#[trigger] self.tabs@[i]).id <= self.next_id
    }

    /// A panel for the project at `project_root`, and the session to start for it.
    pub fn new(project_root: String) -> (r: (Self, SpawnRequest))
        ensures
            r.0.inv(),
            r.0.project_root == project_root,
            r.0.tabs@.len() == 0,
            r.0.active == 0,
            r.0.next_id == 0,
            r.0.status@.len() == 0,
            r.0.last_op is None,
            r.0.ime_marked@.len() == 0,
            !r.0.cc_done,
            r.0.cc_done_at is None,
            !r.0.selecting,
            r.1.cwd == project_root,
            r.1.cols == START_COLS && r.1.rows == START_ROWS,
    {
        let this = Self {
            project_root,
            tabs: Vec::new(),
            active: 0,
            next_id: 0,
            status: String::new(),
            last_op: None,
            ime_marked: String::new(),
            cc_done: false,
            cc_done_at: None,
            selecting: false,
        };
        let q = this.spawn_session();
        (this, q)
    }

    /// The session to start for the project.
    pub fn spawn_session(&self) -> (q: SpawnRequest)
        ensures
            q.cwd == self.project_root,
            q.cols == START_COLS && q.rows == START_ROWS,
    {
        SpawnRequest { cwd: self.project_root.clone(), cols: START_COLS, rows: START_ROWS }
    }

    /// The session was started, or why it was not. Its number.
    pub fn session_spawned(&mut self, result: Result<(), String>) -> (id: Option<u64>)
        requires
            old(self).inv(),
            old(self).next_id < u64::MAX,
        ensures
            final(self).inv(),
            id is Some <==> result is Ok,
            final(self).project_root == old(self).project_root,
            final(self).last_op == old(self).last_op,
            final(self).ime_marked == old(self).ime_marked,
            final(self).cc_done == old(self).cc_done,
            final(self).cc_done_at == old(self).cc_done_at,
            final(self).selecting == old(self).selecting,
            result matches Err(e) ==> final(self).tabs == old(self).tabs && final(self).active
                == old(self).active && final(self).next_id == old(self).next_id
                && final(self).status@ == "终端启动失败: "@ + e@,
            id matches Some(n) ==> {
                let tab = final(self).tabs@.last();
                &&& n == old(self).next_id + 1
                &&& final(self).next_id == n
                &&& final(self).tabs@.drop_last() == old(self).tabs@
                &&& final(self).tabs@.len() == old(self).tabs@.len() + 1
                &&& final(self).active == old(self).tabs@.len()
                &&& final(self).status@.len() == 0
                &&& tab.id == n
                &&& tab.name@ == path::shown_name(old(self).project_root@) + " ("@ + text::dec(
                    n as nat,
                ) + ")"@
                &&& tab.project_root == old(self).project_root
                &&& !tab.exited
                &&& tab.grid == (START_COLS, START_ROWS)
                &&& tab.snap.rows@.len() == 0
                &&& tab.snap.cursor is None
                &&& tab.snap.display_offset == 0
                &&& tab.snap.selection is None
            },
    {
        match result {
            Ok(_) => {
                self.next_id = self.next_id + 1;
                let id = self.next_id;
                let project = path::display_name(self.project_root.as_str());
                let name = text::cat4(
                    project.as_str(),
                    " (",
                    text::dec_u64(id).as_str(),
                    ")",
                );
                let ghost before = self.tabs@;
                self.tabs.push(
                    TermTab {
                        id,
                        name,
                        project_root: self.project_root.clone(),
                        snap: blank_snapshot(),
                        exited: false,
                        grid: (START_COLS, START_ROWS),
                    },
                );
                assert(self.tabs@.drop_last() =~= before);
                self.active = self.tabs.len() - 1;
                self.status = String::new();
                Some(id)
            },
            Err(e) => {
                self.status = text::cat2("终端启动失败: ", e.as_str());
                None
            },
        }
    }

    /// A turn was finished at time `now`. Whether the application's badge counts it: a second
    /// report of the same turn does not.
    pub fn on_cc_done(&mut self, now: u64) -> (bump: bool)
        ensures
            *final(self) == (Self { cc_done: true, cc_done_at: Some(now), ..*old(self) }),
            bump == !same_turn(old(self).cc_done_at, now),
    {
        let dup = match self.cc_done_at {
            Some(t) => now < t || now - t < SAME_TURN_NS,
            None => false,
        };
        self.cc_done_at = Some(now);
        self.cc_done = true;
        !dup
    }

    /// Whether a turn was finished that nobody has looked at.
    pub fn cc_done(&self) -> (r: bool)
        ensures
            r == self.cc_done,
    {
        self.cc_done
    }

    /// The active session.
    pub fn active_tab(&self) -> (r: Option<&TermTab>)
        requires
            self.inv(),
        ensures
            r is Some <==> self.tabs@.len() > 0,
            r matches Some(t) ==> *t == self.tabs@[self.active as int],
    {
        if self.active < self.tabs.len() {
            Some(&self.tabs[self.active])
        } else {
            None
        }
    }

    /// The first session of the project at `root`.
    fn first_of(&self, root: &str) -> (r: Option<usize>)
        ensures
            r matches Some(i) ==> tab_of(self.tabs@, root@, i as int) && forall|j: int|
                j < i ==> !tab_of(self.tabs@, root@, j),
            r is None ==> forall|j: int| !tab_of(self.tabs@, root@, j),
    {
        let mut i: usize = 0;
        while i < self.tabs.len()
            invariant
                i <= self.tabs@.len(),
                forall|j: int| j < i ==> !tab_of(self.tabs@, root@, j),
            decreases self.tabs@.len() - i,
        {
            if path::eq(self.tabs[i].project_root.as_str(), root) {
                return Some(i);
            }
            assert(!tab_of(self.tabs@, root@, i as int));
            i += 1;
        }
        None
    }

    /// The session that the project shows.
    pub fn active_project_tab_index(&self) -> (r: Option<usize>)
        requires
            self.inv(),
        ensures
            r matches Some(i) ==> is_shown_tab(
                self.tabs@,
                self.project_root@,
                self.active as int,
                i as int,
            ) && i < self.tabs@.len(),
            r is None ==> forall|i: int| !tab_of(self.tabs@, self.project_root@, i),
    {
        if self.active < self.tabs.len() && path::eq(
            self.tabs[self.active].project_root.as_str(),
            self.project_root.as_str(),
        ) {
            Some(self.active)
        } else {
            assert(!tab_of(self.tabs@, self.project_root@, self.active as int));
            self.first_of(self.project_root.as_str())
        }
    }

    /// Makes the shown session the active one, so that keys, scrolling and resizing go to what is
    /// on the screen.
    pub fn align_active(&mut self) -> (shown: Option<usize>)
        requires
            old(self).inv(),
        ensures
            final(self).inv(),
            *final(self) == (Self { active: final(self).active, ..*old(self) }),
            shown is None ==> final(self).active == old(self).active && forall|i: int|
                !tab_of(old(self).tabs@, old(self).project_root@, i),
            shown matches Some(i) ==> final(self).active == i && is_shown_tab(
                old(self).tabs@,
                old(self).project_root@,
                old(self).active as int,
                i as int,
            ) && is_shown_tab(final(self).tabs@, final(self).project_root@, i as int, i as int),
    {
        let shown = self.active_project_tab_index();
        if let Some(ix) = shown {
            self.active = ix;
        }
        shown
    }

    /// Moves to the project at `root`: to its first session, or to one that has to be started.
    pub fn set_project(&mut self, root: String) -> (q: Option<SpawnRequest>)
        requires
            old(self).inv(),
        ensures
            final(self).inv(),
            final(self).project_root == root,
            final(self).tabs == old(self).tabs,
            final(self).next_id == old(self).next_id,
            final(self).last_op == old(self).last_op,
            final(self).ime_marked == old(self).ime_marked,
            !final(self).cc_done,
            final(self).cc_done_at == old(self).cc_done_at,
            final(self).selecting == old(self).selecting,
            q is Some <==> forall|i: int| !tab_of(old(self).tabs@, root@, i),
            q matches Some(s) ==> s.cwd == root && s.cols == START_COLS && s.rows == START_ROWS
                && final(self).active == old(self).active && final(self).status == old(self).status,
            q is None ==> final(self).status@.len() == 0 && tab_of(
                old(self).tabs@,
                root@,
                final(self).active as int,
            ) && forall|j: int| j < final(self).active ==> !tab_of(old(self).tabs@, root@, j),
    {
        self.project_root = root;
        let q = match self.first_of(self.project_root.as_str()) {
            Some(ix) => {
                self.active = ix;
                self.status = String::new();
                None
            },
            None => Some(self.spawn_session()),
        };
        self.cc_done = false;
        q
    }

    /// Brings session `ix` to the front.
    pub fn activate(&mut self, ix: usize)
        requires
            old(self).inv(),
            ix < old(self).tabs@.len(),
        ensures
            final(self).inv(),
            *final(self) == (Self { active: ix, ..*old(self) }),
    {
        self.active = ix;
    }

    fn position_of(&self, id: u64) -> (r: Option<usize>)
        ensures
            r matches Some(i) ==> i < self.tabs@.len() && self.tabs@[i as int].id == id,
            r is None ==> forall|i: int|
                0 <= i < self.tabs@.len() ==> (#[trigger] self.tabs@[i]).id != id,
    {
        let mut i: usize = 0;
        while i < self.tabs.len()
            invariant
                i <= self.tabs@.len(),
                forall|j: int| 0 <= j < i ==> (#[trigger] self.tabs@[j]).id != id,
            decreases self.tabs@.len() - i,
        {
            if self.tabs[i].id == id {
                return Some(i);
            }
            i += 1;
        }
        None
    }

    /// Session `id` has a new screen at time `now`. Whether the session is still there.
    pub fn pull(&mut self, id: u64, snap: TermSnapshot, exited: bool, now: u64) -> (found: bool)
        requires
            old(self).inv(),
        ensures
            final(self).inv(),
            found <==> exists|i: int|
                0 <= i < old(self).tabs@.len() && (#[trigger] old(self).tabs@[i]).id == id,
            !found ==> *final(self) == *old(self),
            found ==> {
                &&& final(self).project_root == old(self).project_root
                &&& final(self).active == old(self).active
                &&& final(self).next_id == old(self).next_id
                &&& final(self).status == old(self).status
                &&& final(self).ime_marked == old(self).ime_marked
                &&& final(self).cc_done == old(self).cc_done
                &&& final(self).cc_done_at == old(self).cc_done_at
                &&& final(self).selecting == old(self).selecting
                &&& final(self).tabs@.len() == old(self).tabs@.len()
                &&& forall|i: int|
                    0 <= i < old(self).tabs@.len() ==> #[trigger] final(self).tabs@[i] == (if old(
                        self,
                    ).tabs@[i].id == id {
                        TermTab { snap, exited, ..old(self).tabs@[i] }
                    } else {
                        old(self).tabs@[i]
                    })
                &&& final(self).last_op is Some
                &&& (final(self).last_op->0).1 == now
                &&& exists|i: int|
                    0 <= i < old(self).tabs@.len() && (#[trigger] old(self).tabs@[i]).id == id
                        && (final(self).last_op->0).0@ == "终端输出 "@ + old(self).tabs@[i].name@
            },
    {
        match self.position_of(id) {
            Some(ix) => {
                let name = self.tabs[ix].name.clone();
                self.tabs[ix].snap = snap;
                self.tabs[ix].exited = exited;
                self.last_op = Some((text::cat2("终端输出 ", name.as_str()), now));
                assert(old(self).tabs@[ix as int].id == id);
                true
            },
            None => false,
        }
    }

    fn take_out(&mut self, ix: usize) -> (id: u64)
        requires
            old(self).inv(),
            ix < old(self).tabs@.len(),
        ensures
            final(self).inv(),
            id == old(self).tabs@[ix as int].id,
            final(self).tabs@ == old(self).tabs@.remove(ix as int),
            final(self).active == active_after(
                old(self).active as int,
                old(self).tabs@.len() - 1,
            ),
            *final(self) == (Self {
                tabs: final(self).tabs,
                active: final(self).active,
                ..*old(self)
            }),
    {
        let ghost before = self.tabs@;
        let gone = self.tabs.remove(ix);
        assert(self.tabs@ =~= before.remove(ix as int));
        let left = self.tabs.len();
        if self.active >= left {
            self.active = if left == 0 {
                0
            } else {
                left - 1
            };
        }
        gone.id
    }

    /// Closes session `ix`. There is always at least one session: the last one that goes makes
    /// room for a new one.
    pub fn close_session(&mut self, ix: usize) -> (r: Closed)
        requires
            old(self).inv(),
        ensures
            final(self).inv(),
            ix >= old(self).tabs@.len() ==> *final(self) == *old(self) && r.shutdown is None
                && r.spawn is None,
            ix < old(self).tabs@.len() ==> {
                &&& r.shutdown == Some(old(self).tabs@[ix as int].id)
                &&& final(self).tabs@ == old(self).tabs@.remove(ix as int)
                &&& final(self).active == active_after(
                    old(self).active as int,
                    old(self).tabs@.len() - 1,
                )
                &&& *final(self) == (Self {
                    tabs: final(self).tabs,
                    active: final(self).active,
                    ..*old(self)
                })
                &&& r.spawn is Some <==> old(self).tabs@.len() == 1
                &&& r.spawn matches Some(q) ==> q.cwd == old(self).project_root && q.cols
                    == START_COLS && q.rows == START_ROWS
            },
    {
        if ix >= self.tabs.len() {
            return Closed { shutdown: None, spawn: None };
        }
        let id = self.take_out(ix);
        let spawn = if self.tabs.len() == 0 {
            Some(self.spawn_session())
        } else {
            None
        };
        Closed { shutdown: Some(id), spawn }
    }

    /// Starts the shown session anew (or the active one where the project has none).
    pub fn restart(&mut self) -> (r: Closed)
        requires
            old(self).inv(),
        ensures
            final(self).inv(),
            r.spawn is Some,
            r.spawn->0.cwd == old(self).project_root,
            r.spawn->0.cols == START_COLS && r.spawn->0.rows == START_ROWS,
            r.shutdown is Some <==> old(self).tabs@.len() > 0,
            r.shutdown is None ==> *final(self) == *old(self),
            r.shutdown matches Some(id) ==> exists|i: int|
                0 <= i < old(self).tabs@.len() && (#[trigger] old(self).tabs@[i]).id == id && (
                is_shown_tab(
                    old(self).tabs@,
                    old(self).project_root@,
                    old(self).active as int,
                    i,
                ) || (i == old(self).active && forall|j: int|
                    !tab_of(old(self).tabs@, old(self).project_root@, j)))
                    && final(self).tabs@ == old(self).tabs@.remove(i),
            r.shutdown is Some ==> *final(self) == (Self {
                tabs: final(self).tabs,
                active: final(self).active,
                ..*old(self)
            }) && final(self).active == active_after(
                old(self).active as int,
                old(self).tabs@.len() - 1,
            ),
    {
        let ix = match self.active_project_tab_index() {
            Some(i) => i,
            None => self.active,
        };
        let spawn = Some(self.spawn_session());
        if ix < self.tabs.len() {
            let id = self.take_out(ix);
            assert(old(self).tabs@[ix as int].id == id);
            Closed { shutdown: Some(id), spawn }
        } else {
            Closed { shutdown: None, spawn }
        }
    }

    /// The screen has room for `cols` by `rows` cells: the session to resize, where its size is
    /// another.
    pub fn sync_grid(&mut self, cols: u16, rows: u16) -> (resize: Option<u64>)
        requires
            old(self).inv(),
        ensures
            final(self).inv(),
            resize is Some <==> old(self).tabs@.len() > 0 && old(self).tabs@[old(
                self,
            ).active as int].grid != (cols, rows),
            resize is None ==> *final(self) == *old(self),
            resize matches Some(id) ==> {
                let a = old(self).active as int;
                &&& id == old(self).tabs@[a].id
                &&& *final(self) == (Self { tabs: final(self).tabs, ..*old(self) })
                &&& final(self).tabs@ == old(self).tabs@.update(
                    a,
                    TermTab { grid: (cols, rows), ..old(self).tabs@[a] },
                )
            },
    {
        if self.active >= self.tabs.len() {
            return None;
        }
        let a = self.active;
        let (c, r) = self.tabs[a].grid;
        if c == cols && r == rows {
            return None;
        }
        self.tabs[a].grid = (cols, rows);
        Some(self.tabs[a].id)
    }

    /// A key was pressed: what it does. `selection` is the selected text, `clipboard` the text on
    /// the clipboard, which matters to a key that pastes. Pressing a key counts as having looked.
    pub fn on_key(
        &mut self,
        ks: &Keystroke,
        selection: Option<String>,
        clipboard: Option<String>,
    ) -> (r: KeyAction)
        requires
            old(self).inv(),
        ensures
            final(self).inv(),
            *final(self) == (Self { cc_done: false, ..*old(self) }),
            ({
                let live = old(self).tabs@.len() > 0 && !old(self).tabs@[old(
                    self,
                ).active as int].exited;
                let cmd = ks.modifiers.platform;
                if !live {
                    r is Bubble
                } else if cmd && ks.key@ == "c"@ && selection is Some {
                    r == KeyAction::Copy(selection->0)
                } else if cmd && ks.key@ == "v"@ {
                    r == KeyAction::Paste(clipboard)
                } else {
                    &&& (r is Bubble <==> key_bytes(*ks) is None)
                    &&& (r !is Bubble ==> r is Write && Some(r->Write_0@) == key_bytes(*ks))
                }
            }),
    {
        self.cc_done = false;
        if self.active >= self.tabs.len() {
            return KeyAction::Bubble;
        }
        if self.tabs[self.active].exited {
            return KeyAction::Bubble;
        }
        if ks.modifiers.platform && text::str_eq(ks.key.as_str(), "c") {
            if let Some(t) = selection {
                return KeyAction::Copy(t);
            }
        }
        if is_paste(ks) {
            return KeyAction::Paste(clipboard);
        }
        match keystroke_bytes(ks) {
            Some(bytes) => KeyAction::Write(bytes),
            None => KeyAction::Bubble,
        }
    }

    /// The active session was scrolled and shows `snap` now.
    pub fn scrolled(&mut self, snap: TermSnapshot)
        requires
            old(self).inv(),
        ensures
            final(self).inv(),
            *final(self) == (Self { tabs: final(self).tabs, ..*old(self) }),
            final(self).tabs@ == (if old(self).tabs@.len() > 0 {
                old(self).tabs@.update(
                    old(self).active as int,
                    TermTab { snap, ..old(self).tabs@[old(self).active as int] },
                )
            } else {
                old(self).tabs@
            }),
    {
        let a = self.active;
        if a < self.tabs.len() {
            self.tabs[a].snap = snap;
        }
    }

    /// The grid was clicked, on a cell where `on_cell` says so. The session whose selection starts
    /// there.
    pub fn mouse_down(&mut self, on_cell: bool) -> (start: Option<usize>)
        requires
            old(self).inv(),
        ensures
            final(self).inv(),
            ({
                let none = forall|i: int| !tab_of(old(self).tabs@, old(self).project_root@, i);
                &&& start is Some <==> on_cell && !none
                &&& start matches Some(i) ==> is_shown_tab(
                    old(self).tabs@,
                    old(self).project_root@,
                    old(self).active as int,
                    i as int,
                )
                &&& *final(self) == (Self {
                    cc_done: false,
                    selecting: old(self).selecting || start is Some,
                    ..*old(self)
                })
            }),
    {
        self.cc_done = false;
        if !on_cell {
            return None;
        }
        let shown = self.active_project_tab_index();
        if shown.is_some() {
            self.selecting = true;
        }
        proof {
            if let Some(i) = shown {
                assert(tab_of(self.tabs@, self.project_root@, i as int));
            }
        }
        shown
    }

    /// The pointer moved, with the left button held down or not. Whether the selection follows it.
    pub fn mouse_move(&mut self, left_down: bool) -> (drag: bool)
        ensures
            drag == (old(self).selecting && left_down),
            *final(self) == (Self { selecting: drag, ..*old(self) }),
    {
        if !self.selecting {
            return false;
        }
        if !left_down {
            self.selecting = false;
            return false;
        }
        true
    }

    /// The button was released.
    pub fn mouse_up(&mut self)
        ensures
            *final(self) == (Self { selecting: false, ..*old(self) }),
    {
        self.selecting = false;
    }

    /// The project's tabs to draw.
    pub fn tab_rows(&self) -> (rows: Vec<TermTabRow>)
        requires
            self.inv(),
        ensures
            ({
                let all = project_tabs(self.tabs@, self.project_root@, self.tabs@.len() as int);
                &&& rows@.len() == all.len()
                &&& forall|j: int|
                    0 <= j < rows@.len() ==> {
                        let i = all[j];
                        &&& (#[trigger] rows@[j]).index == i
                        &&& rows@[j].name@ == self.tabs@[i].name@
                        &&& rows@[j].exited == self.tabs@[i].exited
                        &&& rows@[j].selected == is_shown_tab(
                            self.tabs@,
                            self.project_root@,
                            self.active as int,
                            i,
                        )
                    }
            }),
    {
        let shown = self.active_project_tab_index();
        let mut rows: Vec<TermTabRow> = Vec::new();
        let mut i: usize = 0;
        while i < self.tabs.len()
            invariant
                i <= self.tabs@.len(),
                shown matches Some(s) ==> is_shown_tab(
                    self.tabs@,
                    self.project_root@,
                    self.active as int,
                    s as int,
                ),
                shown is None ==> forall|j: int| !tab_of(self.tabs@, self.project_root@, j),
                rows@.len() == project_tabs(self.tabs@, self.project_root@, i as int).len(),
                forall|j: int|
                    0 <= j < rows@.len() ==> {
                        let k = project_tabs(self.tabs@, self.project_root@, i as int)[j];
                        &&& (#[trigger] rows@[j]).index == k
                        &&& rows@[j].name@ == self.tabs@[k].name@
                        &&& rows@[j].exited == self.tabs@[k].exited
                        &&& rows@[j].selected == is_shown_tab(
                            self.tabs@,
                            self.project_root@,
                            self.active as int,
                            k,
                        )
                    },
            decreases self.tabs@.len() - i,
        {
            let ghost was = project_tabs(self.tabs@, self.project_root@, i as int);
            let ghost before = rows@;
            if path::eq(self.tabs[i].project_root.as_str(), self.project_root.as_str()) {
                assert(tab_of(self.tabs@, self.project_root@, i as int));
                let selected = match shown {
                    Some(s) => s == i,
                    None => false,
                };
                rows.push(
                    TermTabRow {
                        index: i,
                        name: self.tabs[i].name.clone(),
                        selected,
                        exited: self.tabs[i].exited,
                    },
                );
            }
            i += 1;
            proof {
                let now = project_tabs(self.tabs@, self.project_root@, i as int);
                assert forall|j: int| 0 <= j < rows@.len() implies {
                    let k = now[j];
                    &&& (#[trigger] rows@[j]).index == k
                    &&& rows@[j].name@ == self.tabs@[k].name@
                    &&& rows@[j].exited == self.tabs@[k].exited
                    &&& rows@[j].selected == is_shown_tab(
                        self.tabs@,
                        self.project_root@,
                        self.active as int,
                        k,
                    )
                } by {
                    if j < before.len() {
                        assert(rows@[j] == before[j]);
                        assert(now[j] == was[j]);
                    }
                }
            }
        }
        rows
    }

    /// The composed text between two positions counted in UTF-16 units, and the positions that it
    /// really spans.
    pub fn text_for_range(&self, start: usize, end: usize) -> (r: Option<(String, usize, usize)>)
        ensures
            ({
                let s = self.ime_marked@;
                exists|a: int, b: int|
                    #![trigger utf16::is_position(s, start as int, a), utf16::is_position(
                        s,
                        end as int,
                        b,
                    )]
                    {
                        &&& utf16::is_position(s, start as int, a)
                        &&& utf16::is_position(s, end as int, b)
                        &&& (r is Some <==> a <= b)
                        &&& r matches Some(p) ==> p.0@ == s.subrange(a, b) && p.1
                            == utf16::units_of(s.take(a)) && p.2 == utf16::units_of(s.take(b))
                    }
            }),
    {
        let a = utf16::position(self.ime_marked.as_str(), start);
        let b = utf16::position(self.ime_marked.as_str(), end);
        assert(utf16::is_position(self.ime_marked@, start as int, a as int));
        assert(utf16::is_position(self.ime_marked@, end as int, b as int));
        if a > b {
            return None;
        }
        let cs = text::chars_of(self.ime_marked.as_str());
        let head = text::string_of(&cs, 0, a);
        let upto = text::string_of(&cs, 0, b);
        assert(head@ =~= self.ime_marked@.take(a as int));
        assert(upto@ =~= self.ime_marked@.take(b as int));
        let part = text::string_of(&cs, a, b);
        Some((part, utf16::utf16_len(head.as_str()), utf16::utf16_len(upto.as_str())))
    }

    /// The insertion point: the end of the composed text.
    pub fn selected_text_range(&self) -> (r: (usize, usize))
        ensures
            r.0 == utf16::units_of(self.ime_marked@),
            r.1 == r.0,
    {
        let end = utf16::utf16_len(self.ime_marked.as_str());
        (end, end)
    }

    /// The composed text, where there is one.
    pub fn marked_text_range(&self) -> (r: Option<(usize, usize)>)
        ensures
            r is Some <==> marked_range(self.ime_marked@) is Some,
            r matches Some(p) ==> marked_range(self.ime_marked@) == Some((p.0 as int, p.1 as int)),
    {
        if text::first_char(self.ime_marked.as_str()).is_none() {
            None
        } else {
            Some((0, utf16::utf16_len(self.ime_marked.as_str())))
        }
    }

    /// Nothing stays composed, and nothing else changes.
    pub open spec fn unmarked(before: Self, after: Self) -> bool {
        &&& after == (Self { ime_marked: after.ime_marked, ..before })
        &&& after.ime_marked@.len() == 0
    }

    /// What composing `t` leads to: it stands for a part of the composed text, or for all of it where
    /// no range is given.
    pub open spec fn composed(
        before: Self,
        after: Self,
        range: Option<(usize, usize)>,
        t: Seq<char>,
    ) -> bool {
        &&& after == (Self { ime_marked: after.ime_marked, ..before })
        &&& range is None ==> after.ime_marked@ == t
        &&& range matches Some(p) ==> {
            let s = before.ime_marked@;
            exists|a: int, b: int|
                #![trigger utf16::is_position(s, p.0 as int, a), utf16::is_position(
                    s,
                    p.1 as int,
                    b,
                )]
                {
                    &&& utf16::is_position(s, p.0 as int, a)
                    &&& utf16::is_position(s, p.1 as int, b)
                    &&& a <= b
                    &&& after.ime_marked@ == s.take(a) + t + s.skip(b)
                }
        }
    }

    /// Drops the composed text. Whether there was one.
    pub fn unmark_text(&mut self) -> (changed: bool)
        requires
            old(self).inv(),
        ensures
            final(self).inv(),
            Self::unmarked(*old(self), *final(self)),
            changed == (old(self).ime_marked@.len() > 0),
    {
        let changed = text::first_char(self.ime_marked.as_str()).is_some();
        self.ime_marked = String::new();
        changed
    }

    /// The input method is done with `text`: what to write to the active session, where it lives.
    /// Nothing stays composed.
    pub fn replace_text_in_range(&mut self, t: &str) -> (r: Option<Vec<u8>>)
        requires
            old(self).inv(),
        ensures
            final(self).inv(),
            Self::unmarked(*old(self), *final(self)),
            r is Some <==> old(self).tabs@.len() > 0 && !old(self).tabs@[old(
                self,
            ).active as int].exited,
            r matches Some(b) ==> b@ == encode_utf8(t@),
    {
        let live = self.active < self.tabs.len() && !self.tabs[self.active].exited;
        self.ime_marked = String::new();
        if live {
            let b = text_bytes(t, false);
            assert(b@ =~= encode_utf8(t@));
            Some(b)
        } else {
            None
        }
    }

    /// The input method replaces a part of the composed text, all of it where no range is given.
    /// Positions after the text stand for its end.
    pub fn replace_and_mark_text_in_range(&mut self, range: Option<(usize, usize)>, t: &str)
        requires
            old(self).inv(),
            range matches Some(p) ==> utf16::is_range(
                old(self).ime_marked@,
                p.0 as int,
                p.1 as int,
            ),
        ensures
            final(self).inv(),
            Self::composed(*old(self), *final(self), range, t@),
    {
        match range {
            None => {
                self.ime_marked = t.to_owned();
            },
            Some((start, end)) => {
                let a = utf16::position(self.ime_marked.as_str(), start);
                let b = utf16::position(self.ime_marked.as_str(), end);
                assert(utf16::is_position(self.ime_marked@, start as int, a as int));
                assert(utf16::is_position(self.ime_marked@, end as int, b as int));
                let cs = text::chars_of(self.ime_marked.as_str());
                let n = cs.len();
                let head = text::string_of(&cs, 0, a);
                let tail = text::string_of(&cs, b, n);
                assert(head@ =~= self.ime_marked@.take(a as int));
                assert(tail@ =~= self.ime_marked@.skip(b as int));
                self.ime_marked = text::cat3(head.as_str(), t, tail.as_str());
            },
        }
    }

    /// Whether text can be typed: into an active session that lives.
    pub fn accepts_text_input(&self) -> (r: bool)
        requires
            self.inv(),
        ensures
            r == (self.tabs@.len() > 0 && !self.tabs@[self.active as int].exited),
    {
        self.active < self.tabs.len() && !self.tabs[self.active].exited
    }

    /// The label for a screen that is scrolled back.
    pub fn scrollback_label(&self, display_offset: usize) -> (r: Option<String>)
        ensures
            r is Some <==> display_offset > 0,
            r matches Some(t) ==> t@ == "回看 -"@ + text::dec(display_offset as nat) + " 行"@,
    {
        if display_offset > 0 {
            Some(text::cat3("回看 -", text::dec_usize(display_offset).as_str(), " 行"))
        } else {
            None
        }
    }
}

/// The marked range is that of the text that was composed last, whatever was marked before, and
/// there is none once the input method is done with a text or has dropped it, whether a session
/// lives or not.
pub proof fn law_marked_range_is_that_of_the_last_text(
    before: TerminalPanel,
    after: TerminalPanel,
    t: Seq<char>,
)
    ensures
        TerminalPanel::composed(before, after, None, t) ==> marked_range(after.ime_marked@) == (
        if t.len() == 0 {
            None
        } else {
            Some((0int, utf16::units_of(t) as int))
        }),
        TerminalPanel::unmarked(before, after) ==> marked_range(after.ime_marked@) is None,
{
}

/// Two reports of the same turn raise the badge once.
pub proof fn law_badge_counts_a_turn_once(first: u64, second: u64)
    requires
        first <= second,
        second - first < SAME_TURN_NS,
    ensures
        same_turn(Some(first), second),
{
}

/// Every colour is one of 24 bits.
pub proof fn law_colours_are_24_bit(c: TermColor)
    ensures
        0 <= fg_of(c) <= 0xffffff,
{
    match c {
        TermColor::Indexed(ix) => {
            let k = ix - 16;
            if 16 <= ix < 232 {
                assert(0 <= k / 36 < 6 && 0 <= (k / 6) % 6 < 6 && 0 <= k % 6 < 6);
            }
        },
        _ => {},
    }
}

/// The levels of a colour component in the colour cube.
pub open spec fn levels() -> Seq<int> {
    seq![0, 95, 135, 175, 215, 255]
}

/// The colours from 16 on are a cube of six levels of red, green and blue, blue changing fastest.
pub proof fn law_the_colour_cube(red: int, green: int, blue: int, ix: u8, c: u32)
    requires
        0 <= red < 6,
        0 <= green < 6,
        0 <= blue < 6,
        ix == 16 + 36 * red + 6 * green + blue,
        call_ensures(indexed_color, (ix,), c),
    ensures
        c == levels()[red] * 0x10000 + levels()[green] * 0x100 + levels()[blue],
{
    let k = ix - 16;
    assert(k == 36 * red + 6 * green + blue);
    assert(k / 36 == red) by (nonlinear_arith)
        requires
            k == 36 * red + 6 * green + blue,
            0 <= green < 6,
            0 <= blue < 6,
            0 <= red < 6,
    ;
    assert(k / 6 == 6 * red + green) by (nonlinear_arith)
        requires
            k == 36 * red + 6 * green + blue,
            0 <= green < 6,
            0 <= blue < 6,
            0 <= red < 6,
    ;
    assert((6 * red + green) % 6 == green);
    assert(k % 6 == blue);
}

/// The last 24 colours are greys, from dark to light in equal steps.
pub proof fn law_the_greys(ix: u8, c: u32)
    requires
        ix >= 232,
        call_ensures(indexed_color, (ix,), c),
    ensures
        c == (8 + 10 * (ix - 232)) * 0x010101,
{
    let v = 8 + (ix - 232) * 10;
    assert(v * 0x10000 + v * 0x100 + v == v * 0x010101);
}

/// Inverse video swaps the colours of text and background; where no background is set the text gets
/// the terminal's own.
pub proof fn law_inverse_swaps_the_colours(
    plain: TermRun,
    inverse: TermRun,
    p: (u32, Option<u32>),
    q: (u32, Option<u32>),
)
    requires
        !plain.inverse,
        inverse.inverse,
        plain.fg == inverse.fg,
        plain.bg == inverse.bg,
        call_ensures(run_colors, (&plain,), p),
        call_ensures(run_colors, (&inverse,), q),
    ensures
        q.1 == Some(p.0),
        p.1 matches Some(bg) ==> q.0 == bg,
        p.1 is None ==> q.0 == 0x0d1017,
        plain.bg == TermColor::Default <==> p.1 is None,
        plain.fg matches TermColor::Rgb(r, g, b) ==> p.0 == r * 0x10000 + g * 0x100 + b,
{
}

/// Control and a letter send the letter's place in the alphabet, whatever its case.
pub proof fn law_control_letters_count_the_alphabet(ks: Keystroke, r: Option<Vec<u8>>, c: char)
    requires
        call_ensures(keystroke_bytes, (&ks,), r),
        ks.modifiers.control,
        !ks.modifiers.platform,
        ks.key@ == seq![c],
        'a' <= c <= 'z' || 'A' <= c <= 'Z',
    ensures
        r is Some && r->0@.len() == 1,
        'a' <= c <= 'z' ==> r->0@[0] == c as int - 'a' as int + 1,
        'A' <= c <= 'Z' ==> r->0@[0] == c as int - 'A' as int + 1,
        1 <= r->0@[0] <= 26,
{
    reveal_strlit("space");
    lemma_named_keys_are_long(ks.key@);
    assert("space"@.len() == 5);
}

proof fn lemma_named_keys_are_long(key: Seq<char>)
    ensures
        named_key(key) is Some ==> key.len() > 1,
{
    reveal_strlit("enter");
    reveal_strlit("backspace");
    reveal_strlit("delete");
    reveal_strlit("tab");
    reveal_strlit("escape");
    reveal_strlit("up");
    reveal_strlit("down");
    reveal_strlit("right");
    reveal_strlit("left");
    reveal_strlit("home");
    reveal_strlit("end");
    reveal_strlit("pageup");
    reveal_strlit("pagedown");
}

/// Typed text is sent as it is, in UTF-8, with an escape before it where the alternate key is held.
/// Keys with the platform key are not sent.
pub proof fn law_typed_text_is_sent(ks: Keystroke, r: Option<Vec<u8>>, t: String)
    requires
        call_ensures(keystroke_bytes, (&ks,), r),
        ks.key_char == Some(t),
        ks.key@.len() == 1,
        !ks.modifiers.control,
    ensures
        ks.modifiers.platform ==> r is None,
        !ks.modifiers.platform && !ks.modifiers.alt ==> r is Some && r->0@ == encode_utf8(t@),
        !ks.modifiers.platform && ks.modifiers.alt ==> r is Some && r->0@ == seq![27u8]
            + encode_utf8(t@),
{
    lemma_named_keys_are_long(ks.key@);
    if !ks.modifiers.platform && !ks.modifiers.alt {
        assert(Seq::<u8>::empty() + encode_utf8(t@) =~= encode_utf8(t@));
    }
}

/// The cursor keys send an escape, a bracket and a letter of their own.
pub proof fn law_cursor_keys_send_their_letters(ks: Keystroke, r: Option<Vec<u8>>)
    requires
        call_ensures(keystroke_bytes, (&ks,), r),
        !ks.modifiers.platform,
    ensures
        ks.key@ == "up"@ ==> r is Some && r->0@ == seq![27u8, 91, 65],
        ks.key@ == "down"@ ==> r is Some && r->0@ == seq![27u8, 91, 66],
        ks.key@ == "right"@ ==> r is Some && r->0@ == seq![27u8, 91, 67],
        ks.key@ == "left"@ ==> r is Some && r->0@ == seq![27u8, 91, 68],
        ks.key@ == "enter"@ ==> r is Some && r->0@ == seq![13u8],
        ks.key@ == "backspace"@ ==> r is Some && r->0@ == seq![127u8],
        ks.key@ == "tab"@ ==> r is Some && r->0@ == seq![9u8],
        ks.key@ == "escape"@ ==> r is Some && r->0@ == seq![27u8],
        ks.key@ == "home"@ ==> r is Some && r->0@ == seq![27u8, 91, 72],
        ks.key@ == "end"@ ==> r is Some && r->0@ == seq![27u8, 91, 70],
        ks.key@ == "delete"@ ==> r is Some && r->0@ == seq![27u8, 91, 51, 126],
        ks.key@ == "pageup"@ ==> r is Some && r->0@ == seq![27u8, 91, 53, 126],
        ks.key@ == "pagedown"@ ==> r is Some && r->0@ == seq![27u8, 91, 54, 126],
{
    reveal_strlit("enter");
    reveal_strlit("backspace");
    reveal_strlit("delete");
    reveal_strlit("tab");
    reveal_strlit("escape");
    reveal_strlit("up");
    reveal_strlit("down");
    reveal_strlit("right");
    reveal_strlit("left");
    reveal_strlit("home");
    reveal_strlit("end");
    reveal_strlit("pageup");
    reveal_strlit("pagedown");
    assert("enter"@.len() == 5 && "enter"@[0] == 'e' && "enter"@[1] == 'n');
    assert("right"@.len() == 5 && "right"@[0] == 'r');
    assert("delete"@.len() == 6 && "delete"@[0] == 'd');
    assert("escape"@.len() == 6 && "escape"@[0] == 'e');
    assert("pageup"@.len() == 6 && "pageup"@[0] == 'p');
    assert("tab"@.len() == 3 && "tab"@[0] == 't');
    assert("end"@.len() == 3 && "end"@[0] == 'e');
    assert("down"@.len() == 4 && "down"@[0] == 'd');
    assert("left"@.len() == 4 && "left"@[0] == 'l');
    assert("home"@.len() == 4 && "home"@[0] == 'h');
    assert("up"@.len() == 2 && "backspace"@.len() == 9 && "pagedown"@.len() == 8);
}

/// A selection within one row is drawn from where it starts to where it ends. Over several rows the
/// first one is drawn to its end, the ones between whole and the last one from its beginning.
pub proof fn law_a_selection_covers_what_lies_between(
    sel: (usize, usize, usize, usize),
    cols: usize,
    spans: Vec<SelectionSpan>,
    i: int,
)
    requires
        call_ensures(selection_spans, (sel, cols), spans),
        sel.0 <= sel.2,
        sel.1 <= cols,
        sel.3 <= cols,
        0 <= i < spans@.len(),
    ensures
        spans@.len() == sel.2 - sel.0 + 1,
        spans@[i].row == sel.0 + i,
        sel.0 == sel.2 && sel.1 <= sel.3 ==> spans@[0].start == sel.1 && spans@[0].start
            + spans@[0].width == sel.3,
        sel.0 < sel.2 && i == 0 ==> spans@[i].start == sel.1 && spans@[i].start + spans@[i].width
            == cols,
        0 < i < spans@.len() - 1 ==> spans@[i].start == 0 && spans@[i].width == cols,
        sel.0 < sel.2 && i == spans@.len() - 1 ==> spans@[i].start == 0 && spans@[i].width
            == sel.3,
{
}

/// Closing a session ends that one and leaves the others in their order; where it was the last one
/// another is started in the project.
pub proof fn law_closing_a_session_leaves_the_others(p: &mut TerminalPanel, ix: usize, r: Closed, j: int)
    requires
        old(p).inv(),
        ix < old(p).tabs@.len(),
        call_ensures(TerminalPanel::close_session, (p, ix), r),
    ensures
        r.shutdown == Some(old(p).tabs@[ix as int].id),
        final(p).tabs@.len() == old(p).tabs@.len() - 1,
        0 <= j < ix ==> final(p).tabs@[j] == old(p).tabs@[j],
        ix <= j < final(p).tabs@.len() ==> final(p).tabs@[j] == old(p).tabs@[j + 1],
        old(p).active < final(p).tabs@.len() ==> final(p).active == old(p).active,
        final(p).tabs@.len() > 0 ==> final(p).active < final(p).tabs@.len() && r.spawn is None,
        final(p).tabs@.len() == 0 ==> (r.spawn matches Some(q) && q.cwd@ == old(p).project_root@),
{
}

/// A project shows its own session: the active one where it is of the project, else the first one of
/// the project, else a new one is started there.
pub proof fn law_a_project_shows_its_own_session(p: &mut TerminalPanel, root: String, q: Option<SpawnRequest>)
    requires
        old(p).inv(),
        call_ensures(TerminalPanel::set_project, (p, root), q),
    ensures
        final(p).project_root == root,
        final(p).tabs == old(p).tabs,
        q is None ==> final(p).active < final(p).tabs@.len() && path::same(
            final(p).tabs@[final(p).active as int].project_root@,
            root@,
        ),
        q matches Some(s) ==> s.cwd@ == root@ && forall|i: int|
            0 <= i < old(p).tabs@.len() ==> !path::same(
                (#[trigger] old(p).tabs@[i]).project_root@,
                root@,
            ),
{
    if q is Some {
        assert forall|i: int| 0 <= i < old(p).tabs@.len() implies !path::same(
            (#[trigger] old(p).tabs@[i]).project_root@,
            root@,
        ) by {
            assert(!tab_of(old(p).tabs@, root@, i));
        }
    }
}

/// A new session comes to the front, after the others, with a number that no other session has, and
/// is named by the project and its number.
pub proof fn law_a_new_session_comes_to_the_front(p: &mut TerminalPanel, id: Option<u64>, j: int)
    requires
        old(p).inv(),
        old(p).next_id < u64::MAX,
        call_ensures(TerminalPanel::session_spawned, (p, Ok(())), id),
        0 <= j < old(p).tabs@.len(),
    ensures
        id matches Some(n) && n != old(p).tabs@[j].id && final(p).tabs@.len() == old(p).tabs@.len()
            + 1 && final(p).active == old(p).tabs@.len() && final(p).tabs@.last().id == n
            && final(p).tabs@[j] == old(p).tabs@[j] && (path::shown_name(old(p).project_root@)
            + " ("@ + text::dec(n as nat)).is_prefix_of(final(p).tabs@.last().name@),
{
    assert(final(p).tabs@.drop_last()[j] == old(p).tabs@[j]);
    let n = id->0;
    let name = final(p).tabs@.last().name@;
    let head = path::shown_name(old(p).project_root@) + " ("@ + text::dec(n as nat);
    assert(name.take(head.len() as int) =~= head);
}

/// Keys reach the shell of a living session only; copying needs a selection, and pasting brings the
/// text of the clipboard.
pub proof fn law_keys_reach_a_living_session(
    p: &mut TerminalPanel,
    ks: Keystroke,
    selection: Option<String>,
    clipboard: Option<String>,
    r: KeyAction,
)
    requires
        old(p).inv(),
        call_ensures(TerminalPanel::on_key, (p, &ks, selection, clipboard), r),
    ensures
        old(p).tabs@.len() == 0 ==> r is Bubble,
        old(p).tabs@.len() > 0 && old(p).tabs@[old(p).active as int].exited ==> r is Bubble,
        r matches KeyAction::Copy(t) ==> selection == Some(t) && ks.modifiers.platform && ks.key@
            == "c"@,
        r matches KeyAction::Paste(t) ==> clipboard == t && ks.modifiers.platform && ks.key@
            == "v"@,
        r is Write ==> !ks.modifiers.platform,
        !final(p).cc_done,
        final(p).tabs == old(p).tabs && final(p).active == old(p).active,
{
}

/// A session fits the screen and has from 2 by 2 up to 500 by 100 cells.
pub proof fn law_sessions_fit_the_screen(cols: u16, rows: u16, grid: (u16, u16))
    requires
        call_ensures(fit_grid, (cols, rows), grid),
    ensures
        2 <= grid.0 <= 500 && 2 <= grid.1 <= 100,
        2 <= cols <= 500 ==> grid.0 == cols,
        2 <= rows <= 100 ==> grid.1 == rows,
        cols > 500 ==> grid.0 == 500,
        rows > 100 ==> grid.1 == 100,
{
}

/// What comes from a session is shown in its tab and in no other.
pub proof fn law_output_is_shown_in_its_own_tab(
    p: &mut TerminalPanel,
    id: u64,
    snap: TermSnapshot,
    exited: bool,
    now: u64,
    found: bool,
    j: int,
)
    requires
        old(p).inv(),
        call_ensures(TerminalPanel::pull, (p, id, snap, exited, now), found),
        0 <= j < old(p).tabs@.len(),
    ensures
        final(p).tabs@.len() == old(p).tabs@.len(),
        old(p).tabs@[j].id != id ==> final(p).tabs@[j] == old(p).tabs@[j],
        old(p).tabs@[j].id == id ==> final(p).tabs@[j].snap == snap && final(p).tabs@[j].exited
            == exited && final(p).tabs@[j].name == old(p).tabs@[j].name,
        final(p).active == old(p).active,
{
}

/// What was composed is sent once the input method is done with it, and only to a living session.
pub proof fn law_composed_text_is_sent_as_it_is(p: &mut TerminalPanel, t: &str, r: Option<Vec<u8>>)
    requires
        old(p).inv(),
        call_ensures(TerminalPanel::replace_text_in_range, (p, t), r),
    ensures
        r matches Some(b) ==> b@ == encode_utf8(t@),
        r is Some <==> old(p).tabs@.len() > 0 && !old(p).tabs@[old(p).active as int].exited,
        final(p).ime_marked@.len() == 0,
{
}

/// Given red, green and blue make the colour, each in eight bits.
pub proof fn law_given_colours_are_kept(red: u8, green: u8, blue: u8, c: u32, bg: Option<u32>)
    requires
        call_ensures(resolve_fg, (TermColor::Rgb(red, green, blue),), c),
        call_ensures(resolve_bg, (TermColor::Rgb(red, green, blue),), bg),
    ensures
        c == red * 0x10000 + green * 0x100 + blue,
        bg == Some(c),
{
}

/// Only what is dragged between a press on the shown session and the release selects.
pub proof fn law_dragging_needs_a_press(
    p: &mut TerminalPanel,
    q: &mut TerminalPanel,
    s: &mut TerminalPanel,
    on_cell: bool,
    start: Option<usize>,
    left_down: bool,
    drag: bool,
)
    requires
        old(p).inv(),
        !old(p).selecting,
        call_ensures(TerminalPanel::mouse_down, (p, on_cell), start),
        *old(q) == *final(p),
        call_ensures(TerminalPanel::mouse_move, (q, left_down), drag),
        *old(s) == *final(q),
        call_ensures(TerminalPanel::mouse_up, (s,), ()),
    ensures
        drag <==> start is Some && left_down,
        !on_cell ==> start is None,
        start matches Some(i) ==> i < old(p).tabs@.len() && path::same(
            old(p).tabs@[i as int].project_root@,
            old(p).project_root@,
        ),
        !final(s).selecting,
        !left_down ==> !final(q).selecting,
        final(s).tabs == old(p).tabs && final(s).active == old(p).active,
{
    if let Some(i) = start {
        assert(tab_of(old(p).tabs@, old(p).project_root@, i as int));
    }
}

/// A session is told its size once: the same size a second time is no news.
pub proof fn law_a_size_is_told_once(
    p: &mut TerminalPanel,
    q: &mut TerminalPanel,
    cols: u16,
    rows: u16,
    first: Option<u64>,
    second: Option<u64>,
    j: int,
)
    requires
        old(p).inv(),
        call_ensures(TerminalPanel::sync_grid, (p, cols, rows), first),
        *old(q) == *final(p),
        call_ensures(TerminalPanel::sync_grid, (q, cols, rows), second),
        0 <= j < old(p).tabs@.len(),
    ensures
        second is None,
        first matches Some(id) ==> id == old(p).tabs@[old(p).active as int].id,
        final(p).tabs@.len() == old(p).tabs@.len(),
        j == old(p).active ==> final(p).tabs@[j].grid == (cols, rows),
        j != old(p).active ==> final(p).tabs@[j] == old(p).tabs@[j],
        final(p).tabs@[j].id == old(p).tabs@[j].id && final(p).tabs@[j].exited
            == old(p).tabs@[j].exited,
{
}

/// Scrolling redraws the session in front alone.
pub proof fn law_scrolling_redraws_the_front(p: &mut TerminalPanel, snap: TermSnapshot, j: int)
    requires
        old(p).inv(),
        call_ensures(TerminalPanel::scrolled, (p, snap), ()),
        0 <= j < old(p).tabs@.len(),
    ensures
        final(p).tabs@.len() == old(p).tabs@.len(),
        j == old(p).active ==> final(p).tabs@[j].snap == snap,
        j != old(p).active ==> final(p).tabs@[j] == old(p).tabs@[j],
        final(p).tabs@[j].grid == old(p).tabs@[j].grid && final(p).tabs@[j].id
            == old(p).tabs@[j].id,
{
}

/// Starting again ends one session, of the open project where it has any, and begins one in its folder
/// with 80 columns and 12 rows; the others stay.
pub proof fn law_starting_again_replaces_one_session(p: &mut TerminalPanel, r: Closed, j: int)
    requires
        old(p).inv(),
        call_ensures(TerminalPanel::restart, (p,), r),
        0 <= j < old(p).tabs@.len(),
    ensures
        r.spawn matches Some(s) && s.cwd == old(p).project_root && s.cols == 80 && s.rows == 12,
        r.shutdown is Some,
        final(p).tabs@.len() == old(p).tabs@.len() - 1,
        final(p).tabs@.contains(old(p).tabs@[j]) || r.shutdown == Some(old(p).tabs@[j].id),
        path::same(old(p).tabs@[j].project_root@, old(p).project_root@) ==> exists|i: int|
            0 <= i < old(p).tabs@.len() && r.shutdown == Some((#[trigger] old(p).tabs@[i]).id)
                && path::same(old(p).tabs@[i].project_root@, old(p).project_root@),
{
    let id = r.shutdown->0;
    let all = old(p).tabs@;
    let root = old(p).project_root@;
    let i = choose|i: int|
        0 <= i < all.len() && (#[trigger] all[i]).id == id && (is_shown_tab(
            all,
            root,
            old(p).active as int,
            i,
        ) || (i == old(p).active && forall|j: int| !tab_of(all, root, j))) && final(p).tabs@
            == all.remove(i);
    let left = final(p).tabs@;
    if j < i {
        assert(left[j] == all[j]);
    } else if j > i {
        assert(left[j - 1] == all[j]);
    }
    if path::same(all[j].project_root@, root) {
        assert(tab_of(all, root, j));
        assert(tab_of(all, root, i));
    }
}

/// Composing replaces the part that lies between two places of what is being composed, and all of it
/// where none are given.
pub proof fn law_composing_replaces_a_part(
    p: &mut TerminalPanel,
    start: usize,
    end: usize,
    t: &str,
    j: int,
    k: int,
)
    requires
        old(p).inv(),
        0 <= j <= k <= old(p).ime_marked@.len(),
        start == utf16::units_of(old(p).ime_marked@.take(j)),
        end == utf16::units_of(old(p).ime_marked@.take(k)),
        call_ensures(
            TerminalPanel::replace_and_mark_text_in_range,
            (p, Some((start, end)), t),
            (),
        ),
    ensures
        final(p).ime_marked@ == old(p).ime_marked@.take(j) + t@ + old(p).ime_marked@.skip(k),
        final(p).tabs == old(p).tabs,
{
    let s = old(p).ime_marked@;
    lemma_place_of_units(s, j);
    lemma_place_of_units(s, k);
    let (a, b) = choose|a: int, b: int|
        #![trigger utf16::is_position(s, start as int, a), utf16::is_position(s, end as int, b)]
        utf16::is_position(s, start as int, a) && utf16::is_position(s, end as int, b) && a <= b
            && final(p).ime_marked@ == s.take(a) + t@ + s.skip(b);
    utf16::law_positions_keep_their_order(s, start as int, start as int, a, j);
    utf16::law_positions_keep_their_order(s, end as int, end as int, b, k);
}

proof fn lemma_place_of_units(s: Seq<char>, k: int)
    requires
        0 <= k <= s.len(),
    ensures
        utf16::is_position(s, utf16::units_of(s.take(k)) as int, k),
{
    if k < s.len() {
        assert(s.take(k + 1).drop_last() =~= s.take(k));
    }
}

/// What is being composed can be read back by the places of its ends.
pub proof fn law_composed_text_is_read_back(
    p: TerminalPanel,
    start: usize,
    end: usize,
    r: Option<(String, usize, usize)>,
    j: int,
    k: int,
)
    requires
        0 <= j <= k <= p.ime_marked@.len(),
        start == utf16::units_of(p.ime_marked@.take(j)),
        end == utf16::units_of(p.ime_marked@.take(k)),
        call_ensures(TerminalPanel::text_for_range, (&p, start, end), r),
    ensures
        r matches Some(x) && x.0@ == p.ime_marked@.subrange(j, k) && x.1 == start && x.2 == end,
{
    let s = p.ime_marked@;
    lemma_place_of_units(s, j);
    lemma_place_of_units(s, k);
    let (a, b) = choose|a: int, b: int|
        #![trigger utf16::is_position(s, start as int, a), utf16::is_position(s, end as int, b)]
        {
            &&& utf16::is_position(s, start as int, a)
            &&& utf16::is_position(s, end as int, b)
            &&& (r is Some <==> a <= b)
            &&& r matches Some(p) ==> p.0@ == s.subrange(a, b) && p.1 == utf16::units_of(s.take(a))
                && p.2 == utf16::units_of(s.take(b))
        };
    utf16::law_positions_keep_their_order(s, start as int, start as int, a, j);
    utf16::law_positions_keep_their_order(s, end as int, end as int, b, k);
}

/// Text is taken where a session is in front that has not ended.
pub proof fn law_ended_sessions_take_no_text(p: TerminalPanel, r: bool)
    requires
        p.inv(),
        call_ensures(TerminalPanel::accepts_text_input, (&p,), r),
    ensures
        p.tabs@.len() == 0 ==> !r,
        p.tabs@.len() > 0 ==> (r <==> !p.tabs@[p.active as int].exited),
{
}

/// The label tells how many lines one has scrolled back, and there is none at the end.
pub proof fn law_the_label_counts_lines_back(p: TerminalPanel, offset: usize, r: Option<String>)
    requires
        call_ensures(TerminalPanel::scrollback_label, (&p, offset), r),
    ensures
        offset == 0 ==> r is None,
        offset > 0 ==> r is Some && exists|a: Seq<char>, b: Seq<char>|
            r->0@ == #[trigger] (a + text::dec(offset as nat) + b),
{
    if offset > 0 {
        assert(r->0@ == "回看 -"@ + text::dec(offset as nat) + " 行"@);
    }
}

/// The sessions of the open project have a row each, in their order; those of other projects have none,
/// and one row is marked.
pub proof fn law_sessions_of_the_project_have_rows(p: TerminalPanel, rows: Vec<TermTabRow>, i: int, a: int, b: int)
    requires
        p.inv(),
        call_ensures(TerminalPanel::tab_rows, (&p,), rows),
        0 <= i < p.tabs@.len(),
        0 <= a < b < rows@.len(),
    ensures
        (exists|j: int| 0 <= j < rows@.len() && (#[trigger] rows@[j]).index == i) <==> path::same(
            p.tabs@[i].project_root@,
            p.project_root@,
        ),
        rows@[a].index < rows@[b].index < p.tabs@.len(),
        rows@[a].name@ == p.tabs@[rows@[a].index as int].name@,
        rows@[a].exited == p.tabs@[rows@[a].index as int].exited,
        !(rows@[a].selected && rows@[b].selected),
        path::same(p.tabs@[p.active as int].project_root@, p.project_root@) ==> (rows@[a].selected
            <==> rows@[a].index == p.active),
{
    let n = p.tabs@.len() as int;
    let root = p.project_root@;
    let all = project_tabs(p.tabs@, root, n);
    lemma_project_tabs(p.tabs@, root, n);
    assert(rows@[a].index == all[a] && rows@[b].index == all[b]);
    if tab_of(p.tabs@, root, i) {
        assert(all.contains(i));
        let j = all.index_of(i);
        assert(rows@[j].index == i);
    }
    if exists|j: int| 0 <= j < rows@.len() && (#[trigger] rows@[j]).index == i {
        let j = choose|j: int| 0 <= j < rows@.len() && (#[trigger] rows@[j]).index == i;
        assert(all[j] == i);
        assert(all.contains(i));
    }
    assert(all.contains(all[a]) && all.contains(all[b]));
    assert(tab_of(p.tabs@, root, all[a]) && tab_of(p.tabs@, root, all[b]));
}

proof fn lemma_project_tabs(tabs: Seq<TermTab>, root: Seq<char>, n: int)
    requires
        0 <= n <= tabs.len(),
    ensures
        ({
            let all = project_tabs(tabs, root, n);
            &&& forall|i: int|
                #[trigger] all.contains(i) <==> 0 <= i < n && tab_of(tabs, root, i)
            &&& forall|a: int, b: int| 0 <= a < b < all.len() ==> #[trigger] all[a] < #[trigger] all[b]
            &&& forall|a: int| 0 <= a < all.len() ==> 0 <= #[trigger] all[a] < n
        }),
    decreases n,
{
    if n > 0 {
        lemma_project_tabs(tabs, root, n - 1);
        let rest = project_tabs(tabs, root, n - 1);
        let all = project_tabs(tabs, root, n);
        assert forall|i: int| #[trigger] all.contains(i) <==> 0 <= i < n && tab_of(tabs, root, i) by {
            if rest.contains(i) {
                let k = rest.index_of(i);
                assert(all[k] == i);
            }
            if all.contains(i) {
                let k = all.index_of(i);
                if k < rest.len() {
                    assert(rest[k] == i);
                    assert(rest.contains(i));
                }
            }
            if i == n - 1 && tab_of(tabs, root, i) {
                assert(all[rest.len() as int] == i);
            }
        }
    }
}

} // verus!
