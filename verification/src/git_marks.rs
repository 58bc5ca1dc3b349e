//! Which files of a project are marked as changed.
use vstd::prelude::*;

use crate::git_panel;
use crate::git_panel::{GitChange, Tone};
use crate::text;

verus! {

/// The mark of a status: its first character.
pub open spec fn mark_of(status: Seq<char>) -> char {
    if status.len() > 0 {
        status[0]
    } else {
        ' '
    }
}

/// The mark of the file `abs`: that of its first change.
pub open spec fn mark_in(changes: Seq<GitChange>, abs: Seq<char>) -> Option<char>
    decreases changes.len(),
{
    if changes.len() == 0 {
        None
    } else {
        match mark_in(changes.drop_last(), abs) {
            Some(m) => Some(m),
            None => if git_panel::abs_of(changes.last()) == abs {
                Some(mark_of(changes.last().status@))
            } else {
                None
            },
        }
    }
}

/// The marks of the changed files, by their paths.
pub struct GitMarks {
    pub entries: Vec<(String, char)>,
}

/// The mark of `abs` among entries.
pub open spec fn entry_mark(entries: Seq<(String, char)>, abs: Seq<char>) -> Option<char>
    decreases entries.len(),
{
    if entries.len() == 0 {
        None
    } else {
        match entry_mark(entries.drop_last(), abs) {
            Some(m) => Some(m),
            None => if entries.last().0@ == abs {
                Some(entries.last().1)
            } else {
                None
            },
        }
    }
}

impl View for GitMarks {
    type V = spec_fn(Seq<char>) -> Option<char>;

    open spec fn view(&self) -> spec_fn(Seq<char>) -> Option<char> {
        |abs: Seq<char>| entry_mark(self.entries@, abs)
    }
}

impl GitMarks {
    /// No marks.
    pub fn new() -> (m: Self)
        ensures
            forall|abs: Seq<char>| #[trigger] (m@)(abs) is None,
    {
        GitMarks { entries: Vec::new() }
    }

    /// The mark of the file `abs`.
    pub fn get(&self, abs: &str) -> (r: Option<char>)
        ensures
            r == (self@)(abs@),
    {
        let mut i: usize = 0;
        assert(self.entries@.take(0) =~= Seq::<(String, char)>::empty());
        while i < self.entries.len()
            invariant
                i <= self.entries@.len(),
                entry_mark(self.entries@.take(i as int), abs@) is None,
            decreases self.entries@.len() - i,
        {
            proof {
                assert(self.entries@.take(i + 1).drop_last() =~= self.entries@.take(i as int));
                assert(self.entries@.take(i + 1).last() == self.entries@[i as int]);
            }
            if text::str_eq(self.entries[i].0.as_str(), abs) {
                proof {
                    lemma_entry_stays(self.entries@, i + 1, abs@);
                }
                return Some(self.entries[i].1);
            }
            i += 1;
        }
        assert(self.entries@.take(self.entries@.len() as int) =~= self.entries@);
        None
    }
}

proof fn lemma_entry_stays(entries: Seq<(String, char)>, n: int, abs: Seq<char>)
    requires
        0 <= n <= entries.len(),
        entry_mark(entries.take(n), abs) is Some,
    ensures
        entry_mark(entries, abs) == entry_mark(entries.take(n), abs),
    decreases entries.len() - n,
{
    if n < entries.len() {
        assert(entries.take(n + 1).drop_last() =~= entries.take(n));
        lemma_entry_stays(entries, n + 1, abs);
    } else {
        assert(entries.take(n) =~= entries);
    }
}

/// The marks for a list of changes: where a file has several, the first counts.
pub fn marks_of(changes: &Vec<GitChange>) -> (m: GitMarks)
    ensures
        forall|abs: Seq<char>| #[trigger] (m@)(abs) == mark_in(changes@, abs),
{
    let mut entries: Vec<(String, char)> = Vec::new();
    let mut i: usize = 0;
    assert(changes@.take(0) =~= Seq::<GitChange>::empty());
    while i < changes.len()
        invariant
            i <= changes@.len(),
            forall|abs: Seq<char>| #[trigger] entry_mark(entries@, abs) == mark_in(
                changes@.take(i as int),
                abs,
            ),
        decreases changes@.len() - i,
    {
        let ghost prev = entries@;
        let abs = git_panel::change_abs(&changes[i]);
        let mark = match text::first_char(changes[i].status.as_str()) {
            Some(c) => c,
            None => ' ',
        };
        let ghost a = abs@;
        entries.push((abs, mark));
        proof {
            assert(entries@.drop_last() =~= prev);
            assert(changes@.take(i + 1).drop_last() =~= changes@.take(i as int));
            assert(changes@.take(i + 1).last() == changes@[i as int]);
            assert forall|q: Seq<char>| #[trigger] entry_mark(entries@, q) == mark_in(
                changes@.take(i + 1),
                q,
            ) by {
                assert(entry_mark(prev, q) == mark_in(changes@.take(i as int), q));
            }
        }
        i += 1;
    }
    assert(changes@.take(changes@.len() as int) =~= changes@);
    let m = GitMarks { entries };
    assert forall|abs: Seq<char>| #[trigger] (m@)(abs) == mark_in(changes@, abs) by {
        assert((m@)(abs) == entry_mark(m.entries@, abs));
    }
    m
}

/// A file has a mark exactly where it has a change.
pub proof fn law_changed_files_are_marked(changes: Seq<GitChange>, abs: Seq<char>)
    ensures
        mark_in(changes, abs) is Some <==> git_panel::has_change(changes, abs),
    decreases changes.len(),
{
    if changes.len() > 0 {
        law_changed_files_are_marked(changes.drop_last(), abs);
        if git_panel::has_change(changes, abs) {
            let i = choose|i: int|
                0 <= i < changes.len() && git_panel::abs_of(#[trigger] changes[i]) == abs;
            if i < changes.len() - 1 {
                assert(changes.drop_last()[i] == changes[i]);
            }
        }
        if git_panel::has_change(changes.drop_last(), abs) {
            let i = choose|i: int|
                0 <= i < changes.len() - 1 && git_panel::abs_of(
                    #[trigger] changes.drop_last()[i],
                ) == abs;
            assert(changes[i] == changes.drop_last()[i]);
        }
        if git_panel::abs_of(changes.last()) == abs {
            assert(changes[changes.len() - 1] == changes.last());
        }
    }
}

/// The colour of a marked file's name and of its badge.
pub open spec fn mark_tone(mark: char) -> Option<Tone> {
    if mark == 'M' || mark == 'R' {
        Some(Tone::Warning)
    } else if mark == 'A' || mark == 'U' {
        Some(Tone::Success)
    } else if mark == 'D' {
        Some(Tone::Danger)
    } else {
        None
    }
}

/// The colour for a mark.
pub fn tone_for(mark: char) -> (r: Option<Tone>)
    ensures
        r == mark_tone(mark),
{
    if mark == 'M' || mark == 'R' {
        Some(Tone::Warning)
    } else if mark == 'A' || mark == 'U' {
        Some(Tone::Success)
    } else if mark == 'D' {
        Some(Tone::Danger)
    } else {
        None
    }
}

/// How the name of a file in the tree is coloured.
#[derive(Clone, Copy, Debug, PartialEq, Eq, Structural)]
pub enum NameColor {
    Marked(Tone),
    Muted,
    Plain,
}

/// How a row of the tree looks.
pub struct RowStyle {
    /// The sign of a directory: open or closed.
    pub fold: Option<char>,
    pub name: NameColor,
    /// The mark and its colour.
    pub badge: Option<(char, Tone)>,
    /// Belongs to the common selection.
    pub in_multi: bool,
}

/// How the row of a directory looks.
pub fn folder_row(expanded: bool, in_multi: bool) -> (s: RowStyle)
    ensures
        s == (RowStyle {
            fold: Some(
                if expanded {
                    '▾'
                } else {
                    '▸'
                },
            ),
            name: NameColor::Plain,
            badge: None,
            in_multi,
        }),
{
    RowStyle {
        fold: Some(
            if expanded {
                '▾'
            } else {
                '▸'
            },
        ),
        name: NameColor::Plain,
        badge: None,
        in_multi,
    }
}

/// How the row of a file looks: its mark colours it; a file of a minor kind is muted.
pub open spec fn file_style(mark: Option<char>, dim: bool, in_multi: bool) -> RowStyle {
    let tone = match mark {
        Some(m) => mark_tone(m),
        None => None,
    };
    RowStyle {
        fold: None,
        name: match tone {
            Some(t) => NameColor::Marked(t),
            None => if dim {
                NameColor::Muted
            } else {
                NameColor::Plain
            },
        },
        badge: match tone {
            Some(t) => Some((mark->0, t)),
            None => None,
        },
        in_multi,
    }
}

/// How the row of a file looks.
pub fn file_row(mark: Option<char>, dim: bool, in_multi: bool) -> (s: RowStyle)
    ensures
        s == file_style(mark, dim, in_multi),
{
    let plain = if dim {
        NameColor::Muted
    } else {
        NameColor::Plain
    };
    match mark {
        Some(m) => match tone_for(m) {
            Some(t) => RowStyle {
                fold: None,
                name: NameColor::Marked(t),
                badge: Some((m, t)),
                in_multi,
            },
            None => RowStyle { fold: None, name: plain, badge: None, in_multi },
        },
        None => RowStyle { fold: None, name: plain, badge: None, in_multi },
    }
}

/// A file is marked with the first letter of what happened to it; of several changes of one file the
/// first one counts, and a file without a change is not marked.
pub proof fn law_the_first_change_marks_a_file(changes: Vec<GitChange>, m: GitMarks, abs: Seq<char>, i: int)
    requires
        call_ensures(marks_of, (&changes,), m),
        0 <= i < changes@.len(),
        crate::path::joined_path(changes@[i].repo@, changes@[i].path@) == abs,
        forall|j: int|
            0 <= j < i ==> crate::path::joined_path((#[trigger] changes@[j]).repo@, changes@[j].path@) != abs,
        changes@[i].status@.len() > 0,
    ensures
        (m@)(abs) == Some(changes@[i].status@[0]),
{
    lemma_first_mark(changes@, abs, i);
}

proof fn lemma_first_mark(changes: Seq<GitChange>, abs: Seq<char>, i: int)
    requires
        0 <= i < changes.len(),
        git_panel::abs_of(changes[i]) == abs,
        forall|j: int|
            0 <= j < i ==> crate::path::joined_path((#[trigger] changes[j]).repo@, changes[j].path@) != abs,
    ensures
        mark_in(changes, abs) == Some(mark_of(changes[i].status@)),
    decreases changes.len(),
{
    let init = changes.drop_last();
    if i < init.len() {
        assert(init[i] == changes[i]);
        assert forall|j: int| 0 <= j < i implies crate::path::joined_path(
            (#[trigger] init[j]).repo@,
            init[j].path@,
        ) != abs by {
            assert(init[j] == changes[j]);
        }
        lemma_first_mark(init, abs, i);
    } else {
        lemma_no_mark(init, abs);
    }
}

proof fn lemma_no_mark(changes: Seq<GitChange>, abs: Seq<char>)
    requires
        forall|j: int|
            0 <= j < changes.len() ==> crate::path::joined_path(
                (#[trigger] changes[j]).repo@,
                changes[j].path@,
            ) != abs,
    ensures
        mark_in(changes, abs) is None,
    decreases changes.len(),
{
    if changes.len() > 0 {
        let init = changes.drop_last();
        assert(git_panel::abs_of(changes[changes.len() - 1]) != abs);
        assert forall|j: int| 0 <= j < init.len() implies crate::path::joined_path(
            (#[trigger] init[j]).repo@,
            init[j].path@,
        ) != abs by {
            assert(init[j] == changes[j]);
        }
        lemma_no_mark(init, abs);
    }
}

/// A changed file is drawn in the colour of its mark, with the mark beside it; new files as gains and
/// deleted ones as losses. A file without a mark has no badge.
pub proof fn law_marks_colour_the_names(mark: char, dim: bool, in_multi: bool, marked: RowStyle, plain: RowStyle)
    requires
        call_ensures(file_row, (Some(mark), dim, in_multi), marked),
        call_ensures(file_row, (None, dim, in_multi), plain),
    ensures
        mark == 'A' || mark == 'U' ==> marked.name == NameColor::Marked(Tone::Success)
            && marked.badge == Some((mark, Tone::Success)),
        mark == 'D' ==> marked.name == NameColor::Marked(Tone::Danger) && marked.badge == Some(
            (mark, Tone::Danger),
        ),
        mark == 'M' || mark == 'R' ==> marked.name == NameColor::Marked(Tone::Warning)
            && marked.badge == Some((mark, Tone::Warning)),
        plain.badge is None,
        plain.name == (if dim {
            NameColor::Muted
        } else {
            NameColor::Plain
        }),
        marked.in_multi == in_multi && plain.in_multi == in_multi,
        marked.fold is None && plain.fold is None,
{
}

/// The arrow of a folder points down where it is open and to its right where it is not.
pub proof fn law_arrows_tell_open_folders(in_multi: bool, open: RowStyle, closed: RowStyle)
    requires
        call_ensures(folder_row, (true, in_multi), open),
        call_ensures(folder_row, (false, in_multi), closed),
    ensures
        open.fold == Some('▾'),
        closed.fold == Some('▸'),
        open.badge is None && closed.badge is None,
        open.in_multi == in_multi,
{
}

} // verus!
