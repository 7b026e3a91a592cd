//! The central view: what it shows, and the cards of the dashboard.

use vstd::prelude::*;
use vstd::string::*;

use crate::card;
use crate::card::last_closed;
use crate::complete;
use crate::model;
use crate::state;
use crate::term::BlockRec;
use crate::text;

verus! {

/// What the user chose for the central view.
#[derive(Clone, Copy, PartialEq, Eq, Structural, Debug)]
pub enum CentralView {
    Terminal,
    /// The dashboard of one folder, or of every terminal.
    Dashboard(Option<u128>),
}

/// What the central view shows.
#[derive(Clone, Copy, PartialEq, Eq, Structural, Debug)]
pub enum Central {
    Dashboard(Option<u128>),
    /// No terminal at all: the launcher, in place.
    Launcher,
    /// No terminal selected.
    NothingSelected,
    /// The selected terminal is gone: nothing for this frame.
    Gone,
    Card(u128),
}

/// What the central view shows, of the terminals `known`.
pub fn central(view: CentralView, selected: Option<u128>, known: &Vec<u128>) -> (r: Central)
    ensures
        r == match view {
            CentralView::Dashboard(f) => Central::Dashboard(f),
            CentralView::Terminal => match selected {
                None => if known@.len() == 0 {
                    Central::Launcher
                } else {
                    Central::NothingSelected
                },
                Some(id) => if known@.contains(id) {
                    Central::Card(id)
                } else {
                    Central::Gone
                },
            },
        },
{
    match view {
        CentralView::Dashboard(f) => Central::Dashboard(f),
        CentralView::Terminal => match selected {
            None => if known.len() == 0 {
                Central::Launcher
            } else {
                Central::NothingSelected
            },
            Some(id) => {
                let mut i: usize = 0;
                while i < known.len()
                    invariant
                        i <= known@.len(),
                        view == CentralView::Terminal,
                        selected == Some(id),
                        forall|k: int| 0 <= k < i ==> known@[k] != id,
                    decreases known@.len() - i,
                {
                    if known[i] == id {
                        assert(known@[i as int] == id);
                        return Central::Card(id);
                    }
                    i = i + 1;
                }
                Central::Gone
            },
        },
    }
}

/// A terminal in the order of the sidebar.
#[derive(Clone, Copy, PartialEq, Eq, Structural, Debug)]
pub struct Row {
    pub id: u128,
    pub folder: Option<u128>,
}

/// The terminals of a folder, or all of them, in their order.
pub open spec fn scoped(rows: Seq<Row>, folder: Option<u128>) -> Seq<u128>
    decreases rows.len(),
{
    if rows.len() == 0 {
        Seq::empty()
    } else {
        let before = scoped(rows.drop_last(), folder);
        if folder is None || rows.last().folder == folder {
            before.push(rows.last().id)
        } else {
            before
        }
    }
}

/// The terminals that the dashboard shows.
pub fn dashboard_ids(rows: &Vec<Row>, folder: Option<u128>) -> (r: Vec<u128>)
    ensures
        r@ == scoped(rows@, folder),
{
    let mut out: Vec<u128> = Vec::new();
    let mut i: usize = 0;
    while i < rows.len()
        invariant
            i <= rows@.len(),
            out@ == scoped(rows@.take(i as int), folder),
        decreases rows@.len() - i,
    {
        assert(rows@.take(i + 1).drop_last() =~= rows@.take(i as int));
        if folder.is_none() || rows[i].folder == folder {
            out.push(rows[i].id);
        }
        i = i + 1;
    }
    assert(rows@.take(rows@.len() as int) =~= rows@);
    out
}

/// A dashboard shows a terminal exactly where the sidebar has it in scope.
pub proof fn dashboard_shows_what_is_in_scope(rows: Seq<Row>, folder: Option<u128>, id: u128)
    ensures
        scoped(rows, folder).contains(id) <==> exists|i: int|
            0 <= i < rows.len() && (#[trigger] rows[i]).id == id && (folder is None
                || rows[i].folder == folder),
    decreases rows.len(),
{
    if rows.len() > 0 {
        let last = rows.len() - 1;
        let before = scoped(rows.drop_last(), folder);
        let here = folder is None || rows.last().folder == folder;
        dashboard_shows_what_is_in_scope(rows.drop_last(), folder, id);
        if before.contains(id) {
            let i = choose|i: int|
                0 <= i < rows.drop_last().len() && (#[trigger] rows.drop_last()[i]).id == id && (
                folder is None || rows.drop_last()[i].folder == folder);
            assert(rows[i] == rows.drop_last()[i]);
            let k = choose|k: int| 0 <= k < before.len() && before[k] == id;
            assert(scoped(rows, folder)[k] == id);
        }
        if here && rows[last].id == id {
            assert(scoped(rows, folder).last() == id);
        }
        if scoped(rows, folder).contains(id) && !before.contains(id) {
            let k = choose|k: int|
                0 <= k < scoped(rows, folder).len() && scoped(rows, folder)[k] == id;
            if k < before.len() {
                assert(before[k] == id);
            }
            assert(rows[last].id == id);
        }
        assert forall|i: int|
            0 <= i < rows.len() && (#[trigger] rows[i]).id == id && (folder is None
                || rows[i].folder == folder) implies scoped(rows, folder).contains(id) by {
            if i < last {
                assert(rows.drop_last()[i] == rows[i]);
            }
        }
    }
}

/// A folder of terminals.
#[derive(Debug)]
pub struct Folder {
    pub id: u128,
    pub name: String,
}

/// The name of the first folder that is `id`.
pub open spec fn folder_name(folders: Seq<Folder>, id: u128) -> Seq<char>
    decreases folders.len(),
{
    if folders.len() == 0 {
        "Folder"@
    } else if folders[0].id == id {
        folders[0].name@
    } else {
        folder_name(folders.skip(1), id)
    }
}

/// What the dashboard is headed with.
pub fn scope_name(folders: &Vec<Folder>, folder: Option<u128>) -> (r: String)
    ensures
        r@ == match folder {
            Some(id) => folder_name(folders@, id),
            None => "All terminals"@,
        },
{
    match folder {
        None => "All terminals".to_owned(),
        Some(id) => {
            let mut i: usize = 0;
            assert(folders@.skip(0) =~= folders@);
            while i < folders.len()
                invariant
                    i <= folders@.len(),
                    folder == Some(id),
                    folder_name(folders@.skip(i as int), id) == folder_name(folders@, id),
                decreases folders@.len() - i,
            {
                assert(folders@.skip(i as int)[0] == folders@[i as int]);
                assert(folders@.skip(i as int).skip(1) =~= folders@.skip(i + 1));
                if folders[i].id == id {
                    return folders[i].name.clone();
                }
                i = i + 1;
            }
            "Folder".to_owned()
        },
    }
}

/// The line under a card's name: where the terminal is and what it last ran.
/// A `width` is the number of characters that its text is cut to.
#[derive(Debug)]
pub enum MetaLine {
    CwdAndCommand { cwd: String, width: usize, cmd: String },
    Cwd { cwd: String, width: usize },
    Command { cmd: String },
    Empty,
}

impl MetaLine {
    pub open spec fn says(
        self,
        at: Option<Seq<char>>,
        ran: Option<Seq<char>>,
        max_chars: usize,
    ) -> bool {
        match (at, ran) {
            (Some(c), Some(r)) => self matches MetaLine::CwdAndCommand { cwd, width, cmd } && cwd@
                == c && width == max_chars / 2 && cmd@ == r,
            (Some(c), None) => self matches MetaLine::Cwd { cwd, width } && cwd@ == c && width
                == max_chars,
            (None, Some(r)) => self matches MetaLine::Command { cmd } && cmd@ == r,
            (None, None) => self is Empty,
        }
    }
}

/// A directory that is known and not the empty text.
pub open spec fn known_cwd(cwd: Option<&str>) -> Option<Seq<char>> {
    match cwd {
        Some(c) if c@.len() > 0 => Some(c@),
        _ => None,
    }
}

/// The last command that finished.
pub open spec fn last_command(recs: Seq<BlockRec>) -> Option<Seq<char>> {
    let i = card::newest_closed(recs, recs.len() as int);
    if 0 <= i < recs.len() {
        Some(recs[i].cmd@)
    } else {
        None
    }
}

/// The line under the name of a card that is `max_chars` wide.
pub fn meta_line(cwd: Option<&str>, recs: &[BlockRec], max_chars: usize) -> (r: MetaLine)
    ensures
        r.says(known_cwd(cwd), last_command(recs@), max_chars),
{
    let at: Option<String> = match cwd {
        Some(c) => if c.unicode_len() > 0 {
            Some(c.to_owned())
        } else {
            None
        },
        None => None,
    };
    let ran: Option<String> = match last_closed(recs) {
        Some(i) => Some(recs[i].cmd.clone()),
        None => None,
    };
    match (at, ran) {
        (Some(c), Some(r)) => MetaLine::CwdAndCommand { cwd: c, width: max_chars / 2, cmd: r },
        (Some(c), None) => MetaLine::Cwd { cwd: c, width: max_chars },
        (None, Some(r)) => MetaLine::Command { cmd: r },
        (None, None) => MetaLine::Empty,
    }
}

/// A line's first characters.
pub open spec fn cut(s: Seq<char>, max_chars: usize) -> Seq<char> {
    if s.len() <= max_chars {
        s
    } else {
        s.take(max_chars as int)
    }
}

/// The lines, each cut.
pub open spec fn cuts(lines: Seq<Seq<char>>, max_chars: usize) -> Seq<Seq<char>> {
    Seq::new(lines.len(), |i: int| cut(lines[i], max_chars))
}

/// The text of a card's preview: its lines, none wider than the card.
pub fn preview_text(lines: &Vec<String>, max_chars: usize) -> (r: String)
    ensures
        r@ == model::joined(cuts(state::texts(lines@), max_chars)),
{
    let ghost all = cuts(state::texts(lines@), max_chars);
    let mut out: String = "".to_owned();
    proof {
        reveal_strlit("");
        assert(all.take(0) =~= Seq::<Seq<char>>::empty());
    }
    let mut i: usize = 0;
    while i < lines.len()
        invariant
            i <= lines@.len(),
            all == cuts(state::texts(lines@), max_chars),
            all.len() == lines@.len(),
            out@ == model::joined(all.take(i as int)),
        decreases lines@.len() - i,
    {
        let v = text::chars_of(lines[i].as_str());
        let n: usize = if v.len() <= max_chars {
            v.len()
        } else {
            max_chars
        };
        let line = text::string_of(&v, 0, n);
        assert(line@ =~= all[i as int]);
        assert(all.take(i + 1).drop_last() =~= all.take(i as int));
        if i > 0 {
            out.push('\n');
        }
        out.append(line.as_str());
        assert(out@ =~= model::joined(all.take(i + 1)));
        i = i + 1;
    }
    assert(all.take(all.len() as int) =~= all);
    out
}

/// What a click on a card asks for.
#[derive(Clone, Copy, PartialEq, Eq, Structural, Debug)]
pub enum CardAction {
    Select,
    Restore,
}

/// The words over a card under the pointer that bring its terminal back.
pub fn restore_words(dead: bool, asleep: bool, hovered: bool) -> (r: Option<String>)
    ensures
        complete::opt_text(r) == (if !dead || !hovered {
            None
        } else if asleep {
            Some("\u{21BB} Wake"@)
        } else {
            Some("\u{21BB} Restore"@)
        }),
{
    if !dead || !hovered {
        None
    } else if asleep {
        Some("\u{21BB} Wake".to_owned())
    } else {
        Some("\u{21BB} Restore".to_owned())
    }
}

/// What a click on a card asks for: its words bring the terminal back, the
/// rest of it selects the terminal.
pub fn card_action(clicked: bool, over_words: bool) -> (r: Option<CardAction>)
    ensures
        r == (if !clicked {
            None
        } else if over_words {
            Some(CardAction::Restore)
        } else {
            Some(CardAction::Select)
        }),
{
    if !clicked {
        None
    } else if over_words {
        Some(CardAction::Restore)
    } else {
        Some(CardAction::Select)
    }
}

} // verus!
