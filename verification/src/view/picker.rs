//! Choosing one entry from a list: the files of a directory, or the games of
//! a file.

use vstd::prelude::*;
use super::keys::{Key, KeyCode};
use super::layout::{at_most, centered, centred};

verus! {

/// What a key press asks of the caller.
#[derive(Debug, Clone, Copy, PartialEq, Eq, Structural)]
pub enum PickerAction {
    Continue,
    Choose(usize),
    Cancel,
}

/// A list with one selected row.
pub struct Picker {
    title: &'static str,
    items: Vec<String>,
    cursor: usize,
}

/// The last row of a list of `len` rows, or 0 for an empty list.
pub open spec fn last_row(len: nat) -> nat {
    if len == 0 { 0 } else { (len - 1) as nat }
}

/// How many rows to scroll past so that the selected row stays in view.
pub open spec fn picker_offset(cursor: nat, total: nat, visible: nat) -> nat {
    if total <= visible || visible == 0 {
        0
    } else {
        let back: nat = if cursor >= visible / 2 { (cursor - visible / 2) as nat } else { 0 };
        if back <= total - visible { back } else { (total - visible) as nat }
    }
}

/// Where the selection moves for a key, if the key is not one that ends the
/// choice.
pub open spec fn picker_step(cursor: nat, len: nat, key: Key) -> nat {
    if key.control {
        cursor
    } else {
        match key.code {
            KeyCode::Down | KeyCode::Char('j') => if cursor + 1 <= last_row(len) {
                cursor + 1
            } else {
                last_row(len)
            },
            KeyCode::Up | KeyCode::Char('k') => if cursor >= 1 { (cursor - 1) as nat } else { 0 },
            KeyCode::Char('g') => 0,
            KeyCode::Char('G') => last_row(len),
            _ => cursor,
        }
    }
}

/// What a key press in the picker asks for.
pub open spec fn picker_action(cursor: nat, key: Key) -> PickerAction {
    if key.control {
        if key.code == KeyCode::Char('c') {
            PickerAction::Cancel
        } else {
            PickerAction::Continue
        }
    } else {
        match key.code {
            KeyCode::Enter => PickerAction::Choose(cursor as usize),
            KeyCode::Char('q') | KeyCode::Esc => PickerAction::Cancel,
            _ => PickerAction::Continue,
        }
    }
}

impl Picker {
    /// The selected row always names an entry, or is 0 for an empty list.
    #[verifier::type_invariant]
    spec fn wf(&self) -> bool {
        self.cursor <= last_row(self.items@.len())
    }

    pub closed spec fn cursor_spec(&self) -> nat {
        self.cursor as nat
    }

    pub closed spec fn items_spec(&self) -> Seq<Seq<char>> {
        self.items.deep_view()
    }

    pub closed spec fn title_spec(&self) -> Seq<char> {
        self.title@
    }

    pub fn new(title: &'static str, items: Vec<String>) -> (p: Self)
        ensures
            p.cursor_spec() == 0,
            p.items_spec() == items.deep_view(),
            p.title_spec() == title@,
    {
        Picker { title, items, cursor: 0 }
    }

    /// The index of the selected entry: an entry of the list, or 0 when the
    /// list is empty.
    pub fn selected(&self) -> (i: usize)
        ensures
            i == self.cursor_spec(),
            i <= last_row(self.items_spec().len()),
            self.items_spec().len() > 0 ==> i < self.items_spec().len(),
    {
        proof {
            use_type_invariant(self);
        }
        self.cursor
    }

    /// How many entries the list holds.
    pub fn len(&self) -> (n: usize)
        ensures
            n == self.items_spec().len(),
    {
        self.items.len()
    }

    pub fn title(&self) -> (t: &'static str)
        ensures
            t@ == self.title_spec(),
    {
        self.title
    }

    /// Applies one key.
    ///
    /// In the list, up and down move between rows: unlike the board, there
    /// are no moves for them to be kept free for.
    pub fn apply(&mut self, key: Key) -> (action: PickerAction)
        ensures
            final(self).cursor_spec() <= last_row(final(self).items_spec().len()),
            final(self).items_spec() == old(self).items_spec(),
            final(self).title_spec() == old(self).title_spec(),
            action == picker_action(old(self).cursor_spec(), key),
            action is Continue ==> final(self).cursor_spec() == picker_step(
                old(self).cursor_spec(),
                old(self).items_spec().len(),
                key,
            ),
            !(action is Continue) ==> final(self).cursor_spec() == old(self).cursor_spec(),
    {
        proof {
            use_type_invariant(&*self);
        }
        let last = if self.items.len() == 0 { 0 } else { self.items.len() - 1 };
        if key.control {
            return if key.code == KeyCode::Char('c') {
                PickerAction::Cancel
            } else {
                PickerAction::Continue
            };
        }
        match key.code {
            KeyCode::Down | KeyCode::Char('j') => {
                self.cursor = if self.cursor < last { self.cursor + 1 } else { last };
            },
            KeyCode::Up | KeyCode::Char('k') => {
                self.cursor = if self.cursor >= 1 { self.cursor - 1 } else { 0 };
            },
            KeyCode::Char('g') => self.cursor = 0,
            KeyCode::Char('G') => self.cursor = last,
            KeyCode::Enter => return PickerAction::Choose(self.cursor),
            KeyCode::Char('q') | KeyCode::Esc => return PickerAction::Cancel,
            _ => {},
        }
        PickerAction::Continue
    }

    /// The rows to show in a window of `visible` rows: each entry indented by
    /// two spaces, with the selected one marked.
    pub fn visible_rows(&self, visible: usize) -> (rows: Vec<(String, bool)>)
        ensures
            ({
                let off = picker_offset(self.cursor_spec(), self.items_spec().len(), visible as nat);
                let n = self.items_spec().len();
                let end: int = if off + visible <= n { off + visible } else { n as int };
                &&& rows@.len() == end - off
                &&& forall|k: int|
                    0 <= k < rows@.len() ==> {
                        &&& (#[trigger] rows@[k]).0@ == seq![' ', ' '] + self.items_spec()[off + k]
                        &&& rows@[k].1 == (off + k == self.cursor_spec())
                    }
            }),
            self.items_spec().len() > 0 && visible > 0 ==> exists|k: int|
                0 <= k < rows@.len() && (#[trigger] rows@[k]).1 && rows@[k].0@ == seq![' ', ' ']
                    + self.items_spec()[self.cursor_spec() as int] && forall|j: int|
                    0 <= j < rows@.len() && j != k ==> !(#[trigger] rows@[j]).1,
    {
        proof {
            use_type_invariant(self);
        }
        let n = self.items.len();
        let off = scroll_offset(self.cursor, n, visible);
        let end = if visible <= n && off <= n - visible { off + visible } else { n };
        let mut rows: Vec<(String, bool)> = Vec::new();
        let mut i = off;
        while i < end
            invariant
                off <= i <= end <= n == self.items@.len(),
                off == picker_offset(self.cursor_spec(), n as nat, visible as nat),
                end == (if off + visible <= n { off + visible } else { n as int }),
                rows@.len() == i - off,
                forall|k: int|
                    0 <= k < rows@.len() ==> {
                        &&& (#[trigger] rows@[k]).0@ == seq![' ', ' '] + self.items_spec()[off + k]
                        &&& rows@[k].1 == (off + k == self.cursor_spec())
                    },
            decreases end - i,
        {
            let mut line = String::new();
            line.push(' ');
            line.push(' ');
            line.append(self.items[i].as_str());
            proof {
                assert(self.items_spec()[i as int] == self.items@[i as int]@);
                assert(line@ =~= seq![' ', ' '] + self.items_spec()[i as int]);
            }
            rows.push((line, i == self.cursor));
            i = i + 1;
        }
        proof {
            if n > 0 && visible > 0 {
                lemma_selection_visible(self.cursor as nat, n as nat, visible as nat);
                assert(rows@[self.cursor - off].1);
            }
        }
        rows
    }
}

/// How many entries a window shows when the screen is `area_height` rows
/// high: the box takes the list and its two borders, as far as the screen
/// allows.
pub open spec fn shown_count(len: nat, area_height: nat) -> nat {
    if area_height < 2 {
        0
    } else if len <= area_height - 2 {
        len
    } else {
        (area_height - 2) as nat
    }
}

/// The box of a list of `len` entries on a screen area at (`x`, `y`) of
/// `area_width` by `area_height`: four columns narrower than the area, as
/// high as the entries it shows and its two borders, in the middle.
pub open spec fn list_box(x: nat, y: nat, area_width: nat, area_height: nat, len: nat) -> (
    nat,
    nat,
    nat,
    nat,
) {
    let width: nat = if area_width >= 4 { (area_width - 4) as nat } else { 0 };
    centred(x, y, area_width, area_height, width, at_most(len + 2, area_height))
}

/// Where the box of a list of `len` entries stands: its left, top, width
/// and height. Inside its borders it has room for `visible_count(len,
/// area_height)` rows.
pub fn list_area(x: u16, y: u16, area_width: u16, area_height: u16, len: usize) -> (r: (
    u16,
    u16,
    u16,
    u16,
))
    requires
        x + area_width <= u16::MAX,
        y + area_height <= u16::MAX,
    ensures
        (r.0 as nat, r.1 as nat, r.2 as nat, r.3 as nat) == list_box(
            x as nat,
            y as nat,
            area_width as nat,
            area_height as nat,
            len as nat,
        ),
        r.3 as nat == at_most(len as nat + 2, area_height as nat),
        area_height >= 2 ==> r.3 - 2 == shown_count(len as nat, area_height as nat),
{
    let width = if area_width >= 4 { area_width - 4 } else { 0 };
    let height = if len <= area_height as usize && area_height as usize - len >= 2 {
        (len + 2) as u16
    } else {
        area_height
    };
    centered(x, y, area_width, area_height, width, height)
}

/// How many entries of a list of `len` fit on a screen `area_height` rows
/// high, inside the box's borders.
pub fn visible_count(len: usize, area_height: u16) -> (n: usize)
    ensures
        n == shown_count(len as nat, area_height as nat),
{
    if area_height < 2 {
        0
    } else {
        let room = (area_height - 2) as usize;
        if len <= room { len } else { room }
    }
}

/// How many rows to scroll past so that the selected row stays in view: the
/// selection sits in the middle of the window, except near either end.
pub fn scroll_offset(cursor: usize, total: usize, visible: usize) -> (off: usize)
    ensures
        off == picker_offset(cursor as nat, total as nat, visible as nat),
        off <= total,
        total > visible ==> off + visible <= total,
{
    if total <= visible || visible == 0 {
        return 0;
    }
    let back = if cursor >= visible / 2 { cursor - visible / 2 } else { 0 };
    if back <= total - visible { back } else { total - visible }
}

/// Wherever the selection is, the window of rows shown contains it.
pub proof fn lemma_selection_visible(cursor: nat, total: nat, visible: nat)
    requires
        cursor < total,
        visible > 0,
    ensures
        picker_offset(cursor, total, visible) <= cursor < picker_offset(cursor, total, visible)
            + visible,
{
}

} // verus!
