//! The menu screens of the setup application: a main menu, a boot menu, and
//! a screen of CMOS settings, each moved by keys.
use vstd::prelude::*;

use crate::key::Key;

verus! {

/// Entries of the main menu: Continue, Boot Menu, Settings.
pub const MAIN_ENTRIES: usize = 3;

/// Longest boot option description, in UTF-16 units.
pub const MAX_DESCRIPTION: usize = 2048;

/// Which screen comes after a key press.
#[derive(Clone, Copy, Debug, PartialEq, Eq, Structural)]
pub enum ScreenChange {
    /// The same screen stays.
    Stay,
    /// The main menu, with this row highlighted.
    Main(usize),
    /// The boot menu.
    Boot,
    /// The settings screen.
    Settings,
    /// Leave the setup application.
    Exit,
}

/// Row after Up: one up, unless on the first.
pub open spec fn row_up(row: nat) -> nat {
    if row > 0 { (row - 1) as nat } else { row }
}

/// Row after Down among `n` rows: one down, unless on the last.
pub open spec fn row_down(row: nat, n: nat) -> nat {
    if row + 1 < n { row + 1 } else { row }
}

/// The main menu.
pub struct MainScreen {
    row: usize,
}

impl MainScreen {
    pub closed spec fn row_spec(&self) -> nat {
        self.row as nat
    }

    /// The main menu with `row` highlighted, or the first row when there is
    /// no such row.
    pub fn new(row: usize) -> (r: MainScreen)
        ensures
            r.row_spec() == if row < MAIN_ENTRIES { row as nat } else { 0 },
    {
        if row < MAIN_ENTRIES {
            MainScreen { row }
        } else {
            MainScreen { row: 0 }
        }
    }

    pub fn row(&self) -> (r: usize)
        ensures
            r == self.row_spec(),
    {
        self.row
    }

    /// Up and Down move the highlight; Enter opens the boot menu or the
    /// settings; Escape leaves.
    pub fn key(&mut self, k: Key) -> (r: ScreenChange)
        requires
            old(self).row_spec() < MAIN_ENTRIES,
        ensures
            final(self).row_spec() < MAIN_ENTRIES,
            k == Key::Up ==> final(self).row_spec() == row_up(old(self).row_spec()) && r == ScreenChange::Stay,
            k == Key::Down ==> final(self).row_spec() == row_down(old(self).row_spec(), MAIN_ENTRIES as nat)
                && r == ScreenChange::Stay,
            k == Key::Enter ==> final(self).row_spec() == old(self).row_spec() && r == (
                if old(self).row_spec() == 1 { ScreenChange::Boot }
                else if old(self).row_spec() == 2 { ScreenChange::Settings }
                else { ScreenChange::Stay }),
            k == Key::Escape ==> r == ScreenChange::Exit,
            !(k == Key::Up || k == Key::Down || k == Key::Enter || k == Key::Escape)
                ==> final(self).row_spec() == old(self).row_spec() && r == ScreenChange::Stay,
    {
        match k {
            Key::Up => {
                if self.row > 0 {
                    self.row = self.row - 1;
                }
                ScreenChange::Stay
            },
            Key::Down => {
                if self.row + 1 < MAIN_ENTRIES {
                    self.row = self.row + 1;
                }
                ScreenChange::Stay
            },
            Key::Enter => {
                if self.row == 1 {
                    ScreenChange::Boot
                } else if self.row == 2 {
                    ScreenChange::Settings
                } else {
                    ScreenChange::Stay
                }
            },
            Key::Escape => ScreenChange::Exit,
            _ => ScreenChange::Stay,
        }
    }
}

/// Header of a boot option variable; its description follows it.
#[derive(Clone, Copy, Debug, PartialEq, Eq, Structural)]
pub struct LoadOption {
    pub attributes: u32,
    pub file_path_list_length: u16,
}

impl LoadOption {
    /// Length of the description in the UTF-16 units that follow the header:
    /// up to the first zero unit, and no longer than [`MAX_DESCRIPTION`].
    pub fn description_len(tail: &Vec<u16>) -> (r: usize)
        ensures
            r <= tail@.len(),
            r <= MAX_DESCRIPTION,
            forall|k: int| 0 <= k < r ==> tail@[k] != 0,
            r < tail@.len() && r < MAX_DESCRIPTION ==> tail@[r as int] == 0,
    {
        let mut len: usize = 0;
        while len < MAX_DESCRIPTION && len < tail.len()
            invariant
                len <= MAX_DESCRIPTION,
                len <= tail@.len(),
                forall|k: int| 0 <= k < len ==> tail@[k] != 0,
            decreases MAX_DESCRIPTION - len,
        {
            if tail[len] == 0 {
                return len;
            }
            len = len + 1;
        }
        len
    }
}

/// The boot menu: one row per boot option, with its name and description.
pub struct BootScreen {
    entries: Vec<(String, String)>,
    row: usize,
}

impl BootScreen {
    pub closed spec fn row_spec(&self) -> nat {
        self.row as nat
    }

    pub closed spec fn len_spec(&self) -> nat {
        self.entries@.len()
    }

    /// The boot menu over the given options, the first highlighted.
    pub fn new(entries: Vec<(String, String)>) -> (r: BootScreen)
        ensures
            r.row_spec() == 0,
            r.len_spec() == entries@.len(),
    {
        BootScreen { entries, row: 0 }
    }

    pub fn entries(&self) -> (r: &Vec<(String, String)>)
        ensures
            r@.len() == self.len_spec(),
    {
        &self.entries
    }

    pub fn row(&self) -> (r: usize)
        ensures
            r == self.row_spec(),
    {
        self.row
    }

    /// Up and Down move the highlight; Escape goes back to the main menu on
    /// its boot row.
    pub fn key(&mut self, k: Key) -> (r: ScreenChange)
        ensures
            final(self).len_spec() == old(self).len_spec(),
            k == Key::Up ==> final(self).row_spec() == row_up(old(self).row_spec()) && r == ScreenChange::Stay,
            k == Key::Down ==> final(self).row_spec() == row_down(old(self).row_spec(), old(self).len_spec())
                && r == ScreenChange::Stay,
            k == Key::Escape ==> r == ScreenChange::Main(1),
            !(k == Key::Up || k == Key::Down || k == Key::Escape)
                ==> final(self).row_spec() == old(self).row_spec() && r == ScreenChange::Stay,
    {
        match k {
            Key::Up => {
                if self.row > 0 {
                    self.row = self.row - 1;
                }
                ScreenChange::Stay
            },
            Key::Down => {
                if self.entries.len() > 0 && self.row < self.entries.len() - 1 {
                    self.row = self.row + 1;
                }
                ScreenChange::Stay
            },
            Key::Escape => ScreenChange::Main(1),
            _ => ScreenChange::Stay,
        }
    }
}

/// A CMOS option: its name, configuration id, current value and largest value.
#[derive(Clone, Copy, Debug, PartialEq, Eq, Structural)]
pub struct SettingEntry {
    pub config_id: u32,
    pub value: u32,
    pub max: u32,
}

/// A named value of an enumerated CMOS option.
pub struct CmosChoice {
    pub config_id: u32,
    pub text: String,
    pub value: u32,
}

/// The settings screen: a row per CMOS option, and a column for its name or
/// its value.
pub struct SettingScreen {
    names: Vec<String>,
    entries: Vec<SettingEntry>,
    choices: Vec<CmosChoice>,
    row: usize,
    column: usize,
}

/// What a [`SettingScreen`] holds, as plain values.
pub struct SettingView {
    pub entries: Seq<SettingEntry>,
    pub row: nat,
    pub column: nat,
}

/// The settings screen after one key.
pub open spec fn setting_step(s: SettingView, k: Key) -> (SettingView, ScreenChange) {
    let n = s.entries.len();
    let r = s.row as int;
    if k == Key::Up && s.row > 0 {
        (SettingView { row: (s.row - 1) as nat, ..s }, ScreenChange::Stay)
    } else if k == Key::Down && s.row + 1 < n {
        (SettingView { row: s.row + 1, ..s }, ScreenChange::Stay)
    } else if k == Key::Left && s.column > 0 {
        (SettingView { column: (s.column - 1) as nat, ..s }, ScreenChange::Stay)
    } else if k == Key::Right && s.column < 1 {
        (SettingView { column: s.column + 1, ..s }, ScreenChange::Stay)
    } else if k == Key::Enter && s.column == 0 {
        (SettingView { column: 1, ..s }, ScreenChange::Stay)
    } else if k == Key::Escape && s.column == 0 {
        (s, ScreenChange::Main(2))
    } else if k == Key::Escape {
        (SettingView { column: (s.column - 1) as nat, ..s }, ScreenChange::Stay)
    } else if k == Key::PageUp && s.row < n && s.entries[r].value > 0 {
        (SettingView {
            entries: s.entries.update(r, SettingEntry { value: (s.entries[r].value - 1) as u32, ..s.entries[r] }),
            ..s
        }, ScreenChange::Stay)
    } else if k == Key::PageDown && s.row < n && s.entries[r].value < s.entries[r].max {
        (SettingView {
            entries: s.entries.update(r, SettingEntry { value: (s.entries[r].value + 1) as u32, ..s.entries[r] }),
            ..s
        }, ScreenChange::Stay)
    } else {
        (s, ScreenChange::Stay)
    }
}

impl View for SettingScreen {
    type V = SettingView;

    closed spec fn view(&self) -> SettingView {
        SettingView { entries: self.entries@, row: self.row as nat, column: self.column as nat }
    }
}

impl SettingScreen {
    pub closed spec fn names_spec(&self) -> Seq<String> {
        self.names@
    }

    pub closed spec fn choices_spec(&self) -> Seq<CmosChoice> {
        self.choices@
    }

    /// The settings screen over options with the given names, values and
    /// named choices; the first option's name highlighted.
    pub fn new(names: Vec<String>, entries: Vec<SettingEntry>, choices: Vec<CmosChoice>) -> (r: SettingScreen)
        requires
            names@.len() == entries@.len(),
        ensures
            r@.entries == entries@,
            r@.row == 0,
            r@.column == 0,
            r.names_spec() == names@,
            r.choices_spec() == choices@,
    {
        SettingScreen { names, entries, choices, row: 0, column: 0 }
    }

    pub fn names(&self) -> (r: &Vec<String>)
        ensures
            r@ == self.names_spec(),
    {
        &self.names
    }

    pub fn entries(&self) -> (r: &Vec<SettingEntry>)
        ensures
            r@ == self@.entries,
    {
        &self.entries
    }

    pub fn row(&self) -> (r: usize)
        ensures
            r == self@.row,
    {
        self.row
    }

    pub fn column(&self) -> (r: usize)
        ensures
            r == self@.column,
    {
        self.column
    }

    /// The first choice that names the current value of option `i`.
    pub fn choice_for(&self, i: usize) -> (r: Option<usize>)
        requires
            i < self@.entries.len(),
        ensures
            r matches Some(c) ==> c < self.choices_spec().len()
                && self.choices_spec()[c as int].config_id == self@.entries[i as int].config_id
                && self.choices_spec()[c as int].value == self@.entries[i as int].value
                && forall|d: int| 0 <= d < c ==> !(#[trigger] self.choices_spec()[d].config_id == self@.entries[i as int].config_id
                    && self.choices_spec()[d].value == self@.entries[i as int].value),
            r is None ==> forall|d: int| 0 <= d < self.choices_spec().len()
                ==> !(#[trigger] self.choices_spec()[d].config_id == self@.entries[i as int].config_id
                    && self.choices_spec()[d].value == self@.entries[i as int].value),
    {
        let e = self.entries[i];
        let mut c: usize = 0;
        while c < self.choices.len()
            invariant
                e == self@.entries[i as int],
                forall|d: int| 0 <= d < c ==> !(#[trigger] self.choices@[d].config_id == e.config_id
                    && self.choices@[d].value == e.value),
            decreases self.choices@.len() - c,
        {
            if self.choices[c].config_id == e.config_id && self.choices[c].value == e.value {
                return Some(c);
            }
            c = c + 1;
        }
        None
    }

    /// Up and Down change the row, Left and Right the column; Enter and
    /// Escape step into and out of the value column, Escape on the name
    /// column goes back to the main menu; PageUp and PageDown lower and raise
    /// the value within its bounds.
    pub fn key(&mut self, k: Key) -> (r: ScreenChange)
        ensures
            (final(self)@, r) == setting_step(old(self)@, k),
            final(self).names_spec() == old(self).names_spec(),
            final(self).choices_spec() == old(self).choices_spec(),
    {
        let n = self.entries.len();
        if k == Key::Up && self.row > 0 {
            self.row = self.row - 1;
            ScreenChange::Stay
        } else if k == Key::Down && n > 0 && self.row < n - 1 {
            self.row = self.row + 1;
            ScreenChange::Stay
        } else if k == Key::Left && self.column > 0 {
            self.column = self.column - 1;
            ScreenChange::Stay
        } else if k == Key::Right && self.column < 1 {
            self.column = self.column + 1;
            ScreenChange::Stay
        } else if k == Key::Enter && self.column == 0 {
            self.column = 1;
            ScreenChange::Stay
        } else if k == Key::Escape && self.column == 0 {
            ScreenChange::Main(2)
        } else if k == Key::Escape {
            self.column = self.column - 1;
            ScreenChange::Stay
        } else if k == Key::PageUp && self.row < n && self.entries[self.row].value > 0 {
            let mut e = self.entries[self.row];
            e.value = e.value - 1;
            self.entries.set(self.row, e);
            ScreenChange::Stay
        } else if k == Key::PageDown && self.row < n && self.entries[self.row].value < self.entries[self.row].max {
            let mut e = self.entries[self.row];
            e.value = e.value + 1;
            self.entries.set(self.row, e);
            ScreenChange::Stay
        } else {
            ScreenChange::Stay
        }
    }
}

} // verus!
