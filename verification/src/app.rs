use vstd::prelude::*;

use crate::error::ErrorKind;
use crate::updater::is_installed;
use vstd::arithmetic::div_mod::{lemma_fundamental_div_mod, lemma_fundamental_div_mod_converse_mod};
use vstd::arithmetic::mul::lemma_mul_is_distributive_add_other_way;

verus! {

/// Whether keystrokes move through the menu or edit the custom hosts path.
#[derive(Debug, Clone, Copy, PartialEq, Eq, Structural)]
pub enum InputMode {
    Normal,
    Editing,
}

/// The message box shown over the menu.
#[derive(Debug)]
pub enum Status {
    Error(ErrorKind),
    InstallSuccess(String),
    RemoveSuccess(String),
}

impl Status {
    /// A box that asks the user to confirm (Enter) or cancel (Esc).
    pub open spec fn is_confirmation(self) -> bool {
        self is InstallSuccess || self is RemoveSuccess
    }
}

/// Which row of the menu table is highlighted, if any.
#[derive(Debug, Clone, Copy, PartialEq, Eq, Structural)]
pub struct TableState {
    pub selected: Option<usize>,
}

/// The state that the screen shows.
pub struct App<'a> {
    pub state: TableState,
    pub input: String,
    pub input_mode: InputMode,
    pub items: Vec<Vec<&'a str>>,
    pub installed: bool,
    pub status: Option<Status>,
}

/// The row that `next` highlights, given the highlighted row and the number of rows:
/// one further down, wrapping from the last row to the first.
pub open spec fn next_index(selected: Option<usize>, len: nat) -> usize {
    match selected {
        Some(i) => if i >= len - 1 { 0 } else { (i + 1) as usize },
        None => 0,
    }
}

/// The row that `previous` highlights: one further up, wrapping from the first
/// row to the last.
pub open spec fn previous_index(selected: Option<usize>, len: nat) -> usize {
    match selected {
        Some(i) => if i == 0 { (len - 1) as usize } else { (i - 1) as usize },
        None => 0,
    }
}

/// The labels of the menu rows: what a fresh install offers, or what an
/// installed system offers.
pub open spec fn menu_labels(installed: bool) -> Seq<Seq<Seq<char>>> {
    if installed {
        seq![seq!["Uninstall"@], seq!["Update"@], seq!["Repository"@]]
    } else {
        seq![seq!["Install"@], seq!["Custom Install"@], seq!["Repository"@]]
    }
}

/// The labels held by a table of menu rows.
pub open spec fn labels_of<'a>(items: Seq<Vec<&'a str>>) -> Seq<Seq<Seq<char>>> {
    items.map_values(|row: Vec<&'a str>| row@.map_values(|cell: &'a str| cell@))
}

/// The menu rows for a system with or without the hosts list installed.
pub fn menu<'a>(installed: bool) -> (items: Vec<Vec<&'a str>>)
    ensures
        labels_of(items@) == menu_labels(installed),
        items.len() == 3,
{
    let mut first: Vec<&'a str> = Vec::new();
    let mut second: Vec<&'a str> = Vec::new();
    let mut third: Vec<&'a str> = Vec::new();
    if installed {
        first.push("Uninstall");
        second.push("Update");
    } else {
        first.push("Install");
        second.push("Custom Install");
    }
    third.push("Repository");
    let mut items: Vec<Vec<&'a str>> = Vec::new();
    items.push(first);
    items.push(second);
    items.push(third);
    assert(labels_of(items@) =~= menu_labels(installed)) by {
        assert(labels_of(items@)[0] =~= menu_labels(installed)[0]);
        assert(labels_of(items@)[1] =~= menu_labels(installed)[1]);
        assert(labels_of(items@)[2] =~= menu_labels(installed)[2]);
    }
    items
}

/// The row highlighted after `n` presses of Down.
pub open spec fn next_times(selected: Option<usize>, len: nat, n: nat) -> Option<usize>
    decreases n,
{
    if n == 0 {
        selected
    } else {
        Some(next_index(next_times(selected, len, (n - 1) as nat), len))
    }
}

/// The row highlighted after `n` presses of Up.
pub open spec fn previous_times(selected: Option<usize>, len: nat, n: nat) -> Option<usize>
    decreases n,
{
    if n == 0 {
        selected
    } else {
        Some(previous_index(previous_times(selected, len, (n - 1) as nat), len))
    }
}

/// On a non-empty menu, Down and Up keep the highlight on a row of the menu
/// when it was on one (or on none).
pub proof fn lemma_moves_stay_in_menu(selected: Option<usize>, len: nat)
    requires
        0 < len <= usize::MAX,
        selected matches Some(i) ==> i < len,
    ensures
        next_index(selected, len) < len,
        previous_index(selected, len) < len,
{
}

/// Up undoes Down, and Down undoes Up, on any row of the menu.
pub proof fn lemma_up_undoes_down(i: usize, len: nat)
    requires
        i < len <= usize::MAX,
    ensures
        previous_index(Some(next_index(Some(i), len)), len) == i,
        next_index(Some(previous_index(Some(i), len)), len) == i,
{
}

proof fn lemma_successor_mod(a: int, d: int)
    requires
        a >= 0,
        d > 0,
    ensures
        (a + 1) % d == (if a % d == d - 1 { 0 } else { a % d + 1 }),
{
    let q = a / d;
    let r = a % d;
    lemma_fundamental_div_mod(a, d);
    if r == d - 1 {
        lemma_mul_is_distributive_add_other_way(d, q, 1);
        lemma_fundamental_div_mod_converse_mod(a + 1, d, q + 1, 0);
    } else {
        lemma_fundamental_div_mod_converse_mod(a + 1, d, q, r + 1);
    }
}

/// Pressing Down `n` times from row `i` lands on row `(i + n) mod len`.
pub proof fn lemma_next_times_is_rotation(i: usize, len: nat, n: nat)
    requires
        i < len <= usize::MAX,
    ensures
        next_times(Some(i), len, n) == Some(((i + n) % (len as int)) as usize),
    decreases n,
{
    if n == 0 {
        lemma_fundamental_div_mod_converse_mod(i as int, len as int, 0, i as int);
    } else {
        lemma_next_times_is_rotation(i, len, (n - 1) as nat);
        lemma_successor_mod(i + n - 1, len as int);
    }
}

/// Pressing Down once per row brings the highlight back to where it started.
pub proof fn lemma_down_cycles_through_menu(i: usize, len: nat)
    requires
        i < len <= usize::MAX,
    ensures
        next_times(Some(i), len, len) == Some(i),
        forall|n: nat| 0 < n < len ==> next_times(Some(i), len, n) != Some(i),
{
    lemma_next_times_is_rotation(i, len, len);
    lemma_fundamental_div_mod_converse_mod(i + len as int, len as int, 1, i as int);
    assert forall|n: nat| 0 < n < len implies next_times(Some(i), len, n) != Some(i) by {
        lemma_next_times_is_rotation(i, len, n);
        if i + n < len {
            lemma_fundamental_div_mod_converse_mod(i + n, len as int, 0, i + n);
        } else {
            lemma_fundamental_div_mod_converse_mod(i + n, len as int, 1, i + n - len);
        }
    }
}

/// Pressing Up once per row brings the highlight back to where it started.
pub proof fn lemma_up_cycles_through_menu(i: usize, len: nat)
    requires
        i < len <= usize::MAX,
    ensures
        previous_times(Some(i), len, len) == Some(i),
{
    lemma_previous_times_is_rotation(i, len, len);
}

/// Pressing Up `n` times (at most once per row) from row `i` lands on row
/// `(i - n) mod len`.
pub proof fn lemma_previous_times_is_rotation(i: usize, len: nat, n: nat)
    requires
        i < len <= usize::MAX,
        n <= len,
    ensures
        previous_times(Some(i), len, n) == Some(
            (if n <= i { i - n } else { i + len - n }) as usize,
        ),
    decreases n,
{
    if n > 0 {
        lemma_previous_times_is_rotation(i, len, (n - 1) as nat);
    }
}

impl<'a> App<'a> {
    /// The labels of the menu rows.
    pub open spec fn labels(&self) -> Seq<Seq<Seq<char>>> {
        labels_of(self.items@)
    }

    /// A fresh screen, with the menu that fits whether the hosts list is
    /// installed, as the backup on disk tells.
    pub fn new() -> (app: App<'a>)
        ensures
            app.labels() == menu_labels(app.installed),
            app.items.len() == 3,
            app.state.selected is None,
            app.input@ == Seq::<char>::empty(),
            app.input_mode == InputMode::Normal,
            app.status is None,
    {
        App::for_installation(is_installed())
    }

    /// A fresh screen for a system on which the hosts list is installed or not.
    pub fn for_installation(installed: bool) -> (app: App<'a>)
        ensures
            app.labels() == menu_labels(installed),
            app.items.len() == 3,
            app.installed == installed,
            app.state.selected is None,
            app.input@ == Seq::<char>::empty(),
            app.input_mode == InputMode::Normal,
            app.status is None,
    {
        App {
            state: TableState { selected: None },
            input: String::new(),
            input_mode: InputMode::Normal,
            items: menu(installed),
            installed,
            status: None,
        }
    }

    /// Highlights the next row, wrapping from the last row to the first; with
    /// no row highlighted, highlights the first.
    pub fn next(&mut self)
        requires
            old(self).state.selected is Some ==> old(self).items.len() > 0,
        ensures
            *final(self) == (App {
                state: TableState {
                    selected: Some(next_index(old(self).state.selected, old(self).items.len() as nat)),
                },
                ..*old(self)
            }),
    {
        let i: usize = match self.state.selected {
            Some(i) => {
                if i >= self.items.len() - 1 {
                    0
                } else {
                    i + 1
                }
            },
            None => 0,
        };
        self.state.selected = Some(i);
    }

    /// Highlights the previous row, wrapping from the first row to the last;
    /// with no row highlighted, highlights the first.
    pub fn previous(&mut self)
        requires
            old(self).state.selected is Some ==> old(self).items.len() > 0,
        ensures
            *final(self) == (App {
                state: TableState {
                    selected: Some(previous_index(old(self).state.selected, old(self).items.len() as nat)),
                },
                ..*old(self)
            }),
    {
        let i: usize = match self.state.selected {
            Some(i) => {
                if i == 0 {
                    self.items.len() - 1
                } else {
                    i - 1
                }
            },
            None => 0,
        };
        self.state.selected = Some(i);
    }
}

} // verus!
