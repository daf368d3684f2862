//! Key handling of the terminal dashboard: which tab a key press shows, and
//! which key presses end the session.
use vstd::prelude::*;

verus! {

/// The number of dashboard tabs.
pub const TAB_COUNT: usize = 5;

/// A key, as far as the dashboard tells keys apart.
#[derive(Clone, Copy, Debug, PartialEq, Eq)]
pub enum Key {
    Char(char),
    Esc,
    Other,
}

/// A key press: the key and whether Control was held.
#[derive(Clone, Copy, Debug, PartialEq, Eq)]
pub struct KeyPress {
    pub key: Key,
    pub control: bool,
}

/// What the dashboard does after a key press.
#[derive(Clone, Copy, Debug, PartialEq, Eq)]
pub enum TuiStep {
    /// Leave the dashboard.
    Quit,
    /// Show the tab with this index.
    Show(usize),
}

/// The dashboard's response to `press` while showing tab `tab`: `q`, Escape
/// and Control-C quit, the digits 1 to 5 show the first to fifth tab, and
/// every other key keeps the tab.
pub open spec fn tui_transition(tab: usize, press: KeyPress) -> TuiStep {
    match press.key {
        Key::Esc => TuiStep::Quit,
        Key::Char(c) => if c == 'q' {
            TuiStep::Quit
        } else if '1' <= c <= '5' {
            TuiStep::Show((c as usize - '1' as usize) as usize)
        } else if c == 'c' && press.control {
            TuiStep::Quit
        } else {
            TuiStep::Show(tab)
        },
        Key::Other => TuiStep::Show(tab),
    }
}

/// Handles one key press of the dashboard.
pub fn tui_next_step(tab: usize, press: KeyPress) -> (r: TuiStep)
    ensures
        r == tui_transition(tab, press),
        tab < TAB_COUNT ==> (r matches TuiStep::Show(t) ==> t < TAB_COUNT),
{
    match press.key {
        Key::Esc => TuiStep::Quit,
        Key::Char(c) => {
            if c == 'q' {
                TuiStep::Quit
            } else if c == '1' {
                TuiStep::Show(0)
            } else if c == '2' {
                TuiStep::Show(1)
            } else if c == '3' {
                TuiStep::Show(2)
            } else if c == '4' {
                TuiStep::Show(3)
            } else if c == '5' {
                TuiStep::Show(4)
            } else if c == 'c' && press.control {
                TuiStep::Quit
            } else {
                TuiStep::Show(tab)
            }
        },
        Key::Other => TuiStep::Show(tab),
    }
}

} // verus!
