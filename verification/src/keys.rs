//! Which transition a key stands for.

use crate::navigation::{Action, ActionView, App, NavState};
use vstd::prelude::*;

verus! {

/// A key of the keyboard, as far as the viewer tells keys apart.
#[derive(Debug, Clone, Copy, PartialEq, Eq, Structural)]
pub enum Key {
    Char(char),
    Esc,
    Enter,
    Backspace,
    Down,
    Up,
    Left,
    Right,
    PageDown,
    PageUp,
    Tab,
    /// Any other key.
    Other,
}

/// What a key asks of the viewer.
#[derive(Debug, Clone, Copy, PartialEq, Eq, Structural)]
pub enum Command {
    Nothing,
    /// Leave the search, or the program where no search is active.
    Leave,
    EnterSearch,
    ConfirmSearch,
    Backspace,
    TypeChar(char),
    SelectNext,
    SelectPrevious,
    /// Collapse or expand the selected directory, or show the selected
    /// file again.
    Open,
    JumpTop,
    JumpBottom,
    ScrollUp(u16),
    ScrollDown(u16),
    ScrollLeft(u16),
    ScrollRight(u16),
    /// Show the selected row again.
    Show,
    ToggleChecked,
}

/// The command of a key. `typing` says whether the query is being typed:
/// then every character but `q` goes into the query, and the keys that
/// move the selection or scroll do nothing.
pub open spec fn command_of(key: Key, typing: bool) -> Command {
    match key {
        Key::Char('q') => Command::Leave,
        Key::Esc => Command::Leave,
        Key::Enter => if typing {
            Command::ConfirmSearch
        } else {
            Command::Open
        },
        Key::Backspace => if typing {
            Command::Backspace
        } else {
            Command::Nothing
        },
        Key::Tab => Command::ToggleChecked,
        Key::Char(c) => if typing {
            Command::TypeChar(c)
        } else if c == '/' {
            Command::EnterSearch
        } else if c == 'j' {
            Command::SelectNext
        } else if c == 'k' {
            Command::SelectPrevious
        } else if c == 'g' {
            Command::JumpTop
        } else if c == 'G' {
            Command::JumpBottom
        } else if c == 'e' || c == 'J' {
            Command::ScrollDown(1)
        } else if c == 'y' || c == 'K' {
            Command::ScrollUp(1)
        } else if c == 'd' {
            Command::ScrollDown(10)
        } else if c == 'u' {
            Command::ScrollUp(10)
        } else if c == 'f' {
            Command::ScrollDown(20)
        } else if c == 'b' {
            Command::ScrollUp(20)
        } else if c == 'h' {
            Command::ScrollLeft(5)
        } else if c == 'l' {
            Command::ScrollRight(5)
        } else if c == 'H' {
            Command::ScrollLeft(20)
        } else if c == 'L' {
            Command::ScrollRight(20)
        } else if c == ' ' {
            Command::Show
        } else {
            Command::Nothing
        },
        Key::Down => if typing {
            Command::Nothing
        } else {
            Command::SelectNext
        },
        Key::Up => if typing {
            Command::Nothing
        } else {
            Command::SelectPrevious
        },
        Key::PageDown => if typing {
            Command::Nothing
        } else {
            Command::ScrollDown(10)
        },
        Key::PageUp => if typing {
            Command::Nothing
        } else {
            Command::ScrollUp(10)
        },
        Key::Left => if typing {
            Command::Nothing
        } else {
            Command::ScrollLeft(5)
        },
        Key::Right => if typing {
            Command::Nothing
        } else {
            Command::ScrollRight(5)
        },
        Key::Other => Command::Nothing,
    }
}

/// The command of a key.
pub fn command_for(key: Key, typing: bool) -> (command: Command)
    ensures
        command == command_of(key, typing),
{
    match key {
        Key::Esc => Command::Leave,
        Key::Enter => if typing {
            Command::ConfirmSearch
        } else {
            Command::Open
        },
        Key::Backspace => if typing {
            Command::Backspace
        } else {
            Command::Nothing
        },
        Key::Tab => Command::ToggleChecked,
        Key::Char(c) => if c == 'q' {
            Command::Leave
        } else if typing {
            Command::TypeChar(c)
        } else if c == '/' {
            Command::EnterSearch
        } else if c == 'j' {
            Command::SelectNext
        } else if c == 'k' {
            Command::SelectPrevious
        } else if c == 'g' {
            Command::JumpTop
        } else if c == 'G' {
            Command::JumpBottom
        } else if c == 'e' || c == 'J' {
            Command::ScrollDown(1)
        } else if c == 'y' || c == 'K' {
            Command::ScrollUp(1)
        } else if c == 'd' {
            Command::ScrollDown(10)
        } else if c == 'u' {
            Command::ScrollUp(10)
        } else if c == 'f' {
            Command::ScrollDown(20)
        } else if c == 'b' {
            Command::ScrollUp(20)
        } else if c == 'h' {
            Command::ScrollLeft(5)
        } else if c == 'l' {
            Command::ScrollRight(5)
        } else if c == 'H' {
            Command::ScrollLeft(20)
        } else if c == 'L' {
            Command::ScrollRight(20)
        } else if c == ' ' {
            Command::Show
        } else {
            Command::Nothing
        },
        Key::Down => if typing {
            Command::Nothing
        } else {
            Command::SelectNext
        },
        Key::Up => if typing {
            Command::Nothing
        } else {
            Command::SelectPrevious
        },
        Key::PageDown => if typing {
            Command::Nothing
        } else {
            Command::ScrollDown(10)
        },
        Key::PageUp => if typing {
            Command::Nothing
        } else {
            Command::ScrollUp(10)
        },
        Key::Left => if typing {
            Command::Nothing
        } else {
            Command::ScrollLeft(5)
        },
        Key::Right => if typing {
            Command::Nothing
        } else {
            Command::ScrollRight(5)
        },
        Key::Other => Command::Nothing,
    }
}

/// Whether `Open` collapses or expands: it does while browsing, on a
/// selected directory. Otherwise it shows the selected row again.
pub open spec fn opens_directory(s: NavState) -> bool {
    match s.selected_row() {
        Some(row) => !s.search_mode && row.is_directory,
        None => false,
    }
}

/// The state after a command.
pub open spec fn after(s: NavState, command: Command) -> NavState {
    match command {
        Command::Nothing => s,
        Command::Leave => if s.search_mode {
            s.exit_search()
        } else {
            NavState { should_quit: true, ..s }
        },
        Command::EnterSearch => s.enter_search(),
        Command::ConfirmSearch => s.confirm_search(),
        Command::Backspace => s.backspace(),
        Command::TypeChar(c) => s.type_char(c),
        Command::SelectNext => s.select_next(),
        Command::SelectPrevious => s.select_previous(),
        Command::Open => if opens_directory(s) {
            s.toggle_directory()
        } else {
            s.shown()
        },
        Command::JumpTop => s.jump_to_top(),
        Command::JumpBottom => s.jump_to_bottom(),
        Command::ScrollUp(n) => s.scroll_up(n),
        Command::ScrollDown(n) => s.scroll_down(n),
        Command::ScrollLeft(n) => s.scroll_left(n),
        Command::ScrollRight(n) => s.scroll_right(n),
        Command::Show => s.shown(),
        Command::ToggleChecked => s.toggle_checked(),
    }
}

/// The outside work that a command calls for.
pub open spec fn work_of(s: NavState, command: Command, fetch: bool) -> ActionView {
    match command {
        Command::Leave => if s.search_mode {
            s.exit_search_action(fetch)
        } else {
            ActionView::Nothing
        },
        Command::EnterSearch => s.enter_search_action(fetch),
        Command::Backspace => s.backspace_action(fetch),
        Command::TypeChar(c) => s.type_char_action(c, fetch),
        Command::SelectNext => s.select_next_action(fetch),
        Command::SelectPrevious => s.select_previous_action(fetch),
        Command::Open => if opens_directory(s) {
            ActionView::Nothing
        } else {
            s.load_action(fetch)
        },
        Command::JumpTop => s.jump_to_top_action(fetch),
        Command::JumpBottom => s.jump_to_bottom_action(fetch),
        Command::Show => s.load_action(fetch),
        Command::ToggleChecked => s.check_action(),
        _ => ActionView::Nothing,
    }
}

impl App {
    /// Applies a command to the state and names the outside work that it
    /// calls for.
    pub fn apply(&mut self, command: Command) -> (action: Action)
        requires
            old(self).wf(),
        ensures
            final(self).wf(),
            final(self).state() == after(old(self).state(), command),
            action@ == work_of(old(self).state(), command, old(self).fetches()),
            final(self).same_setup(old(self)),
    {
        match command {
            Command::Nothing => Action::Nothing,
            Command::Leave => {
                if self.search_mode() {
                    self.exit_search_mode()
                } else {
                    self.quit();
                    Action::Nothing
                }
            },
            Command::EnterSearch => self.enter_search_mode(),
            Command::ConfirmSearch => {
                self.confirm_search();
                Action::Nothing
            },
            Command::Backspace => self.remove_search_char(),
            Command::TypeChar(c) => self.add_search_char(c),
            Command::SelectNext => self.select_next(),
            Command::SelectPrevious => self.select_previous(),
            Command::Open => {
                if !self.search_mode() && self.selected_is_directory() {
                    self.toggle_directory();
                    Action::Nothing
                } else {
                    self.update_diff_content()
                }
            },
            Command::JumpTop => self.jump_to_top(),
            Command::JumpBottom => self.jump_to_bottom(),
            Command::ScrollUp(n) => {
                self.scroll_up(n);
                Action::Nothing
            },
            Command::ScrollDown(n) => {
                self.scroll_down(n);
                Action::Nothing
            },
            Command::ScrollLeft(n) => {
                self.scroll_left(n);
                Action::Nothing
            },
            Command::ScrollRight(n) => {
                self.scroll_right(n);
                Action::Nothing
            },
            Command::Show => self.update_diff_content(),
            Command::ToggleChecked => self.toggle_file_checked(),
        }
    }

    /// Applies the command of a key: one transition at most.
    pub fn handle_key(&mut self, key: Key) -> (action: Action)
        requires
            old(self).wf(),
        ensures
            final(self).wf(),
            final(self).state() == after(
                old(self).state(),
                command_of(key, old(self).state().search_input_mode),
            ),
            action@ == work_of(
                old(self).state(),
                command_of(key, old(self).state().search_input_mode),
                old(self).fetches(),
            ),
            final(self).same_setup(old(self)),
    {
        let command = command_for(key, self.search_input_mode());
        self.apply(command)
    }
}

} // verus!
