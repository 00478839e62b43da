//! The decision logic of the input event loop: how one key event changes the
//! edit buffer and the history, and what the loop must do next.
use vstd::prelude::*;

use crate::history::history_down;
use crate::history::history_push;
use crate::history::history_up;
use crate::history::History;
use crate::prompt::prompt_add;
use crate::prompt::prompt_backspace;
use crate::prompt::prompt_delete;
use crate::prompt::prompt_move_left;
use crate::prompt::prompt_move_right;
use crate::prompt::Prompt;
use crate::prompt::PromptView;

verus! {

/// A key delivered by the terminal, with its modifiers already stripped.
#[derive(Clone, Copy, Debug, PartialEq, Eq, Structural)]
pub enum Key {
    Char(char),
    Left,
    Right,
    Up,
    Down,
    Backspace,
    Delete,
    Enter,
    /// Any key the shell does not handle.
    Other,
}

/// What the interactive loop must do after one key was handled.
#[derive(Debug, PartialEq, Eq)]
pub enum KeyOutcome {
    /// Leave the loop: the exit key combination was pressed.
    Exit,
    /// Redraw the prompt.
    Redraw,
    /// The key was reserved for shell-level actions and ignored.
    Ignore,
    /// This line was committed: run it, then redraw the fresh prompt.
    Submit(String),
}

/// Dispatches one key event.  Control-modified keys are reserved for
/// shell-level actions and never reach the edit buffer: control-d exits, any
/// other control key is ignored.  Unmodified keys edit the buffer, browse
/// the history, or commit the line; on commit the line is pushed into the
/// history and a fresh empty buffer is started.
pub fn handle_key(prompt: &mut Prompt, history: &mut History, key: Key, ctrl: bool) -> (r:
    KeyOutcome)
    requires
        old(history).wf(),
        key == Key::Up && !ctrl ==> old(history)@.commands.len() > 0,
    ensures
        final(history).wf(),
        ctrl ==> final(prompt)@ == old(prompt)@ && final(history)@ == old(history)@ && r == (
        if key == Key::Char('d') {
            KeyOutcome::Exit
        } else {
            KeyOutcome::Ignore
        }),
        !ctrl ==> match key {
            Key::Char(c) => final(prompt)@ == prompt_add(old(prompt)@, c) && final(history)@
                == old(history)@ && r == KeyOutcome::Redraw,
            Key::Left => final(prompt)@ == prompt_move_left(old(prompt)@) && final(history)@
                == old(history)@ && r == KeyOutcome::Redraw,
            Key::Right => final(prompt)@ == prompt_move_right(old(prompt)@) && final(history)@
                == old(history)@ && r == KeyOutcome::Redraw,
            Key::Up => final(history)@ == history_up(old(history)@).0 && final(prompt)@ == (
            PromptView { left: history_up(old(history)@).1, right: Seq::empty() }) && r
                == KeyOutcome::Redraw,
            Key::Down => final(history)@ == history_down(old(history)@).0 && final(prompt)@ == (
            PromptView { left: history_down(old(history)@).1, right: Seq::empty() }) && r
                == KeyOutcome::Redraw,
            Key::Backspace => final(prompt)@ == prompt_backspace(old(prompt)@) && final(history)@
                == old(history)@ && r == KeyOutcome::Redraw,
            Key::Delete => final(prompt)@ == prompt_delete(old(prompt)@) && final(history)@ == old(
                history,
            )@ && r == KeyOutcome::Redraw,
            Key::Enter => {
                let line = old(prompt)@.left + old(prompt)@.right;
                &&& final(history)@ == history_push(old(history)@, line)
                &&& final(prompt)@.left.len() == 0
                &&& final(prompt)@.right.len() == 0
                &&& match r {
                    KeyOutcome::Submit(s) => s@ == line,
                    _ => false,
                }
            },
            Key::Other => final(prompt)@ == old(prompt)@ && final(history)@ == old(history)@ && r
                == KeyOutcome::Redraw,
        },
{
    if ctrl {
        match key {
            Key::Char(c) => {
                if c == 'd' {
                    KeyOutcome::Exit
                } else {
                    KeyOutcome::Ignore
                }
            },
            _ => KeyOutcome::Ignore,
        }
    } else {
        match key {
            Key::Char(c) => {
                prompt.add_char(c);
                KeyOutcome::Redraw
            },
            Key::Left => {
                prompt.move_left_one();
                KeyOutcome::Redraw
            },
            Key::Right => {
                prompt.move_right_one();
                KeyOutcome::Redraw
            },
            Key::Up => {
                let line = history.up();
                *prompt = Prompt::from_history(line);
                KeyOutcome::Redraw
            },
            Key::Down => {
                let line = history.down();
                *prompt = Prompt::from_history(line);
                KeyOutcome::Redraw
            },
            Key::Backspace => {
                prompt.backspace_one();
                KeyOutcome::Redraw
            },
            Key::Delete => {
                prompt.delete_one();
                KeyOutcome::Redraw
            },
            Key::Enter => {
                let line = prompt.build();
                let committed = line.clone();
                history.push(committed);
                *prompt = Prompt::new();
                KeyOutcome::Submit(line)
            },
            Key::Other => KeyOutcome::Redraw,
        }
    }
}

} // verus!
