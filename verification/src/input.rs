//! Keys, and the search prompt typed at the bottom of the pager.

use vstd::prelude::*;

verus! {

/// The keys the pager tells apart.
#[derive(Debug, Clone, Copy, PartialEq, Eq, Structural)]
pub enum KeyCode {
    Char(char),
    Enter,
    Esc,
    Backspace,
    Up,
    Down,
    PageUp,
    PageDown,
    End,
    Other,
}

/// A key press and the modifiers held with it.
#[derive(Debug, Clone, Copy, PartialEq, Eq, Structural)]
pub struct KeyPress {
    pub code: KeyCode,
    pub control: bool,
    pub alt: bool,
    /// Shift, super, hyper or meta.
    pub other_modifiers: bool,
}

impl KeyPress {
    /// No modifier is held.
    pub open spec fn spec_plain(self) -> bool {
        !self.control && !self.alt && !self.other_modifiers
    }
}

/// What a key in the prompt asks of the pager.
#[derive(Debug, Clone)]
pub enum PromptAction {
    Continue,
    Submit(String),
    Cancel,
}

/// The text typed so far at the search prompt.
#[derive(Debug, Clone)]
pub struct PromptState {
    value: String,
}

impl View for PromptState {
    type V = Seq<char>;

    closed spec fn view(&self) -> Seq<char> {
        self.value@
    }
}

/// The prompt text after a key that edits it: backspace drops the last
/// character, control-u clears the line, a character typed without control
/// or alt is appended; any other key leaves the text as it is.
pub open spec fn edited(value: Seq<char>, key: KeyPress) -> Seq<char> {
    match key.code {
        KeyCode::Backspace => if value.len() > 0 {
            value.drop_last()
        } else {
            value
        },
        KeyCode::Char(c) => if c == 'u' && key.control {
            Seq::empty()
        } else if !key.control && !key.alt {
            value.push(c)
        } else {
            value
        },
        _ => value,
    }
}

impl PromptState {
    /// An empty prompt.
    pub fn new() -> (r: Self)
        ensures
            r@ == Seq::<char>::empty(),
    {
        PromptState { value: String::new() }
    }

    /// The text typed so far.
    pub fn value(&self) -> (r: &str)
        ensures
            r@ == self@,
    {
        self.value.as_str()
    }

    /// Escape cancels, enter submits the text, and every other key edits it
    /// (see `edited`) and keeps the prompt open.
    pub fn handle_key(&mut self, key: KeyPress) -> (r: PromptAction)
        ensures
            key.code == KeyCode::Esc ==> r is Cancel && final(self)@ == old(self)@,
            key.code == KeyCode::Enter ==> (r matches PromptAction::Submit(q) && q@ == old(self)@)
                && final(self)@ == old(self)@,
            key.code != KeyCode::Esc && key.code != KeyCode::Enter ==> r is Continue
                && final(self)@ == edited(old(self)@, key),
    {
        match key.code {
            KeyCode::Esc => PromptAction::Cancel,
            KeyCode::Enter => PromptAction::Submit(self.value.clone()),
            KeyCode::Backspace => {
                self.value.pop();
                PromptAction::Continue
            },
            KeyCode::Char(c) => {
                if c == 'u' && key.control {
                    self.value.clear();
                } else if !key.control && !key.alt {
                    self.value.push(c);
                }
                PromptAction::Continue
            },
            _ => PromptAction::Continue,
        }
    }
}

/// Typing a character without control or alt and then pressing backspace
/// leaves the prompt text as it was.
pub proof fn lemma_backspace_undoes_typing(value: Seq<char>, c: char)
    ensures
        edited(
            edited(value, KeyPress { code: KeyCode::Char(c), control: false, alt: false, other_modifiers: false }),
            KeyPress { code: KeyCode::Backspace, control: false, alt: false, other_modifiers: false },
        ) == value,
{
    assert(value.push(c).drop_last() =~= value);
}

} // verus!
