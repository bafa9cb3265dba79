//! The choice among the ways out of an error: the state of the list of
//! options, and what a key does to it.

use vstd::prelude::*;

verus! {

/// The list of options and the place of the mark in it: the option at
/// `position - 1` is marked.
#[derive(Debug)]
pub struct State {
    pub position: usize,
    pub max: usize,
    pub options: Vec<String>,
}

/// How the choice ended.
#[derive(Debug, PartialEq, Eq, Clone, Copy, Structural)]
pub enum ReturnType {
    Quit,
    RunOption(usize),
}

/// The keys that the choice knows.
#[derive(Debug, PartialEq, Eq, Clone, Copy, Structural)]
pub enum Key {
    Quit,
    Up,
    Down,
    Enter,
    Other,
}

/// What is to be drawn after the mark has moved: the option that loses the
/// mark, and the option that gets it.
#[derive(Debug, PartialEq)]
pub struct Redraw {
    pub plain: String,
    pub marked: String,
}

/// The text of the option at `index`, or the empty text.
pub open spec fn option_text(options: Seq<String>, index: int) -> Seq<char> {
    if 0 <= index < options.len() {
        options[index]@
    } else {
        Seq::empty()
    }
}

impl State {
    /// The state in which the mark stands after the last option.
    pub fn new(options: Vec<String>) -> (s: Self)
        ensures
            s.options == options,
            s.position == options.len(),
            s.max == options.len(),
    {
        let n: usize = options.len();
        State { position: n, max: n, options }
    }

    /// The text of the option at `index`, or the empty text.
    pub fn get_option(&self, index: usize) -> (r: String)
        ensures
            r@ == option_text(self.options@, index as int),
    {
        if index < self.options.len() {
            self.options[index].clone()
        } else {
            String::new()
        }
    }

    /// Does nothing: an option has no action of its own.
    pub fn handle_option(&self, _index: usize) {
    }

    /// Moves the mark one place on, where it stands before the last place
    /// and after the first.
    pub fn go_up(&mut self) -> (r: Option<Redraw>)
        ensures
            final(self).options == old(self).options,
            final(self).max == old(self).max,
            match r {
                Some(d) => old(self).max > old(self).position && old(self).position >= 1
                    && final(self).position == old(self).position + 1 && d.plain@ == option_text(
                    old(self).options@,
                    old(self).position as int,
                ) && d.marked@ == option_text(old(self).options@, old(self).position - 1),
                None => !(old(self).max > old(self).position && old(self).position >= 1)
                    && final(self).position == old(self).position,
            },
    {
        if self.max > self.position && self.position >= 1 {
            let d = Redraw {
                plain: self.get_option(self.position),
                marked: self.get_option(self.position - 1),
            };
            self.position = self.position + 1;
            Some(d)
        } else {
            None
        }
    }

    /// Moves the mark one place back, where it stands after the last place.
    pub fn go_down(&mut self) -> (r: Option<Redraw>)
        ensures
            final(self).options == old(self).options,
            final(self).max == old(self).max,
            match r {
                Some(d) => old(self).max < old(self).position && old(self).position >= 2
                    && final(self).position == old(self).position - 1 && d.plain@ == option_text(
                    old(self).options@,
                    old(self).position - 2,
                ) && d.marked@ == option_text(old(self).options@, old(self).position - 1),
                None => !(old(self).max < old(self).position && old(self).position >= 2)
                    && final(self).position == old(self).position,
            },
    {
        if self.max < self.position && self.position >= 2 {
            let d = Redraw {
                plain: self.get_option(self.position - 2),
                marked: self.get_option(self.position - 1),
            };
            self.position = self.position - 1;
            Some(d)
        } else {
            None
        }
    }

    /// What the key `key` does: it ends the choice, or it moves the mark.
    pub fn update_options(&mut self, key: Key) -> (r: (Option<ReturnType>, Option<Redraw>))
        ensures
            final(self).options == old(self).options,
            final(self).max == old(self).max,
            match key {
                Key::Quit => r.0 == Some(ReturnType::Quit) && r.1 is None && *final(self) == *old(self),
                Key::Enter => r.0 == Some(ReturnType::RunOption(old(self).position)) && r.1
                    is None && *final(self) == *old(self),
                Key::Other => r.0 is None && r.1 is None && *final(self) == *old(self),
                Key::Up => r.0 is None && (r.1 is Some <==> old(self).max > old(self).position
                    && old(self).position >= 1) && final(self).position == old(self).position + (
                if r.1 is Some {
                    1int
                } else {
                    0int
                }),
                Key::Down => r.0 is None && (r.1 is Some <==> old(self).max < old(self).position
                    && old(self).position >= 2) && final(self).position == old(self).position - (
                if r.1 is Some {
                    1int
                } else {
                    0int
                }),
            },
    {
        match key {
            Key::Quit => (Some(ReturnType::Quit), None),
            Key::Up => {
                let d = self.go_up();
                (None, d)
            },
            Key::Down => {
                let d = self.go_down();
                (None, d)
            },
            Key::Enter => (Some(ReturnType::RunOption(self.position)), None),
            Key::Other => (None, None),
        }
    }
}

/// What the choice hands back when it has ended.
pub fn error_ui(ended: ReturnType) -> (r: Option<usize>)
    ensures
        r == (match ended {
            ReturnType::Quit => None,
            ReturnType::RunOption(u) => Some(u),
        }),
{
    match ended {
        ReturnType::Quit => None,
        ReturnType::RunOption(u) => Some(u),
    }
}

} // verus!
