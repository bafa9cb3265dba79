//! Prompts on the terminal: what they ask, and what the keys do.

use vstd::prelude::*;
use crate::custom::{copy_opt, opt_text};
use crate::text::{chars_of, equal_ignoring_ascii_case, push_char, string_of};

verus! {

/// What a prompt shows above its input.
#[derive(Debug)]
pub struct Prompter {
    pub title: String,
    pub description: Option<String>,
}

/// One option of a list to choose from.
#[derive(Debug)]
pub struct OptionElement {
    pub promt_value: String,
    pub promt_description: Option<String>,
}

/// The kinds of answer that an input gives.
#[derive(Debug)]
pub enum ResultType {
    Bool(Option<bool>),
    Other(Option<String>),
}

/// A prompt that lets the user choose from a list of options.
pub trait Select {
    /// The options to choose from.
    fn get_options(&self) -> Vec<OptionElement>;

    /// Chooses the option at `index`, and hands back what is to be shown.
    fn select_option(&mut self, index: i32) -> Option<String>;

    /// Chooses the default, and hands back what is to be shown.
    fn select_default(&mut self) -> Option<String>;

    /// What the prompt shows above the options.
    fn get_prompter(&self) -> &Prompter;
}

/// A prompt that takes a line of text.
pub trait Input {
    /// Takes the answer, and hands back what is to be shown.
    fn set_result(&mut self, result: ResultType) -> Option<String>;

    /// Takes the default answer, and hands back what is to be shown.
    fn set_default(&mut self) -> Option<String>;

    /// What the prompt shows above the input.
    fn get_prompter(&self) -> &Prompter;

    /// The kind of answer that the prompt wants.
    fn get_result_type(&self) -> ResultType;
}

/// A question that is answered with yes or no.
#[derive(Debug)]
pub struct YesNo {
    pub result: Option<bool>,
    pub last_message: Option<String>,
    pub prompter: Prompter,
}

impl YesNo {
    /// A question without an answer.
    pub fn new(question: String, description: String, last_message: Option<String>) -> (y: Self)
        ensures
            y.result is None,
            y.last_message == last_message,
            y.prompter.title == question,
            y.prompter.description == Some(description),
    {
        let prompter = Prompter { title: question, description: Some(description) };
        YesNo { result: None, last_message, prompter }
    }
}

impl Input for YesNo {
    fn set_result(&mut self, result: ResultType) -> (r: Option<String>)
        ensures
            final(self).result == (match result {
                ResultType::Bool(b) => b,
                ResultType::Other(_) => old(self).result,
            }),
            final(self).last_message == old(self).last_message,
            final(self).prompter == old(self).prompter,
            opt_text(r) == opt_text(old(self).last_message),
    {
        if let ResultType::Bool(b) = result {
            self.result = b;
        }
        copy_opt(&self.last_message)
    }

    fn set_default(&mut self) -> (r: Option<String>)
        ensures
            final(self).result == Some(false),
            final(self).last_message == old(self).last_message,
            opt_text(r) == opt_text(old(self).last_message),
    {
        self.set_result(ResultType::Bool(Some(false)))
    }

    fn get_prompter(&self) -> (r: &Prompter)
        ensures
            *r == self.prompter,
    {
        &self.prompter
    }

    fn get_result_type(&self) -> (r: ResultType)
        ensures
            r == ResultType::Bool(None),
    {
        ResultType::Bool(None)
    }
}

/// The lines that the options `from..to` take on the screen: one for each
/// option, and one more for each that has a description.
pub open spec fn lines_between(options: Seq<OptionElement>, from: int, to: int) -> int
    decreases to - from,
{
    if from >= to {
        0
    } else {
        lines_between(options, from, to - 1) + (if options[to - 1].promt_description is Some {
            2int
        } else {
            1int
        })
    }
}

/// How far the cursor moves from the option `from` to the option `to`: the
/// lines between the two, counted upwards, so that a move down is negative.
pub fn calc_move(from: usize, to: usize, options: &Vec<OptionElement>) -> (r: i32)
    requires
        from <= options.len(),
        to <= options.len(),
        options.len() <= 0x3fff_ffff,
    ensures
        r == (if from > to {
            lines_between(options@, to as int, from as int)
        } else {
            -lines_between(options@, from as int, to as int)
        }),
{
    let (low, high) = if from > to {
        (to, from)
    } else {
        (from, to)
    };
    let mut lines: i32 = 0;
    let mut i: usize = low;
    while i < high
        invariant
            low <= i <= high <= options.len(),
            options.len() <= 0x3fff_ffff,
            lines == lines_between(options@, low as int, i as int),
            0 <= lines <= 2 * (i - low),
        decreases high - i,
    {
        lines = lines + 1;
        if options[i].promt_description.is_some() {
            lines = lines + 1;
        }
        i += 1;
    }
    if from < to {
        lines = -lines;
    }
    lines
}

/// The option above the option `index`; above the first it is the last.
pub fn index_above(index: i32, count: usize) -> (r: i32)
    requires
        1 <= count <= i32::MAX,
        0 <= index,
    ensures
        r == (if index >= 1 {
            index - 1
        } else {
            count - 1
        }),
{
    if index - 1 >= 0 {
        index - 1
    } else {
        (count - 1) as i32
    }
}

/// The option below the option `index`; below the last it is the first.
pub fn index_below(index: i32, count: usize) -> (r: i32)
    requires
        count <= i32::MAX,
        0 <= index < i32::MAX,
    ensures
        r == (if index + 1 >= count {
            0
        } else {
            index + 1
        }),
{
    let next: i32 = index + 1;
    if next as usize >= count {
        0
    } else {
        next
    }
}

/// The text says yes: it is `yes` or `y`, in any case of its letters.
pub open spec fn says_yes(input: Seq<char>) -> bool {
    crate::text::same_ignoring_ascii_case(input, seq!['y', 'e', 's'])
        || crate::text::same_ignoring_ascii_case(input, seq!['y'])
}

/// The text says no: it is `no` or `n`, in any case of its letters.
pub open spec fn says_no(input: Seq<char>) -> bool {
    crate::text::same_ignoring_ascii_case(input, seq!['n', 'o'])
        || crate::text::same_ignoring_ascii_case(input, seq!['n'])
}

/// Whether the text says yes.
pub fn is_yes(input: &str) -> (r: bool)
    ensures
        r == says_yes(input@),
{
    let a = chars_of(input);
    let yes = chars_of("yes");
    let y = chars_of("y");
    proof {
        reveal_strlit("yes");
        reveal_strlit("y");
        assert(yes@ =~= seq!['y', 'e', 's']);
        assert(y@ =~= seq!['y']);
    }
    equal_ignoring_ascii_case(&a, &yes) || equal_ignoring_ascii_case(&a, &y)
}

/// Whether the text says no.
pub fn is_no(input: &str) -> (r: bool)
    ensures
        r == says_no(input@),
{
    let a = chars_of(input);
    let no = chars_of("no");
    let n = chars_of("n");
    proof {
        reveal_strlit("no");
        reveal_strlit("n");
        assert(no@ =~= seq!['n', 'o']);
        assert(n@ =~= seq!['n']);
    }
    equal_ignoring_ascii_case(&a, &no) || equal_ignoring_ascii_case(&a, &n)
}

/// The answer that the text `input` gives to a prompt that wants an answer
/// of the kind of `kind`.
pub fn answer(kind: &ResultType, input: String) -> (r: ResultType)
    ensures
        r == (match kind {
            ResultType::Bool(_) => ResultType::Bool(Some(says_yes(input@))),
            ResultType::Other(_) => ResultType::Other(Some(input)),
        }),
{
    match kind {
        ResultType::Bool(_) => ResultType::Bool(Some(is_yes(input.as_str()))),
        ResultType::Other(_) => ResultType::Other(Some(input)),
    }
}

/// The keys that an input knows.
#[derive(Debug, PartialEq, Eq, Clone, Copy, Structural)]
pub enum InputKey {
    Enter,
    Escape,
    Char(char),
    Backspace,
    Other,
}

/// What the key `key` makes of the text `input`: the new text, or none
/// where the key ends the input; and whether the default is asked for.
pub fn handle_key(key: InputKey, input: &str) -> (r: (Option<String>, bool))
    ensures
        match key {
            InputKey::Enter => r.0 is None && !r.1,
            InputKey::Escape => r.0 is None && r.1,
            InputKey::Char(c) => opt_text(r.0) == Some(input@.push(c)) && !r.1,
            InputKey::Backspace => opt_text(r.0) == Some(
                if input@.len() == 0 {
                    input@
                } else {
                    input@.drop_last()
                },
            ) && !r.1,
            InputKey::Other => opt_text(r.0) == Some(input@) && !r.1,
        },
{
    match key {
        InputKey::Enter => (None, false),
        InputKey::Escape => (None, true),
        InputKey::Char(c) => {
            let mut s = string_of(input);
            push_char(&mut s, c);
            (Some(s), false)
        },
        InputKey::Backspace => {
            let chars = chars_of(input);
            let mut s = String::new();
            if chars.len() > 0 {
                crate::text::push_range(&mut s, &chars, 0, chars.len() - 1);
                proof {
                    assert(s@ =~= input@.drop_last());
                }
            }
            (Some(s), false)
        },
        InputKey::Other => (Some(string_of(input)), false),
    }
}

} // verus!
