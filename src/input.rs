use vstd::prelude::*;

use crate::pattern::{is_valid_pattern, Pattern};

verus! {

/// Relies on `String::push`: the character is appended.
#[verifier::external_body]
fn push_char(s: &mut String, c: char)
    ensures
        final(s)@ == old(s)@.push(c),
{
    s.push(c)
}

/// Relies on `String::pop`: the last character is removed and returned; an
/// empty string is left as it is.
#[verifier::external_body]
fn pop_char(s: &mut String) -> (r: Option<char>)
    ensures
        old(s)@.len() == 0 ==> r is None && final(s)@ == old(s)@,
        old(s)@.len() > 0 ==> r == Some(old(s)@.last()) && final(s)@ == old(s)@.drop_last(),
{
    s.pop()
}

/// Text typed into the "new filter" box.
#[derive(Debug)]
pub struct Input {
    /// Current value of the input box
    pub input: String,
}

impl Default for Input {
    fn default() -> (r: Self)
        ensures
            r.input@ == Seq::<char>::empty(),
    {
        Input { input: String::new() }
    }
}

impl Input {
    pub fn new() -> (r: Self)
        ensures
            r.input@ == Seq::<char>::empty(),
    {
        Self::default()
    }

    pub fn reset(&mut self)
        ensures
            final(self).input@ == Seq::<char>::empty(),
    {
        self.input = String::new();
    }

    pub fn push(&mut self, ch: char)
        ensures
            final(self).input@ == old(self).input@.push(ch),
    {
        push_char(&mut self.input, ch);
    }

    /// Removes the last character, if any.
    pub fn pop(&mut self)
        ensures
            final(self).input@ == if old(self).input@.len() == 0 {
                old(self).input@
            } else {
                old(self).input@.drop_last()
            },
    {
        pop_char(&mut self.input);
    }

    pub fn inner_clone(&self) -> (r: String)
        ensures
            r@ == self.input@,
    {
        self.input.clone()
    }

    /// Whether the text typed so far is a valid pattern.
    pub fn is_valid(&self) -> (r: bool)
        ensures
            r == is_valid_pattern(self.input@),
    {
        Pattern::is_valid(self.input.as_str())
    }
}

} // verus!
