//! Asking the user for a line of text.

use vstd::prelude::*;
use vstd::string::*;
use crate::util::{push_char, trim, trimmed};

verus! {

/// `std::io::Error`: why a prompt could not be shown or read. Nothing is
/// known of what it holds.
#[verifier::external_type_specification]
#[verifier::external_body]
pub struct ExIoError(std::io::Error);

/// Something that can ask the user and hand back the answer.
pub trait Prompt {
    fn do_prompt(&self) -> Result<String, std::io::Error>;
}

/// A prompt that shows a menu of lines to choose from.
pub struct DmenuPrompt<'a> {
    pub selections: &'a [String],
    pub args: &'a [&'a str],
}

impl<'a> DmenuPrompt<'a> {
    pub fn new(selections: &'a [String], args: &'a [&'a str]) -> (prompt: Self)
        ensures
            prompt.selections@ == selections@,
            prompt.args@ == args@,
    {
        DmenuPrompt { selections, args }
    }
}

/// The lines, each with the end of a line behind it.
pub open spec fn lines_text(lines: Seq<String>) -> Seq<char>
    decreases lines.len(),
{
    if lines.len() == 0 {
        Seq::empty()
    } else {
        lines_text(lines.drop_last()) + lines.last()@ + seq!['\n']
    }
}

impl<'a> DmenuPrompt<'a> {
    /// What the menu is given to choose from: one line for each selection.
    pub fn input(&self) -> (text: String)
        ensures
            text@ == lines_text(self.selections@),
    {
        let mut text = String::new();
        let mut i: usize = 0;
        assert(self.selections@.take(0) =~= Seq::<String>::empty());
        while i < self.selections.len()
            invariant
                i <= self.selections@.len(),
                text@ == lines_text(self.selections@.take(i as int)),
            decreases self.selections@.len() - i,
        {
            assert(self.selections@.take(i + 1).drop_last() =~= self.selections@.take(i as int));
            text.append(self.selections[i].as_str());
            push_char(&mut text, '\n');
            i += 1;
        }
        assert(self.selections@.take(self.selections@.len() as int) =~= self.selections@);
        text
    }

    /// The answer of the user in what the menu wrote: the text without
    /// the white space around it.
    pub fn answer<'b>(&self, written: &'b str) -> (reply: &'b str)
        ensures
            reply@ == trimmed(written@),
    {
        trim(written)
    }
}

} // verus!
