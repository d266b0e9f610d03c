//! A list of error messages, gathered to be shown together.

use crate::text::{push_char, texts};
use vstd::prelude::*;
use vstd::string::*;

verus! {

/// The text of `messages`: each on a line of its own, ended by a line feed.
pub open spec fn listed(messages: Seq<Seq<char>>) -> Seq<char>
    decreases messages.len(),
{
    if messages.len() == 0 {
        Seq::empty()
    } else {
        (listed(messages.drop_last()) + messages.last()).push('\n')
    }
}

/// Error messages in the order in which they came.
pub struct Errors {
    errors: Vec<String>,
}

impl View for Errors {
    type V = Seq<Seq<char>>;

    closed spec fn view(&self) -> Seq<Seq<char>> {
        texts(self.errors@)
    }
}

impl Errors {
    /// Makes an empty list.
    pub fn new() -> (e: Errors)
        ensures
            e@ == Seq::<Seq<char>>::empty(),
    {
        let e = Errors { errors: Vec::new() };
        assert(e@ =~= Seq::<Seq<char>>::empty());
        e
    }

    /// Adds `err` at the end.
    pub fn push(&mut self, err: &str)
        ensures
            final(self)@ == old(self)@.push(err@),
    {
        self.errors.push(String::from_str(err));
        assert(self@ =~= old(self)@.push(err@));
    }

    /// Tells whether there is no message.
    pub fn is_empty(&self) -> (r: bool)
        ensures
            r == (self@.len() == 0),
    {
        self.errors.len() == 0
    }

    /// Gives the messages as text, one to a line.
    pub fn to_string(&self) -> (out: String)
        ensures
            out@ == listed(self@),
    {
        let mut out = String::new();
        let mut i: usize = 0;
        proof {
            assert(self@.take(0) =~= Seq::<Seq<char>>::empty());
        }
        while i < self.errors.len()
            invariant
                i <= self.errors@.len(),
                self@.len() == self.errors@.len(),
                out@ == listed(self@.take(i as int)),
            decreases self.errors@.len() - i,
        {
            proof {
                assert(self@.take(i + 1).drop_last() =~= self@.take(i as int));
                assert(self@.take(i + 1).last() == self.errors@[i as int]@);
            }
            out.append(self.errors[i].as_str());
            push_char(&mut out, '\n');
            i = i + 1;
        }
        proof {
            assert(self@.take(self@.len() as int) =~= self@);
        }
        out
    }
}

} // verus!
