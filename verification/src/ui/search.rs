//! The text a person types to filter a list.

use crate::text::{chars_of, lowercased, part_of, string_of, to_lowercase};
use vstd::prelude::*;

verus! {

/// A query and its lower-case form, kept together so a filter does not have to
/// make it anew for every row.
pub struct SearchQuery {
    pub text: String,
    pub small: String,
}

impl SearchQuery {
    /// The lower-case form belongs to the text, and both are empty or neither is.
    pub open spec fn wf(&self) -> bool {
        &&& self.text@.len() == 0 <==> self.small@.len() == 0
        &&& self.text@.len() > 0 ==> self.small@ == lowercased(self.text@)
    }

    pub fn new() -> (r: SearchQuery)
        ensures
            r.wf(),
            r.text@ == Seq::<char>::empty(),
    {
        SearchQuery { text: String::new(), small: String::new() }
    }

    pub fn is_empty(&self) -> (r: bool)
        ensures
            r == (self.text@.len() == 0),
    {
        self.text.as_str().is_empty()
    }

    /// The query in lower case.
    pub fn lower(&self) -> (r: &str)
        ensures
            r@ == self.small@,
    {
        self.small.as_str()
    }

    pub fn clear(&mut self)
        ensures
            final(self).wf(),
            final(self).text@ == Seq::<char>::empty(),
    {
        self.text = String::new();
        self.small = String::new();
    }

    /// A character was typed.
    pub fn push(&mut self, c: char)
        ensures
            final(self).wf(),
            final(self).text@ == old(self).text@.push(c),
    {
        self.text.push(c);
        self.small = to_lowercase(self.text.as_str());
    }

    /// The last character was taken back.
    pub fn pop(&mut self)
        ensures
            final(self).wf(),
            final(self).text@ == if old(self).text@.len() == 0 {
                old(self).text@
            } else {
                old(self).text@.drop_last()
            },
    {
        let chars = chars_of(self.text.as_str());
        if chars.len() > 0 {
            let kept = part_of(&chars, 0, chars.len() - 1);
            proof {
                assert(kept@ =~= self.text@.drop_last());
            }
            self.text = string_of(&kept);
        }
        self.small = to_lowercase(self.text.as_str());
    }
}

/// Taking back what was just typed leaves the query as it was.
pub proof fn law_backspace_undoes_typing(text: Seq<char>, c: char)
    ensures
        text.push(c).drop_last() == text,
{
    assert(text.push(c).drop_last() =~= text);
}

} // verus!
