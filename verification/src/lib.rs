pub mod commands;
pub mod laws;
pub mod parse;
pub mod session;
pub mod sets;

use vstd::prelude::*;

verus! {

/// A single study prompt: `front` is shown to the learner, `back` is the
/// expected answer.
pub struct StudyItem {
    pub front: String,
    pub back: String,
}

impl View for StudyItem {
    type V = (Seq<char>, Seq<char>);

    open spec fn view(&self) -> (Seq<char>, Seq<char>) {
        (self.front@, self.back@)
    }
}

impl DeepView for StudyItem {
    type V = (Seq<char>, Seq<char>);

    open spec fn deep_view(&self) -> (Seq<char>, Seq<char>) {
        self.view()
    }
}

impl Clone for StudyItem {
    fn clone(&self) -> (r: StudyItem)
        ensures
            r@ == self@,
    {
        StudyItem { front: self.front.clone(), back: self.back.clone() }
    }
}

} // verus!
