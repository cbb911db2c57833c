pub mod hiragana;
pub mod katakana;

use vstd::prelude::*;
use crate::StudyItem;

verus! {

/// A named provider of study items, parsed from a bundled vocabulary source.
pub trait StudySetLoader {
    /// The canonical name of the set.
    spec fn spec_name(&self) -> Seq<char>;

    /// The items of the set, as pairs of front and back text.
    spec fn spec_items(&self) -> Seq<(Seq<char>, Seq<char>)>;

    fn name(&self) -> (r: String)
        ensures
            r@ == self.spec_name(),
    ;

    fn load(&self) -> (r: Vec<StudyItem>)
        ensures
            r.deep_view() == self.spec_items(),
    ;
}

} // verus!
