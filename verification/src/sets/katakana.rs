use vstd::prelude::*;
use vstd::string::*;
use crate::StudyItem;
use crate::parse::{parse_records, parse_set_data};
use crate::sets::StudySetLoader;

verus! {

/// The bundled katakana vocabulary source. Each record holds the kana in the
/// first column and the romanized reading in the second; the set stores the
/// columns in file order, the kana as the front of an item and the reading as
/// its back.
pub const KATAKANA_DATA: &'static str = "ア,a\nイ,i\nウ,u\nエ,e\nオ,o\nカ,ka\nキ,ki\nク,ku\nケ,ke\nコ,ko\nサ,sa\nシ,shi\nス,su\nセ,se\nソ,so\nタ,ta\nチ,chi\nツ,tsu\nテ,te\nト,to\nナ,na\nニ,ni\nヌ,nu\nネ,ne\nノ,no\nハ,ha\nヒ,hi\nフ,fu\nヘ,he\nホ,ho\nマ,ma\nミ,mi\nム,mu\nメ,me\nモ,mo\nヤ,ya\nユ,yu\nヨ,yo\nラ,ra\nリ,ri\nル,ru\nレ,re\nロ,ro\nワ,wa\nヲ,wo\nン,n\n";

/// The items of the katakana set.
pub open spec fn katakana_items() -> Seq<(Seq<char>, Seq<char>)> {
    parse_records(KATAKANA_DATA@, false)
}

pub struct KatakanaStudySet;

impl StudySetLoader for KatakanaStudySet {
    open spec fn spec_name(&self) -> Seq<char> {
        "katakana"@
    }

    open spec fn spec_items(&self) -> Seq<(Seq<char>, Seq<char>)> {
        katakana_items()
    }

    fn name(&self) -> (r: String) {
        String::from_str("katakana")
    }

    fn load(&self) -> (r: Vec<StudyItem>) {
        parse_set_data(KATAKANA_DATA, false)
    }
}

} // verus!
