use vstd::prelude::*;
use vstd::string::*;
use crate::StudyItem;
use crate::parse::{parse_records, parse_set_data};
use crate::sets::StudySetLoader;

verus! {

/// The bundled hiragana vocabulary source. Each record holds the romanized
/// reading in the first column and the kana in the second; the set stores the
/// kana as the front of an item and the reading as its back, so the columns
/// are reversed relative to the file order.
pub const HIRAGANA_DATA: &'static str = "a,あ\ni,い\nu,う\ne,え\no,お\nka,か\nki,き\nku,く\nke,け\nko,こ\nsa,さ\nshi,し\nsu,す\nse,せ\nso,そ\nta,た\nchi,ち\ntsu,つ\nte,て\nto,と\nna,な\nni,に\nnu,ぬ\nne,ね\nno,の\nha,は\nhi,ひ\nfu,ふ\nhe,へ\nho,ほ\nma,ま\nmi,み\nmu,む\nme,め\nmo,も\nya,や\nyu,ゆ\nyo,よ\nra,ら\nri,り\nru,る\nre,れ\nro,ろ\nwa,わ\nwo,を\nn,ん\n";

/// The items of the hiragana set.
pub open spec fn hiragana_items() -> Seq<(Seq<char>, Seq<char>)> {
    parse_records(HIRAGANA_DATA@, true)
}

pub struct HiraganaStudySet;

impl StudySetLoader for HiraganaStudySet {
    open spec fn spec_name(&self) -> Seq<char> {
        "hiragana"@
    }

    open spec fn spec_items(&self) -> Seq<(Seq<char>, Seq<char>)> {
        hiragana_items()
    }

    fn name(&self) -> (r: String) {
        String::from_str("hiragana")
    }

    fn load(&self) -> (r: Vec<StudyItem>) {
        parse_set_data(HIRAGANA_DATA, true)
    }
}

} // verus!
