use kana_drill::parse::parse_set_data;
use kana_drill::sets::hiragana::HiraganaStudySet;
use kana_drill::sets::katakana::KatakanaStudySet;
use kana_drill::sets::StudySetLoader;

#[test]
fn parses_two_columns_in_file_order() {
    let items = parse_set_data("front0,back0\nfront1,back1\n", false);
    assert_eq!(items.len(), 2);
    assert_eq!(items[0].front, "front0");
    assert_eq!(items[0].back, "back0");
    assert_eq!(items[1].front, "front1");
    assert_eq!(items[1].back, "back1");
}

#[test]
fn parses_two_columns_reversed() {
    let items = parse_set_data("back0,front0\nback1,front1\n", true);
    assert_eq!(items.len(), 2);
    assert_eq!(items[0].front, "front0");
    assert_eq!(items[0].back, "back0");
    assert_eq!(items[1].front, "front1");
    assert_eq!(items[1].back, "back1");
}

#[test]
fn trims_whitespace_from_both_columns() {
    let items = parse_set_data("  a\t, b \n", false);
    assert_eq!(items.len(), 1);
    assert_eq!(items[0].front, "a");
    assert_eq!(items[0].back, "b");
}

#[test]
fn skips_blank_lines() {
    let items = parse_set_data("\n  \na,b\n\n\t\nc,d\n", false);
    assert_eq!(items.len(), 2);
    assert_eq!(items[0].front, "a");
    assert_eq!(items[1].front, "c");
}

#[test]
fn skips_malformed_lines() {
    let items = parse_set_data("a,b,c\nonly-one\nx,y\n", false);
    assert_eq!(items.len(), 1);
    assert_eq!(items[0].front, "x");
    assert_eq!(items[0].back, "y");
}

#[test]
fn lone_comma_gives_empty_columns() {
    let items = parse_set_data(" , \n", false);
    assert_eq!(items.len(), 1);
    assert_eq!(items[0].front, "");
    assert_eq!(items[0].back, "");
}

#[test]
fn no_trailing_newline_still_parses_last_line() {
    let items = parse_set_data("a,b\nc,d", false);
    assert_eq!(items.len(), 2);
    assert_eq!(items[1].front, "c");
    assert_eq!(items[1].back, "d");
}

#[test]
fn empty_source_has_no_records() {
    let items = parse_set_data("", false);
    assert_eq!(items.len(), 0);
}

#[test]
fn hiragana_loads_deterministically() {
    let a = HiraganaStudySet.load();
    let b = HiraganaStudySet.load();
    assert_eq!(a.len(), b.len());
    for (x, y) in a.iter().zip(b.iter()) {
        assert_eq!(x.front, y.front);
        assert_eq!(x.back, y.back);
    }
}

#[test]
fn katakana_loads_deterministically() {
    let a = KatakanaStudySet.load();
    let b = KatakanaStudySet.load();
    assert_eq!(a.len(), b.len());
    for (x, y) in a.iter().zip(b.iter()) {
        assert_eq!(x.front, y.front);
        assert_eq!(x.back, y.back);
    }
}

#[test]
fn hiragana_reverses_file_columns() {
    let items = HiraganaStudySet.load();
    assert_eq!(items.len(), 46);
    assert_eq!(items[0].front, "あ");
    assert_eq!(items[0].back, "a");
    assert_eq!(items[45].front, "ん");
    assert_eq!(items[45].back, "n");
}

#[test]
fn katakana_keeps_file_columns() {
    let items = KatakanaStudySet.load();
    assert_eq!(items.len(), 46);
    assert_eq!(items[0].front, "ア");
    assert_eq!(items[0].back, "a");
    assert_eq!(items[45].front, "ン");
    assert_eq!(items[45].back, "n");
}

#[test]
fn provider_names() {
    assert_eq!(HiraganaStudySet.name(), "hiragana");
    assert_eq!(KatakanaStudySet.name(), "katakana");
}
