use vstd::prelude::*;
use crate::parse::{lemma_first_sep_is, line_record, parse_records, trim};
use crate::session::{items_of_sets, resolved_names, set_items, set_known};
use crate::sets::hiragana::hiragana_items;
use crate::sets::katakana::katakana_items;

verus! {

broadcast use vstd::string::group_string_axioms;

/// Parsing a vocabulary source is deterministic and side-effect-free: two
/// parses of the same data, as two `load` calls of one provider perform,
/// yield the same ordered records.
pub proof fn lemma_parse_deterministic(
    a: Seq<(Seq<char>, Seq<char>)>,
    b: Seq<(Seq<char>, Seq<char>)>,
    data: Seq<char>,
    reverse: bool,
)
    requires
        a == parse_records(data, reverse),
        b == parse_records(data, reverse),
    ensures
        a == b,
{
}

/// A line with exactly one comma and some non-whitespace character yields one
/// record of its two trimmed columns: the first column is stored as the front
/// unless the provider reverses its columns, and then as the back.
pub proof fn lemma_column_order(line: Seq<char>, j: int)
    requires
        0 <= j < line.len(),
        line[j] == ',',
        forall|m: int| 0 <= m < line.len() && m != j ==> line[m] != ',',
        trim(line).len() != 0,
    ensures
        line_record(line, false) == seq![
            (trim(line.subrange(0, j)), trim(line.subrange(j + 1, line.len() as int))),
        ],
        line_record(line, true) == seq![
            (trim(line.subrange(j + 1, line.len() as int)), trim(line.subrange(0, j))),
        ],
{
    lemma_first_sep_is(line, ',', j);
    let rest = line.subrange(j + 1, line.len() as int);
    assert forall|m: int| 0 <= m < rest.len() implies rest[m] != ',' by {
        assert(rest[m] == line[j + 1 + m]);
    }
    lemma_first_sep_is(rest, ',', rest.len() as int);
}

/// The update policy is deterministic on a fresh table: one answer cycle on
/// a table of all ones leaves a table of all twos, whether the answer was
/// correct (the answered weight is reset to 1, then every weight gains 1) or
/// not (every weight gains 1). The two histories part only from the next
/// cycle on.
pub proof fn lemma_fresh_table_cycle(
    before: Seq<u32>,
    after: Seq<u32>,
    index: int,
    correct: bool,
)
    requires
        forall|i: int| 0 <= i < before.len() ==> before[i] == 1,
        after.len() == before.len(),
        correct ==> 0 <= index < before.len() && after[index] == 2,
        forall|i: int| 0 <= i < before.len() && (i != index || !correct) ==> after[i] == before[i]
            + 1,
    ensures
        forall|i: int| 0 <= i < after.len() ==> after[i] == 2,
{
}

/// With no requested sets, or none whose identifier resolves, the item store
/// is empty and no set name is recorded.
pub proof fn lemma_unresolved_sets_empty(names: Seq<Seq<char>>)
    requires
        forall|i: int| 0 <= i < names.len() ==> !set_known(names[i]),
    ensures
        items_of_sets(names) == Seq::<(Seq<char>, Seq<char>)>::empty(),
        resolved_names(names) == Seq::<Seq<char>>::empty(),
    decreases names.len(),
{
    if names.len() > 0 {
        assert(!set_known(names[0]));
        assert(forall|i: int|
            0 <= i < names.drop_first().len() ==> names.drop_first()[i] == names[i + 1]);
        lemma_unresolved_sets_empty(names.drop_first());
        assert(items_of_sets(names) =~= Seq::<(Seq<char>, Seq<char>)>::empty());
    }
}

/// Requesting the hiragana set and then the katakana set yields exactly the
/// hiragana items followed by the katakana items, and both names resolve, in
/// that order.
pub proof fn lemma_combined_store(names: Seq<Seq<char>>)
    requires
        names == seq!["hiragana"@, "katakana"@],
    ensures
        items_of_sets(names) == hiragana_items() + katakana_items(),
        items_of_sets(names).len() == hiragana_items().len() + katakana_items().len(),
        resolved_names(names) == names,
{
    reveal_strlit("hiragana");
    reveal_strlit("katakana");
    assert("katakana"@[0] == 'k' && "hiragana"@[0] == 'h');
    assert("katakana"@ != "hiragana"@);
    let rest = names.drop_first();
    assert(rest =~= seq!["katakana"@]);
    assert(rest.drop_first() =~= Seq::<Seq<char>>::empty());
    assert(set_items(names[0]) == hiragana_items());
    assert(set_items(rest[0]) == katakana_items());
    assert(rest.len() == 1 && rest[0] == "katakana"@);
    assert(items_of_sets(rest) == set_items(rest[0]) + items_of_sets(rest.drop_first()));
    assert(items_of_sets(rest.drop_first()) =~= Seq::<(Seq<char>, Seq<char>)>::empty());
    assert(items_of_sets(rest) =~= katakana_items());
    assert(items_of_sets(names) =~= hiragana_items() + katakana_items());
    assert(set_known(names[0]) && set_known(rest[0]));
    assert(resolved_names(rest.drop_first()) =~= Seq::<Seq<char>>::empty());
    assert(resolved_names(rest) =~= seq!["katakana"@]);
    assert(resolved_names(names) =~= names);
}

} // verus!
