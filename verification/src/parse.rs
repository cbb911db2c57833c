use vstd::prelude::*;
use vstd::string::*;
use crate::StudyItem;

verus! {

/// Characters stripped from the ends of a record column.
pub open spec fn is_space(c: char) -> bool {
    c == ' ' || c == '\t' || c == '\r' || c == '\n'
}

/// Index of the first occurrence of `sep` in `s`, or `s.len()` if there is none.
pub open spec fn first_sep(s: Seq<char>, sep: char) -> int
    decreases s.len(),
{
    if s.len() == 0 {
        0
    } else if s[0] == sep {
        0
    } else {
        1 + first_sep(s.drop_first(), sep)
    }
}

pub proof fn lemma_first_sep_is(s: Seq<char>, sep: char, k: int)
    requires
        0 <= k <= s.len(),
        forall|m: int| 0 <= m < k ==> s[m] != sep,
        k < s.len() ==> s[k] == sep,
    ensures
        first_sep(s, sep) == k,
    decreases s.len(),
{
    if k == 0 {
    } else {
        assert(s[0] != sep);
        lemma_first_sep_is(s.drop_first(), sep, k - 1);
    }
}

/// `s` without its leading whitespace.
pub open spec fn trim_start(s: Seq<char>) -> Seq<char>
    decreases s.len(),
{
    if s.len() > 0 && is_space(s[0]) {
        trim_start(s.drop_first())
    } else {
        s
    }
}

/// `s` without its trailing whitespace.
pub open spec fn trim_end(s: Seq<char>) -> Seq<char>
    decreases s.len(),
{
    if s.len() > 0 && is_space(s[s.len() - 1]) {
        trim_end(s.drop_last())
    } else {
        s
    }
}

/// `s` without leading and trailing whitespace.
pub open spec fn trim(s: Seq<char>) -> Seq<char> {
    trim_end(trim_start(s))
}

pub proof fn lemma_trim_start_is(s: Seq<char>, a: int)
    requires
        0 <= a <= s.len(),
        forall|m: int| 0 <= m < a ==> is_space(s[m]),
        a < s.len() ==> !is_space(s[a]),
    ensures
        trim_start(s) == s.subrange(a, s.len() as int),
    decreases a,
{
    if a == 0 {
        assert(trim_start(s) =~= s.subrange(0, s.len() as int));
    } else {
        assert(is_space(s[0]));
        lemma_trim_start_is(s.drop_first(), a - 1);
        assert(s.drop_first().subrange(a - 1, s.drop_first().len() as int) =~= s.subrange(
            a,
            s.len() as int,
        ));
    }
}

pub proof fn lemma_trim_end_is(s: Seq<char>, b: int)
    requires
        0 <= b <= s.len(),
        forall|m: int| b <= m < s.len() ==> is_space(s[m]),
        b > 0 ==> !is_space(s[b - 1]),
    ensures
        trim_end(s) == s.subrange(0, b),
    decreases s.len(),
{
    if b == s.len() {
        assert(trim_end(s) =~= s.subrange(0, b));
    } else {
        assert(is_space(s[s.len() - 1]));
        lemma_trim_end_is(s.drop_last(), b);
        assert(s.drop_last().subrange(0, b) =~= s.subrange(0, b));
    }
}

/// The records contributed by one line: none for a line that is blank once
/// trimmed, none for a line without exactly two comma-separated columns, and
/// otherwise one record of the two trimmed columns. With `reverse` the first
/// column becomes the back of the record and the second the front; without it
/// the first column is the front.
pub open spec fn line_record(line: Seq<char>, reverse: bool) -> Seq<(Seq<char>, Seq<char>)> {
    let j = first_sep(line, ',');
    if trim(line).len() == 0 {
        Seq::empty()
    } else if j < line.len() && first_sep(line.subrange(j + 1, line.len() as int), ',')
        == line.len() - j - 1 {
        let c0 = trim(line.subrange(0, j));
        let c1 = trim(line.subrange(j + 1, line.len() as int));
        if reverse {
            seq![(c1, c0)]
        } else {
            seq![(c0, c1)]
        }
    } else {
        Seq::empty()
    }
}

/// All records of `data`: the text is split into lines on `'\n'` and each
/// line contributes the records of `line_record`.
pub open spec fn parse_records(data: Seq<char>, reverse: bool) -> Seq<(Seq<char>, Seq<char>)>
    decreases data.len(),
{
    let i = first_sep(data, '\n');
    if 0 <= i < data.len() {
        line_record(data.subrange(0, i), reverse) + parse_records(
            data.subrange(i + 1, data.len() as int),
            reverse,
        )
    } else {
        line_record(data, reverse)
    }
}

fn space_char(c: char) -> (r: bool)
    ensures
        r == is_space(c),
{
    c == ' ' || c == '\t' || c == '\r' || c == '\n'
}

/// First position in `[from, to)` of `s` that holds `sep`, or `to`.
fn find_char_in(s: &str, from: usize, to: usize, sep: char) -> (r: usize)
    requires
        from <= to <= s@.len(),
    ensures
        from <= r <= to,
        first_sep(s@.subrange(from as int, to as int), sep) == r - from,
{
    let mut i: usize = from;
    while i < to
        invariant
            from <= i <= to <= s@.len(),
            forall|m: int| from <= m < i ==> s@[m] != sep,
        decreases to - i,
    {
        if s.get_char(i) == sep {
            proof {
                lemma_first_sep_is(s@.subrange(from as int, to as int), sep, i - from);
            }
            return i;
        }
        i += 1;
    }
    proof {
        lemma_first_sep_is(s@.subrange(from as int, to as int), sep, to - from);
    }
    to
}

/// Bounds of the trimmed text inside the window `[from, to)` of `s`.
fn trim_bounds(s: &str, from: usize, to: usize) -> (r: (usize, usize))
    requires
        from <= to <= s@.len(),
    ensures
        from <= r.0 <= r.1 <= to,
        trim(s@.subrange(from as int, to as int)) == s@.subrange(r.0 as int, r.1 as int),
{
    let mut a: usize = from;
    while a < to && space_char(s.get_char(a))
        invariant
            from <= a <= to <= s@.len(),
            forall|m: int| from <= m < a ==> is_space(s@[m]),
        decreases to - a,
    {
        a += 1;
    }
    let mut b: usize = to;
    while b > a && space_char(s.get_char(b - 1))
        invariant
            from <= a <= b <= to <= s@.len(),
            forall|m: int| b <= m < to ==> is_space(s@[m]),
        decreases b,
    {
        b -= 1;
    }
    proof {
        let w = s@.subrange(from as int, to as int);
        lemma_trim_start_is(w, a - from);
        let w2 = s@.subrange(a as int, to as int);
        assert(trim_start(w) =~= w2);
        lemma_trim_end_is(w2, b - a);
        assert(w2.subrange(0, b - a) =~= s@.subrange(a as int, b as int));
    }
    (a, b)
}

/// Appends the records of the line `[lo, hi)` of `data` to `items`.
fn push_line_record(data: &str, lo: usize, hi: usize, reverse: bool, items: &mut Vec<StudyItem>)
    requires
        lo <= hi <= data@.len(),
    ensures
        final(items).deep_view() == old(items).deep_view() + line_record(
            data@.subrange(lo as int, hi as int),
            reverse,
        ),
{
    let ghost line = data@.subrange(lo as int, hi as int);
    let (a, b) = trim_bounds(data, lo, hi);
    if a == b {
        assert(items.deep_view() =~= old(items).deep_view() + line_record(line, reverse));
        return ;
    }
    let j = find_char_in(data, lo, hi, ',');
    if j < hi {
        let j2 = find_char_in(data, j + 1, hi, ',');
        if j2 == hi {
            proof {
                assert(line.subrange(0, j - lo) =~= data@.subrange(lo as int, j as int));
                assert(line.subrange(j - lo + 1, line.len() as int) =~= data@.subrange(
                    j + 1,
                    hi as int,
                ));
            }
            let (a0, b0) = trim_bounds(data, lo, j);
            let (a1, b1) = trim_bounds(data, j + 1, hi);
            let c0 = data.substring_char(a0, b0).to_owned();
            let c1 = data.substring_char(a1, b1).to_owned();
            let item = if reverse {
                StudyItem { front: c1, back: c0 }
            } else {
                StudyItem { front: c0, back: c1 }
            };
            items.push(item);
            assert(items.deep_view() =~= old(items).deep_view() + line_record(line, reverse));
        } else {
            proof {
                assert(line.subrange(j - lo + 1, line.len() as int) =~= data@.subrange(
                    j + 1,
                    hi as int,
                ));
            }
            assert(items.deep_view() =~= old(items).deep_view() + line_record(line, reverse));
        }
    } else {
        assert(items.deep_view() =~= old(items).deep_view() + line_record(line, reverse));
    }
}

/// Parses the two-column comma-separated record format of the vocabulary
/// sources: one record per line, blank lines skipped, lines without exactly
/// two columns skipped, both columns trimmed. With `reverse` the first column
/// of each record is stored as the back and the second as the front.
pub fn parse_set_data(data: &str, reverse: bool) -> (r: Vec<StudyItem>)
    ensures
        r.deep_view() == parse_records(data@, reverse),
{
    let n = data.unicode_len();
    let mut items: Vec<StudyItem> = Vec::new();
    let mut pos: usize = 0;
    proof {
        assert(items.deep_view() =~= Seq::<(Seq<char>, Seq<char>)>::empty());
        assert(data@.subrange(0, n as int) =~= data@);
    }
    while pos < n
        invariant
            pos <= n,
            n == data@.len(),
            parse_records(data@, reverse) == items.deep_view() + parse_records(
                data@.subrange(pos as int, n as int),
                reverse,
            ),
        decreases n - pos,
    {
        let ghost suffix = data@.subrange(pos as int, n as int);
        let line_end = find_char_in(data, pos, n, '\n');
        push_line_record(data, pos, line_end, reverse, &mut items);
        proof {
            assert(suffix.subrange(0, line_end - pos) =~= data@.subrange(
                pos as int,
                line_end as int,
            ));
            if line_end < n {
                assert(suffix.subrange(line_end - pos + 1, suffix.len() as int) =~= data@.subrange(
                    line_end + 1,
                    n as int,
                ));
            } else {
                assert(suffix =~= data@.subrange(pos as int, line_end as int));
                let empty_tail = data@.subrange(n as int, n as int);
                assert(empty_tail =~= Seq::<char>::empty());
                assert(trim(empty_tail).len() == 0);
                assert(parse_records(empty_tail, reverse) =~= Seq::<
                    (Seq<char>, Seq<char>),
                >::empty());
            }
        }
        if line_end < n {
            pos = line_end + 1;
        } else {
            pos = n;
        }
    }
    proof {
        let empty_tail = data@.subrange(n as int, n as int);
        assert(empty_tail =~= Seq::<char>::empty());
        assert(trim(empty_tail).len() == 0);
        assert(parse_records(empty_tail, reverse) =~= Seq::<(Seq<char>, Seq<char>)>::empty());
        assert(items.deep_view() + parse_records(empty_tail, reverse) =~= items.deep_view());
    }
    items
}

/// Equality of two strings, decided character by character.
pub fn str_eq(a: &str, b: &str) -> (r: bool)
    ensures
        r == (a@ == b@),
{
    let na = a.unicode_len();
    let nb = b.unicode_len();
    if na != nb {
        return false;
    }
    let mut i: usize = 0;
    while i < na
        invariant
            i <= na,
            na == a@.len() == b@.len(),
            forall|m: int| 0 <= m < i ==> a@[m] == b@[m],
        decreases na - i,
    {
        if s_get(a, i) != s_get(b, i) {
            return false;
        }
        i += 1;
    }
    proof {
        assert(a@ =~= b@);
    }
    true
}

fn s_get(s: &str, i: usize) -> (c: char)
    requires
        i < s@.len(),
    ensures
        c == s@[i as int],
{
    s.get_char(i)
}

} // verus!
