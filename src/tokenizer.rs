//! Splitting a line into fields at a delimiter.
use vstd::prelude::*;

verus! {

/// The fields of `s` when it is cut at every occurrence of `d`: `k`
/// occurrences give `k + 1` fields, and a leading, trailing or doubled
/// delimiter gives an empty field.
pub open spec fn split_fields(s: Seq<char>, d: char) -> Seq<Seq<char>>
    decreases s.len(),
{
    if s.len() == 0 {
        seq![Seq::empty()]
    } else {
        let p = split_fields(s.drop_last(), d);
        if s.last() == d {
            p.push(Seq::empty())
        } else {
            p.update(p.len() - 1, p.last().push(s.last()))
        }
    }
}

/// There is always at least one field.
pub proof fn lemma_split_fields_nonempty(s: Seq<char>, d: char)
    ensures
        split_fields(s, d).len() >= 1,
    decreases s.len(),
{
    if s.len() > 0 {
        lemma_split_fields_nonempty(s.drop_last(), d);
    }
}

/// A line with `k` occurrences of the delimiter splits into `k + 1` fields.
pub proof fn lemma_field_count(s: Seq<char>, d: char)
    ensures
        split_fields(s, d).len() == s.filter(|c: char| c == d).len() + 1,
    decreases s.len(),
{
    reveal(Seq::filter);
    if s.len() > 0 {
        lemma_field_count(s.drop_last(), d);
    }
}

/// No field holds the delimiter.
pub proof fn lemma_fields_exclude_delimiter(s: Seq<char>, d: char)
    ensures
        forall|i: int, j: int|
            0 <= i < split_fields(s, d).len() && 0 <= j < split_fields(s, d)[i].len()
                ==> split_fields(s, d)[i][j] != d,
    decreases s.len(),
{
    if s.len() > 0 {
        lemma_fields_exclude_delimiter(s.drop_last(), d);
        lemma_split_fields_nonempty(s.drop_last(), d);
        let p = split_fields(s.drop_last(), d);
        if s.last() != d {
            let f = p.last().push(s.last());
            assert forall|i: int, j: int|
                0 <= i < split_fields(s, d).len() && 0 <= j < split_fields(s, d)[i].len()
                    implies split_fields(s, d)[i][j] != d by {
                if i == p.len() - 1 && j == p.last().len() {
                    assert(split_fields(s, d)[i] == f);
                }
            }
        }
    }
}

/// The views of a sequence of string slices.
pub open spec fn views_of(v: Seq<&str>) -> Seq<Seq<char>> {
    v.map_values(|f: &str| f@)
}

/// Splits `line` at every occurrence of `delimiter`; the fields borrow from
/// `line`.
pub fn tokenize<'a>(line: &'a str, delimiter: char) -> (fields: Vec<&'a str>)
    ensures
        views_of(fields@) == split_fields(line@, delimiter),
{
    let mut chars: Vec<char> = Vec::new();
    for c in it: line.chars()
        invariant
            chars@ == it.seq().take(it.index() as int),
    {
        chars.push(c);
    }
    assert(chars@ == line@);
    let ascii = line.is_ascii();
    let n = chars.len();
    let mut fields: Vec<&'a str> = Vec::new();
    let mut start: usize = 0;
    let mut i: usize = 0;
    assert(line@.take(0) =~= Seq::<char>::empty());
    assert(views_of(fields@) + seq![line@.subrange(0, 0)] =~= seq![Seq::<char>::empty()]);
    while i < n
        invariant
            n == chars@.len() == line@.len(),
            chars@ == line@,
            ascii == line.is_ascii(),
            start <= i <= n,
            views_of(fields@) + seq![line@.subrange(start as int, i as int)] == split_fields(
                line@.take(i as int),
                delimiter,
            ),
        decreases n - i,
    {
        proof {
            lemma_split_fields_nonempty(line@.take(i as int), delimiter);
            assert(line@.take(i + 1).drop_last() == line@.take(i as int));
            assert(line@.take(i + 1).last() == chars@[i as int]);
        }
        if chars[i] == delimiter {
            let f = if ascii {
                line.substring_ascii(start, i)
            } else {
                line.substring_char(start, i)
            };
            let ghost before = fields@;
            fields.push(f);
            assert(views_of(fields@) =~= views_of(before).push(line@.subrange(start as int, i as int)));
            start = i + 1;
            assert(line@.subrange(start as int, start as int) =~= Seq::<char>::empty());
            assert(views_of(fields@) + seq![line@.subrange(start as int, (i + 1) as int)] =~= split_fields(line@.take(i + 1), delimiter));
        } else {
            assert(line@.subrange(start as int, (i + 1) as int) == line@.subrange(start as int, i as int).push(chars@[i as int]));
            assert(views_of(fields@) + seq![line@.subrange(start as int, (i + 1) as int)] =~= split_fields(line@.take(i + 1), delimiter));
        }
        i = i + 1;
    }
    let f = if ascii {
        line.substring_ascii(start, n)
    } else {
        line.substring_char(start, n)
    };
    let ghost before = fields@;
    fields.push(f);
    assert(views_of(fields@) =~= views_of(before).push(line@.subrange(start as int, n as int)));
    assert(line@.take(n as int) == line@);
    assert(views_of(fields@) =~= split_fields(line@, delimiter));
    fields
}

/// Splits a heading line into column names at each comma.
pub fn split_headings(headings_line: &str) -> (headings: Vec<&str>)
    ensures
        views_of(headings@) == split_fields(headings_line@, ','),
{
    tokenize(headings_line, ',')
}

} // verus!
