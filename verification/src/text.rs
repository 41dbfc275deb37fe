//! Character-level building blocks shared by the decoders and the formatter:
//! ASCII whitespace trimming, splitting on commas, and joining with `", "`,
//! each defined as a spec function with the lemmas the callers need.

use vstd::prelude::*;

verus! {

/// ASCII whitespace, the set trimmed from each comma-separated item.
pub open spec fn is_ws(c: char) -> bool {
    c == ' ' || c == '\t' || c == '\n' || c == '\r' || c == '\u{0C}'
}

/// An ASCII decimal digit.
pub open spec fn is_digit(c: char) -> bool {
    48 <= c as u32 && c as u32 <= 57
}

/// The value of an ASCII decimal digit.
pub open spec fn digit_val(c: char) -> int {
    c as u32 - 48
}

/// The sequence with its leading ASCII whitespace removed.
pub open spec fn trim_start(s: Seq<char>) -> Seq<char>
    decreases s.len(),
{
    if s.len() > 0 && is_ws(s[0]) {
        trim_start(s.drop_first())
    } else {
        s
    }
}

/// The sequence with its trailing ASCII whitespace removed.
pub open spec fn trim_end(s: Seq<char>) -> Seq<char>
    decreases s.len(),
{
    if s.len() > 0 && is_ws(s.last()) {
        trim_end(s.drop_last())
    } else {
        s
    }
}

/// The sequence with leading and trailing ASCII whitespace removed.
pub open spec fn trimmed(s: Seq<char>) -> Seq<char> {
    trim_end(trim_start(s))
}

/// Index of the first comma in `s`, or `s.len()` if there is none.
pub open spec fn find_comma(s: Seq<char>) -> nat
    decreases s.len(),
{
    if s.len() == 0 {
        0
    } else if s[0] == ',' {
        0
    } else {
        1 + find_comma(s.drop_first())
    }
}

/// `s` holds no comma.
pub open spec fn comma_free(s: Seq<char>) -> bool {
    forall|j: int| 0 <= j < s.len() ==> s[j] != ','
}

/// The substrings of `s` between commas, in order. A sequence with no comma
/// splits into itself alone, so the result is never empty.
pub open spec fn split_commas(s: Seq<char>) -> Seq<Seq<char>>
    decreases s.len(),
{
    let i = find_comma(s) as int;
    if i >= s.len() {
        seq![s]
    } else {
        seq![s.subrange(0, i)] + split_commas(s.subrange(i + 1, s.len() as int))
    }
}

/// The separator written between formatted items.
pub open spec fn comma_sep() -> Seq<char> {
    seq![',', ' ']
}

/// The items joined with `", "`: no leading separator before the first item
/// and no trailing separator after the last.
pub open spec fn join_comma_sep(ts: Seq<Seq<char>>) -> Seq<char>
    decreases ts.len(),
{
    if ts.len() == 0 {
        Seq::empty()
    } else if ts.len() == 1 {
        ts[0]
    } else {
        ts[0] + comma_sep() + join_comma_sep(ts.drop_first())
    }
}

/// The items each followed by `", "`; what a formatting loop has written
/// before it reaches the last item.
pub open spec fn join_trailing(ts: Seq<Seq<char>>) -> Seq<char>
    decreases ts.len(),
{
    if ts.len() == 0 {
        Seq::empty()
    } else {
        ts[0] + comma_sep() + join_trailing(ts.drop_first())
    }
}

pub proof fn lemma_find_comma_props(s: Seq<char>)
    ensures
        find_comma(s) <= s.len(),
        forall|j: int| 0 <= j < find_comma(s) ==> s[j] != ',',
        find_comma(s) < s.len() ==> s[find_comma(s) as int] == ',',
    decreases s.len(),
{
    if s.len() > 0 && s[0] != ',' {
        let d = s.drop_first();
        lemma_find_comma_props(d);
        assert forall|j: int| 0 <= j < find_comma(s) implies s[j] != ',' by {
            if j > 0 {
                assert(s[j] == d[j - 1]);
            }
        }
    }
}

pub proof fn lemma_find_comma_at(s: Seq<char>, i: int)
    requires
        0 <= i <= s.len(),
        forall|j: int| 0 <= j < i ==> s[j] != ',',
        i < s.len() ==> s[i] == ',',
    ensures
        find_comma(s) == i,
    decreases i,
{
    if i > 0 {
        lemma_find_comma_at(s.drop_first(), i - 1);
    }
}

pub proof fn lemma_split_whole(s: Seq<char>)
    requires
        comma_free(s),
    ensures
        split_commas(s) == seq![s],
{
    lemma_find_comma_at(s, s.len() as int);
}

pub proof fn lemma_split_at_comma(s: Seq<char>, i: int)
    requires
        0 <= i < s.len(),
        forall|j: int| 0 <= j < i ==> s[j] != ',',
        s[i] == ',',
    ensures
        split_commas(s) == seq![s.subrange(0, i)] + split_commas(
            s.subrange(i + 1, s.len() as int),
        ),
{
    lemma_find_comma_at(s, i);
}

pub proof fn lemma_split_len(s: Seq<char>)
    ensures
        split_commas(s).len() >= 1,
{
    lemma_find_comma_props(s);
}

/// Prepending one non-comma character extends the first piece of the split
/// and leaves the remaining pieces as they were.
pub proof fn lemma_split_prepend(c: char, s: Seq<char>)
    requires
        c != ',',
    ensures
        split_commas(seq![c] + s) == seq![seq![c] + split_commas(s)[0]] + split_commas(
            s,
        ).drop_first(),
{
    let t = seq![c] + s;
    let f = find_comma(s) as int;
    lemma_find_comma_props(s);
    lemma_find_comma_at(t, f + 1);
    if f == s.len() {
        lemma_find_comma_at(s, f);
        assert(split_commas(s) == seq![s]);
        assert(t.subrange(0, f + 1) =~= t);
        assert(split_commas(t) == seq![t]);
        assert(seq![seq![c] + split_commas(s)[0]] + split_commas(s).drop_first() =~= seq![t]);
    } else {
        lemma_split_at_comma(s, f);
        lemma_split_at_comma(t, f + 1);
        assert(t.subrange(0, f + 1) =~= seq![c] + s.subrange(0, f));
        assert(t.subrange(f + 2, t.len() as int) =~= s.subrange(f + 1, s.len() as int));
        assert(split_commas(s)[0] == s.subrange(0, f));
        assert(split_commas(s).drop_first() =~= split_commas(s.subrange(f + 1, s.len() as int)));
        assert(split_commas(t) =~= seq![seq![c] + split_commas(s)[0]] + split_commas(
            s,
        ).drop_first());
    }
}

pub proof fn lemma_trim_start_prepend_ws(c: char, s: Seq<char>)
    requires
        is_ws(c),
    ensures
        trim_start(seq![c] + s) == trim_start(s),
{
    assert((seq![c] + s).drop_first() =~= s);
}

pub proof fn lemma_trimmed_prepend_ws(c: char, s: Seq<char>)
    requires
        is_ws(c),
    ensures
        trimmed(seq![c] + s) == trimmed(s),
{
    lemma_trim_start_prepend_ws(c, s);
}

pub proof fn lemma_join_trailing_push(ts: Seq<Seq<char>>, v: Seq<char>)
    ensures
        join_trailing(ts.push(v)) == join_trailing(ts) + v + comma_sep(),
    decreases ts.len(),
{
    if ts.len() == 0 {
        assert(ts.push(v)[0] == v);
        assert(ts.push(v).drop_first().len() == 0);
        assert(join_trailing(ts.push(v).drop_first()) == Seq::<char>::empty());
        assert(join_trailing(ts.push(v)) == ts.push(v)[0] + comma_sep() + join_trailing(
            ts.push(v).drop_first(),
        ));
        assert(join_trailing(ts.push(v)) =~= join_trailing(ts) + v + comma_sep());
    } else {
        assert(ts.push(v).drop_first() =~= ts.drop_first().push(v));
        assert(ts.push(v)[0] == ts[0]);
        lemma_join_trailing_push(ts.drop_first(), v);
        assert(join_trailing(ts.push(v)) == ts[0] + comma_sep() + join_trailing(
            ts.drop_first().push(v),
        ));
        assert(join_trailing(ts) == ts[0] + comma_sep() + join_trailing(ts.drop_first()));
        let a = ts[0] + comma_sep();
        let y = join_trailing(ts.drop_first());
        vstd::seq_lib::lemma_concat_associative(a, y + v, comma_sep());
        vstd::seq_lib::lemma_concat_associative(a, y, v);
        assert(join_trailing(ts.push(v)) =~= join_trailing(ts) + v + comma_sep());
    }
}

/// A joined sequence is what the loop wrote for all items but the last,
/// followed by the last item bare.
pub proof fn lemma_join_decomp(ts: Seq<Seq<char>>)
    requires
        ts.len() >= 1,
    ensures
        join_comma_sep(ts) == join_trailing(ts.drop_last()) + ts.last(),
    decreases ts.len(),
{
    if ts.len() == 1 {
        assert(join_comma_sep(ts) =~= join_trailing(ts.drop_last()) + ts.last());
    } else {
        lemma_join_decomp(ts.drop_first());
        assert(ts.drop_last()[0] == ts[0]);
        assert(ts.drop_last().drop_first() =~= ts.drop_first().drop_last());
        assert(ts.drop_first().last() == ts.last());
        assert(join_comma_sep(ts) =~= join_trailing(ts.drop_last()) + ts.last());
    }
}

} // verus!
