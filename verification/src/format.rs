//! Formatting a sequence of displayable items back into comma-delimited wire
//! text, and the round-trip law tying the formatter to the list decoder.

use vstd::prelude::*;
use vstd::string::StringExecFns;

use crate::decode::FromText;
use crate::decode::lemma_parse_pieces_head;
use crate::decode::parse_pieces;
use crate::decode::views_of;
use crate::text::comma_free;
use crate::text::comma_sep;
use crate::text::join_comma_sep;
use crate::text::join_trailing;
use crate::text::lemma_join_decomp;
use crate::text::lemma_join_trailing_push;
use crate::text::lemma_split_at_comma;
use crate::text::lemma_split_len;
use crate::text::lemma_split_prepend;
use crate::text::lemma_split_whole;
use crate::text::lemma_trimmed_prepend_ws;
use crate::text::split_commas;
use crate::text::trimmed;

verus! {

/// A type whose values have a display text, stated as a spec function over
/// the value's mathematical view.
pub trait ToText: View + Sized {
    /// The display text of a value.
    spec fn display_spec(v: Self::V) -> Seq<char>;

    /// Write the value as text.
    fn to_text(&self) -> (r: String)
        ensures
            r@ == Self::display_spec(self@),
    ;
}

/// The display texts of a sequence of values.
pub open spec fn displays_of<T: ToText>(vs: Seq<T::V>) -> Seq<Seq<char>> {
    vs.map_values(|v: T::V| T::display_spec(v))
}

/// Formats the items as comma-delimited text: each item's display text, with
/// `", "` between neighbours, no separator before the first item and none
/// after the last. An empty sequence formats to the empty string.
pub fn fmt_comma_delimited<T: ToText>(parts: &[T]) -> (r: String)
    ensures
        r@ == join_comma_sep(displays_of::<T>(views_of(parts@))),
{
    let ghost ds = displays_of::<T>(views_of(parts@));
    let n = parts.len();
    let mut out = String::new();
    if n == 0 {
        proof {
            assert(ds.len() == 0);
            assert(join_comma_sep(ds) == Seq::<char>::empty());
        }
        return out;
    }
    let mut i: usize = 0;
    proof {
        assert(ds.take(0) =~= Seq::<Seq<char>>::empty());
        assert(join_trailing(ds.take(0)) == Seq::<char>::empty());
    }
    while i < n
        invariant
            i <= n,
            n == parts@.len(),
            n >= 1,
            ds == displays_of::<T>(views_of(parts@)),
            i < n ==> out@ == join_trailing(ds.take(i as int)),
            i == n ==> out@ == join_comma_sep(ds),
        decreases n - i,
    {
        let t = parts[i].to_text();
        out.append(t.as_str());
        proof {
            assert(ds[i as int] == T::display_spec(parts@[i as int]@));
        }
        if i + 1 < n {
            out.append(", ");
            proof {
                reveal_strlit(", ");
                assert(", "@ =~= comma_sep());
                lemma_join_trailing_push(ds.take(i as int), ds[i as int]);
                assert(ds.take(i as int).push(ds[i as int]) =~= ds.take(i + 1 as int));
            }
        } else {
            proof {
                lemma_join_decomp(ds);
                assert(ds.take(i as int) =~= ds.drop_last());
                assert(ds.last() == ds[i as int]);
            }
        }
        i += 1;
    }
    out
}

/// Two piece lists with the same trimmed head and the same tail parse alike.
proof fn lemma_parse_pieces_trim_head<T: FromText>(a: Seq<char>, b: Seq<char>, ps: Seq<Seq<char>>)
    requires
        trimmed(a) == trimmed(b),
    ensures
        parse_pieces::<T>(seq![a] + ps) == parse_pieces::<T>(seq![b] + ps),
{
    lemma_parse_pieces_head::<T>(a, ps);
    lemma_parse_pieces_head::<T>(b, ps);
}

/// Round trip: decoding the formatted text of a sequence of values yields
/// that sequence again, for value types whose display and parse are inverse —
/// each display text is comma-free and parses back (after trimming) to the
/// value it displays, and, for the empty sequence, empty text parses to
/// nothing.
pub proof fn lemma_format_decode_round_trip<T: FromText + ToText>(vs: Seq<T::V>)
    requires
        forall|k: int| 0 <= k < vs.len() ==> comma_free(#[trigger] T::display_spec(vs[k])),
        forall|k: int|
            0 <= k < vs.len() ==> T::parse_spec(trimmed(#[trigger] T::display_spec(vs[k])))
                == Some(vs[k]),
        vs.len() == 0 ==> T::parse_spec(trimmed(Seq::<char>::empty())) is None,
    ensures
        parse_pieces::<T>(split_commas(join_comma_sep(displays_of::<T>(vs)))) == vs,
    decreases vs.len(),
{
    let ds = displays_of::<T>(vs);
    if vs.len() == 0 {
        let e = Seq::<char>::empty();
        assert(join_comma_sep(ds) == e);
        lemma_split_whole(e);
        lemma_parse_pieces_head::<T>(e, Seq::empty());
        assert(seq![e] + Seq::<Seq<char>>::empty() =~= seq![e]);
        assert(parse_pieces::<T>(Seq::<Seq<char>>::empty()) == Seq::<T::V>::empty());
        assert(parse_pieces::<T>(split_commas(join_comma_sep(ds))) =~= vs);
    } else if vs.len() == 1 {
        assert(ds[0] == T::display_spec(vs[0]));
        assert(join_comma_sep(ds) == ds[0]);
        lemma_split_whole(ds[0]);
        lemma_parse_pieces_head::<T>(ds[0], Seq::empty());
        assert(seq![ds[0]] + Seq::<Seq<char>>::empty() =~= seq![ds[0]]);
        assert(parse_pieces::<T>(Seq::<Seq<char>>::empty()) == Seq::<T::V>::empty());
        assert(seq![vs[0]] + Seq::<T::V>::empty() =~= vs);
    } else {
        let tail = vs.drop_first();
        assert forall|k: int| 0 <= k < tail.len() implies comma_free(
            #[trigger] T::display_spec(tail[k]),
        ) && T::parse_spec(trimmed(T::display_spec(tail[k]))) == Some(tail[k]) by {
            assert(tail[k] == vs[k + 1]);
        }
        lemma_format_decode_round_trip::<T>(tail);
        let dtail = displays_of::<T>(tail);
        assert(ds.drop_first() =~= dtail);
        let jt = join_comma_sep(dtail);
        let d0 = ds[0];
        assert(d0 == T::display_spec(vs[0]));
        // the joined text is the first display, a comma, then a space and
        // the joined rest
        let w = seq![' '] + jt;
        let whole = d0 + seq![','] + w;
        assert(join_comma_sep(ds) == d0 + comma_sep() + jt);
        assert(join_comma_sep(ds) =~= whole);
        // it splits at that comma
        let l = d0.len() as int;
        assert(forall|j: int| 0 <= j < l ==> whole[j] != ',');
        assert(whole[l] == ',');
        lemma_split_at_comma(whole, l);
        assert(whole.subrange(0, l) =~= d0);
        assert(whole.subrange(l + 1, whole.len() as int) =~= w);
        // the pieces of the rest are those of the joined rest, with one
        // space prepended to the first, which trimming removes
        lemma_split_prepend(' ', jt);
        lemma_split_len(jt);
        let p0 = split_commas(jt)[0];
        let pr = split_commas(jt).drop_first();
        assert(split_commas(jt) =~= seq![p0] + pr);
        lemma_trimmed_prepend_ws(' ', p0);
        lemma_parse_pieces_trim_head::<T>(seq![' '] + p0, p0, pr);
        assert(split_commas(w) == seq![seq![' '] + p0] + pr);
        assert(parse_pieces::<T>(split_commas(w)) == parse_pieces::<T>(split_commas(jt)));
        // put the first value back on the front
        lemma_parse_pieces_head::<T>(d0, split_commas(w));
        assert(split_commas(whole) == seq![d0] + split_commas(w));
        assert(parse_pieces::<T>(split_commas(whole)) == seq![vs[0]] + tail);
        assert(seq![vs[0]] + tail =~= vs);
    }
}

} // verus!
