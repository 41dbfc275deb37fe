//! Decoding raw header values into typed values: a single value from a raw
//! multi-valued field, and comma-delimited lists whose unparsable items are
//! silently dropped.
//!
//! A raw header value is an ordered sequence of byte sequences, one element
//! per received occurrence of the field. Decoding succeeds only on exactly
//! one occurrence whose bytes are valid UTF-8; every failure collapses to
//! `None`, so a malformed field degrades to "header absent".

use vstd::prelude::*;
use vstd::string::StrSliceExecFns;
use vstd::utf8::decode_utf8;
use vstd::utf8::valid_utf8;

use crate::text::is_ws;
use crate::text::lemma_split_at_comma;
use crate::text::lemma_split_whole;
use crate::text::split_commas;
use crate::text::trim_end;
use crate::text::trim_start;
use crate::text::trimmed;

verus! {

/// A type that can be read from one text token, with its parse rule stated
/// as a spec function over the token's characters. Parsing is all-or-nothing:
/// `from_text` returns `Some` exactly when the rule accepts the whole token.
pub trait FromText: View + Sized {
    /// The value (as a mathematical view) that a token denotes, if any.
    spec fn parse_spec(s: Seq<char>) -> Option<Self::V>;

    /// Parse one token.
    fn from_text(s: &str) -> (r: Option<Self>)
        ensures
            match r {
                Some(t) => Self::parse_spec(s@) == Some(t@),
                None => Self::parse_spec(s@) is None,
            },
    ;
}

/// The views of the elements of a sequence of values.
pub open spec fn views_of<T: View>(s: Seq<T>) -> Seq<T::V> {
    s.map_values(|t: T| t@)
}

/// The values denoted by a sequence of comma-separated pieces: each piece is
/// trimmed and parsed, pieces that fail to parse are dropped, and order is
/// kept.
pub open spec fn parse_pieces<T: FromText>(ps: Seq<Seq<char>>) -> Seq<T::V>
    decreases ps.len(),
{
    if ps.len() == 0 {
        Seq::empty()
    } else {
        match T::parse_spec(trimmed(ps[0])) {
            Some(v) => seq![v] + parse_pieces::<T>(ps.drop_first()),
            None => parse_pieces::<T>(ps.drop_first()),
        }
    }
}

/// What decoding a comma-delimited list from one byte sequence yields:
/// `None` exactly when the bytes are not valid UTF-8, else the parsed items.
pub open spec fn comma_list_spec<T: FromText>(bytes: Seq<u8>) -> Option<Seq<T::V>> {
    if valid_utf8(bytes) {
        Some(parse_pieces::<T>(split_commas(decode_utf8(bytes))))
    } else {
        None
    }
}

/// What decoding a comma-delimited list from a raw multi-valued field yields:
/// the field must occur exactly once.
pub open spec fn comma_list_multi_spec<T: FromText>(raw: Seq<Seq<u8>>) -> Option<Seq<T::V>> {
    if raw.len() == 1 {
        comma_list_spec::<T>(raw[0])
    } else {
        None
    }
}

/// What decoding a single value from a raw multi-valued field yields: the
/// field must occur exactly once, its bytes must be valid UTF-8, and the
/// whole text must parse.
pub open spec fn single_value_spec<T: FromText>(raw: Seq<Seq<u8>>) -> Option<T::V> {
    if raw.len() == 1 && valid_utf8(raw[0]) {
        T::parse_spec(decode_utf8(raw[0]))
    } else {
        None
    }
}

/// Relies on `std::str::from_utf8`: it returns `Ok` exactly when the bytes
/// are a valid UTF-8 encoding, and the returned string borrows those same
/// bytes, so its characters are their decoding.
#[verifier::external_body]
fn utf8_str(v: &[u8]) -> (r: Option<&str>)
    ensures
        r is Some <==> valid_utf8(v@),
        r matches Some(s) ==> s@ == decode_utf8(v@),
{
    std::str::from_utf8(v).ok()
}

fn is_ws_char(c: char) -> (r: bool)
    ensures
        r == is_ws(c),
{
    c == ' ' || c == '\t' || c == '\n' || c == '\r' || c == '\u{0C}'
}

pub proof fn lemma_views_of_push<T: View>(s: Seq<T>, t: T)
    ensures
        views_of(s.push(t)) == views_of(s).push(t@),
{
    assert(views_of(s.push(t)) =~= views_of(s).push(t@));
}

/// Splitting off the first piece of a piece list splits off its parse.
pub proof fn lemma_parse_pieces_head<T: FromText>(p: Seq<char>, ps: Seq<Seq<char>>)
    ensures
        parse_pieces::<T>(seq![p] + ps) == (match T::parse_spec(trimmed(p)) {
            Some(v) => seq![v] + parse_pieces::<T>(ps),
            None => parse_pieces::<T>(ps),
        }),
{
    let q = seq![p] + ps;
    assert(q[0] == p);
    assert(q.drop_first() =~= ps);
}

/// Reads a single typed value from a raw header value: succeeds only if the
/// field occurred exactly once, its bytes are valid UTF-8, and the text
/// parses as `T`.
pub fn from_one_raw_str<T: FromText>(raw: &[Vec<u8>]) -> (r: Option<T>)
    ensures
        match r {
            Some(t) => single_value_spec::<T>(raw.deep_view()) == Some(t@),
            None => single_value_spec::<T>(raw.deep_view()) is None,
        },
{
    proof {
        if raw.deep_view().len() == 1 {
            assert(raw.deep_view()[0] =~= raw@[0]@);
        }
    }
    if raw.len() != 1 {
        return None;
    }
    let s = match utf8_str(raw[0].as_slice()) {
        Some(s) => s,
        None => {
            return None;
        },
    };
    T::from_text(s)
}

/// Reads a comma-delimited list from a raw header value: the field must have
/// occurred exactly once; its bytes are then decoded as by
/// [`from_one_comma_delimited`].
pub fn from_comma_delimited<T: FromText>(raw: &[Vec<u8>]) -> (r: Option<Vec<T>>)
    ensures
        match r {
            Some(v) => comma_list_multi_spec::<T>(raw.deep_view()) == Some(views_of(v@)),
            None => comma_list_multi_spec::<T>(raw.deep_view()) is None,
        },
{
    proof {
        if raw.deep_view().len() == 1 {
            assert(raw.deep_view()[0] =~= raw@[0]@);
        }
    }
    if raw.len() != 1 {
        return None;
    }
    from_one_comma_delimited(raw[0].as_slice())
}

/// Reads a comma-delimited list from a single byte sequence. Fails only if
/// the bytes are not valid UTF-8; otherwise the text is split on commas,
/// each piece is trimmed of ASCII whitespace and parsed as `T`, and pieces
/// that fail to parse are silently dropped, order and duplicates kept.
pub fn from_one_comma_delimited<T: FromText>(raw: &[u8]) -> (r: Option<Vec<T>>)
    ensures
        match r {
            Some(v) => comma_list_spec::<T>(raw@) == Some(views_of(v@)),
            None => comma_list_spec::<T>(raw@) is None,
        },
{
    let s = match utf8_str(raw) {
        Some(s) => s,
        None => {
            return None;
        },
    };
    Some(decode_list(s))
}

/// Splits `s` on commas, trims each piece, parses it as `T`, and keeps the
/// values that parse, in order.
fn decode_list<T: FromText>(s: &str) -> (r: Vec<T>)
    ensures
        views_of::<T>(r@) == parse_pieces::<T>(split_commas(s@)),
{
    let n = s.unicode_len();
    let mut out: Vec<T> = Vec::new();
    let mut start: usize = 0;
    let mut i: usize = 0;
    proof {
        assert(s@.subrange(0, n as int) =~= s@);
        assert(views_of::<T>(out@) =~= Seq::<T::V>::empty());
        assert(Seq::<T::V>::empty() + parse_pieces::<T>(split_commas(s@)) =~= parse_pieces::<T>(
            split_commas(s@),
        ));
    }
    loop
        invariant_except_break
            start <= i <= n,
            n == s@.len(),
            forall|j: int| start <= j < i ==> s@[j] != ',',
            views_of::<T>(out@) + parse_pieces::<T>(
                split_commas(s@.subrange(start as int, n as int)),
            ) == parse_pieces::<T>(split_commas(s@)),
        ensures
            views_of::<T>(out@) == parse_pieces::<T>(split_commas(s@)),
        decreases n - i,
    {
        if i < n && s.get_char(i) != ',' {
            i += 1;
        } else {
            let ghost piece = s@.subrange(start as int, i as int);
            let ghost suffix = s@.subrange(start as int, n as int);
            // trim the piece: advance past leading whitespace
            let mut ts = start;
            while ts < i && is_ws_char(s.get_char(ts))
                invariant
                    start <= ts <= i <= n,
                    n == s@.len(),
                    trim_start(piece) == trim_start(s@.subrange(ts as int, i as int)),
                    piece == s@.subrange(start as int, i as int),
                decreases i - ts,
            {
                proof {
                    let cur = s@.subrange(ts as int, i as int);
                    assert(cur.drop_first() =~= s@.subrange(ts as int + 1, i as int));
                }
                ts += 1;
            }
            proof {
                let cur = s@.subrange(ts as int, i as int);
                assert(trim_start(cur) == cur);
            }
            // and back over trailing whitespace
            let mut te = i;
            while te > ts && is_ws_char(s.get_char(te - 1))
                invariant
                    start <= ts <= te <= i <= n,
                    n == s@.len(),
                    trimmed(piece) == trim_end(s@.subrange(ts as int, te as int)),
                    piece == s@.subrange(start as int, i as int),
                decreases te - ts,
            {
                proof {
                    let cur = s@.subrange(ts as int, te as int);
                    assert(cur.drop_last() =~= s@.subrange(ts as int, te as int - 1));
                }
                te -= 1;
            }
            proof {
                let cur = s@.subrange(ts as int, te as int);
                assert(trim_end(cur) == cur);
                assert(trimmed(piece) == s@.subrange(ts as int, te as int));
            }
            let token = s.substring_char(ts, te);
            let parsed = T::from_text(token);
            proof {
                if i < n {
                    // the suffix splits at its first comma into this piece
                    // and the text after the comma
                    assert(suffix[i - start] == s@[i as int]);
                    lemma_split_at_comma(suffix, i - start);
                    assert(suffix.subrange(0, i - start) =~= piece);
                    assert(suffix.subrange(i - start + 1, suffix.len() as int) =~= s@.subrange(
                        i + 1,
                        n as int,
                    ));
                    lemma_parse_pieces_head::<T>(
                        piece,
                        split_commas(s@.subrange(i + 1, n as int)),
                    );
                } else {
                    // the suffix is the final, comma-free piece
                    assert(suffix =~= piece);
                    lemma_split_whole(piece);
                    lemma_parse_pieces_head::<T>(piece, Seq::empty());
                    assert(seq![piece] + Seq::<Seq<char>>::empty() =~= seq![piece]);
                    assert(parse_pieces::<T>(Seq::<Seq<char>>::empty()) == Seq::<
                        T::V,
                    >::empty());
                }
            }
            let ghost out_before = out@;
            match parsed {
                Some(t) => {
                    out.push(t);
                    proof {
                        lemma_views_of_push(out_before, t);
                    }
                },
                None => {},
            }
            proof {
                if i < n {
                    let tail = parse_pieces::<T>(
                        split_commas(s@.subrange(i + 1 as int, n as int)),
                    );
                    match T::parse_spec(trimmed(piece)) {
                        Some(v) => {
                            assert(views_of::<T>(out_before) + (seq![v] + tail) =~= views_of::<
                                T,
                            >(out@) + tail);
                        },
                        None => {},
                    }
                } else {
                    match T::parse_spec(trimmed(piece)) {
                        Some(v) => {
                            assert(views_of::<T>(out_before) + seq![v] =~= views_of::<T>(out@));
                        },
                        None => {
                            assert(views_of::<T>(out_before) + Seq::<T::V>::empty() =~= views_of::<
                                T,
                            >(out@));
                        },
                    }
                }
            }
            if i == n {
                break ;
            }
            i += 1;
            start = i;
        }
    }
    out
}

/// How many pieces of a piece list parse after trimming.
pub open spec fn count_parsed<T: FromText>(ps: Seq<Seq<char>>) -> nat
    decreases ps.len(),
{
    if ps.len() == 0 {
        0
    } else {
        (if T::parse_spec(trimmed(ps[0])) is Some {
            1nat
        } else {
            0nat
        }) + count_parsed::<T>(ps.drop_first())
    }
}

proof fn lemma_pieces_len<T: FromText>(ps: Seq<Seq<char>>)
    ensures
        parse_pieces::<T>(ps).len() == count_parsed::<T>(ps),
    decreases ps.len(),
{
    if ps.len() > 0 {
        lemma_pieces_len::<T>(ps.drop_first());
    }
}

/// A comma-delimited list decoded from a text has exactly one element for
/// each comma-separated, whitespace-trimmed substring of the text that
/// parses as `T`; `parse_pieces` itself keeps their left-to-right order.
pub proof fn lemma_decoded_list_len<T: FromText>(s: Seq<char>)
    ensures
        parse_pieces::<T>(split_commas(s)).len() == count_parsed::<T>(split_commas(s)),
{
    lemma_pieces_len::<T>(split_commas(s));
}

} // verus!
