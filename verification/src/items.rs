//! Item types for comma-delimited headers: unsigned decimal numbers and
//! plain text tokens, each with its parse rule and display text.

use vstd::prelude::*;
use vstd::string::StrSliceExecFns;
use vstd::string::StringExecFns;

use crate::decode::FromText;
use crate::format::ToText;
use crate::text::digit_val;
use crate::text::is_digit;

verus! {

/// Every character of `s` is an ASCII decimal digit.
pub open spec fn all_digits(s: Seq<char>) -> bool {
    forall|j: int| 0 <= j < s.len() ==> is_digit(s[j])
}

/// The number denoted by a sequence of decimal digits, most significant
/// first.
pub open spec fn dec_val(s: Seq<char>) -> int
    decreases s.len(),
{
    if s.len() == 0 {
        0
    } else {
        dec_val(s.drop_last()) * 10 + digit_val(s.last())
    }
}

/// The decimal digits of a non-negative number, most significant first, with
/// no leading zero except for the number zero itself.
pub open spec fn dec_digits(v: int) -> Seq<char>
    decreases v,
{
    if v < 10 {
        seq![((48 + v) as u8) as char]
    } else {
        dec_digits(v / 10).push(((48 + v % 10) as u8) as char)
    }
}

proof fn lemma_dec_val_nonneg(s: Seq<char>)
    requires
        all_digits(s),
    ensures
        dec_val(s) >= 0,
    decreases s.len(),
{
    if s.len() > 0 {
        lemma_dec_val_nonneg(s.drop_last());
    }
}

/// A longer digit string denotes at least as large a number.
proof fn lemma_dec_val_ge_prefix(s: Seq<char>, i: int)
    requires
        all_digits(s),
        0 <= i <= s.len(),
    ensures
        dec_val(s) >= dec_val(s.take(i)),
    decreases s.len() - i,
{
    if i < s.len() {
        lemma_dec_val_ge_prefix(s, i + 1);
        let t = s.take(i + 1);
        assert(t.drop_last() =~= s.take(i));
        assert(all_digits(s.take(i)));
        lemma_dec_val_nonneg(s.take(i));
    } else {
        assert(s.take(i) =~= s);
    }
}

impl FromText for u64 {
    /// A token parses as a number when it is one or more decimal digits and
    /// the value fits; anything else — empty, a sign, other characters,
    /// overflow — is rejected.
    open spec fn parse_spec(s: Seq<char>) -> Option<u64> {
        if s.len() > 0 && all_digits(s) && dec_val(s) <= u64::MAX {
            Some(dec_val(s) as u64)
        } else {
            None
        }
    }

    fn from_text(s: &str) -> (r: Option<u64>) {
        let n = s.unicode_len();
        if n == 0 {
            return None;
        }
        let mut i: usize = 0;
        while i < n
            invariant
                i <= n,
                n == s@.len(),
                forall|j: int| 0 <= j < i ==> is_digit(s@[j]),
            decreases n - i,
        {
            let c = s.get_char(i);
            let u = c as u32;
            if u < 48 || u > 57 {
                return None;
            }
            i += 1;
        }
        assert(all_digits(s@));
        let mut acc: u64 = 0;
        let mut k: usize = 0;
        while k < n
            invariant
                k <= n,
                n == s@.len(),
                all_digits(s@),
                acc == dec_val(s@.take(k as int)),
            decreases n - k,
        {
            let c = s.get_char(k);
            let u = c as u32;
            let d = (u - 48) as u64;
            proof {
                assert(s@.take(k + 1 as int).drop_last() =~= s@.take(k as int));
                assert(s@.take(k + 1 as int).last() == s@[k as int]);
            }
            let m = match acc.checked_mul(10) {
                Some(m) => m,
                None => {
                    proof {
                        lemma_dec_val_ge_prefix(s@, k + 1 as int);
                    }
                    return None;
                },
            };
            acc = match m.checked_add(d) {
                Some(a) => a,
                None => {
                    proof {
                        lemma_dec_val_ge_prefix(s@, k + 1 as int);
                    }
                    return None;
                },
            };
            k += 1;
        }
        proof {
            assert(s@.take(n as int) =~= s@);
        }
        Some(acc)
    }
}

fn digit_string(d: u8) -> (r: String)
    requires
        d < 10,
    ensures
        r@ == seq![((48 + d) as u8) as char],
{
    let r = match d {
        0 => {
            proof {
                reveal_strlit("0");
            }
            String::from_str("0")
        },
        1 => {
            proof {
                reveal_strlit("1");
            }
            String::from_str("1")
        },
        2 => {
            proof {
                reveal_strlit("2");
            }
            String::from_str("2")
        },
        3 => {
            proof {
                reveal_strlit("3");
            }
            String::from_str("3")
        },
        4 => {
            proof {
                reveal_strlit("4");
            }
            String::from_str("4")
        },
        5 => {
            proof {
                reveal_strlit("5");
            }
            String::from_str("5")
        },
        6 => {
            proof {
                reveal_strlit("6");
            }
            String::from_str("6")
        },
        7 => {
            proof {
                reveal_strlit("7");
            }
            String::from_str("7")
        },
        8 => {
            proof {
                reveal_strlit("8");
            }
            String::from_str("8")
        },
        _ => {
            proof {
                reveal_strlit("9");
            }
            String::from_str("9")
        },
    };
    proof {
        assert(r@ =~= seq![((48 + d) as u8) as char]);
    }
    r
}

impl ToText for u64 {
    /// A number displays as its decimal digits, most significant first.
    open spec fn display_spec(v: u64) -> Seq<char> {
        dec_digits(v as int)
    }

    fn to_text(&self) -> (r: String)
        decreases *self,
    {
        let v = *self;
        if v < 10 {
            digit_string(v as u8)
        } else {
            let mut r = (v / 10).to_text();
            let d = digit_string((v % 10) as u8);
            r.append(d.as_str());
            proof {
                assert(r@ =~= dec_digits(v as int / 10).push(((48 + v as int % 10) as u8) as char));
            }
            r
        }
    }
}

/// A plain text token: any text is accepted as-is, as with parsing into a
/// string, and it displays as itself.
#[derive(Debug, Clone, PartialEq, Eq)]
pub struct Token {
    pub text: String,
}

impl View for Token {
    type V = Seq<char>;

    open spec fn view(&self) -> Seq<char> {
        self.text@
    }
}

impl FromText for Token {
    /// Every token parses, to itself.
    open spec fn parse_spec(s: Seq<char>) -> Option<Seq<char>> {
        Some(s)
    }

    fn from_text(s: &str) -> (r: Option<Token>) {
        Some(Token { text: String::from_str(s) })
    }
}

impl ToText for Token {
    /// A token displays as its own text.
    open spec fn display_spec(v: Seq<char>) -> Seq<char> {
        v
    }

    fn to_text(&self) -> (r: String) {
        self.text.clone()
    }
}

} // verus!
