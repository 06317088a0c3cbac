//! Decimal text for integers: the spec-level digit sequences, the formatter
//! the `asString` primitive uses, and the parser the compiler uses for
//! integer literals.

use vstd::prelude::*;

verus! {

/// The decimal digit character for `d`, which must be below ten.
pub open spec fn spec_digit_char(d: int) -> char {
    if d == 0 {
        '0'
    } else if d == 1 {
        '1'
    } else if d == 2 {
        '2'
    } else if d == 3 {
        '3'
    } else if d == 4 {
        '4'
    } else if d == 5 {
        '5'
    } else if d == 6 {
        '6'
    } else if d == 7 {
        '7'
    } else if d == 8 {
        '8'
    } else {
        '9'
    }
}

/// The decimal digits of `n`, most significant first, without sign and
/// without leading zeros (except for zero itself).
pub open spec fn spec_digits(n: nat) -> Seq<char>
    decreases n,
{
    if n < 10 {
        seq![spec_digit_char(n as int)]
    } else {
        spec_digits(n / 10).push(spec_digit_char((n % 10) as int))
    }
}

/// The decimal text of the integer `i`: a minus sign for negative values,
/// then the digits.
pub open spec fn spec_int_str(i: int) -> Seq<char> {
    if i >= 0 {
        spec_digits(i as nat)
    } else {
        seq!['-'] + spec_digits((-i) as nat)
    }
}

/// Is `c` a decimal digit?
pub open spec fn spec_is_digit(c: char) -> bool {
    '0' as int <= c as int && c as int <= '9' as int
}

/// Is `s` a non-empty run of decimal digits?
pub open spec fn spec_all_digits(s: Seq<char>) -> bool {
    s.len() > 0 && forall|k: int| 0 <= k < s.len() ==> spec_is_digit(#[trigger] s[k])
}

/// The value of the digit run `s`, most significant first.
pub open spec fn spec_digits_val(s: Seq<char>) -> int
    decreases s.len(),
{
    if s.len() == 0 {
        0
    } else {
        spec_digits_val(s.drop_last()) * 10 + (s.last() as int - '0' as int)
    }
}

/// The one-character string for the decimal digit `d`.
fn digit_str(d: u64) -> (r: &'static str)
    requires
        d < 10,
    ensures
        r@ =~= seq![spec_digit_char(d as int)],
{
    proof {
        reveal_strlit("0");
        reveal_strlit("1");
        reveal_strlit("2");
        reveal_strlit("3");
        reveal_strlit("4");
        reveal_strlit("5");
        reveal_strlit("6");
        reveal_strlit("7");
        reveal_strlit("8");
        reveal_strlit("9");
    }
    if d == 0 {
        "0"
    } else if d == 1 {
        "1"
    } else if d == 2 {
        "2"
    } else if d == 3 {
        "3"
    } else if d == 4 {
        "4"
    } else if d == 5 {
        "5"
    } else if d == 6 {
        "6"
    } else if d == 7 {
        "7"
    } else if d == 8 {
        "8"
    } else {
        "9"
    }
}

/// The decimal text of the magnitude `n`.
fn digits_string(n: u64) -> (r: String)
    ensures
        r@ == spec_digits(n as nat),
{
    let mut acc = String::new();
    let mut m: u64 = n;
    proof {
        assert(spec_digits(n as nat) =~= spec_digits(n as nat) + acc@);
    }
    loop
        invariant_except_break
            m <= n,
            m > 0 ==> spec_digits(n as nat) == spec_digits(m as nat) + acc@,
            m == 0 ==> n == 0 && acc@.len() == 0,
        ensures
            acc@ == spec_digits(n as nat),
        decreases m + (if acc@.len() == 0 {
            1int
        } else {
            0int
        }),
    {
        let d = m % 10;
        let ds = digit_str(d);
        let mut next = String::from_str(ds);
        next.append(acc.as_str());
        proof {
            if m >= 10 {
                assert(spec_digits(m as nat) == spec_digits((m / 10) as nat).push(
                    spec_digit_char((m % 10) as int),
                ));
                assert(spec_digits((m / 10) as nat) + (seq![spec_digit_char(d as int)] + acc@)
                    =~= spec_digits(m as nat) + acc@);
            } else {
                assert(spec_digits(m as nat) =~= seq![spec_digit_char(d as int)]);
                assert(spec_digits(m as nat) + acc@ =~= seq![spec_digit_char(d as int)] + acc@);
                if m == 0 {
                    assert(n == 0);
                    assert(spec_digits(n as nat) =~= seq![spec_digit_char(0int)]);
                }
            }
        }
        acc = next;
        m = m / 10;
        if m == 0 {
            break;
        }
    }
    acc
}

/// The decimal text of the integer `i`.
pub fn int_to_string(i: isize) -> (r: String)
    ensures
        r@ == spec_int_str(i as int),
{
    let iw: i64 = i as i64;
    if iw >= 0 {
        digits_string(iw as u64)
    } else {
        let mag: u64 = if iw == i64::MIN {
            proof {
                assert((0x8000_0000_0000_0000u64) as int == -(i64::MIN as int)) by (bit_vector);
            }
            0x8000_0000_0000_0000u64
        } else {
            (-iw) as u64
        };
        proof {
            reveal_strlit("-");
        }
        let mut r = String::from_str("-");
        let ds = digits_string(mag);
        r.append(ds.as_str());
        proof {
            assert(r@ =~= seq!['-'] + spec_digits(mag as nat));
        }
        r
    }
}

/// Parse a non-empty run of decimal digits as a non-negative integer; fail
/// on any other character, on an empty text, and on a value above
/// `isize::MAX`.
pub fn parse_isize(s: &str) -> (r: Option<isize>)
    ensures
        match r {
            Some(x) => spec_all_digits(s@) && x >= 0 && x as int == spec_digits_val(s@)
                && spec_digits_val(s@) <= isize::MAX as int,
            None => !(spec_all_digits(s@) && spec_digits_val(s@) <= isize::MAX as int),
        },
{
    if !s.is_ascii() {
        proof {
            crate::numstr::lemma_non_ascii_not_digits(s@);
        }
        return None;
    }
    let n = s.unicode_len();
    if n == 0 {
        return None;
    }
    let mut acc: isize = 0;
    let mut k: usize = 0;
    while k < n
        invariant
            s.is_ascii(),
            n == s@.len(),
            k <= n,
            0 <= acc,
            acc as int == spec_digits_val(s@.subrange(0, k as int)),
            forall|j: int| 0 <= j < k ==> spec_is_digit(#[trigger] s@[j]),
        decreases n - k,
    {
        let c = s.get_char(k);
        let cv = c as u32;
        if cv < 48 || cv > 57 {
            proof {
                assert('0' as int == 48 && '9' as int == 57);
            }
            return None;
        }
        let d = (cv - 48) as isize;
        proof {
            assert('0' as int == 48 && '9' as int == 57);
            assert(spec_is_digit(s@[k as int]));
            assert(s@.subrange(0, k + 1).drop_last() =~= s@.subrange(0, k as int));
            assert(spec_digits_val(s@.subrange(0, k + 1)) == acc * 10 + (s@[k as int] as int
                - 48));
        }
        let acc10 = match acc.checked_mul(10) {
            Some(v) => v,
            None => {
                proof {
                    lemma_digits_val_grows(s@, k + 1);
                }
                return None;
            },
        };
        let next = match acc10.checked_add(d) {
            Some(v) => v,
            None => {
                proof {
                    lemma_digits_val_grows(s@, k + 1);
                }
                return None;
            },
        };
        acc = next;
        k = k + 1;
    }
    proof {
        assert(s@.subrange(0, n as int) =~= s@);
    }
    Some(acc)
}

/// A digit run's value only grows as it is extended: if the first `k`
/// digits already exceed `isize::MAX`, the whole run does.
proof fn lemma_digits_val_grows(s: Seq<char>, k: int)
    requires
        0 <= k <= s.len(),
        forall|j: int| 0 <= j < k ==> spec_is_digit(#[trigger] s[j]),
    ensures
        spec_all_digits(s) ==> spec_digits_val(s) >= spec_digits_val(s.subrange(0, k)),
    decreases s.len() - k,
{
    if spec_all_digits(s) {
        if k < s.len() {
            lemma_digits_val_grows(s, k + 1);
            assert(s.subrange(0, k + 1).drop_last() =~= s.subrange(0, k));
            assert(spec_digits_val(s.subrange(0, k + 1)) == spec_digits_val(s.subrange(0, k)) * 10
                + (s[k] as int - '0' as int));
            assert(spec_digits_val(s.subrange(0, k)) >= 0) by {
                lemma_digits_val_nonneg(s.subrange(0, k));
            }
        } else {
            assert(s.subrange(0, k) =~= s);
        }
    }
}

/// The value of a digit run is never negative.
proof fn lemma_digits_val_nonneg(s: Seq<char>)
    requires
        forall|j: int| 0 <= j < s.len() ==> spec_is_digit(#[trigger] s[j]),
    ensures
        spec_digits_val(s) >= 0,
    decreases s.len(),
{
    if s.len() > 0 {
        lemma_digits_val_nonneg(s.drop_last());
    }
}

/// Text that is not all ASCII contains a character that is not a digit.
proof fn lemma_non_ascii_not_digits(s: Seq<char>)
    requires
        !vstd::utf8::is_ascii_chars(s),
    ensures
        !spec_all_digits(s),
{
    if spec_all_digits(s) {
        assert forall|i: int| 0 <= i < s.len() implies '\0' <= #[trigger] s[i] <= '\u{7f}' by {
            assert(spec_is_digit(s[i]));
        }
        assert(vstd::utf8::is_ascii_chars(s));
    }
}

} // verus!
