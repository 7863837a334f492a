//! Decimal text of integers: the spec-level correspondence between digit
//! sequences and values, a verified parser for the integer-literal rule, and
//! verified stringification used by `print`.

use vstd::prelude::*;
use vstd::string::StrSliceExecFns;
use vstd::string::StringExecFns;
use vstd::arithmetic::div_mod::lemma_fundamental_div_mod;
use crate::text;

verus! {

/// Value of a single decimal digit character.
pub open spec fn digit_val(c: char) -> int {
    if c == '0' {
        0
    } else if c == '1' {
        1
    } else if c == '2' {
        2
    } else if c == '3' {
        3
    } else if c == '4' {
        4
    } else if c == '5' {
        5
    } else if c == '6' {
        6
    } else if c == '7' {
        7
    } else if c == '8' {
        8
    } else {
        9
    }
}

/// The digit character for a value below ten.
pub open spec fn digit_char(d: int) -> char {
    if d == 0 {
        '0'
    } else if d == 1 {
        '1'
    } else if d == 2 {
        '2'
    } else if d == 3 {
        '3'
    } else if d == 4 {
        '4'
    } else if d == 5 {
        '5'
    } else if d == 6 {
        '6'
    } else if d == 7 {
        '7'
    } else if d == 8 {
        '8'
    } else {
        '9'
    }
}

/// Value of a sequence of decimal digits, most significant first.
pub open spec fn digits_value(s: Seq<char>) -> int
    decreases s.len(),
{
    if s.len() == 0 {
        0
    } else {
        digits_value(s.drop_last()) * 10 + digit_val(s.last())
    }
}

/// Decimal digits of a non-negative value, most significant first.
pub open spec fn dec_digits(n: int) -> Seq<char>
    decreases n,
{
    if n < 10 {
        seq![digit_char(n)]
    } else {
        dec_digits(n / 10).push(digit_char(n % 10))
    }
}

/// Decimal text of an integer, with a leading `-` when it is negative.
pub open spec fn int_text(n: int) -> Seq<char> {
    if n < 0 {
        seq!['-'] + dec_digits(-n)
    } else {
        dec_digits(n)
    }
}

pub proof fn lemma_digits_value_nonneg(s: Seq<char>)
    ensures
        digits_value(s) >= 0,
    decreases s.len(),
{
    if s.len() > 0 {
        lemma_digits_value_nonneg(s.drop_last());
    }
}

/// A longer digit sequence never has a smaller value.
pub proof fn lemma_digits_value_prefix(s: Seq<char>, k: int)
    requires
        0 <= k <= s.len(),
    ensures
        digits_value(s) >= digits_value(s.subrange(0, k)),
    decreases s.len() - k,
{
    lemma_digits_value_nonneg(s.subrange(0, k));
    if k < s.len() {
        lemma_digits_value_prefix(s, k + 1);
        let t = s.subrange(0, k + 1);
        assert(t.drop_last() =~= s.subrange(0, k));
        lemma_digits_value_nonneg(t.drop_last());
        assert(digits_value(t) == digits_value(t.drop_last()) * 10 + digit_val(t.last()));
        assert(digits_value(t.drop_last()) * 10 >= digits_value(t.drop_last()));
    } else {
        assert(s.subrange(0, k) =~= s);
    }
}

pub proof fn lemma_dec_digits_shape(n: int)
    requires
        n >= 0,
    ensures
        dec_digits(n).len() >= 1,
        forall|i: int| 0 <= i < dec_digits(n).len() ==> text::is_digit(#[trigger] dec_digits(n)[i]),
    decreases n,
{
    if n >= 10 {
        lemma_dec_digits_shape(n / 10);
    }
}

/// Parsing the decimal text of a value gives the value back.
pub proof fn lemma_digits_value_of_dec_digits(n: int)
    requires
        n >= 0,
    ensures
        digits_value(dec_digits(n)) == n,
    decreases n,
{
    if n < 10 {
        let t = dec_digits(n);
        assert(t =~= seq![digit_char(n)]);
        assert(t.last() == digit_char(n));
        assert(t.drop_last() =~= Seq::<char>::empty());
        assert(digits_value(t.drop_last()) == 0);
        assert(digit_val(digit_char(n)) == n);
    } else {
        lemma_digits_value_of_dec_digits(n / 10);
        assert(dec_digits(n).drop_last() =~= dec_digits(n / 10));
        assert(digit_val(digit_char(n % 10)) == n % 10) by {
            lemma_fundamental_div_mod(n, 10);
        }
        lemma_fundamental_div_mod(n, 10);
    }
}

// ---------------------------------------------------------------------------
// Executable parsing and stringification.
// ---------------------------------------------------------------------------

fn digit_value_at(c: char) -> (d: i128)
    requires
        text::is_digit(c),
    ensures
        d == digit_val(c),
        0 <= d <= 9,
{
    if c == '0' {
        0
    } else if c == '1' {
        1
    } else if c == '2' {
        2
    } else if c == '3' {
        3
    } else if c == '4' {
        4
    } else if c == '5' {
        5
    } else if c == '6' {
        6
    } else if c == '7' {
        7
    } else if c == '8' {
        8
    } else {
        9
    }
}

fn digit_str(d: u8) -> (r: &'static str)
    requires
        0 <= d <= 9,
    ensures
        r@ =~= seq![digit_char(d as int)],
{
    proof {
        reveal_strlit("0");
        reveal_strlit("1");
        reveal_strlit("2");
        reveal_strlit("3");
        reveal_strlit("4");
        reveal_strlit("5");
        reveal_strlit("6");
        reveal_strlit("7");
        reveal_strlit("8");
        reveal_strlit("9");
    }
    if d == 0 {
        "0"
    } else if d == 1 {
        "1"
    } else if d == 2 {
        "2"
    } else if d == 3 {
        "3"
    } else if d == 4 {
        "4"
    } else if d == 5 {
        "5"
    } else if d == 6 {
        "6"
    } else if d == 7 {
        "7"
    } else if d == 8 {
        "8"
    } else {
        "9"
    }
}

/// Value of the digit run `s[from..to]`, accumulated as a non-positive
/// number so that the most negative representable value can be reached.
/// `None` exactly when the magnitude does not fit.
fn digits_to_neg(s: &str, from: usize, to: usize) -> (r: Option<i128>)
    requires
        from <= to <= s@.len(),
        forall|i: int| from <= i < to ==> text::is_digit(s@[i]),
    ensures
        match r {
            Some(v) => v <= 0 && -v == digits_value(s@.subrange(from as int, to as int)),
            None => digits_value(s@.subrange(from as int, to as int)) > i128::MAX as int + 1,
        },
{
    let mut acc: i128 = 0;
    let mut j = from;
    while j < to
        invariant
            from <= j <= to <= s@.len(),
            forall|i: int| from <= i < to ==> text::is_digit(s@[i]),
            acc <= 0,
            -acc == digits_value(s@.subrange(from as int, j as int)),
        decreases to - j,
    {
        let d = digit_value_at(s.get_char(j));
        proof {
            let t = s@.subrange(from as int, j + 1);
            assert(t.drop_last() =~= s@.subrange(from as int, j as int));
            assert(t.last() == s@[j as int]);
            assert(digits_value(t) == (-acc) * 10 + digit_val(s@[j as int]));
        }
        let m = match acc.checked_mul(10) {
            Some(m) => m,
            None => {
                proof {
                    assert(acc * 10 < i128::MIN);
                    assert(digits_value(s@.subrange(from as int, j + 1)) >= (-acc) * 10);
                    overflow_tail(s@, from as int, j + 1, to as int, (-acc) * 10);
                }
                return None;
            },
        };
        let a2 = match m.checked_sub(d) {
            Some(a2) => a2,
            None => {
                proof {
                    assert(m - d < i128::MIN);
                    assert(digits_value(s@.subrange(from as int, j + 1)) == -(m - d));
                    overflow_tail(s@, from as int, j + 1, to as int, -(m - d));
                }
                return None;
            },
        };
        acc = a2;
        j = j + 1;
    }
    Some(acc)
}

/// The value of a digit run is at least the value of any of its prefixes; so
/// once a prefix is already too large, the whole run is.
proof fn overflow_tail(s: Seq<char>, from: int, j: int, to: int, big: int)
    requires
        0 <= from <= j <= to <= s.len(),
        big > i128::MAX as int + 1,
        digits_value(s.subrange(from, j)) >= big,
    ensures
        digits_value(s.subrange(from, to)) > i128::MAX as int + 1,
{
    let whole = s.subrange(from, to);
    assert(whole.subrange(0, j - from) =~= s.subrange(from, j));
    lemma_digits_value_prefix(whole, j - from);
}

/// Parse the integer-literal form: an optional `-` and a maximal digit run,
/// anchored at the start of `s`.  `None` exactly when the value does not fit
/// in `i128`.
pub fn parse_literal(s: &str) -> (r: Option<i128>)
    requires
        crate::grammar::num_match(s@),
    ensures
        match r {
            Some(v) => crate::grammar::num_in_range(s@) && v == crate::grammar::num_value(s@),
            None => !crate::grammar::num_in_range(s@),
        },
{
    let len = s.unicode_len();
    let neg = s.get_char(0) == '-';
    let from: usize = if neg {
        1
    } else {
        0
    };
    let to = text::scan_digit_run(s, from);
    proof {
        text::lemma_run_end(s@, from as nat, |c: char| text::is_digit(c));
        lemma_digits_value_nonneg(s@.subrange(from as int, to as int));
    }
    match digits_to_neg(s, from, to) {
        None => None,
        Some(acc) => {
            if neg {
                Some(acc)
            } else {
                if acc == i128::MIN {
                    None
                } else {
                    Some(-acc)
                }
            }
        },
    }
}

/// Decimal text of an `i128`, equal to the spec-level `int_text`.
pub fn int_to_string(n: i128) -> (r: String)
    ensures
        r@ == int_text(n as int),
{
    let neg = n < 0;
    // Magnitude, computed so that the most negative value stays in range.
    let mut m: u128 = if n >= 0 {
        n as u128
    } else {
        ((-(n + 1)) as u128) + 1
    };
    let ghost m0 = m as int;
    let mut digs: Vec<u8> = Vec::new();
    if m == 0 {
        digs.push(0);
        proof {
            assert(rev_digit_chars(digs@) =~= dec_digits(m0));
        }
    } else {
        while m > 0
            invariant
                m >= 0,
                dec_digits(m0) =~= if m > 0 {
                    dec_digits(m as int) + rev_digit_chars(digs@)
                } else {
                    rev_digit_chars(digs@)
                },
                forall|i: int| 0 <= i < digs@.len() ==> 0 <= #[trigger] digs@[i] <= 9,
            decreases m,
        {
            let d = (m % 10) as u8;
            let ghost mpre = m as int;
            let ghost digs_pre = digs@;
            m = m / 10;
            digs.push(d);
            proof {
                lemma_fundamental_div_mod(mpre, 10);
                assert(rev_digit_chars(digs@) =~= seq![digit_char(d as int)] + rev_digit_chars(
                    digs_pre,
                ));
                if m > 0 {
                    assert(dec_digits(mpre) == dec_digits(mpre / 10).push(
                        digit_char(mpre % 10),
                    ));
                    assert(dec_digits(m as int) + rev_digit_chars(digs@) =~= (dec_digits(
                        m as int,
                    ).push(digit_char(d as int))) + rev_digit_chars(digs_pre));
                } else {
                    assert(mpre < 10);
                    assert(dec_digits(mpre) =~= seq![digit_char(d as int)]);
                }
            }
        }
    }
    let mut r = String::new();
    if neg {
        r.append("-");
        proof {
            reveal_strlit("-");
            assert(r@ =~= seq!['-']);
        }
    }
    let ghost head = r@;
    let total = digs.len();
    let mut k: usize = 0;
    while k < total
        invariant
            k <= total,
            total == digs@.len(),
            forall|i: int| 0 <= i < digs@.len() ==> 0 <= #[trigger] digs@[i] <= 9,
            r@ =~= head + rev_digit_chars(digs@).subrange(0, k as int),
            rev_digit_chars(digs@).len() == digs@.len(),
        decreases total - k,
    {
        let d = digs[total - 1 - k];
        r.append(digit_str(d));
        proof {
            assert(rev_digit_chars(digs@)[k as int] == digit_char(
                digs@[digs@.len() - 1 - k] as int,
            ));
            assert(r@ =~= head + rev_digit_chars(digs@).subrange(0, k + 1));
        }
        k = k + 1;
    }
    proof {
        assert(rev_digit_chars(digs@).subrange(0, total as int) =~= rev_digit_chars(digs@));
        if neg {
            assert(r@ =~= seq!['-'] + dec_digits(-(n as int)));
        } else {
            assert(r@ =~= dec_digits(n as int));
        }
    }
    r
}

/// The digit characters of a digit list, reversed: the list stores the least
/// significant digit first, the text shows the most significant first.
pub open spec fn rev_digit_chars(l: Seq<u8>) -> Seq<char> {
    Seq::new(l.len(), |i: int| digit_char(l[l.len() - 1 - i] as int))
}

} // verus!
