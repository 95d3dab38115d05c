//! Verified integer/text conversions.
//!
//! Column names that parse as integers are reserved for positional
//! addressing, `Number` cells are parsed from text, and serialization prints
//! them back.  This module defines the integer-text grammar as spec
//! functions and provides executable parsing and printing proved against it.

use vstd::prelude::*;

verus! {

/// An ASCII decimal digit.
pub open spec fn is_digit(c: char) -> bool {
    '0' <= c && c <= '9'
}

/// Numeric value of an ASCII digit.
pub open spec fn digit_val(c: char) -> int {
    (c as u32) - 48
}

/// The digit character for a value in 0..=9.
pub open spec fn digit_char(d: int) -> char {
    if d == 0 {
        '0'
    } else if d == 1 {
        '1'
    } else if d == 2 {
        '2'
    } else if d == 3 {
        '3'
    } else if d == 4 {
        '4'
    } else if d == 5 {
        '5'
    } else if d == 6 {
        '6'
    } else if d == 7 {
        '7'
    } else if d == 8 {
        '8'
    } else {
        '9'
    }
}

/// Every character is an ASCII digit.
pub open spec fn all_digits(s: Seq<char>) -> bool {
    forall|i: int| 0 <= i < s.len() ==> is_digit(#[trigger] s[i])
}

/// Numeric value of a digit string, most significant digit first.
pub open spec fn digits_val(s: Seq<char>) -> int
    decreases s.len(),
{
    if s.len() == 0 {
        0
    } else {
        digits_val(s.take(s.len() - 1)) * 10 + digit_val(s[s.len() - 1])
    }
}

/// Shape of signed integer text: an optional `+`/`-` sign, then at least one
/// digit.  This is the grammar `str::parse::<isize>` accepts.
pub open spec fn int_grammar(s: Seq<char>) -> bool {
    if s.len() == 0 {
        false
    } else if s[0] == '+' || s[0] == '-' {
        s.len() > 1 && all_digits(s.skip(1))
    } else {
        all_digits(s)
    }
}

/// The signed value of integer-shaped text.
pub open spec fn int_text_value(s: Seq<char>) -> int {
    if s.len() > 0 && s[0] == '-' {
        -digits_val(s.skip(1))
    } else if s.len() > 0 && s[0] == '+' {
        digits_val(s.skip(1))
    } else {
        digits_val(s)
    }
}

/// Text that `str::parse::<isize>` accepts: integer-shaped and in range.
pub open spec fn is_integer_text(s: Seq<char>) -> bool {
    int_grammar(s) && isize::MIN as int <= int_text_value(s) <= isize::MAX as int
}

/// Shape of unsigned integer text: an optional `+` sign, then digits.
pub open spec fn usize_grammar(s: Seq<char>) -> bool {
    if s.len() == 0 {
        false
    } else if s[0] == '+' {
        s.len() > 1 && all_digits(s.skip(1))
    } else {
        all_digits(s)
    }
}

/// The value of unsigned integer-shaped text.
pub open spec fn usize_text_value(s: Seq<char>) -> int {
    if s.len() > 0 && s[0] == '+' {
        digits_val(s.skip(1))
    } else {
        digits_val(s)
    }
}

/// Text that `str::parse::<usize>` accepts: unsigned-shaped and in range.
pub open spec fn is_usize_text(s: Seq<char>) -> bool {
    usize_grammar(s) && usize_text_value(s) <= usize::MAX as int
}

/// A digit string's value is non-negative and grows with every appended digit.
pub proof fn lemma_digits_val_bounds(s: Seq<char>)
    requires
        all_digits(s),
    ensures
        digits_val(s) >= 0,
        s.len() > 0 ==> digits_val(s) >= digits_val(s.take(s.len() - 1)),
    decreases s.len(),
{
    if s.len() > 0 {
        let p = s.take(s.len() - 1);
        assert(all_digits(p)) by {
            assert(forall|i: int| 0 <= i < p.len() ==> p[i] == s[i]);
        }
        lemma_digits_val_bounds(p);
        assert(digit_val(s[s.len() - 1]) >= 0);
    }
}

/// The character for each digit value, as a one-character string slice.
pub fn digit_str(d: u8) -> (r: &'static str)
    requires
        d <= 9,
    ensures
        r@ =~= seq![digit_char(d as int)],
{
    proof {
        reveal_strlit("0");
        reveal_strlit("1");
        reveal_strlit("2");
        reveal_strlit("3");
        reveal_strlit("4");
        reveal_strlit("5");
        reveal_strlit("6");
        reveal_strlit("7");
        reveal_strlit("8");
        reveal_strlit("9");
    }
    match d {
        0 => "0",
        1 => "1",
        2 => "2",
        3 => "3",
        4 => "4",
        5 => "5",
        6 => "6",
        7 => "7",
        8 => "8",
        _ => "9",
    }
}

/// Parse signed integer text, exactly as `str::parse::<isize>` would.
pub fn parse_isize(s: &str) -> (r: Option<isize>)
    ensures
        r is Some <==> is_integer_text(s@),
        r is Some ==> r->0 as int == int_text_value(s@),
{
    let v = crate::text::str_to_chars(s);
    if v.len() == 0 {
        return None;
    }
    let c0 = v[0];
    let neg = c0 == '-';
    let signed = c0 == '-' || c0 == '+';
    let start: usize = if signed {
        1
    } else {
        0
    };
    if signed && v.len() == 1 {
        return None;
    }
    let ghost digits = if signed {
        s@.skip(1)
    } else {
        s@
    };
    proof {
        assert(signed ==> digits =~= s@.skip(1));
        assert(!signed ==> digits =~= s@);
    }
    let cap: i128 = isize::MAX as i128 + 1;
    let mut m: i128 = 0;
    let mut i: usize = start;
    while i < v.len()
        invariant
            v@ == s@,
            s@.len() > 0,
            start <= i <= v@.len(),
            start == if signed { 1int } else { 0int },
            signed == (s@[0] == '+' || s@[0] == '-'),
            neg == (s@[0] == '-'),
            digits == s@.skip(start as int),
            cap == isize::MAX as i128 + 1,
            0 <= m <= cap,
            m == digits_val(digits.take(i - start)),
            all_digits(digits.take(i - start)),
        decreases v@.len() - i,
    {
        let c = v[i];
        proof {
            assert(digits[i - start] == s@[i as int]);
        }
        if !('0' <= c && c <= '9') {
            proof {
                assert(!all_digits(digits));
                if is_integer_text(s@) {
                    assert(all_digits(digits));
                }
            }
            return None;
        }
        let d: i128 = ((c as u32) - 48) as i128;
        proof {
            let k = i - start;
            assert(digits.take(k + 1).take(k) =~= digits.take(k));
            assert(digits.take(k + 1)[k] == digits[k]);
            assert(all_digits(digits.take(k + 1))) by {
                assert(forall|j: int|
                    0 <= j < k ==> digits.take(k + 1)[j] == digits.take(k)[j]);
            }
            assert(digits_val(digits.take(k + 1)) == digits_val(digits.take(k)) * 10 + digit_val(
                digits[k],
            ));
        }
        m = m * 10 + d;
        i = i + 1;
        if m > cap {
            proof {
                lemma_digits_exceed(digits, i - start, cap as int);
                assert(s@.skip(0) =~= s@);
                if is_integer_text(s@) {
                    assert(all_digits(digits));
                    assert(digits_val(digits) > cap as int);
                    if neg {
                        assert(int_text_value(s@) == -digits_val(digits));
                        assert(int_text_value(s@) < isize::MIN as int);
                    } else {
                        assert(int_text_value(s@) == digits_val(digits));
                        assert(int_text_value(s@) > isize::MAX as int);
                    }
                }
            }
            return None;
        }
    }
    proof {
        assert(digits.take(digits.len() as int) =~= digits);
        assert(int_grammar(s@));
        if neg {
            assert(int_text_value(s@) == -digits_val(digits));
        } else {
            assert(int_text_value(s@) == digits_val(digits));
        }
    }
    if neg {
        if m == cap {
            Some(isize::MIN)
        } else {
            Some(-(m as isize))
        }
    } else {
        if m > isize::MAX as i128 {
            proof {
                assert(int_text_value(s@) > isize::MAX as int);
            }
            None
        } else {
            Some(m as isize)
        }
    }
}

/// Once a digit prefix exceeds a non-negative bound, the whole digit string
/// does too.
proof fn lemma_digits_exceed(s: Seq<char>, k: int, bound: int)
    requires
        0 <= k <= s.len(),
        all_digits(s.take(k)),
        digits_val(s.take(k)) > bound,
        bound >= 0,
    ensures
        all_digits(s) ==> digits_val(s) > bound,
    decreases s.len() - k,
{
    if k < s.len() {
        if all_digits(s) {
            let p = s.take(k + 1);
            assert(p.take(k) =~= s.take(k));
            assert(all_digits(p)) by {
                assert(forall|i: int| 0 <= i < p.len() ==> p[i] == s[i]);
            }
            assert(digits_val(p) == digits_val(s.take(k)) * 10 + digit_val(s[k]));
            assert(digit_val(s[k]) >= 0);
            assert(digits_val(p) > bound);
            lemma_digits_exceed(s, k + 1, bound);
        }
    } else {
        assert(s.take(k) =~= s);
    }
}

/// Parse unsigned integer text, exactly as `str::parse::<usize>` would.
pub fn parse_usize(s: &str) -> (r: Option<usize>)
    ensures
        r is Some <==> is_usize_text(s@),
        r is Some ==> r->0 as int == usize_text_value(s@),
{
    let v = crate::text::str_to_chars(s);
    if v.len() == 0 {
        return None;
    }
    let signed = v[0] == '+';
    let start: usize = if signed {
        1
    } else {
        0
    };
    if signed && v.len() == 1 {
        return None;
    }
    let ghost digits = if signed {
        s@.skip(1)
    } else {
        s@
    };
    proof {
        assert(signed ==> digits =~= s@.skip(1));
        assert(!signed ==> digits =~= s@);
    }
    let cap: u128 = usize::MAX as u128;
    let mut m: u128 = 0;
    let mut i: usize = start;
    while i < v.len()
        invariant
            v@ == s@,
            s@.len() > 0,
            start <= i <= v@.len(),
            start == if signed { 1int } else { 0int },
            signed == (s@[0] == '+'),
            digits == s@.skip(start as int),
            cap == usize::MAX as u128,
            m <= cap,
            m == digits_val(digits.take(i - start)),
            all_digits(digits.take(i - start)),
        decreases v@.len() - i,
    {
        let c = v[i];
        proof {
            assert(digits[i - start] == s@[i as int]);
        }
        if !('0' <= c && c <= '9') {
            proof {
                assert(!all_digits(digits));
                if is_usize_text(s@) {
                    assert(all_digits(digits));
                }
            }
            return None;
        }
        let d: u128 = ((c as u32) - 48) as u128;
        proof {
            let k = i - start;
            assert(digits.take(k + 1).take(k) =~= digits.take(k));
            assert(digits.take(k + 1)[k] == digits[k]);
            assert(all_digits(digits.take(k + 1))) by {
                assert(forall|j: int|
                    0 <= j < k ==> digits.take(k + 1)[j] == digits.take(k)[j]);
            }
            assert(digits_val(digits.take(k + 1)) == digits_val(digits.take(k)) * 10 + digit_val(
                digits[k],
            ));
        }
        m = m * 10 + d;
        i = i + 1;
        if m > cap {
            proof {
                lemma_digits_exceed(digits, i - start, cap as int);
                assert(s@.skip(0) =~= s@);
                if is_usize_text(s@) {
                    assert(all_digits(digits));
                    assert(digits_val(digits) > cap as int);
                    assert(usize_text_value(s@) == digits_val(digits));
                }
            }
            return None;
        }
    }
    proof {
        assert(digits.take(digits.len() as int) =~= digits);
        assert(usize_grammar(s@));
        assert(usize_text_value(s@) == digits_val(digits));
    }
    Some(m as usize)
}

/// The canonical digit string of a non-negative value.
pub open spec fn nat_digits(n: int) -> Seq<char>
    recommends
        n >= 0,
    decreases n,
{
    if n < 10 {
        seq![digit_char(if n >= 0 { n } else { 0 })]
    } else {
        nat_digits(n / 10).push(digit_char(n % 10))
    }
}

/// The canonical text of a signed value: `-` then digits, or just digits.
pub open spec fn int_chars(n: int) -> Seq<char> {
    if n < 0 {
        seq!['-'] + nat_digits(-n)
    } else {
        nat_digits(n)
    }
}

/// Print a signed value, exactly as `isize`'s `to_string` would.
pub fn isize_to_string(n: isize) -> (r: String)
    ensures
        r@ == int_chars(n as int),
{
    let neg = n < 0;
    let mut mag: u128 = if n < 0 {
        (-(n as i128)) as u128
    } else {
        n as u128
    };
    let ghost total = mag as int;
    if mag < 10 {
        let d = digit_str(mag as u8).to_owned();
        if neg {
            let mut r = "-".to_owned();
            proof {
                reveal_strlit("-");
                assert("-"@ =~= seq!['-']);
            }
            r.append(d.as_str());
            proof {
                assert(r@ =~= int_chars(n as int));
            }
            return r;
        } else {
            proof {
                assert(d@ =~= int_chars(n as int));
            }
            return d;
        }
    }
    let mut acc = String::new();
    while mag >= 10
        invariant
            1 <= mag <= total,
            nat_digits(total) == nat_digits(mag as int) + acc@,
        decreases mag,
    {
        let d: u8 = (mag % 10) as u8;
        proof {
            assert(d as int == (mag as int) % 10);
            assert((mag / 10) as int == (mag as int) / 10);
            assert(nat_digits(mag as int) == nat_digits((mag as int) / 10).push(
                digit_char((mag as int) % 10),
            ));
            assert(nat_digits((mag as int) / 10).push(digit_char(d as int)) + acc@
                =~= nat_digits((mag as int) / 10) + (seq![digit_char(d as int)] + acc@));
        }
        let mut t = digit_str(d).to_owned();
        t.append(acc.as_str());
        acc = t;
        mag = mag / 10;
    }
    let mut r = if neg {
        proof {
            reveal_strlit("-");
            assert("-"@ =~= seq!['-']);
        }
        "-".to_owned()
    } else {
        String::new()
    };
    let first = digit_str(mag as u8).to_owned();
    r.append(first.as_str());
    r.append(acc.as_str());
    proof {
        assert(nat_digits(total) =~= seq![digit_char(mag as int)] + acc@);
        assert(r@ =~= int_chars(n as int));
    }
    r
}

/// Canonical integer text parses back to the value it was printed from, and
/// is integer-shaped.
pub proof fn lemma_int_chars_round_trip(n: int)
    requires
        isize::MIN as int <= n <= isize::MAX as int,
    ensures
        int_grammar(int_chars(n)),
        int_text_value(int_chars(n)) == n,
        is_integer_text(int_chars(n)),
{
    if n < 0 {
        lemma_nat_digits_val(-n);
        let s = seq!['-'] + nat_digits(-n);
        assert(s[0] == '-');
        assert(s.skip(1) =~= nat_digits(-n));
        assert(int_text_value(s) == -digits_val(nat_digits(-n)));
    } else {
        lemma_nat_digits_val(n);
        let s = nat_digits(n);
        assert(s[0] != '-' && s[0] != '+') by {
            lemma_nat_digits_shape(n);
        }
    }
}

/// `nat_digits` produces digits whose value is the number itself.
pub proof fn lemma_nat_digits_val(n: int)
    requires
        n >= 0,
    ensures
        all_digits(nat_digits(n)),
        digits_val(nat_digits(n)) == n,
        nat_digits(n).len() >= 1,
    decreases n,
{
    if n < 10 {
        let s = nat_digits(n);
        assert(s =~= seq![digit_char(n)]);
        assert(is_digit(digit_char(n)));
        assert(s.take(0) =~= Seq::<char>::empty());
        assert(digits_val(Seq::<char>::empty()) == 0);
        assert(digits_val(s) == digits_val(s.take(s.len() - 1)) * 10 + digit_val(s[s.len() - 1]));
        assert(digit_val(digit_char(n)) == n);
        assert(digits_val(s) == n);
    } else {
        lemma_nat_digits_val(n / 10);
        let p = nat_digits(n / 10);
        let s = p.push(digit_char(n % 10));
        assert(s.take(s.len() - 1) =~= p);
        assert(is_digit(digit_char(n % 10)));
        assert(digit_val(digit_char(n % 10)) == n % 10);
        assert(digits_val(s) == digits_val(p) * 10 + n % 10);
        assert(digits_val(p) * 10 + n % 10 == n) by {
            assert(n == 10 * (n / 10) + n % 10);
        }
        assert(all_digits(s)) by {
            assert(forall|i: int| 0 <= i < p.len() ==> s[i] == p[i]);
        }
    }
}

/// `nat_digits` starts with a digit.
pub proof fn lemma_nat_digits_shape(n: int)
    requires
        n >= 0,
    ensures
        is_digit(nat_digits(n)[0]),
        nat_digits(n).len() >= 1,
    decreases n,
{
    if n < 10 {
    } else {
        lemma_nat_digits_shape(n / 10);
        assert(nat_digits(n)[0] == nat_digits(n / 10)[0]);
    }
}

} // verus!
