//! Decimal rendering and parsing of token amounts.
//!
//! Error messages quote amounts in display units, and voters submit reward
//! amounts as decimal strings; both directions are implemented and verified
//! here.

use vstd::prelude::*;

verus! {

/// A decimal digit.
pub open spec fn is_dec_digit(c: char) -> bool {
    48 <= c as int && c as int <= 57
}

/// Numeric value of a decimal digit.
pub open spec fn digit_val(c: char) -> nat {
    (c as int - 48) as nat
}

/// The digit character for a value below ten.
pub open spec fn digit_char(d: nat) -> char {
    if d == 0 {
        '0'
    } else if d == 1 {
        '1'
    } else if d == 2 {
        '2'
    } else if d == 3 {
        '3'
    } else if d == 4 {
        '4'
    } else if d == 5 {
        '5'
    } else if d == 6 {
        '6'
    } else if d == 7 {
        '7'
    } else if d == 8 {
        '8'
    } else {
        '9'
    }
}

/// The canonical decimal rendering of `n`: no sign, no leading zero except
/// for zero itself.
pub open spec fn dec_digits(n: nat) -> Seq<char>
    decreases n,
{
    if n < 10 {
        seq![digit_char(n)]
    } else {
        dec_digits(n / 10).push(digit_char(n % 10))
    }
}

/// Numeric value of a digit string, most significant digit first.
pub open spec fn dec_value(s: Seq<char>) -> nat
    decreases s.len(),
{
    if s.len() == 0 {
        0
    } else {
        dec_value(s.drop_last()) * 10 + digit_val(s.last())
    }
}

/// The decimal rendering denotes the number it was made from.
pub proof fn lemma_dec_digits_value(n: nat)
    ensures
        dec_value(dec_digits(n)) == n,
    decreases n,
{
    assert(dec_value(Seq::<char>::empty()) == 0);
    if n < 10 {
        assert(dec_digits(n).drop_last() =~= Seq::<char>::empty());
        assert(dec_digits(n).last() == digit_char(n));
        assert(digit_val(digit_char(n)) == n);
    } else {
        lemma_dec_digits_value(n / 10);
        assert(dec_digits(n).drop_last() =~= dec_digits(n / 10));
        assert(dec_digits(n).last() == digit_char(n % 10));
        assert(digit_val(digit_char(n % 10)) == n % 10);
    }
}

/// Digit characters of `ds`, highest index first.
spec fn rev_chars(ds: Seq<u8>) -> Seq<char>
    decreases ds.len(),
{
    if ds.len() == 0 {
        Seq::empty()
    } else {
        seq![digit_char(ds.last() as nat)] + rev_chars(ds.drop_last())
    }
}

/// The string for one digit value.
fn digit_str(d: u8) -> (s: &'static str)
    requires
        d < 10,
    ensures
        s@ =~= seq![digit_char(d as nat)],
{
    proof {
        reveal_strlit("0");
        reveal_strlit("1");
        reveal_strlit("2");
        reveal_strlit("3");
        reveal_strlit("4");
        reveal_strlit("5");
        reveal_strlit("6");
        reveal_strlit("7");
        reveal_strlit("8");
        reveal_strlit("9");
    }
    match d {
        0 => "0",
        1 => "1",
        2 => "2",
        3 => "3",
        4 => "4",
        5 => "5",
        6 => "6",
        7 => "7",
        8 => "8",
        _ => "9",
    }
}

/// Renders `n` in decimal.
pub fn render_u64(n: u64) -> (s: String)
    ensures
        s@ == dec_digits(n as nat),
{
    let mut ds: Vec<u8> = Vec::new();
    ds.push((n % 10) as u8);
    let mut m: u64 = n / 10;
    proof {
        assert(ds@.drop_last() =~= Seq::<u8>::empty());
        assert(rev_chars(Seq::<u8>::empty()) =~= Seq::<char>::empty());
        assert(ds@.last() == (n % 10) as u8);
        assert(rev_chars(ds@) =~= seq![digit_char((n % 10) as nat)]);
        if n >= 10 {
            assert(dec_digits((n / 10) as nat) + rev_chars(ds@) =~= dec_digits(
                (n / 10) as nat,
            ).push(digit_char((n % 10) as nat)));
            assert(dec_digits(n as nat) == dec_digits((n as nat) / 10).push(
                digit_char((n as nat) % 10),
            ));
        }
    }
    while m > 0
        invariant
            ds@.len() >= 1,
            forall|i: int| 0 <= i < ds@.len() ==> ds@[i] < 10,
            dec_digits(n as nat) == if m > 0 {
                dec_digits(m as nat) + rev_chars(ds@)
            } else {
                rev_chars(ds@)
            },
        decreases m,
    {
        let d: u8 = (m % 10) as u8;
        let ghost pre = ds@;
        ds.push(d);
        m = m / 10;
        proof {
            assert(ds@.drop_last() =~= pre);
            assert(rev_chars(ds@) == seq![digit_char(d as nat)] + rev_chars(pre));
            if m > 0 {
                assert(dec_digits(m as nat) + rev_chars(ds@) =~= (dec_digits(m as nat)
                    + seq![digit_char(d as nat)]) + rev_chars(pre));
            } else {
                assert(rev_chars(ds@) =~= seq![digit_char(d as nat)] + rev_chars(pre));
            }
        }
    }
    let mut s = String::new();
    let mut i: usize = ds.len();
    proof {
        assert(ds@.take(i as int) =~= ds@);
        assert(s@ + rev_chars(ds@) =~= rev_chars(ds@));
    }
    while i > 0
        invariant
            i <= ds@.len(),
            forall|j: int| 0 <= j < ds@.len() ==> ds@[j] < 10,
            rev_chars(ds@) == s@ + rev_chars(ds@.take(i as int)),
        decreases i,
    {
        i = i - 1;
        let ghost pre_s = s@;
        s.append(digit_str(ds[i]));
        proof {
            let t = ds@.take(i as int + 1);
            assert(t.drop_last() =~= ds@.take(i as int));
            assert(rev_chars(t) == seq![digit_char(ds@[i as int] as nat)] + rev_chars(
                ds@.take(i as int),
            ));
            assert(pre_s + rev_chars(t) =~= s@ + rev_chars(ds@.take(i as int)));
        }
    }
    proof {
        assert(ds@.take(0) =~= Seq::<u8>::empty());
        assert(s@ + rev_chars(ds@.take(0)) =~= s@);
    }
    s
}

/// Why a string is not a decimal `u64`; the messages match the platform's
/// number parser word for word.
#[derive(Clone, Copy, Debug, PartialEq, Eq, Structural)]
pub enum NumError {
    Empty,
    InvalidDigit,
    Overflow,
}

impl NumError {
    pub fn message(&self) -> (s: &'static str)
        ensures
            s@ == self.message_spec(),
    {
        proof {
            reveal_strlit("cannot parse integer from empty string");
            reveal_strlit("invalid digit found in string");
            reveal_strlit("number too large to fit in target type");
        }
        match self {
            NumError::Empty => "cannot parse integer from empty string",
            NumError::InvalidDigit => "invalid digit found in string",
            NumError::Overflow => "number too large to fit in target type",
        }
    }

    pub open spec fn message_spec(&self) -> Seq<char> {
        match self {
            NumError::Empty => "cannot parse integer from empty string"@,
            NumError::InvalidDigit => "invalid digit found in string"@,
            NumError::Overflow => "number too large to fit in target type"@,
        }
    }
}

/// Left-to-right scan of the digit part: the first offending character decides
/// between an invalid digit and an overflow.
pub open spec fn scan_digits(d: Seq<char>, acc: u64) -> Result<u64, NumError>
    decreases d.len(),
{
    if d.len() == 0 {
        Ok(acc)
    } else if !is_dec_digit(d[0]) {
        Err(NumError::InvalidDigit)
    } else if acc as int * 10 + digit_val(d[0]) > u64::MAX as int {
        Err(NumError::Overflow)
    } else {
        scan_digits(d.skip(1), (acc * 10 + digit_val(d[0])) as u64)
    }
}

/// What parsing `s` as a decimal `u64` yields: an optional leading plus sign,
/// then at least one digit, no other characters, value within range.
pub open spec fn parse_u64_spec(s: Seq<char>) -> Result<u64, NumError> {
    if s.len() == 0 {
        Err(NumError::Empty)
    } else {
        let d = if s[0] == '+' {
            s.skip(1)
        } else {
            s
        };
        if d.len() == 0 {
            Err(NumError::InvalidDigit)
        } else {
            scan_digits(d, 0)
        }
    }
}

/// Parses a decimal `u64`, scanning as `parse_u64_spec` describes.
pub fn parse_u64(s: &str) -> (r: Result<u64, NumError>)
    ensures
        r == parse_u64_spec(s@),
{
    let n = s.unicode_len();
    if n == 0 {
        return Err(NumError::Empty);
    }
    let first = s.get_char(0);
    let start: usize = if first == '+' {
        1
    } else {
        0
    };
    if n == start {
        return Err(NumError::InvalidDigit);
    }
    let ghost d = if s@[0] == '+' {
        s@.skip(1)
    } else {
        s@
    };
    let mut acc: u64 = 0;
    let mut i: usize = start;
    proof {
        assert(s@.skip(0) =~= s@);
        assert(d.skip(0) =~= d);
    }
    while i < n
        invariant
            start <= i <= n,
            start <= 1,
            n == s@.len(),
            d == s@.skip(start as int),
            parse_u64_spec(s@) == scan_digits(d.skip(i - start), acc),
        decreases n - i,
    {
        let c = s.get_char(i);
        let u = c as u32;
        proof {
            assert(d.skip(i - start)[0] == s@[i as int]);
        }
        if !(48 <= u && u <= 57) {
            return Err(NumError::InvalidDigit);
        }
        let dv: u64 = (u - 48) as u64;
        if acc > (u64::MAX - dv) / 10 {
            proof {
                vstd::arithmetic::div_mod::lemma_fundamental_div_mod(
                    (u64::MAX - dv) as int,
                    10,
                );
            }
            return Err(NumError::Overflow);
        }
        proof {
            vstd::arithmetic::div_mod::lemma_fundamental_div_mod((u64::MAX - dv) as int, 10);
            assert(d.skip(i - start).skip(1) =~= d.skip(i + 1 - start));
        }
        acc = acc * 10 + dv;
        i = i + 1;
    }
    proof {
        assert(d.skip(i - start) =~= Seq::<char>::empty());
    }
    Ok(acc)
}

} // verus!
