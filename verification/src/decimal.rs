//! Decimal numerals.

use vstd::prelude::*;
use vstd::string::*;

use crate::text::chars_of;

verus! {

/// The digit of `d`, which is below 10.
pub open spec fn digit(d: nat) -> char {
    ('0' as u32 + d) as char
}

/// The decimal numeral of `n`, without leading zeros.
pub open spec fn numeral(n: nat) -> Seq<char>
    decreases n,
{
    if n < 10 {
        seq![digit(n)]
    } else {
        numeral(n / 10).push(digit(n % 10))
    }
}

/// The digit of `d` as a text.
pub fn digit_text(d: u64) -> (r: &'static str)
    requires
        d < 10,
    ensures
        r@ == seq![digit(d as nat)],
{
    proof {
        reveal_strlit("0");
        reveal_strlit("1");
        reveal_strlit("2");
        reveal_strlit("3");
        reveal_strlit("4");
        reveal_strlit("5");
        reveal_strlit("6");
        reveal_strlit("7");
        reveal_strlit("8");
        reveal_strlit("9");
    }
    let r: &'static str = match d {
        0 => "0",
        1 => "1",
        2 => "2",
        3 => "3",
        4 => "4",
        5 => "5",
        6 => "6",
        7 => "7",
        8 => "8",
        _ => "9",
    };
    assert(r@ =~= seq![digit(d as nat)]);
    r
}

/// The decimal numeral of `n`.
pub fn decimal(n: u64) -> (r: String)
    ensures
        r@ == numeral(n as nat),
    decreases n,
{
    if n < 10 {
        digit_text(n).to_owned()
    } else {
        let mut r: String = decimal(n / 10);
        r.append(digit_text(n % 10));
        assert(r@ =~= numeral((n / 10) as nat).push(digit((n % 10) as nat)));
        r
    }
}

/// The decimal numeral of `n`, with a leading zero below 10.
pub open spec fn two_digits(n: nat) -> Seq<char> {
    if n < 10 {
        seq!['0'] + numeral(n)
    } else {
        numeral(n)
    }
}

/// The decimal numeral of `n`, with a leading zero below 10.
pub fn decimal_two(n: u64) -> (r: String)
    ensures
        r@ == two_digits(n as nat),
{
    if n < 10 {
        let mut r: String = digit_text(0).to_owned();
        r.append(decimal(n).as_str());
        r
    } else {
        decimal(n)
    }
}

/// Why a text is not the numeral of a number.
#[derive(Clone, Copy, Debug, PartialEq, Eq, Structural)]
pub enum NumberFault {
    /// It is empty.
    Empty,
    /// It holds something else than digits.
    InvalidDigit,
    /// The number is too large.
    TooLarge,
}

impl NumberFault {
    /// The fault in words.
    pub open spec fn text(self) -> Seq<char> {
        match self {
            NumberFault::Empty => "cannot parse integer from empty string"@,
            NumberFault::InvalidDigit => "invalid digit found in string"@,
            NumberFault::TooLarge => "number too large to fit in target type"@,
        }
    }

    /// The fault in words.
    pub fn message(self) -> (r: &'static str)
        ensures
            r@ == self.text(),
    {
        match self {
            NumberFault::Empty => "cannot parse integer from empty string",
            NumberFault::InvalidDigit => "invalid digit found in string",
            NumberFault::TooLarge => "number too large to fit in target type",
        }
    }
}

pub open spec fn is_digit(c: char) -> bool {
    '0' <= c <= '9'
}

/// Reads digits from the left; the first character that is no digit, or that
/// takes the number past 32 bits, decides the fault.
pub open spec fn read_digits(s: Seq<char>) -> Result<nat, NumberFault>
    decreases s.len(),
{
    if s.len() == 0 {
        Ok(0)
    } else {
        match read_digits(s.drop_last()) {
            Err(fault) => Err(fault),
            Ok(v) => {
                let c = s.last();
                if !is_digit(c) {
                    Err(NumberFault::InvalidDigit)
                } else if v * 10 + (c as u32 - '0' as u32) > u32::MAX {
                    Err(NumberFault::TooLarge)
                } else {
                    Ok((v * 10 + (c as u32 - '0' as u32)) as nat)
                }
            },
        }
    }
}

/// The number that `s` writes: digits, after one `+` at most.
pub open spec fn read_number(s: Seq<char>) -> Result<nat, NumberFault> {
    if s.len() == 0 {
        Err(NumberFault::Empty)
    } else {
        let digits = if s[0] == '+' {
            s.drop_first()
        } else {
            s
        };
        if digits.len() == 0 {
            Err(NumberFault::InvalidDigit)
        } else {
            read_digits(digits)
        }
    }
}

/// A fault in a part of the digits is a fault of the whole.
proof fn fault_stays(s: Seq<char>, k: int)
    requires
        0 <= k <= s.len(),
        read_digits(s.take(k)) is Err,
    ensures
        read_digits(s) == read_digits(s.take(k)),
    decreases s.len() - k,
{
    if k < s.len() {
        assert(s.take(k + 1).drop_last() =~= s.take(k));
        fault_stays(s, k + 1);
    } else {
        assert(s.take(k) =~= s);
    }
}

/// The number that `s` writes.
pub fn parse_u32(s: &str) -> (r: Result<u32, NumberFault>)
    ensures
        match r {
            Ok(v) => read_number(s@) == Ok::<nat, NumberFault>(v as nat),
            Err(fault) => read_number(s@) == Err::<nat, NumberFault>(fault),
        },
{
    let chars: Vec<char> = chars_of(s);
    if chars.len() == 0 {
        return Err(NumberFault::Empty);
    }
    let start: usize = if chars[0] == '+' {
        1
    } else {
        0
    };
    if start == chars.len() {
        return Err(NumberFault::InvalidDigit);
    }
    let ghost digits = s@.skip(start as int);
    proof {
        assert(s@.skip(0) =~= s@);
        assert(s@.skip(1) =~= s@.drop_first());
        assert(digits.take(0) =~= Seq::<char>::empty());
    }
    let mut v: u32 = 0;
    let mut i: usize = start;
    while i < chars.len()
        invariant
            chars@ == s@,
            start <= i <= s@.len(),
            digits == s@.skip(start as int),
            read_digits(digits) == read_number(s@),
            read_digits(digits.take(i - start)) == Ok::<nat, NumberFault>(v as nat),
        decreases s@.len() - i,
    {
        let c: char = chars[i];
        let ghost k = i - start;
        proof {
            assert(digits.take(k + 1).drop_last() =~= digits.take(k));
            assert(digits.take(k + 1).last() == c);
        }
        if !('0' <= c && c <= '9') {
            proof {
                fault_stays(digits, k + 1);
            }
            return Err(NumberFault::InvalidDigit);
        }
        let next: u64 = v as u64 * 10 + (c as u32 - '0' as u32) as u64;
        if next > u32::MAX as u64 {
            proof {
                fault_stays(digits, k + 1);
            }
            return Err(NumberFault::TooLarge);
        }
        v = next as u32;
        i += 1;
    }
    proof {
        assert(digits.take(i - start) =~= digits);
    }
    Ok(v)
}

/// The numeral of a number of 32 bits is read back as that number.
pub proof fn numeral_is_read_back(n: nat)
    requires
        n <= u32::MAX,
    ensures
        read_number(numeral(n)) == Ok::<nat, NumberFault>(n),
        numeral_is_digits(numeral(n)),
{
    digits_are_read_back(n);
    let s = numeral(n);
    assert(is_digit(s[0]));
    assert(s[0] != '+');
}

/// Every character is a digit, and there is one.
pub open spec fn numeral_is_digits(s: Seq<char>) -> bool {
    s.len() >= 1 && forall|i: int| 0 <= i < s.len() ==> is_digit(#[trigger] s[i])
}

proof fn digits_are_read_back(n: nat)
    requires
        n <= u32::MAX,
    ensures
        read_digits(numeral(n)) == Ok::<nat, NumberFault>(n),
        numeral_is_digits(numeral(n)),
    decreases n,
{
    let s = numeral(n);
    assert(is_digit(digit(n % 10)) && digit(n % 10) as u32 - '0' as u32 == n % 10);
    if n < 10 {
        assert(s.drop_last() =~= Seq::<char>::empty());
        assert(read_digits(s.drop_last()) == Ok::<nat, NumberFault>(0));
    } else {
        digits_are_read_back(n / 10);
        assert(s.drop_last() =~= numeral(n / 10));
    }
}

/// The number that digits write, the greatest place first.
pub open spec fn digits_value(s: Seq<char>) -> nat
    decreases s.len(),
{
    if s.len() == 0 {
        0
    } else {
        digits_value(s.drop_last()) * 10 + (s.last() as u32 - '0' as u32) as nat
    }
}

/// The numeral of a number of any size is made of digits, which write that
/// number, and begins with a zero for zero alone.
pub proof fn numeral_writes_its_number(n: nat)
    ensures
        numeral(n).len() >= 1,
        forall|i: int| 0 <= i < numeral(n).len() ==> '0' <= #[trigger] numeral(n)[i] <= '9',
        digits_value(numeral(n)) == n,
        numeral(n)[0] == '0' <==> n == 0,
        n < 10 <==> numeral(n).len() == 1,
    decreases n,
{
    let s = numeral(n);
    assert('0' <= digit(n % 10) <= '9' && digit(n % 10) as u32 - '0' as u32 == n % 10);
    if n < 10 {
        assert(s.drop_last() =~= Seq::<char>::empty());
        assert(digits_value(s.drop_last()) == 0);
    } else {
        numeral_writes_its_number(n / 10);
        assert(s.drop_last() =~= numeral(n / 10));
        assert forall|i: int| 0 <= i < s.len() implies '0' <= #[trigger] s[i] <= '9' by {
            if i < s.len() - 1 {
                assert(s[i] == numeral(n / 10)[i]);
            }
        }
    }
}

/// Different numbers have different numerals.
pub proof fn numerals_differ(a: nat, b: nat)
    requires
        a != b,
    ensures
        numeral(a) != numeral(b),
{
    numeral_writes_its_number(a);
    numeral_writes_its_number(b);
}

/// A number with a leading zero below 10 takes two digits up to 99, and they
/// write that number.
pub proof fn two_digits_write_their_number(n: nat)
    ensures
        n < 100 <==> two_digits(n).len() == 2,
        digits_value(two_digits(n)) == n,
        forall|i: int| 0 <= i < two_digits(n).len() ==> '0' <= #[trigger] two_digits(n)[i] <= '9',
{
    numeral_writes_its_number(n);
    let s = two_digits(n);
    if n < 10 {
        assert(s.drop_last() =~= seq!['0']);
        assert(s.drop_last().drop_last() =~= Seq::<char>::empty());
        assert(digits_value(s.drop_last().drop_last()) == 0);
        assert(digits_value(s.drop_last()) == 0);
        assert(numeral(n).drop_last() =~= Seq::<char>::empty());
        assert(digits_value(numeral(n).drop_last()) == 0);
        assert(s.last() == numeral(n).last());
    } else {
        numeral_writes_its_number(n / 10);
        assert(numeral(n).drop_last() =~= numeral(n / 10));
    }
}

/// A text of digits is read as the number that they write, if that has 32 bits
/// at most, with or without a plus sign before it. A longer one is refused as
/// too large.
pub proof fn digits_are_read(s: Seq<char>)
    requires
        s.len() >= 1,
        forall|i: int| 0 <= i < s.len() ==> '0' <= #[trigger] s[i] <= '9',
    ensures
        digits_value(s) <= u32::MAX ==> read_number(s) == Ok::<nat, NumberFault>(digits_value(s)),
        digits_value(s) > u32::MAX ==> read_number(s) == Err::<nat, NumberFault>(
            NumberFault::TooLarge,
        ),
        read_number(seq!['+'] + s) == read_number(s),
{
    digits_are_read_from_the_left(s);
    let t = seq!['+'] + s;
    assert(t.drop_first() =~= s);
    assert(s[0] != '+');
}

proof fn digits_are_read_from_the_left(s: Seq<char>)
    requires
        forall|i: int| 0 <= i < s.len() ==> '0' <= #[trigger] s[i] <= '9',
    ensures
        digits_value(s) <= u32::MAX ==> read_digits(s) == Ok::<nat, NumberFault>(digits_value(s)),
        digits_value(s) > u32::MAX ==> read_digits(s) == Err::<nat, NumberFault>(
            NumberFault::TooLarge,
        ),
    decreases s.len(),
{
    if s.len() > 0 {
        let init = s.drop_last();
        assert forall|i: int| 0 <= i < init.len() implies '0' <= #[trigger] init[i] <= '9' by {
            assert(init[i] == s[i]);
        }
        digits_are_read_from_the_left(init);
        assert('0' <= s[s.len() - 1] <= '9');
    }
}

/// Only a text of digits, with one plus sign at most before them, is read as a
/// number, and an empty text has a fault of its own.
pub proof fn only_digits_are_read(s: Seq<char>)
    ensures
        read_number(s) == Err::<nat, NumberFault>(NumberFault::Empty) <==> s.len() == 0,
        forall|i: int|
            0 <= i < s.len() && !('0' <= #[trigger] s[i] <= '9') && (i > 0 || s[i] != '+')
                ==> read_number(s) is Err,
        s == seq!['+'] ==> read_number(s) == Err::<nat, NumberFault>(NumberFault::InvalidDigit),
{
    if s.len() > 0 {
        let digits = if s[0] == '+' {
            s.drop_first()
        } else {
            s
        };
        let shift: int = if s[0] == '+' {
            1
        } else {
            0
        };
        what_is_read_is_digits(digits);
        assert forall|i: int|
            0 <= i < s.len() && !('0' <= #[trigger] s[i] <= '9') && (i > 0 || s[i]
                != '+') implies read_number(s) is Err by {
            assert(digits[i - shift] == s[i]);
        }
    }
}

proof fn what_is_read_is_digits(s: Seq<char>)
    ensures
        read_digits(s) is Ok ==> forall|i: int|
            0 <= i < s.len() ==> '0' <= #[trigger] s[i] <= '9',
        read_digits(s) != Err::<nat, NumberFault>(NumberFault::Empty),
    decreases s.len(),
{
    if s.len() > 0 {
        let init = s.drop_last();
        what_is_read_is_digits(init);
        if read_digits(s) is Ok {
            assert forall|i: int| 0 <= i < s.len() implies '0' <= #[trigger] s[i] <= '9' by {
                if i < s.len() - 1 {
                    assert(init[i] == s[i]);
                }
            }
        }
    }
}

} // verus!
