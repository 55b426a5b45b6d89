//! Unsigned numbers in decimal notation.

use vstd::prelude::*;

verus! {

/// The digit for a number below ten.
pub open spec fn digit(n: nat) -> char {
    (n + '0' as nat) as char
}

/// The decimal notation of `n`, without leading zeros.
pub open spec fn decimal(n: nat) -> Seq<char>
    decreases n,
{
    if n < 10 {
        seq![digit(n)]
    } else {
        decimal(n / 10).push(digit(n % 10))
    }
}

/// Writes the digit for a number below ten.
fn write_digit(n: u128) -> (r: &'static str)
    requires
        n < 10,
    ensures
        r@ == seq![digit(n as nat)],
{
    proof {
        reveal_strlit("0");
        reveal_strlit("1");
        reveal_strlit("2");
        reveal_strlit("3");
        reveal_strlit("4");
        reveal_strlit("5");
        reveal_strlit("6");
        reveal_strlit("7");
        reveal_strlit("8");
        reveal_strlit("9");
    }
    match n {
        0 => "0",
        1 => "1",
        2 => "2",
        3 => "3",
        4 => "4",
        5 => "5",
        6 => "6",
        7 => "7",
        8 => "8",
        _ => "9",
    }
}

/// Writes `n` in decimal notation.
pub fn write_decimal(n: u128) -> (r: String)
    ensures
        r@ == decimal(n as nat),
    decreases n,
{
    if n < 10 {
        write_digit(n).to_owned()
    } else {
        let r = write_decimal(n / 10).concat(write_digit(n % 10));
        assert(r@ == decimal(n as nat));
        r
    }
}

/// Whether a character is a decimal digit.
pub open spec fn is_digit(c: char) -> bool {
    '0' <= c <= '9'
}

/// Whether `s` is made of decimal digits, at least one.
pub open spec fn is_decimal(s: Seq<char>) -> bool {
    &&& s.len() > 0
    &&& forall|i: int| 0 <= i < s.len() ==> is_digit(#[trigger] s[i])
}

/// The number that a row of decimal digits stands for.
pub open spec fn value(s: Seq<char>) -> nat
    decreases s.len(),
{
    if s.len() == 0 {
        0
    } else {
        (10 * value(s.drop_last()) + (s.last() as nat - '0' as nat)) as nat
    }
}

/// `s` without a leading plus sign.
pub open spec fn without_plus(s: Seq<char>) -> Seq<char> {
    if s.len() > 0 && s[0] == '+' {
        s.skip(1)
    } else {
        s
    }
}

/// The number written in `s`: decimal digits, behind at most one plus sign, whose
/// value is at most `most`.
pub open spec fn number_in(s: Seq<char>, most: nat) -> Option<nat> {
    let digits = without_plus(s);
    if is_decimal(digits) && value(digits) <= most {
        Some(value(digits))
    } else {
        None
    }
}

/// A row of digits stands for no less than any of its beginnings.
pub proof fn lemma_value_grows(s: Seq<char>, n: int)
    requires
        0 <= n <= s.len(),
        is_decimal(s),
    ensures
        value(s.take(n)) <= value(s),
    decreases s.len() - n,
{
    if n < s.len() {
        lemma_value_grows(s, n + 1);
        assert(s.take(n + 1).drop_last() == s.take(n));
        assert(is_digit(s[n]));
    } else {
        assert(s.take(n) == s);
    }
}

/// Reads the number written in `s`, of at most `most`.
pub fn read_decimal(s: &str, most: u64) -> (r: Option<u64>)
    ensures
        match r {
            Some(n) => number_in(s@, most as nat) == Some(n as nat),
            None => number_in(s@, most as nat) is None,
        },
{
    let len = s.unicode_len();
    if len == 0 {
        return None;
    }
    let rest = if s.get_char(0) == '+' {
        s.substring_char(1, len)
    } else {
        s
    };
    let ghost digits = without_plus(s@);
    assert(digits == rest@);
    if rest.is_empty() {
        return None;
    }
    let mut n: u64 = 0;
    for c in it: rest.chars()
        invariant
            it.seq() == digits,
            digits == without_plus(s@),
            n == value(digits.take(it.index())),
            n <= most,
            forall|j: int| 0 <= j < it.index() ==> is_digit(#[trigger] digits[j]),
    {
        let ghost i = it.index();
        assert(digits[i] == c);
        if c < '0' || '9' < c {
            assert(!is_digit(digits[i]));
            return None;
        }
        let d: u64 = (c as u32 - 48) as u64;
        assert(digits.take(i + 1).drop_last() == digits.take(i));
        if d > most || n > (most - d) / 10 {
            proof {
                if is_decimal(digits) {
                    lemma_value_grows(digits, i + 1);
                }
            }
            return None;
        }
        n = 10 * n + d;
    }
    assert(digits.take(digits.len() as int) == digits);
    Some(n)
}

/// Writing a number and reading it gives the number back, wherever it is within the bound.
pub proof fn lemma_read_after_write(n: nat, most: nat)
    ensures
        number_in(decimal(n), most) == if n <= most {
            Some(n)
        } else {
            None
        },
{
    lemma_decimal_value(n);
}

/// The decimal notation of `n` is a row of digits that stands for `n`, without a
/// leading zero unless `n` is zero.
pub proof fn lemma_decimal_value(n: nat)
    ensures
        is_decimal(decimal(n)),
        value(decimal(n)) == n,
        n > 0 ==> decimal(n)[0] != '0',
        decimal(n)[0] != '+',
    decreases n,
{
    let s = decimal(n);
    if n < 10 {
        assert(s.drop_last() == Seq::<char>::empty());
        assert(value(s.drop_last()) == 0);
    } else {
        lemma_decimal_value(n / 10);
        assert(s.drop_last() == decimal(n / 10));
    }
    assert(s.len() > 0 && is_digit(s.last()));
    assert forall|i: int| 0 <= i < s.len() implies is_digit(#[trigger] s[i]) by {
        if n >= 10 && i < s.len() - 1 {
            assert(s[i] == decimal(n / 10)[i]);
        }
    }
}

/// `s` with enough spaces before it to reach `width` characters.
pub open spec fn right_aligned(s: Seq<char>, width: nat) -> Seq<char> {
    if s.len() < width {
        Seq::new((width - s.len()) as nat, |i: int| ' ') + s
    } else {
        s
    }
}

/// Writes `n` right-aligned in `width` characters.
pub fn write_aligned(n: u128, width: usize) -> (r: String)
    ensures
        r@ == right_aligned(decimal(n as nat), width as nat),
{
    let digits = write_decimal(n);
    let len = digits.as_str().unicode_len();
    let mut r = String::new();
    let mut i: usize = len;
    proof {
        reveal_strlit(" ");
    }
    while i < width
        invariant
            len <= i,
            i == len || i <= width,
            " "@ == seq![' '],
            r@ == Seq::new((i - len) as nat, |i: int| ' '),
        decreases width - i,
    {
        r.append(" ");
        assert(r@ == Seq::new((i + 1 - len) as nat, |i: int| ' '));
        i = i + 1;
    }
    r.append(digits.as_str());
    assert(len >= width ==> r@ == digits@);
    assert(len < width ==> i == width);
    r
}

} // verus!
