//! What numbers look like when they are written, and which texts are read as numbers.

use crate::number;
use vstd::prelude::*;

verus! {

/// The character of a digit.
pub open spec fn is_digit_of(c: char, n: nat) -> bool {
    c as int == '0' as int + n && n < 10
}

/// A number below ten is written as its digit; any other as its tenth, then its last digit.
pub proof fn law_a_number_is_written_digit_by_digit(n: u128, r: String, tenth: String)
    requires
        call_ensures(number::write_decimal, (n,), r),
        call_ensures(number::write_decimal, ((n / 10) as u128,), tenth),
    ensures
        r@.len() > 0,
        is_digit_of(r@.last(), (n % 10) as nat),
        n < 10 ==> r@.len() == 1,
        n >= 10 ==> r@.drop_last() == tenth@,
{
    if n >= 10 {
        assert(number::decimal((n / 10) as nat).push(number::digit((n % 10) as nat)).drop_last()
            == number::decimal((n / 10) as nat));
    }
}

/// A text of `n` zeros.
pub open spec fn zeros(n: nat) -> Seq<char> {
    Seq::new(n, |i: int| '0')
}

/// `s` is the number that is written as `digits`: behind at most one plus sign and any number
/// of zeros.
pub open spec fn is_written(s: Seq<char>, plus: bool, leading: nat, digits: Seq<char>) -> bool {
    s == if plus {
        seq!['+'] + (zeros(leading) + digits)
    } else {
        zeros(leading) + digits
    }
}

proof fn lemma_value_behind_zeros(leading: nat, digits: Seq<char>)
    ensures
        number::value(zeros(leading) + digits) == number::value(digits),
    decreases leading + digits.len(),
{
    let s = zeros(leading) + digits;
    if digits.len() > 0 {
        assert(s.drop_last() == zeros(leading) + digits.drop_last());
        assert(s.last() == digits.last());
        lemma_value_behind_zeros(leading, digits.drop_last());
    } else if leading > 0 {
        let fewer = (leading - 1) as nat;
        assert(s.drop_last() == zeros(fewer) + digits);
        assert(s.last() == '0');
        lemma_value_behind_zeros(fewer, digits);
    } else {
        assert(s == digits);
    }
}

/// A number is found in its decimal notation, whatever zeros and plus sign stand before it.
pub proof fn lemma_number_in(s: Seq<char>, most: nat, n: nat, plus: bool, leading: nat)
    requires
        is_written(s, plus, leading, number::decimal(n)),
    ensures
        number::number_in(s, most) == if n <= most {
            Some(n)
        } else {
            None
        },
{
    number::lemma_decimal_value(n);
    let digits = number::decimal(n);
    let all = zeros(leading) + digits;
    lemma_value_behind_zeros(leading, digits);
    assert forall|i: int| 0 <= i < all.len() implies number::is_digit(#[trigger] all[i]) by {
        if i >= leading {
            assert(all[i] == digits[i - leading]);
        }
    }
    assert(number::is_digit(all[0]));
    if plus {
        assert(s.skip(1) == all);
    }
    assert(number::without_plus(s) == all);
}

/// Digits that stand for a number are its decimal notation behind zeros.
proof fn lemma_digits_are_written(digits: Seq<char>)
    requires
        number::is_decimal(digits),
    ensures
        exists|leading: nat| digits == #[trigger] zeros(leading) + number::decimal(
            number::value(digits),
        ),
    decreases digits.len(),
{
    let n = number::value(digits);
    let front = digits.drop_last();
    let last = digits.last();
    assert(number::is_digit(digits[digits.len() - 1]));
    if front.len() == 0 {
        assert(number::value(front) == 0);
        assert(digits == zeros(0) + number::decimal(n));
    } else {
        assert forall|i: int| 0 <= i < front.len() implies number::is_digit(#[trigger] front[i]) by {
            assert(front[i] == digits[i]);
        }
        lemma_digits_are_written(front);
        let m = number::value(front);
        let leading = choose|leading: nat| front == #[trigger] zeros(leading) + number::decimal(m);
        assert(n == 10 * m + (last as nat - '0' as nat));
        if m == 0 {
            let more = leading + 1;
            assert(number::decimal(m) == seq!['0']);
            assert(front == zeros(more));
            assert(number::decimal(n) == seq![last]);
            assert(digits == zeros(more) + number::decimal(n));
        } else {
            assert(n / 10 == m && n % 10 == last as nat - '0' as nat);
            assert(number::decimal(n) == number::decimal(m).push(last));
            assert(digits == front.push(last));
            assert((zeros(leading) + number::decimal(m)).push(last) == zeros(leading)
                + number::decimal(m).push(last));
        }
    }
}

/// A number up to the bound is read wherever it is written: in decimal notation, behind any
/// number of zeros and at most one plus sign. Nothing else is read as a number.
pub proof fn law_a_number_is_read_where_it_is_written(
    s: &str,
    most: u64,
    r: Option<u64>,
    n: u64,
    written: String,
    plus: bool,
    leading: nat,
)
    requires
        call_ensures(number::read_decimal, (s, most), r),
        call_ensures(number::write_decimal, (n as u128,), written),
    ensures
        is_written(s@, plus, leading, written@) ==> r == if n <= most {
            Some(n)
        } else {
            None
        },
        r == Some(n) ==> n <= most && exists|plus: bool, leading: nat|
            is_written(s@, plus, leading, written@),
{
    if is_written(s@, plus, leading, written@) {
        lemma_number_in(s@, most as nat, n as nat, plus, leading);
    }
    if r == Some(n) {
        let digits = number::without_plus(s@);
        lemma_digits_are_written(digits);
        let leading = choose|leading: nat|
            digits == #[trigger] zeros(leading) + number::decimal(n as nat);
        let plus = s@.len() > 0 && s@[0] == '+';
        if plus {
            assert(s@ == seq!['+'] + digits);
        }
        assert(is_written(s@, plus, leading, written@));
    }
}

/// A number that is aligned stands behind spaces, as many as it takes to the width.
pub proof fn law_an_aligned_number_stands_behind_spaces(
    n: u128,
    width: usize,
    r: String,
    written: String,
)
    requires
        call_ensures(number::write_aligned, (n, width), r),
        call_ensures(number::write_decimal, (n,), written),
    ensures
        r@.len() == vstd::math::max(width as int, written@.len() as int),
        r@.skip(r@.len() - written@.len()) == written@,
        forall|i: int| 0 <= i < r@.len() - written@.len() ==> #[trigger] r@[i] == ' ',
{
}

} // verus!
