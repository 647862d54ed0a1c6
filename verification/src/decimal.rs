use vstd::prelude::*;

verus! {

/// The character that writes the digit `d`.
pub open spec fn digit(d: int) -> char
    recommends
        0 <= d < 10,
{
    if d == 0 {
        '0'
    } else if d == 1 {
        '1'
    } else if d == 2 {
        '2'
    } else if d == 3 {
        '3'
    } else if d == 4 {
        '4'
    } else if d == 5 {
        '5'
    } else if d == 6 {
        '6'
    } else if d == 7 {
        '7'
    } else if d == 8 {
        '8'
    } else {
        '9'
    }
}

/// The decimal numeral of a natural number, without leading zeros.
pub open spec fn natural_text(n: nat) -> Seq<char>
    decreases n,
{
    if n < 10 {
        seq![digit(n as int)]
    } else {
        natural_text(n / 10).push(digit((n % 10) as int))
    }
}

/// The decimal numeral of an integer: a minus sign before the numeral of
/// its absolute value where it is negative.
pub open spec fn integer_text(n: int) -> Seq<char> {
    if n < 0 {
        seq!['-'] + natural_text((-n) as nat)
    } else {
        natural_text(n as nat)
    }
}

/// Whether `c` is one of the ten digits.
pub open spec fn is_digit(c: char) -> bool {
    exists|d: int| 0 <= d < 10 && c == #[trigger] digit(d)
}

/// The number that the digit `c` writes.
pub open spec fn digit_value(c: char) -> int
    recommends
        is_digit(c),
{
    choose|d: int| 0 <= d < 10 && c == #[trigger] digit(d)
}

/// The number that a sequence of digits writes in decimal.
pub open spec fn natural_value(text: Seq<char>) -> int
    decreases text.len(),
{
    if text.len() == 0 {
        0
    } else {
        natural_value(text.drop_last()) * 10 + digit_value(text.last())
    }
}

/// The number that a numeral writes: a sequence of digits, after a minus
/// sign or not.
pub open spec fn integer_value(text: Seq<char>) -> int {
    if text.len() > 0 && text[0] == '-' {
        -natural_value(text.skip(1))
    } else {
        natural_value(text)
    }
}

/// Each digit writes its own number.
pub proof fn lemma_digit_value(d: int)
    requires
        0 <= d < 10,
    ensures
        is_digit(digit(d)),
        digit_value(digit(d)) == d,
        digit(d) != '-',
{
}

/// The numeral of a natural number is made of digits, begins with a zero
/// only where the number is zero, and writes that number.
pub proof fn lemma_natural_text(n: nat)
    ensures
        natural_text(n).len() >= 1,
        forall|i: int| 0 <= i < natural_text(n).len() ==> is_digit(#[trigger] natural_text(n)[i]),
        natural_text(n)[0] == '0' <==> n == 0,
        natural_value(natural_text(n)) == n,
    decreases n,
{
    let text = natural_text(n);
    lemma_digit_value((n % 10) as int);
    if n < 10 {
        assert(natural_value(text.drop_last()) == 0);
    } else {
        let front = natural_text(n / 10);
        lemma_natural_text(n / 10);
        assert(text.drop_last() =~= front);
        assert forall|i: int| 0 <= i < text.len() implies is_digit(#[trigger] text[i]) by {
            if i < front.len() {
                assert(text[i] == front[i]);
            }
        }
    }
}

/// The numeral of an integer writes that integer.
pub proof fn lemma_integer_text(n: int)
    ensures
        integer_value(integer_text(n)) == n,
{
    if n < 0 {
        let magnitude = (-n) as nat;
        lemma_natural_text(magnitude);
        assert(integer_text(n).skip(1) =~= natural_text(magnitude));
    } else {
        lemma_natural_text(n as nat);
        let text = natural_text(n as nat);
        let d = choose|d: int| 0 <= d < 10 && text[0] == #[trigger] digit(d);
        lemma_digit_value(d);
    }
}

/// Two integers with the same numeral are the same integer.
pub proof fn lemma_integer_text_is_injective(m: int, n: int)
    requires
        integer_text(m) == integer_text(n),
    ensures
        m == n,
{
    lemma_integer_text(m);
    lemma_integer_text(n);
}

fn digit_str(d: u64) -> (text: &'static str)
    requires
        d < 10,
    ensures
        text@ == seq![digit(d as int)],
{
    proof {
        reveal_strlit("0");
        reveal_strlit("1");
        reveal_strlit("2");
        reveal_strlit("3");
        reveal_strlit("4");
        reveal_strlit("5");
        reveal_strlit("6");
        reveal_strlit("7");
        reveal_strlit("8");
        reveal_strlit("9");
    }
    if d == 0 {
        "0"
    } else if d == 1 {
        "1"
    } else if d == 2 {
        "2"
    } else if d == 3 {
        "3"
    } else if d == 4 {
        "4"
    } else if d == 5 {
        "5"
    } else if d == 6 {
        "6"
    } else if d == 7 {
        "7"
    } else if d == 8 {
        "8"
    } else {
        "9"
    }
}

/// Writes a natural number in decimal.
pub fn natural_to_string(n: u64) -> (text: String)
    ensures
        text@ == natural_text(n as nat),
    decreases n,
{
    if n < 10 {
        String::from_str(digit_str(n))
    } else {
        let mut text = natural_to_string(n / 10);
        text.append(digit_str(n % 10));
        text
    }
}

/// Writes an integer in decimal.
pub fn integer_to_string(n: i64) -> (text: String)
    ensures
        text@ == integer_text(n as int),
{
    if n < 0 {
        let magnitude: u64 = (-(n + 1)) as u64 + 1;
        proof {
            reveal_strlit("-");
        }
        let mut text = String::from_str("-");
        text.append(natural_to_string(magnitude).as_str());
        text
    } else {
        natural_to_string(n as u64)
    }
}

} // verus!
