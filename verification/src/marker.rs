//! The append marker: the path segment that asks to append to an array.

use vstd::prelude::*;

verus! {

/// Whether `c` is one of the ten decimal digits.
pub open spec fn is_digit(c: char) -> bool {
    '0' <= c && c <= '9'
}

/// Whether a path segment asks to append to an array: a dollar sign followed
/// by one or more decimal digits.
pub open spec fn is_append_marker(segment: Seq<char>) -> bool {
    &&& segment.len() >= 2
    &&& segment[0] == '$'
    &&& forall|i: int| 1 <= i < segment.len() ==> is_digit(#[trigger] segment[i])
}

/// The character of a decimal digit.
pub open spec fn digit_char(d: int) -> char {
    if d == 0 {
        '0'
    } else if d == 1 {
        '1'
    } else if d == 2 {
        '2'
    } else if d == 3 {
        '3'
    } else if d == 4 {
        '4'
    } else if d == 5 {
        '5'
    } else if d == 6 {
        '6'
    } else if d == 7 {
        '7'
    } else if d == 8 {
        '8'
    } else {
        '9'
    }
}

/// The decimal digits of `n`, without leading zeros.
pub open spec fn decimal(n: nat) -> Seq<char>
    decreases n,
{
    if n < 10 {
        seq![digit_char(n as int)]
    } else {
        decimal(n / 10).push(digit_char((n % 10) as int))
    }
}

/// The append marker of the array element at `index`.
pub open spec fn marker_text(index: nat) -> Seq<char> {
    seq!['$'] + decimal(index)
}

/// The decimal text of a number is one or more decimal digits.
pub proof fn lemma_decimal_digits(n: nat)
    ensures
        decimal(n).len() >= 1,
        forall|i: int| 0 <= i < decimal(n).len() ==> '0' <= #[trigger] decimal(n)[i] <= '9',
    decreases n,
{
    if n >= 10 {
        lemma_decimal_digits(n / 10);
    }
}

/// The marker of every index is an append marker.
pub proof fn lemma_marker_text(index: nat)
    ensures
        is_append_marker(marker_text(index)),
{
    lemma_decimal_digits(index);
}

/// `String::push` of the standard library appends one character to the
/// string.
pub assume_specification[ std::string::String::push ](text: &mut std::string::String, c: char)
    ensures
        final(text)@ == old(text)@.push(c),
;

/// `String::push_str` of the standard library appends the characters of
/// `tail` to the string.
pub assume_specification[ std::string::String::push_str ](
    text: &mut std::string::String,
    tail: &str,
)
    ensures
        final(text)@ == old(text)@ + tail@,
;

/// Whether `segment` is an append marker.
pub fn is_marker(segment: &str) -> (r: bool)
    ensures
        r == is_append_marker(segment@),
{
    let n = segment.unicode_len();
    if n < 2 {
        return false;
    }
    if segment.get_char(0) != '$' {
        return false;
    }
    let mut i: usize = 1;
    while i < n
        invariant
            1 <= i <= n,
            n == segment@.len(),
            forall|j: int| 1 <= j < i ==> is_digit(#[trigger] segment@[j]),
        decreases n - i,
    {
        let c = segment.get_char(i);
        if !('0' <= c && c <= '9') {
            return false;
        }
        i += 1;
    }
    true
}

/// The character of the decimal digit `d`.
fn digit(d: usize) -> (c: char)
    requires
        d < 10,
    ensures
        c == digit_char(d as int),
{
    if d == 0 {
        '0'
    } else if d == 1 {
        '1'
    } else if d == 2 {
        '2'
    } else if d == 3 {
        '3'
    } else if d == 4 {
        '4'
    } else if d == 5 {
        '5'
    } else if d == 6 {
        '6'
    } else if d == 7 {
        '7'
    } else if d == 8 {
        '8'
    } else {
        '9'
    }
}

/// Appends the decimal digits of `n` to `text`.
fn push_decimal(text: &mut String, n: usize)
    ensures
        final(text)@ == old(text)@ + decimal(n as nat),
    decreases n,
{
    if n >= 10 {
        push_decimal(text, n / 10);
    }
    text.push(digit(n % 10));
    assert(text@ =~= old(text)@ + decimal(n as nat));
}

/// The append marker of the array element at `index`.
pub fn marker_for(index: usize) -> (text: String)
    ensures
        text@ == marker_text(index as nat),
{
    let mut text = "$".to_owned();
    proof {
        reveal_strlit("$");
    }
    push_decimal(&mut text, index);
    text
}

} // verus!
