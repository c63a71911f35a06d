use vstd::prelude::*;

verus! {

/// `String::push` of the standard library appends the given character to the
/// end of the string.
pub assume_specification[ String::push ](text: &mut String, ch: char)
    ensures
        final(text)@ == old(text)@.push(ch),
;

/// The character of a decimal digit.
pub open spec fn digit_char(digit: int) -> char {
    ('0' as int + digit) as char
}

/// The decimal notation of a number, without leading zeros.
pub open spec fn decimal(number: nat) -> Seq<char>
    decreases number,
{
    if number < 10 {
        seq![digit_char(number as int)]
    } else {
        decimal(number / 10).push(digit_char((number % 10) as int))
    }
}

/// A run of `count` spaces.
pub open spec fn spaces(count: nat) -> Seq<char> {
    Seq::new(count, |i: int| ' ')
}

/// Append `count` spaces to the text.
pub fn push_spaces(text: &mut String, count: usize)
    ensures
        final(text)@ == old(text)@ + spaces(count as nat),
{
    let mut done: usize = 0;
    while done < count
        invariant
            done <= count,
            text@ == old(text)@ + spaces(done as nat),
        decreases count - done,
    {
        text.push(' ');
        assert(spaces(done as nat).push(' ') =~= spaces((done + 1) as nat));
        assert(text@ =~= old(text)@ + spaces((done + 1) as nat));
        done = done + 1;
    }
    assert(text@ =~= old(text)@ + spaces(count as nat));
}

/// Append the decimal notation of a number to the text.
pub fn push_decimal(text: &mut String, number: usize)
    ensures
        final(text)@ == old(text)@ + decimal(number as nat),
    decreases number,
{
    if number >= 10 {
        push_decimal(text, number / 10);
    }
    let digit = (number % 10) as u8;
    text.push((48u8 + digit) as char);
    assert(text@ =~= old(text)@ + decimal(number as nat));
}

} // verus!
