use crate::utils::text::{chars_of, push_char};
use vstd::prelude::*;

verus! {

/// The character `c`, `n` times.
pub open spec fn repeated(c: char, n: nat) -> Seq<char> {
    Seq::new(n, |i: int| c)
}

/// `text` in the middle of a field of `width` characters: spaces fill the
/// field on both sides, the odd one standing behind the text. A text that
/// fills the field is left as it is.
pub open spec fn centered(text: Seq<char>, width: nat) -> Seq<char> {
    if text.len() >= width {
        text
    } else {
        repeated(' ', ((width - text.len()) / 2) as nat) + text + repeated(
            ' ',
            ((width - text.len() + 1) / 2) as nat,
        )
    }
}

/// `text` at the left of a field of `width` characters: spaces fill the
/// field behind it. A text that fills the field is left as it is.
pub open spec fn left_aligned(text: Seq<char>, width: nat) -> Seq<char> {
    if text.len() >= width {
        text
    } else {
        text + repeated(' ', (width - text.len()) as nat)
    }
}

/// The decimal digit for a number below ten.
pub open spec fn digit_char(d: nat) -> char {
    if d == 0 {
        '0'
    } else if d == 1 {
        '1'
    } else if d == 2 {
        '2'
    } else if d == 3 {
        '3'
    } else if d == 4 {
        '4'
    } else if d == 5 {
        '5'
    } else if d == 6 {
        '6'
    } else if d == 7 {
        '7'
    } else if d == 8 {
        '8'
    } else {
        '9'
    }
}

/// The decimal numeral of `n`.
pub open spec fn decimal(n: nat) -> Seq<char>
    decreases n,
{
    if n < 10 {
        seq![digit_char(n)]
    } else {
        decimal(n / 10).push(digit_char(n % 10))
    }
}

/// The decimal digit for a number below ten.
fn digit(d: usize) -> (c: char)
    requires
        d < 10,
    ensures
        c == digit_char(d as nat),
{
    if d == 0 {
        '0'
    } else if d == 1 {
        '1'
    } else if d == 2 {
        '2'
    } else if d == 3 {
        '3'
    } else if d == 4 {
        '4'
    } else if d == 5 {
        '5'
    } else if d == 6 {
        '6'
    } else if d == 7 {
        '7'
    } else if d == 8 {
        '8'
    } else {
        '9'
    }
}

/// Appends the character `c` to `text`, `n` times.
pub fn push_repeated(text: &mut String, c: char, n: usize)
    ensures
        final(text)@ == old(text)@ + repeated(c, n as nat),
{
    let mut i: usize = 0;
    assert(text@ == old(text)@ + repeated(c, 0));
    while i < n
        invariant
            i <= n,
            text@ == old(text)@ + repeated(c, i as nat),
        decreases n - i,
    {
        push_char(text, c);
        assert(repeated(c, i as nat).push(c) == repeated(c, (i + 1) as nat));
        assert(text@ == old(text)@ + repeated(c, (i + 1) as nat));
        i += 1;
    }
}

/// The character `c`, `n` times.
pub fn repeat_char(c: char, n: usize) -> (text: String)
    ensures
        text@ == repeated(c, n as nat),
{
    let mut text = String::new();
    push_repeated(&mut text, c, n);
    assert(Seq::<char>::empty() + repeated(c, n as nat) == repeated(c, n as nat));
    text
}

/// `text` in the middle of a field of `width` characters.
pub fn center(text: &str, width: usize) -> (field: String)
    ensures
        field@ == centered(text@, width as nat),
{
    let len = chars_of(text).len();
    if len >= width {
        return text.to_string();
    }
    let padding: usize = width - len;
    let mut field = repeat_char(' ', padding / 2);
    field.append(text);
    push_repeated(&mut field, ' ', padding - padding / 2);
    field
}

/// `text` at the left of a field of `width` characters.
pub fn align_left(text: &str, width: usize) -> (field: String)
    ensures
        field@ == left_aligned(text@, width as nat),
{
    let len = chars_of(text).len();
    let mut field = text.to_string();
    if len < width {
        push_repeated(&mut field, ' ', width - len);
    }
    field
}

/// The decimal numeral of `n`.
pub fn decimal_text(n: usize) -> (text: String)
    ensures
        text@ == decimal(n as nat),
    decreases n,
{
    if n < 10 {
        let mut text = String::new();
        push_char(&mut text, digit(n));
        text
    } else {
        let mut text = decimal_text(n / 10);
        push_char(&mut text, digit(n % 10));
        text
    }
}

} // verus!
