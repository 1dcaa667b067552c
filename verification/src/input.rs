use vstd::prelude::*;
use vstd::string::*;
use crate::error::DisplayError;

verus! {

/// Whether a character separates tokens: the characters that Unicode gives
/// the property `White_Space`.
pub open spec fn is_space(c: char) -> bool {
    let code = c as u32;
    ||| 0x09 <= code <= 0x0D
    ||| code == 0x20
    ||| code == 0x85
    ||| code == 0xA0
    ||| code == 0x1680
    ||| 0x2000 <= code <= 0x200A
    ||| code == 0x2028
    ||| code == 0x2029
    ||| code == 0x202F
    ||| code == 0x205F
    ||| code == 0x3000
}

/// Whether a character is one of the decimal digits `0` to `9`.
pub open spec fn is_digit(c: char) -> bool {
    '0' <= c <= '9'
}

/// The number that a row of decimal digits writes, most significant digit
/// first. The empty row writes zero.
pub open spec fn digits_value(digits: Seq<char>) -> nat
    decreases digits.len(),
{
    if digits.len() == 0 {
        0
    } else {
        digits_value(digits.drop_last()) * 10 + (digits.last() as nat - '0' as nat) as nat
    }
}

/// The digits of a token: the token itself, without one leading `+` sign.
pub open spec fn digits_of(token: Seq<char>) -> Seq<char> {
    if token.len() > 0 && token[0] == '+' {
        token.skip(1)
    } else {
        token
    }
}

/// The unsigned number that a token writes, where it writes one that is at
/// most `max`: an optional `+`, then one or more decimal digits.
pub open spec fn number_of(token: Seq<char>, max: nat) -> Option<nat> {
    let digits = digits_of(token);
    if digits.len() > 0 && (forall|i: int| 0 <= i < digits.len() ==> is_digit(#[trigger] digits[i]))
        && digits_value(digits) <= max {
        Some(digits_value(digits))
    } else {
        None
    }
}

/// Whether `c` separates tokens.
pub fn is_separator(c: char) -> (space: bool)
    ensures
        space == is_space(c),
{
    let code = c as u32;
    (0x09 <= code && code <= 0x0D) || code == 0x20 || code == 0x85 || code == 0xA0 || code
        == 0x1680 || (0x2000 <= code && code <= 0x200A) || code == 0x2028 || code == 0x2029 || code
        == 0x202F || code == 0x205F || code == 0x3000
}

/// Reads a token as an unsigned number of at most `max`.
pub fn parse_number(token: &Vec<char>, max: u64) -> (number: Option<u64>)
    ensures
        match number_of(token@, max as nat) {
            Some(n) => number == Some(n as u64) && n <= max,
            None => number.is_none(),
        },
{
    let start: usize = if token.len() > 0 && token[0] == '+' {
        1
    } else {
        0
    };
    let ghost digits = digits_of(token@);
    assert(digits =~= token@.skip(start as int));
    if start == token.len() {
        return None;
    }
    let mut value: u64 = 0;
    let mut i: usize = start;
    while i < token.len()
        invariant
            start <= i <= token@.len(),
            digits == digits_of(token@),
            digits == token@.skip(start as int),
            forall|j: int| 0 <= j < i - start ==> is_digit(#[trigger] digits[j]),
            value == digits_value(digits.take(i - start)),
            value <= max,
        decreases token@.len() - i,
    {
        let c = token[i];
        assert(digits[i - start] == c);
        if c < '0' || c > '9' {
            return None;
        }
        let digit: u64 = (c as u32 - '0' as u32) as u64;
        proof {
            let upto = digits.take(i - start + 1);
            assert(upto.drop_last() =~= digits.take(i - start));
            assert(upto.last() == c);
            assert(digits_value(upto) == value * 10 + digit);
            lemma_digits_value_grows(digits, i - start + 1);
        }
        let next: u128 = value as u128 * 10 + digit as u128;
        if next > max as u128 {
            return None;
        }
        value = next as u64;
        i = i + 1;
    }
    assert(digits.take(i - start) =~= digits);
    Some(value)
}

/// A row of digits writes at least what any row it begins with writes.
pub proof fn lemma_digits_value_grows(digits: Seq<char>, n: int)
    requires
        0 <= n <= digits.len(),
    ensures
        digits_value(digits.take(n)) <= digits_value(digits),
    decreases digits.len() - n,
{
    if n == digits.len() {
        assert(digits.take(n) =~= digits);
    } else {
        assert(digits.take(n + 1).drop_last() =~= digits.take(n));
        lemma_digits_value_grows(digits, n + 1);
    }
}

/// The token that ends where a separator or the end of the text is met:
/// the pending characters, if there are any.
pub open spec fn closed(pending: Seq<char>) -> Seq<Seq<char>> {
    if pending.len() > 0 {
        seq![pending]
    } else {
        Seq::empty()
    }
}

/// The tokens of `text` when the characters `pending` stand directly before
/// it and belong to a token that has not ended yet.
pub open spec fn tokens_after(pending: Seq<char>, text: Seq<char>) -> Seq<Seq<char>>
    decreases text.len(),
{
    if text.len() == 0 {
        closed(pending)
    } else if is_space(text[0]) {
        closed(pending) + tokens_after(Seq::empty(), text.skip(1))
    } else {
        tokens_after(pending.push(text[0]), text.skip(1))
    }
}

/// The tokens of a text: its longest runs of characters that are not
/// separators, from left to right.
pub open spec fn tokens_of(text: Seq<char>) -> Seq<Seq<char>> {
    tokens_after(Seq::empty(), text)
}

/// Whether a row of characters can be a token: it is not empty and holds no
/// separator.
pub open spec fn is_token(token: Seq<char>) -> bool {
    &&& token.len() > 0
    &&& forall|j: int| 0 <= j < token.len() ==> !is_space(#[trigger] token[j])
}

/// Every token that comes after pending characters without a separator is
/// itself not empty and without a separator.
pub proof fn lemma_tokens_after_are_tokens(pending: Seq<char>, text: Seq<char>)
    requires
        forall|j: int| 0 <= j < pending.len() ==> !is_space(#[trigger] pending[j]),
    ensures
        forall|i: int|
            0 <= i < tokens_after(pending, text).len() ==> is_token(
                #[trigger] tokens_after(pending, text)[i],
            ),
    decreases text.len(),
{
    let tokens = tokens_after(pending, text);
    if text.len() > 0 {
        if is_space(text[0]) {
            let later = tokens_after(Seq::empty(), text.skip(1));
            lemma_tokens_after_are_tokens(Seq::empty(), text.skip(1));
            assert forall|i: int| 0 <= i < tokens.len() implies is_token(#[trigger] tokens[i]) by {
                if i >= closed(pending).len() {
                    assert(tokens[i] == later[i - closed(pending).len()]);
                }
            }
        } else {
            let longer = pending.push(text[0]);
            assert forall|j: int| 0 <= j < longer.len() implies !is_space(#[trigger] longer[j]) by {
                if j < pending.len() {
                    assert(longer[j] == pending[j]);
                }
            }
            lemma_tokens_after_are_tokens(longer, text.skip(1));
            assert(tokens == tokens_after(longer, text.skip(1)));
        }
    }
}

/// No token of a text is empty, and none holds a separator.
pub proof fn lemma_tokens_are_tokens(text: Seq<char>)
    ensures
        forall|i: int| 0 <= i < tokens_of(text).len() ==> is_token(#[trigger] tokens_of(text)[i]),
{
    lemma_tokens_after_are_tokens(Seq::empty(), text);
}

/// The contents of a list of tokens.
pub open spec fn token_views(tokens: Seq<Vec<char>>) -> Seq<Seq<char>> {
    Seq::new(tokens.len(), |i: int| tokens[i]@)
}

/// The numbers that the tokens of a text write, each at most `max`. A single
/// token that writes no such number makes the whole text malformed.
pub open spec fn numbers_of(text: Seq<char>, max: nat) -> Result<Seq<nat>, DisplayError> {
    let tokens = tokens_of(text);
    if forall|i: int| 0 <= i < tokens.len() ==> number_of(#[trigger] tokens[i], max) is Some {
        Ok(Seq::new(tokens.len(), |i: int| number_of(tokens[i], max)->0))
    } else {
        Err(DisplayError::MalformedNumericInput)
    }
}

/// The width and height that a dimension line gives: exactly two numbers
/// that each fit 32 bits.
pub open spec fn dimensions_of(text: Seq<char>) -> Result<(u32, u32), DisplayError> {
    match numbers_of(text, u32::MAX as nat) {
        Ok(numbers) => {
            if numbers.len() == 2 {
                Ok((numbers[0] as u32, numbers[1] as u32))
            } else {
                Err(DisplayError::InvalidDimensions)
            }
        },
        Err(e) => Err(e),
    }
}

/// The colour code that a default-colour line gives: the line must hold the
/// single character `1`, `2` or `3`, with nothing but separators around it.
pub open spec fn default_colour_of(text: Seq<char>) -> Result<u8, DisplayError> {
    let tokens = tokens_of(text);
    if tokens == seq![seq!['1']] {
        Ok(1u8)
    } else if tokens == seq![seq!['2']] {
        Ok(2u8)
    } else if tokens == seq![seq!['3']] {
        Ok(3u8)
    } else {
        Err(DisplayError::InvalidColor)
    }
}

/// The command stream that a command line gives: the numbers of its tokens,
/// each fitting 64 bits.
pub open spec fn commands_of(text: Seq<char>) -> Result<Seq<u64>, DisplayError> {
    match numbers_of(text, u64::MAX as nat) {
        Ok(numbers) => Ok(Seq::new(numbers.len(), |i: int| numbers[i] as u64)),
        Err(e) => Err(e),
    }
}

/// Splits a text into its tokens.
pub fn split_tokens(text: &str) -> (tokens: Vec<Vec<char>>)
    ensures
        token_views(tokens@) == tokens_of(text@),
{
    let mut done: Vec<Vec<char>> = Vec::new();
    let mut pending: Vec<char> = Vec::new();
    proof {
        assert(text@.skip(0) =~= text@);
        assert(token_views(done@) + tokens_of(text@) =~= tokens_of(text@));
    }
    for c in chars: text.chars()
        invariant
            chars.seq() == text@,
            tokens_of(text@) == token_views(done@) + tokens_after(
                pending@,
                text@.skip(chars.index() as int),
            ),
    {
        let ghost rest = text@.skip(chars.index() as int);
        let ghost before = token_views(done@);
        let ghost held = pending@;
        assert(rest[0] == c);
        assert(rest.skip(1) =~= text@.skip(chars.index() + 1));
        if is_separator(c) {
            if pending.len() > 0 {
                done.push(pending);
                pending = Vec::new();
                assert(token_views(done@) =~= before + closed(held));
            }
            assert(pending@ =~= Seq::<char>::empty());
            assert(token_views(done@) + tokens_after(pending@, rest.skip(1)) =~= before + (closed(
                held,
            ) + tokens_after(Seq::empty(), rest.skip(1))));
        } else {
            pending.push(c);
        }
    }
    let ghost before = token_views(done@);
    let ghost held = pending@;
    assert(text@.skip(text@.len() as int) =~= Seq::<char>::empty());
    if pending.len() > 0 {
        done.push(pending);
        assert(token_views(done@) =~= before + closed(held));
    } else {
        assert(before + closed(held) =~= before);
    }
    done
}

/// Reads the tokens of a text as unsigned numbers of at most `max`.
pub fn read_numbers(text: &str, max: u64) -> (numbers: Result<Vec<u64>, DisplayError>)
    ensures
        match numbers_of(text@, max as nat) {
            Ok(expected) => numbers is Ok && numbers->Ok_0@.len() == expected.len() && forall|
                i: int,
            |
                0 <= i < expected.len() ==> (#[trigger] numbers->Ok_0@[i]) == expected[i],
            Err(e) => numbers == Err::<Vec<u64>, DisplayError>(e),
        },
{
    let tokens = split_tokens(text);
    let ghost expected = tokens_of(text@);
    let mut numbers: Vec<u64> = Vec::new();
    let mut i: usize = 0;
    while i < tokens.len()
        invariant
            i <= tokens@.len(),
            expected == tokens_of(text@),
            token_views(tokens@) == expected,
            numbers@.len() == i,
            forall|j: int|
                0 <= j < i ==> number_of(#[trigger] expected[j], max as nat) == Some(
                    numbers@[j] as nat,
                ),
        decreases tokens@.len() - i,
    {
        assert(expected[i as int] == tokens@[i as int]@);
        match parse_number(&tokens[i], max) {
            Some(number) => {
                numbers.push(number);
            },
            None => {
                return Err(DisplayError::MalformedNumericInput);
            },
        }
        i = i + 1;
    }
    Ok(numbers)
}

/// Reads the line that gives the size of the display: its width, then its
/// height.
///
/// A token that is no number of 32 bits makes the line malformed, however
/// many tokens there are; a line of well-written numbers that are not two in
/// number has invalid dimensions.
pub fn parse_dimensions(input: &str) -> (dimensions: Result<(u32, u32), DisplayError>)
    ensures
        dimensions == dimensions_of(input@),
{
    match read_numbers(input, 0xFFFF_FFFF) {
        Ok(numbers) => {
            if numbers.len() == 2 {
                Ok((numbers[0] as u32, numbers[1] as u32))
            } else {
                Err(DisplayError::InvalidDimensions)
            }
        },
        Err(e) => Err(e),
    }
}

/// Reads the line that gives the default colour of the display.
pub fn parse_default_colour(input: &str) -> (colour: Result<u8, DisplayError>)
    ensures
        colour == default_colour_of(input@),
{
    let tokens = split_tokens(input);
    if tokens.len() == 1 && tokens[0].len() == 1 {
        let c = tokens[0][0];
        assert(tokens_of(input@)[0] == tokens@[0]@);
        assert(tokens@[0]@ =~= seq![c]);
        assert(tokens_of(input@) =~= seq![seq![c]]);
        assert(seq![c][0] == c);
        if c == '1' {
            Ok(1)
        } else if c == '2' {
            Ok(2)
        } else if c == '3' {
            Ok(3)
        } else {
            assert(seq![seq!['1']][0][0] == '1');
            assert(seq![seq!['2']][0][0] == '2');
            assert(seq![seq!['3']][0][0] == '3');
            Err(DisplayError::InvalidColor)
        }
    } else {
        assert(seq![seq!['1']].len() == 1 && seq![seq!['1']][0].len() == 1);
        assert(seq![seq!['2']].len() == 1 && seq![seq!['2']][0].len() == 1);
        assert(seq![seq!['3']].len() == 1 && seq![seq!['3']][0].len() == 1);
        if tokens.len() == 1 {
            assert(tokens_of(input@)[0] == tokens@[0]@);
        }
        Err(DisplayError::InvalidColor)
    }
}

/// Reads the line that gives the command stream.
pub fn parse_commands(input: &str) -> (commands: Result<Vec<u64>, DisplayError>)
    ensures
        match commands_of(input@) {
            Ok(expected) => commands is Ok && commands->Ok_0@ == expected,
            Err(e) => commands == Err::<Vec<u64>, DisplayError>(e),
        },
{
    let commands = read_numbers(input, 0xFFFF_FFFF_FFFF_FFFF);
    proof {
        if commands is Ok {
            assert(commands->Ok_0@ =~= commands_of(input@)->Ok_0);
        }
    }
    commands
}

} // verus!
