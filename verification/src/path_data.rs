//! The path-data mini-language: tokens, their canonical rendering, and the
//! minified text of a token sequence.

use crate::text::{char_at, chars_of, text_of};
use vstd::prelude::*;

verus! {

/// The twenty path command letters.
pub open spec fn is_command(c: char) -> bool {
    ||| c == 'M' || c == 'm' || c == 'L' || c == 'l'
    ||| c == 'H' || c == 'h' || c == 'V' || c == 'v'
    ||| c == 'C' || c == 'c' || c == 'S' || c == 's'
    ||| c == 'Q' || c == 'q' || c == 'T' || c == 't'
    ||| c == 'A' || c == 'a' || c == 'Z' || c == 'z'
}

/// The ten decimal digits.
pub open spec fn is_digit(c: char) -> bool {
    '0' <= c <= '9'
}

/// A character that opens a numeric token.
pub open spec fn starts_number(c: char) -> bool {
    is_digit(c) || c == '.' || c == '-'
}

/// A character that an open numeric token absorbs.
pub open spec fn continues_number(c: char) -> bool {
    is_digit(c) || c == '.' || c == 'e' || c == 'E' || c == '-'
}

/// A space or a comma.
pub open spec fn is_separator(c: char) -> bool {
    c == ' ' || c == ','
}

/// One token of path data, as the contracts see it.
pub enum Token {
    /// A command letter; its case tells relative from absolute.
    Command(char),
    /// A numeric token: the text as written, and its fixed-point rendering
    /// where the text reads as a number.
    Number { raw: Seq<char>, fixed: Option<Seq<char>> },
    /// A space or a comma.
    Separator,
    /// Any other character.
    Other(char),
}

/// One token of path data.
#[derive(Debug, Clone, PartialEq, Eq)]
pub enum PathToken {
    /// A command letter; its case tells relative from absolute.
    Command(char),
    /// A numeric token: the text as written, and its fixed-point rendering
    /// where the text reads as a number.
    Number { raw: String, fixed: Option<String> },
    /// A space or a comma.
    Separator,
    /// Any other character.
    Other(char),
}

impl View for PathToken {
    type V = Token;

    open spec fn view(&self) -> Token {
        match *self {
            PathToken::Command(c) => Token::Command(c),
            PathToken::Number { raw, fixed } => Token::Number {
                raw: raw@,
                fixed: match fixed {
                    Some(text) => Some(text@),
                    None => None,
                },
            },
            PathToken::Separator => Token::Separator,
            PathToken::Other(c) => Token::Other(c),
        }
    }
}

/// The views of a vector of tokens.
pub open spec fn token_views(tokens: Seq<PathToken>) -> Seq<Token> {
    Seq::new(tokens.len(), |k: int| tokens[k]@)
}

/// The token that a character outside a numeric token makes.
pub open spec fn token_of(c: char) -> Token {
    if is_command(c) {
        Token::Command(c)
    } else if starts_number(c) {
        Token::Number { raw: seq![c], fixed: None }
    } else if is_separator(c) {
        Token::Separator
    } else {
        Token::Other(c)
    }
}

/// Whether the last of `tokens` is a numeric token that absorbs `c`.
pub open spec fn absorbs(tokens: Seq<Token>, c: char) -> bool {
    tokens.len() > 0 && tokens.last() is Number && continues_number(c)
}

/// The tokens read so far, after one more character.
pub open spec fn with_char(tokens: Seq<Token>, c: char) -> Seq<Token> {
    if absorbs(tokens, c) {
        tokens.drop_last().push(
            Token::Number { raw: tokens.last()->raw.push(c), fixed: tokens.last()->fixed },
        )
    } else {
        tokens.push(token_of(c))
    }
}

/// The tokens of the first `n` characters of `s`, read left to right: a
/// numeric token runs from a digit, `.` or `-` for as long as digits, `.`,
/// `e`, `E` or `-` follow; every other character is a token by itself.
pub open spec fn scan_prefix(s: Seq<char>, n: int) -> Seq<Token>
    decreases n,
{
    if n <= 0 {
        Seq::empty()
    } else {
        with_char(scan_prefix(s, n - 1), s[n - 1])
    }
}

/// The tokens of `s`, none of its numbers rendered yet.
pub open spec fn scan(s: Seq<char>) -> Seq<Token> {
    scan_prefix(s, s.len() as int)
}

/// `text` without the zeros at its end.
pub open spec fn without_trailing_zeros(text: Seq<char>) -> Seq<char>
    decreases text.len(),
{
    if text.len() > 0 && text.last() == '0' {
        without_trailing_zeros(text.drop_last())
    } else {
        text
    }
}

/// `text` without a point at its end.
pub open spec fn without_trailing_point(text: Seq<char>) -> Seq<char> {
    if text.len() > 0 && text.last() == '.' {
        text.drop_last()
    } else {
        text
    }
}

/// The canonical form of a fixed-point rendering: trailing zeros go, then
/// a point that they leave at the end.
pub open spec fn canonical(fixed: Seq<char>) -> Seq<char> {
    without_trailing_point(without_trailing_zeros(fixed))
}

/// What a numeric token contributes to the output: the canonical form of
/// its rendering, or the text as written where it is no number.
pub open spec fn number_text(t: Token) -> Seq<char> {
    match t {
        Token::Number { raw, fixed: Some(text) } => canonical(text),
        Token::Number { raw, fixed: None } => raw,
        _ => Seq::empty(),
    }
}

/// Whether token `k + 1` is a numeric token that opens with a digit or `-`.
pub open spec fn number_follows(tokens: Seq<Token>, k: int) -> bool {
    &&& 0 <= k + 1 < tokens.len()
    &&& tokens[k + 1] matches Token::Number { raw, .. }
    &&& raw.len() > 0
    &&& (is_digit(raw[0]) || raw[0] == '-')
}

/// Whether a space is owed before token `k`: the last command or numeric
/// token before it is a number with a rendering, and no separator has
/// written the space since. Other characters leave the space owed.
pub open spec fn after_number(tokens: Seq<Token>, k: int) -> bool
    decreases k,
{
    if k <= 0 || k > tokens.len() {
        false
    } else {
        match tokens[k - 1] {
            Token::Command(_) => false,
            Token::Number { fixed, .. } => fixed is Some,
            Token::Separator => after_number(tokens, k - 1) && !number_follows(tokens, k - 1),
            Token::Other(_) => after_number(tokens, k - 1),
        }
    }
}

/// What token `k` writes. A command and any other character write
/// themselves. A separator writes the space that is owed where the token
/// after it is a number that opens with a digit or `-`, and nothing
/// elsewhere. A numeric token writes the space where it is still owed,
/// and then its text.
pub open spec fn piece(tokens: Seq<Token>, k: int) -> Seq<char> {
    match tokens[k] {
        Token::Command(c) => seq![c],
        Token::Other(c) => seq![c],
        Token::Separator => if after_number(tokens, k) && number_follows(tokens, k) {
            seq![' ']
        } else {
            Seq::empty()
        },
        Token::Number { .. } => if after_number(tokens, k) {
            seq![' '] + number_text(tokens[k])
        } else {
            number_text(tokens[k])
        },
    }
}

/// What the first `n` tokens write.
pub open spec fn emitted(tokens: Seq<Token>, n: int) -> Seq<char>
    decreases n,
{
    if n <= 0 {
        Seq::empty()
    } else {
        emitted(tokens, n - 1) + piece(tokens, n - 1)
    }
}

/// The minified text of a token sequence.
pub open spec fn rendered(tokens: Seq<Token>) -> Seq<char> {
    emitted(tokens, tokens.len() as int)
}

/// Whether `c` is a command letter.
pub fn command_char(c: char) -> (b: bool)
    ensures
        b == is_command(c),
{
    c == 'M' || c == 'm' || c == 'L' || c == 'l' || c == 'H' || c == 'h' || c == 'V' || c == 'v'
        || c == 'C' || c == 'c' || c == 'S' || c == 's' || c == 'Q' || c == 'q' || c == 'T'
        || c == 't' || c == 'A' || c == 'a' || c == 'Z' || c == 'z'
}

/// Whether `c` is a decimal digit.
pub fn digit_char(c: char) -> (b: bool)
    ensures
        b == is_digit(c),
{
    '0' <= c && c <= '9'
}

/// Whether `c` opens a numeric token.
pub fn number_start_char(c: char) -> (b: bool)
    ensures
        b == starts_number(c),
{
    digit_char(c) || c == '.' || c == '-'
}

/// Whether an open numeric token absorbs `c`.
pub fn number_body_char(c: char) -> (b: bool)
    ensures
        b == continues_number(c),
{
    digit_char(c) || c == '.' || c == 'e' || c == 'E' || c == '-'
}

/// Strips the zeros at the end of a fixed-point rendering, then a point
/// that they leave at the end.
pub fn canonical_number(fixed: &str) -> (out: String)
    ensures
        out@ == canonical(fixed@),
{
    let chars = chars_of(fixed);
    let mut end: usize = chars.len();
    assert(chars@.take(end as int) == chars@);
    while end > 0 && char_at(&chars, end - 1) == '0'
        invariant
            end <= chars.len(),
            without_trailing_zeros(chars@) == without_trailing_zeros(chars@.take(end as int)),
        decreases end,
    {
        assert(chars@.take(end as int).drop_last() == chars@.take(end - 1));
        end -= 1;
    }
    if end > 0 && char_at(&chars, end - 1) == '.' {
        assert(chars@.take(end as int).drop_last() == chars@.take(end - 1));
        end -= 1;
    }
    text_of(&chars, 0, end)
}

/// A numeric token that opens at `start` and runs to `end` is one token.
proof fn lemma_number_token(s: Seq<char>, start: int, end: int)
    requires
        0 <= start < end <= s.len(),
        starts_number(s[start]),
        !is_command(s[start]),
        !absorbs(scan_prefix(s, start), s[start]),
        forall|j: int| start < j < end ==> continues_number(#[trigger] s[j]),
    ensures
        scan_prefix(s, end) == scan_prefix(s, start).push(
            Token::Number { raw: s.subrange(start, end), fixed: None },
        ),
    decreases end - start,
{
    if end == start + 1 {
        assert(s.subrange(start, end) =~= seq![s[start]]);
    } else {
        lemma_number_token(s, start, end - 1);
        let open = scan_prefix(s, end - 1);
        assert(open.drop_last() =~= scan_prefix(s, start));
        assert(s.subrange(start, end - 1).push(s[end - 1]) =~= s.subrange(start, end));
    }
}

/// Where the numeric token that opens at `start` ends.
fn number_end(chars: &Vec<char>, start: usize) -> (end: usize)
    requires
        start < chars.len(),
    ensures
        start < end <= chars.len(),
        forall|j: int| start < j < end ==> continues_number(#[trigger] chars@[j]),
        end < chars.len() ==> !continues_number(chars@[end as int]),
{
    let mut end: usize = start + 1;
    while end < chars.len() && number_body_char(char_at(chars, end))
        invariant
            start < end <= chars.len(),
            forall|j: int| start < j < end ==> continues_number(#[trigger] chars@[j]),
        decreases chars.len() - end,
    {
        end += 1;
    }
    end
}

/// Reads path data into tokens. No number is rendered yet: every numeric
/// token comes with `fixed` empty.
pub fn tokenize(path_data: &str) -> (tokens: Vec<PathToken>)
    ensures
        token_views(tokens@) == scan(path_data@),
{
    let chars = chars_of(path_data);
    let mut tokens: Vec<PathToken> = Vec::new();
    let mut i: usize = 0;
    assert(token_views(tokens@) =~= scan_prefix(chars@, 0));
    while i < chars.len()
        invariant
            i <= chars.len(),
            token_views(tokens@) == scan_prefix(chars@, i as int),
            i < chars.len() ==> !absorbs(scan_prefix(chars@, i as int), chars@[i as int]),
        decreases chars.len() - i,
    {
        let c = char_at(&chars, i);
        let ghost before = tokens@;
        if command_char(c) {
            tokens.push(PathToken::Command(c));
            i += 1;
        } else if number_start_char(c) {
            let end = number_end(&chars, i);
            proof {
                lemma_number_token(chars@, i as int, end as int);
            }
            let raw = text_of(&chars, i, end);
            tokens.push(PathToken::Number { raw, fixed: None });
            i = end;
        } else if c == ' ' || c == ',' {
            tokens.push(PathToken::Separator);
            i += 1;
        } else {
            tokens.push(PathToken::Other(c));
            i += 1;
        }
        assert(token_views(tokens@) =~= token_views(before).push(tokens@.last()@));
    }
    tokens
}

/// Whether the token after `tokens[k]` is a numeric token that opens with
/// a digit or `-`.
fn opens_number(tokens: &Vec<PathToken>, k: usize) -> (b: bool)
    requires
        k < tokens.len(),
    ensures
        b == number_follows(token_views(tokens@), k as int),
{
    if k + 1 < tokens.len() {
        match &tokens[k + 1] {
            PathToken::Number { raw, .. } => {
                if raw.as_str().is_empty() {
                    false
                } else {
                    let first = raw.as_str().get_char(0);
                    digit_char(first) || first == '-'
                }
            },
            _ => false,
        }
    } else {
        false
    }
}

/// Writes the minified text of `tokens`: commands and other characters as
/// they are, numbers in canonical form (as written where they are no
/// numbers), and a single space where a number follows a number.
pub fn render(tokens: &Vec<PathToken>) -> (out: String)
    ensures
        out@ == rendered(token_views(tokens@)),
{
    let ghost views = token_views(tokens@);
    let mut out = String::new();
    let mut prev_was_number = false;
    let mut k: usize = 0;
    while k < tokens.len()
        invariant
            k <= tokens.len(),
            views == token_views(tokens@),
            out@ == emitted(views, k as int),
            prev_was_number == after_number(views, k as int),
        decreases tokens.len() - k,
    {
        assert(views[k as int] == tokens@[k as int]@);
        match &tokens[k] {
            PathToken::Command(c) => {
                out.push(*c);
                prev_was_number = false;
            },
            PathToken::Other(c) => {
                out.push(*c);
            },
            PathToken::Separator => {
                if prev_was_number && opens_number(tokens, k) {
                    out.push(' ');
                    prev_was_number = false;
                }
            },
            PathToken::Number { raw, fixed } => {
                if prev_was_number {
                    out.push(' ');
                }
                match fixed {
                    Some(text) => {
                        let canon = canonical_number(text.as_str());
                        out.append(canon.as_str());
                        prev_was_number = true;
                    },
                    None => {
                        out.append(raw.as_str());
                        prev_was_number = false;
                    },
                }
            },
        }
        k += 1;
        assert(out@ =~= emitted(views, k - 1) + piece(views, k - 1));
    }
    out
}

} // verus!

