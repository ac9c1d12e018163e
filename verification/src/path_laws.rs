//! What holds of every minified path: the shape of its numbers, the
//! spaces between them, and the commands.

use crate::path_data::{
    after_number, canonical, continues_number, emitted, is_command, is_digit, is_separator,
    number_follows, number_text, piece, scan_prefix, starts_number, with_char,
    without_trailing_point, without_trailing_zeros, Token,
};
use vstd::prelude::*;

verus! {

/// Whether a token is one that reading path data can give: a command
/// letter, a numeric token that opens and goes on as such tokens do (with
/// or without a rendering), a separator, or a character that is none of
/// these.
pub open spec fn well_formed_token(t: Token) -> bool {
    match t {
        Token::Command(c) => is_command(c),
        Token::Number { raw, .. } => {
            &&& raw.len() > 0
            &&& starts_number(raw[0])
            &&& forall|i: int| 0 < i < raw.len() ==> continues_number(#[trigger] raw[i])
        },
        Token::Separator => true,
        Token::Other(c) => !is_command(c) && !starts_number(c) && !is_separator(c),
    }
}

/// Whether every token is well-formed.
pub open spec fn well_formed(tokens: Seq<Token>) -> bool {
    forall|k: int| 0 <= k < tokens.len() ==> well_formed_token(#[trigger] tokens[k])
}

/// Reading path data gives well-formed tokens.
pub proof fn lemma_scan_well_formed(s: Seq<char>, n: int)
    requires
        0 <= n <= s.len(),
    ensures
        well_formed(scan_prefix(s, n)),
    decreases n,
{
    if n > 0 {
        lemma_scan_well_formed(s, n - 1);
        let before = scan_prefix(s, n - 1);
        let now = with_char(before, s[n - 1]);
        assert forall|k: int| 0 <= k < now.len() implies well_formed_token(#[trigger] now[k]) by {
            if k < now.len() - 1 {
                assert(now[k] == before[k]);
            } else if before.len() > 0 && before.last() is Number && continues_number(s[n - 1]) {
                assert(well_formed_token(before.last()));
            }
        }
    }
}

/// Between the canonical forms of two numbers that follow each other,
/// with nothing but separators between them, the output holds exactly one
/// space.
pub proof fn lemma_one_space_between_numbers(tokens: Seq<Token>, i: int, j: int)
    requires
        0 <= i < j < tokens.len(),
        tokens[i] matches Token::Number { fixed: Some(_), .. },
        tokens[j] is Number,
        forall|k: int| i < k < j ==> #[trigger] tokens[k] is Separator,
    ensures
        emitted(tokens, j + 1) == emitted(tokens, i + 1) + seq![' '] + number_text(tokens[j]),
{
    lemma_separators_write_nothing(tokens, i, j, j - 1);
    if j - 1 > i {
        assert(tokens[j - 1] is Separator);
        assert(emitted(tokens, j) == emitted(tokens, j - 1) + piece(tokens, j - 1));
    }
    assert(emitted(tokens, j + 1) == emitted(tokens, j) + piece(tokens, j));
    assert(emitted(tokens, j + 1) =~= emitted(tokens, i + 1) + seq![' '] + number_text(tokens[j]));
}

/// After a number, separators that no number follows write nothing and
/// leave the space owed.
proof fn lemma_separators_write_nothing(tokens: Seq<Token>, i: int, j: int, k: int)
    requires
        0 <= i < j < tokens.len(),
        tokens[i] matches Token::Number { fixed: Some(_), .. },
        forall|k: int| i < k < j ==> #[trigger] tokens[k] is Separator,
        i <= k < j,
    ensures
        k > i ==> emitted(tokens, k) == emitted(tokens, i + 1) && after_number(tokens, k),
        k == i ==> after_number(tokens, i + 1),
    decreases k - i,
{
    if k > i + 1 {
        lemma_separators_write_nothing(tokens, i, j, k - 1);
        assert(tokens[k - 1] is Separator);
        assert(tokens[k] is Separator);
        assert(!number_follows(tokens, k - 1));
        assert(emitted(tokens, k) =~= emitted(tokens, k - 1) + piece(tokens, k - 1));
    }
}

/// Whether every number among the first `n` tokens that has a rendering
/// writes some text that does not end in a space.
pub open spec fn numbers_visible(tokens: Seq<Token>, n: int) -> bool {
    forall|k: int|
        0 <= k < n && k < tokens.len() && (#[trigger] tokens[k]) is Number ==> {
            &&& number_text(tokens[k]).len() > 0
            &&& number_text(tokens[k]).last() != ' '
        }
}

/// The output ends in a space only where a separator has just written it
/// for the number that follows.
proof fn lemma_space_awaits_number(tokens: Seq<Token>, n: int)
    requires
        0 <= n <= tokens.len(),
        well_formed(tokens),
        numbers_visible(tokens, n),
    ensures
        emitted(tokens, n).len() > 0 && emitted(tokens, n).last() == ' ' ==> {
            &&& n >= 1
            &&& tokens[n - 1] is Separator
            &&& number_follows(tokens, n - 1)
        },
    decreases n,
{
    if n > 0 {
        lemma_space_awaits_number(tokens, n - 1);
        let last = piece(tokens, n - 1);
        assert(well_formed_token(tokens[n - 1]));
        assert(emitted(tokens, n) == emitted(tokens, n - 1) + last);
        if last.len() > 0 {
            assert(emitted(tokens, n).last() == last.last());
        } else {
            assert(emitted(tokens, n) =~= emitted(tokens, n - 1));
        }
    }
}

/// No space stands before a command letter in the output, where every
/// number with a rendering writes some text that does not end in a space.
pub proof fn lemma_no_space_before_command(tokens: Seq<Token>, k: int)
    requires
        0 <= k < tokens.len(),
        tokens[k] is Command,
        well_formed(tokens),
        numbers_visible(tokens, k),
    ensures
        emitted(tokens, k + 1) == emitted(tokens, k).push(tokens[k]->Command_0),
        emitted(tokens, k).len() > 0 ==> emitted(tokens, k).last() != ' ',
{
    lemma_space_awaits_number(tokens, k);
    assert(emitted(tokens, k + 1) =~= emitted(tokens, k).push(tokens[k]->Command_0));
}

/// The index of the first point of `text`; its length where it has no
/// point.
pub open spec fn point_position(text: Seq<char>) -> int
    decreases text.len(),
{
    if text.len() == 0 || text[0] == '.' {
        0
    } else {
        1 + point_position(text.drop_first())
    }
}

/// The number of characters after the first point of `text`; zero where
/// it has no point.
pub open spec fn fraction_len(text: Seq<char>) -> int {
    if point_position(text) < text.len() {
        text.len() - point_position(text) - 1
    } else {
        0
    }
}

/// Whether `text` has the shape of a number written with `places`
/// fractional digits: no point where `places` is zero; otherwise one
/// point, and after it `places` digits.
pub open spec fn fixed_point_shape(text: Seq<char>, places: nat) -> bool {
    if places == 0 {
        point_position(text) == text.len()
    } else {
        &&& point_position(text) + 1 + places == text.len()
        &&& forall|i: int| point_position(text) < i < text.len() ==> is_digit(#[trigger] text[i])
    }
}

/// The first point stands after every character that is no point.
proof fn lemma_point_position(text: Seq<char>, at: int)
    requires
        0 <= at <= text.len(),
        forall|i: int| 0 <= i < at ==> #[trigger] text[i] != '.',
        at < text.len() ==> text[at] == '.',
    ensures
        point_position(text) == at,
    decreases at,
{
    if at > 0 {
        let rest = text.drop_first();
        assert forall|i: int| 0 <= i < at - 1 implies #[trigger] rest[i] != '.' by {
            assert(rest[i] == text[i + 1]);
        }
        lemma_point_position(rest, at - 1);
    }
}

/// No point stands before the first point.
proof fn lemma_before_point(text: Seq<char>)
    ensures
        0 <= point_position(text) <= text.len(),
        forall|i: int| 0 <= i < point_position(text) ==> #[trigger] text[i] != '.',
        point_position(text) < text.len() ==> text[point_position(text)] == '.',
    decreases text.len(),
{
    if text.len() > 0 && text[0] != '.' {
        let rest = text.drop_first();
        lemma_before_point(rest);
        assert forall|i: int| 0 <= i < point_position(text) implies #[trigger] text[i] != '.' by {
            if i > 0 {
                assert(text[i] == rest[i - 1]);
            }
        }
    }
}

/// Stripping trailing zeros leaves the start of the text, up to its last
/// character that is no zero.
proof fn lemma_trailing_zeros(text: Seq<char>)
    ensures
        without_trailing_zeros(text).len() <= text.len(),
        without_trailing_zeros(text) == text.take(without_trailing_zeros(text).len() as int),
        without_trailing_zeros(text).len() > 0 ==> without_trailing_zeros(text).last() != '0',
        forall|i: int|
            without_trailing_zeros(text).len() <= i < text.len() ==> #[trigger] text[i] == '0',
    decreases text.len(),
{
    if text.len() > 0 && text.last() == '0' {
        let shorter = text.drop_last();
        lemma_trailing_zeros(shorter);
        let kept = without_trailing_zeros(shorter);
        assert(kept =~= text.take(kept.len() as int));
        assert forall|i: int| kept.len() <= i < text.len() implies #[trigger] text[i] == '0' by {
            if i < shorter.len() {
                assert(text[i] == shorter[i]);
            }
        }
    } else {
        assert(text =~= text.take(text.len() as int));
    }
}

/// The canonical form of a number written with `places` fractional
/// digits is the start of that text, keeps at most `places` digits after
/// the point, and does not end in a point, nor in a zero after the point.
pub proof fn lemma_canonical_fraction(text: Seq<char>, places: nat)
    requires
        fixed_point_shape(text, places),
    ensures
        canonical(text).len() <= text.len(),
        canonical(text) == text.take(canonical(text).len() as int),
        fraction_len(canonical(text)) <= places,
        canonical(text).len() > 0 ==> canonical(text).last() != '.',
        fraction_len(canonical(text)) > 0 ==> canonical(text).last() != '0',
{
    lemma_trailing_zeros(text);
    lemma_before_point(text);
    let point = point_position(text);
    let stripped = without_trailing_zeros(text);
    let out = canonical(text);
    if stripped.len() > 0 && stripped.last() == '.' {
        assert(out =~= text.take(out.len() as int));
        assert(stripped.len() - 1 == point) by {
            if stripped.len() - 1 > point {
                assert(is_digit(text[stripped.len() - 1]));
            }
        }
        lemma_point_position(out, out.len() as int);
    } else if point < stripped.len() {
        lemma_point_position(out, point);
    } else {
        assert(point == text.len()) by {
            if point < text.len() {
                assert(text[point] == '0');
            }
        }
        lemma_point_position(out, out.len() as int);
    }
}

} // verus!
