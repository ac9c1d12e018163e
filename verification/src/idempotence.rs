//! Minifying a minified path changes nothing.

use crate::path_data::{
    absorbs, after_number, canonical, continues_number, emitted, is_command, is_separator, number_follows,
    number_text, piece, rendered, scan, scan_prefix, starts_number, token_of, with_char, Token,
};
use crate::path_laws::{lemma_scan_well_formed, well_formed, well_formed_token};
use vstd::prelude::*;

verus! {

/// What reads numeric tokens: the fixed-point rendering of a token's text,
/// or `None` where the text is no number.
pub type Reading = spec_fn(Seq<char>) -> Option<Seq<char>>;

/// `token`, with what `read` makes of it where it is a numeric token.
pub open spec fn read_token(token: Token, read: Reading) -> Token {
    match token {
        Token::Number { raw, .. } => Token::Number { raw, fixed: read(raw) },
        _ => token,
    }
}

/// `tokens`, each numeric token with what `read` makes of it.
pub open spec fn read_with(tokens: Seq<Token>, read: Reading) -> Seq<Token> {
    Seq::new(tokens.len(), |k: int| read_token(tokens[k], read))
}

/// The minified form of `path_data`, its numbers read by `read`.
pub open spec fn optimized(path_data: Seq<char>, read: Reading) -> Seq<char> {
    rendered(read_with(scan(path_data), read))
}

/// Whether `text` reads as one numeric token: it opens as such a token
/// does and goes on as one does.
pub open spec fn numeric(text: Seq<char>) -> bool {
    &&& text.len() > 0
    &&& starts_number(text[0])
    &&& forall|i: int| 0 < i < text.len() ==> continues_number(#[trigger] text[i])
}

/// Whether the canonical form of every number is a numeric token that
/// `read` renders to a text with the same canonical form.
pub open spec fn settled(tokens: Seq<Token>, read: Reading) -> bool {
    forall|k: int|
        0 <= k < tokens.len() ==> settled_token(#[trigger] tokens[k], read)
}

/// Whether `token` is no number with a rendering, or one whose canonical
/// form is a numeric token that `read` renders to a text with the same
/// canonical form.
pub open spec fn settled_token(token: Token, read: Reading) -> bool {
    match token {
        Token::Number { fixed: Some(_), .. } => {
            let text = number_text(token);
            &&& numeric(text)
            &&& read(text) matches Some(again)
            &&& canonical(again) == text
        },
        _ => true,
    }
}

/// Whether what the first `k` tokens write ends in the text of a numeric
/// token.
pub open spec fn ends_in_number(tokens: Seq<Token>, k: int) -> bool
    decreases k,
{
    if k <= 0 || k > tokens.len() {
        false
    } else {
        match tokens[k - 1] {
            Token::Command(_) => false,
            Token::Other(_) => false,
            Token::Number { .. } => true,
            Token::Separator => !(after_number(tokens, k - 1) && number_follows(tokens, k - 1))
                && ends_in_number(tokens, k - 1),
        }
    }
}

/// Whether in the output no numeric token runs into the one before it,
/// and no character that a numeric token absorbs stands right after one:
/// a numeric token either has a space before it or follows something
/// else, and an `e` or `E` outside a number does not follow a number.
pub open spec fn spaced(tokens: Seq<Token>) -> bool {
    forall|k: int|
        0 <= k < tokens.len() ==> match #[trigger] tokens[k] {
            Token::Number { .. } => after_number(tokens, k) || !ends_in_number(tokens, k),
            Token::Other(c) => !(continues_number(c) && ends_in_number(tokens, k)),
            _ => true,
        }
}

/// The tokens of what token `k` writes.
pub open spec fn rescanned_piece(tokens: Seq<Token>, k: int) -> Seq<Token> {
    match tokens[k] {
        Token::Command(c) => seq![Token::Command(c)],
        Token::Other(c) => seq![Token::Other(c)],
        Token::Separator => if after_number(tokens, k) && number_follows(tokens, k) {
            seq![Token::Separator]
        } else {
            Seq::empty()
        },
        Token::Number { .. } => if after_number(tokens, k) {
            seq![Token::Separator, Token::Number { raw: number_text(tokens[k]), fixed: None }]
        } else {
            seq![Token::Number { raw: number_text(tokens[k]), fixed: None }]
        },
    }
}

/// The tokens of what the first `n` tokens write.
pub open spec fn rescanned(tokens: Seq<Token>, n: int) -> Seq<Token>
    decreases n,
{
    if n <= 0 {
        Seq::empty()
    } else {
        rescanned(tokens, n - 1) + rescanned_piece(tokens, n - 1)
    }
}

/// `tokens` after the first `n` characters of `text` more.
pub open spec fn scan_more(tokens: Seq<Token>, text: Seq<char>, n: int) -> Seq<Token>
    decreases n,
{
    if n <= 0 {
        tokens
    } else {
        with_char(scan_more(tokens, text, n - 1), text[n - 1])
    }
}

/// The tokens of a text's start depend on that start alone.
proof fn lemma_scan_prefix_of_start(s: Seq<char>, t: Seq<char>, n: int)
    requires
        0 <= n <= s.len(),
        n <= t.len(),
        forall|i: int| 0 <= i < n ==> s[i] == t[i],
    ensures
        scan_prefix(s, n) == scan_prefix(t, n),
    decreases n,
{
    if n > 0 {
        lemma_scan_prefix_of_start(s, t, n - 1);
    }
}

/// Reading `a` and then `b` is reading `a + b`.
proof fn lemma_scan_append(a: Seq<char>, b: Seq<char>, n: int)
    requires
        0 <= n <= b.len(),
    ensures
        scan_prefix(a + b, a.len() + n) == scan_more(scan(a), b, n),
    decreases n,
{
    if n > 0 {
        lemma_scan_append(a, b, n - 1);
        assert((a + b)[a.len() + n - 1] == b[n - 1]);
    } else {
        lemma_scan_prefix_of_start(a + b, a, a.len() as int);
    }
}

/// After tokens that do not end in a numeric token, a numeric text reads
/// as one numeric token.
proof fn lemma_scan_numeric(tokens: Seq<Token>, text: Seq<char>, n: int)
    requires
        tokens.len() == 0 || !(tokens.last() is Number),
        numeric(text),
        1 <= n <= text.len(),
    ensures
        scan_more(tokens, text, n) == tokens.push(
            Token::Number { raw: text.take(n), fixed: None },
        ),
    decreases n,
{
    if n == 1 {
        assert(scan_more(tokens, text, 0) == tokens);
        assert(!absorbs(tokens, text[0]));
        assert(text.take(1) =~= seq![text[0]]);
    } else {
        lemma_scan_numeric(tokens, text, n - 1);
        let open = scan_more(tokens, text, n - 1);
        assert(continues_number(text[n - 1]));
        assert(open.drop_last() =~= tokens);
        assert(text.take(n - 1).push(text[n - 1]) =~= text.take(n));
    }
}

/// What the text of a numeric token is, for every token that can be
/// written: numeric.
pub open spec fn legible(tokens: Seq<Token>) -> bool {
    forall|k: int|
        0 <= k < tokens.len() && (#[trigger] tokens[k]) is Number ==> numeric(
            number_text(tokens[k]),
        )
}

/// The output of the first `k` tokens reads as the tokens that
/// `rescanned` gives.
proof fn lemma_rescan(tokens: Seq<Token>, k: int)
    requires
        0 <= k <= tokens.len(),
        well_formed(tokens),
        legible(tokens),
        spaced(tokens),
    ensures
        scan(emitted(tokens, k)) == rescanned(tokens, k),
        ends_in_number(tokens, k) <==> (rescanned(tokens, k).len() > 0 && rescanned(
            tokens,
            k,
        ).last() is Number),
    decreases k,
{
    if k > 0 {
        lemma_rescan(tokens, k - 1);
        let before = emitted(tokens, k - 1);
        let read = rescanned(tokens, k - 1);
        let written = piece(tokens, k - 1);
        assert(well_formed_token(tokens[k - 1]));
        match tokens[k - 1] {
            Token::Command(c) => {
                lemma_scan_append(before, written, 1);
                assert(scan_more(read, written, 0) == read);
                assert(!continues_number(c));
                assert(rescanned(tokens, k) =~= read.push(Token::Command(c)));
            },
            Token::Other(c) => {
                lemma_scan_append(before, written, 1);
                assert(scan_more(read, written, 0) == read);
                assert(!absorbs(read, c));
                assert(rescanned(tokens, k) =~= read.push(Token::Other(c)));
            },
            Token::Separator => {
                if after_number(tokens, k - 1) && number_follows(tokens, k - 1) {
                    lemma_scan_append(before, written, 1);
                    assert(scan_more(read, written, 0) == read);
                    assert(rescanned(tokens, k) =~= read.push(Token::Separator));
                } else {
                    assert(before + written =~= before);
                    assert(rescanned(tokens, k) =~= read);
                }
            },
            Token::Number { .. } => {
                let text = number_text(tokens[k - 1]);
                assert(numeric(text));
                assert(text.take(text.len() as int) =~= text);
                if after_number(tokens, k - 1) {
                    let space = seq![' '];
                    lemma_scan_append(before, space, 1);
                    assert(scan_more(read, space, 0) == read);
                    let spaced_out = before + space;
                    assert(scan(spaced_out) == read.push(Token::Separator));
                    lemma_scan_append(spaced_out, text, text.len() as int);
                    lemma_scan_numeric(read.push(Token::Separator), text, text.len() as int);
                    assert(spaced_out + text =~= before + written);
                    assert(rescanned(tokens, k) =~= read.push(Token::Separator).push(
                        Token::Number { raw: text, fixed: None },
                    ));
                } else {
                    assert(!ends_in_number(tokens, k - 1));
                    lemma_scan_append(before, text, text.len() as int);
                    lemma_scan_numeric(read, text, text.len() as int);
                    assert(rescanned(tokens, k) =~= read.push(
                        Token::Number { raw: text, fixed: None },
                    ));
                }
            },
        }
    } else {
        assert(emitted(tokens, 0).len() == 0);
    }
}

/// Whether `read` makes of the text of every numeric token what the
/// token holds: no rendering where it holds none, and otherwise one with
/// the same canonical form.
pub open spec fn reread(tokens: Seq<Token>, read: Reading) -> bool {
    forall|k: int| 0 <= k < tokens.len() ==> reread_token(#[trigger] tokens[k], read)
}

pub open spec fn reread_token(token: Token, read: Reading) -> bool {
    match token {
        Token::Number { fixed: Some(_), .. } => {
            &&& read(number_text(token)) matches Some(again)
            &&& canonical(again) == number_text(token)
        },
        Token::Number { fixed: None, .. } => read(number_text(token)) is None,
        _ => true,
    }
}

/// What the first `k` tokens write reads as the start of what the first
/// `n` tokens write.
proof fn lemma_rescanned_start(tokens: Seq<Token>, k: int, n: int)
    requires
        0 <= k <= n,
    ensures
        rescanned(tokens, k).len() <= rescanned(tokens, n).len(),
        forall|j: int|
            0 <= j < rescanned(tokens, k).len() ==> #[trigger] rescanned(tokens, n)[j]
                == rescanned(tokens, k)[j],
    decreases n - k,
{
    if k < n {
        lemma_rescanned_start(tokens, k, n - 1);
    }
}

/// Where the tokens of what token `k` writes stand among the tokens of
/// the whole output.
proof fn lemma_rescanned_at(tokens: Seq<Token>, k: int)
    requires
        0 <= k < tokens.len(),
    ensures
        ({
            let whole = rescanned(tokens, tokens.len() as int);
            let upto = rescanned(tokens, k).len() as int;
            let written = rescanned_piece(tokens, k);
            &&& upto + written.len() <= whole.len()
            &&& written.len() >= 1 ==> whole[upto] == written[0]
            &&& written.len() >= 2 ==> whole[upto + 1] == written[1]
        }),
{
    lemma_rescanned_start(tokens, k + 1, tokens.len() as int);
    let upto = rescanned(tokens, k).len() as int;
    let written = rescanned_piece(tokens, k);
    if written.len() >= 1 {
        assert(rescanned(tokens, k + 1)[upto] == written[0]);
    }
    if written.len() >= 2 {
        assert(rescanned(tokens, k + 1)[upto + 1] == written[1]);
    }
}

/// Whether the output of the first `k` tokens of `tokens` is what
/// `reading`, the tokens of the whole output read again, writes for them.
/// Where token `k - 1` is a separator that writes a space, the count
/// stops before that space on both sides: the number that follows settles
/// which token writes it.
pub open spec fn carried(tokens: Seq<Token>, reading: Seq<Token>, k: int) -> bool {
    let n = rescanned(tokens, k).len() as int;
    if k >= 1 && tokens[k - 1] is Separator && after_number(tokens, k - 1) && number_follows(
        tokens,
        k - 1,
    ) {
        &&& n >= 1
        &&& reading[n - 1] is Separator
        &&& emitted(reading, n - 1) == emitted(tokens, k - 1)
        &&& after_number(reading, n - 1)
    } else {
        &&& emitted(reading, n) == emitted(tokens, k)
        &&& after_number(reading, n) == after_number(tokens, k)
    }
}

/// A separator and the number after it write one space and the number's
/// text, where a space is owed before the separator.
proof fn lemma_separator_then_number(reading: Seq<Token>, at: int)
    requires
        0 <= at,
        at + 1 < reading.len(),
        reading[at] is Separator,
        reading[at + 1] is Number,
        after_number(reading, at),
    ensures
        emitted(reading, at + 2) == emitted(reading, at) + seq![' '] + number_text(
            reading[at + 1],
        ),
        after_number(reading, at + 2) == (reading[at + 1]->fixed is Some),
{
    assert(emitted(reading, at + 1) == emitted(reading, at) + piece(reading, at));
    assert(emitted(reading, at + 2) == emitted(reading, at + 1) + piece(reading, at + 1));
    assert(emitted(reading, at + 2) =~= emitted(reading, at) + seq![' '] + number_text(
        reading[at + 1],
    ));
}

/// The tokens of the output, read again, write the output.
proof fn lemma_carried(tokens: Seq<Token>, read: Reading, k: int)
    requires
        0 <= k <= tokens.len(),
        reread(tokens, read),
    ensures
        carried(tokens, read_with(rescanned(tokens, tokens.len() as int), read), k),
    decreases k,
{
    let whole = rescanned(tokens, tokens.len() as int);
    let reading = read_with(whole, read);
    if k > 0 {
        lemma_carried(tokens, read, k - 1);
        lemma_rescanned_at(tokens, k - 1);
        let n = rescanned(tokens, k - 1).len() as int;
        let token = tokens[k - 1];
        assert(reread_token(token, read));
        assert(emitted(tokens, k) == emitted(tokens, k - 1) + piece(tokens, k - 1));
        let after_space = k >= 2 && tokens[k - 2] is Separator && after_number(tokens, k - 2)
            && number_follows(tokens, k - 2);
        if after_space {
            // the separator before wrote the space for this number
            let text = number_text(token);
            assert(token is Number);
            assert(!after_number(tokens, k - 1));
            assert(whole[n] == rescanned_piece(tokens, k - 1)[0]);
            assert(reading[n] == read_token(whole[n], read));
            assert(number_text(reading[n]) == text);
            lemma_separator_then_number(reading, n - 1);
            assert(emitted(tokens, k - 1) == emitted(tokens, k - 2) + piece(tokens, k - 2));
            assert(emitted(tokens, k) =~= emitted(tokens, k - 2) + seq![' '] + text);
        } else {
            match token {
                Token::Command(c) => {
                    assert(whole[n] == rescanned_piece(tokens, k - 1)[0]);
                    assert(reading[n] == read_token(whole[n], read));
                    assert(emitted(reading, n + 1) == emitted(reading, n) + piece(reading, n));
                },
                Token::Other(c) => {
                    assert(whole[n] == rescanned_piece(tokens, k - 1)[0]);
                    assert(reading[n] == read_token(whole[n], read));
                    assert(emitted(reading, n + 1) == emitted(reading, n) + piece(reading, n));
                },
                Token::Separator => {
                    if after_number(tokens, k - 1) && number_follows(tokens, k - 1) {
                        assert(whole[n] == rescanned_piece(tokens, k - 1)[0]);
                        assert(reading[n] == read_token(whole[n], read));
                    } else {
                        assert(emitted(tokens, k) =~= emitted(tokens, k - 1));
                    }
                },
                Token::Number { .. } => {
                    let text = number_text(token);
                    if after_number(tokens, k - 1) {
                        assert(whole[n] == rescanned_piece(tokens, k - 1)[0]);
                        assert(whole[n + 1] == rescanned_piece(tokens, k - 1)[1]);
                        assert(reading[n] == read_token(whole[n], read));
                        assert(reading[n + 1] == read_token(whole[n + 1], read));
                        assert(number_text(reading[n + 1]) == text);
                        lemma_separator_then_number(reading, n);
                        assert(emitted(tokens, k) =~= emitted(tokens, k - 1) + seq![' '] + text);
                    } else {
                        assert(whole[n] == rescanned_piece(tokens, k - 1)[0]);
                        assert(reading[n] == read_token(whole[n], read));
                        assert(number_text(reading[n]) == text);
                        assert(emitted(reading, n + 1) == emitted(reading, n) + piece(
                            reading,
                            n,
                        ));
                    }
                },
            }
        }
    }
}

/// Minifying twice gives what minifying once gives, where the canonical
/// form of every number reads as a number with that canonical form, no
/// numeric token runs into a malformed one before it, and no `e` or `E`
/// outside a number follows a number.
pub proof fn lemma_optimized_twice(path_data: Seq<char>, read: Reading)
    requires
        settled(read_with(scan(path_data), read), read),
        spaced(read_with(scan(path_data), read)),
    ensures
        optimized(optimized(path_data, read), read) == optimized(path_data, read),
{
    let unread = scan(path_data);
    let tokens = read_with(unread, read);
    let count = tokens.len() as int;
    lemma_scan_well_formed(path_data, path_data.len() as int);
    assert forall|k: int| 0 <= k < tokens.len() implies well_formed_token(#[trigger] tokens[k])
        && reread_token(tokens[k], read) && (tokens[k] is Number ==> numeric(
        number_text(tokens[k]),
    )) by {
        assert(well_formed_token(unread[k]));
        assert(settled_token(tokens[k], read));
    }
    lemma_rescan(tokens, count);
    lemma_carried(tokens, read, count);
    assert(!(count >= 1 && number_follows(tokens, count - 1)));
}

/// The test for a command token.
pub open spec fn command_token() -> spec_fn(Token) -> bool {
    |token: Token| token is Command
}

/// The command tokens among `tokens`, in their order.
pub open spec fn commands(tokens: Seq<Token>) -> Seq<Token> {
    tokens.filter(command_token())
}

/// Reading the numbers leaves the commands as they are.
proof fn lemma_commands_read(tokens: Seq<Token>, read: Reading, n: int)
    requires
        0 <= n <= tokens.len(),
    ensures
        commands(read_with(tokens, read).take(n)) == commands(tokens.take(n)),
    decreases n,
{
    let reading = read_with(tokens, read);
    if n > 0 {
        lemma_commands_read(tokens, read, n - 1);
        assert(tokens.take(n) =~= tokens.take(n - 1).push(tokens[n - 1]));
        assert(reading.take(n) =~= reading.take(n - 1).push(reading[n - 1]));
        tokens.take(n - 1).lemma_filter_push(tokens[n - 1], command_token());
        reading.take(n - 1).lemma_filter_push(reading[n - 1], command_token());
    } else {
        assert(tokens.take(0) =~= reading.take(0));
    }
}

/// The output holds the commands of the tokens that wrote it.
proof fn lemma_commands_written(tokens: Seq<Token>, n: int)
    requires
        0 <= n <= tokens.len(),
    ensures
        commands(rescanned(tokens, n)) == commands(tokens.take(n)),
    decreases n,
{
    if n > 0 {
        lemma_commands_written(tokens, n - 1);
        let written = rescanned_piece(tokens, n - 1);
        Seq::filter_distributes_over_add(rescanned(tokens, n - 1), written, command_token());
        assert(tokens.take(n) =~= tokens.take(n - 1).push(tokens[n - 1]));
        tokens.take(n - 1).lemma_filter_push(tokens[n - 1], command_token());
        let none = Seq::<Token>::empty();
        assert(written =~= none.push(written[0]) || written =~= none.push(written[0]).push(
            written[1],
        ) || written =~= none);
        none.lemma_filter_push(written[0], command_token());
        none.push(written[0]).lemma_filter_push(written[1], command_token());
        assert(none.filter(command_token()) =~= none) by {
            none.lemma_filter_len(command_token());
        }
        assert(commands(written) =~= if tokens[n - 1] is Command {
            seq![tokens[n - 1]]
        } else {
            none
        });
    } else {
        assert(rescanned(tokens, 0) =~= tokens.take(0));
    }
}

/// Minifying keeps the commands of a path, their order and their case,
/// under the conditions of `lemma_optimized_twice`.
pub proof fn lemma_commands_kept(path_data: Seq<char>, read: Reading)
    requires
        settled(read_with(scan(path_data), read), read),
        spaced(read_with(scan(path_data), read)),
    ensures
        commands(scan(optimized(path_data, read))) == commands(scan(path_data)),
{
    let unread = scan(path_data);
    let tokens = read_with(unread, read);
    let count = tokens.len() as int;
    lemma_scan_well_formed(path_data, path_data.len() as int);
    assert forall|k: int| 0 <= k < tokens.len() implies well_formed_token(#[trigger] tokens[k])
        && (tokens[k] is Number ==> numeric(number_text(tokens[k]))) by {
        assert(well_formed_token(unread[k]));
        assert(settled_token(tokens[k], read));
    }
    lemma_rescan(tokens, count);
    lemma_commands_written(tokens, count);
    lemma_commands_read(unread, read, count);
    assert(tokens.take(count) =~= tokens);
    assert(unread.take(count) =~= unread);
}

} // verus!
