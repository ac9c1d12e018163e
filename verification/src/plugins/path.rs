//! The path optimizer: rewrites the `d` attribute of `path` elements to
//! its minified form.

use crate::error::PluginError;
use crate::idempotence::{
    lemma_optimized_twice, optimized, read_token, read_with, settled, spaced, Reading,
};
use crate::markup::{attribute_views, Attribute, Element, ElementView};
use crate::path_data::{render, rendered, scan, token_views, tokenize, PathToken, Token};
use crate::path_laws::{lemma_scan_well_formed, well_formed, well_formed_token};
use crate::plugins::traits::{statistics_view, PluginStatistics, SVGPlugin};
use crate::text::{decimal, decimal_text, decode_lossy, utf8_lossy};
use vstd::prelude::*;

verus! {

/// The bytes of the tag `path`.
pub open spec fn path_tag() -> Seq<u8> {
    seq![0x70u8, 0x61u8, 0x74u8, 0x68u8]
}

/// The bytes of the attribute name `d`.
pub open spec fn d_name() -> Seq<u8> {
    seq![0x64u8]
}

/// The index of the first attribute named `name`; the number of
/// attributes where none has the name.
pub open spec fn first_named(attributes: Seq<(Seq<u8>, Seq<u8>)>, name: Seq<u8>) -> int
    decreases attributes.len(),
{
    if attributes.len() == 0 || attributes[0].0 == name {
        0
    } else {
        1 + first_named(attributes.drop_first(), name)
    }
}

/// The test for an attribute not named `name`.
pub open spec fn not_named(name: Seq<u8>) -> spec_fn((Seq<u8>, Seq<u8>)) -> bool {
    |a: (Seq<u8>, Seq<u8>)| a.0 != name
}

/// The attributes that are not named `name`, in their order.
pub open spec fn without_named(attributes: Seq<(Seq<u8>, Seq<u8>)>, name: Seq<u8>) -> Seq<
    (Seq<u8>, Seq<u8>),
> {
    attributes.filter(not_named(name))
}

/// Whether the element is a `path` with a `d` attribute.
pub open spec fn has_path_data(element: ElementView) -> bool {
    &&& element.tag == path_tag()
    &&& first_named(element.attributes, d_name()) < element.attributes.len()
}

/// The value of the first `d` attribute.
pub open spec fn path_data_of(element: ElementView) -> Seq<u8> {
    element.attributes[first_named(element.attributes, d_name())].1
}

/// The element with its `d` attributes taken out and one `d` attribute
/// with the value `data` put last.
pub open spec fn with_path_data(element: ElementView, data: Seq<u8>) -> ElementView {
    ElementView {
        tag: element.tag,
        attributes: without_named(element.attributes, d_name()).push((d_name(), data)),
    }
}

/// The length of `text` as a string: the number of bytes that it takes in
/// UTF-8.
pub open spec fn byte_len(text: Seq<char>) -> usize {
    vstd::utf8::encode_utf8(text).len() as usize
}

/// `count + 1`, or `count` where that is the largest count.
pub open spec fn bumped(count: usize) -> usize {
    if count < usize::MAX {
        (count + 1) as usize
    } else {
        count
    }
}

/// `total + delta`, held within the bounds of the total.
pub open spec fn saturating_sum(total: i128, delta: int) -> i128 {
    if total + delta > i128::MAX {
        i128::MAX
    } else if total + delta < i128::MIN {
        i128::MIN
    } else {
        (total + delta) as i128
    }
}

/// The first attribute named `name` comes after every attribute that has
/// another name.
proof fn lemma_first_named(attributes: Seq<(Seq<u8>, Seq<u8>)>, name: Seq<u8>, at: int)
    requires
        0 <= at <= attributes.len(),
        forall|j: int| 0 <= j < at ==> (#[trigger] attributes[j]).0 != name,
        at < attributes.len() ==> attributes[at].0 == name,
    ensures
        first_named(attributes, name) == at,
    decreases at,
{
    if at > 0 {
        let rest = attributes.drop_first();
        assert forall|j: int| 0 <= j < at - 1 implies (#[trigger] rest[j]).0 != name by {
            assert(rest[j] == attributes[j + 1]);
        }
        lemma_first_named(rest, name, at - 1);
    }
}

fn is_path_tag(tag: &Vec<u8>) -> (yes: bool)
    ensures
        yes == (tag@ == path_tag()),
{
    let yes = tag.len() == 4 && tag[0] == 0x70 && tag[1] == 0x61 && tag[2] == 0x74 && tag[3]
        == 0x68;
    assert(yes ==> tag@ =~= path_tag());
    yes
}

fn is_d_name(name: &Vec<u8>) -> (yes: bool)
    ensures
        yes == (name@ == d_name()),
{
    let yes = name.len() == 1 && name[0] == 0x64;
    assert(yes ==> name@ =~= d_name());
    yes
}

/// The index of the first attribute named `d`.
fn find_path_data(attributes: &Vec<Attribute>) -> (at: usize)
    ensures
        at == first_named(attribute_views(attributes@), d_name()),
{
    let ghost views = attribute_views(attributes@);
    let mut at: usize = 0;
    while at < attributes.len() && !is_d_name(&attributes[at].name)
        invariant
            at <= attributes.len(),
            views == attribute_views(attributes@),
            forall|j: int| 0 <= j < at ==> (#[trigger] views[j]).0 != d_name(),
        decreases attributes.len() - at,
    {
        at += 1;
    }
    proof {
        lemma_first_named(views, d_name(), at as int);
    }
    at
}

/// Copies of the attributes that are not named `d`, in their order.
fn other_attributes(attributes: &Vec<Attribute>) -> (others: Vec<Attribute>)
    ensures
        attribute_views(others@) == without_named(attribute_views(attributes@), d_name()),
{
    let ghost views = attribute_views(attributes@);
    let ghost keep = not_named(d_name());
    let mut others: Vec<Attribute> = Vec::new();
    let mut i: usize = 0;
    assert(views.take(0).filter(keep) =~= Seq::empty());
    while i < attributes.len()
        invariant
            i <= attributes.len(),
            views == attribute_views(attributes@),
            keep == not_named(d_name()),
            attribute_views(others@) =~= views.take(i as int).filter(keep),
        decreases attributes.len() - i,
    {
        let ghost before = others@;
        proof {
            views.take(i as int).lemma_filter_push(views[i as int], keep);
            assert(views.take(i as int).push(views[i as int]) =~= views.take(i + 1));
        }
        if !is_d_name(&attributes[i].name) {
            let name = attributes[i].name.clone();
            let value = attributes[i].value.clone();
            others.push(Attribute { name, value });
            assert(attribute_views(others@) =~= attribute_views(before).push(views[i as int]));
        }
        i += 1;
    }
    assert(views.take(i as int) =~= views);
    others
}

/// What an optional string holds.
pub open spec fn text_view(text: Option<String>) -> Option<Seq<char>> {
    match text {
        Some(text) => Some(text@),
        None => None,
    }
}

/// A transformation unit that minifies the path data of `path` elements.
///
/// Reading a numeric token as a number and writing it with a fixed count
/// of fractional digits is the work of `formatter`: it is called with the
/// token's text and the count, and answers with the fixed-point rendering,
/// or with `None` where the text is no number.
pub struct PathOptimizerPlugin<F> {
    decimal_places: usize,
    path_count: usize,
    total_chars_saved: i128,
    formatter: F,
}

impl<F: Fn(&str, usize) -> Option<String>> PathOptimizerPlugin<F> {
    pub closed spec fn decimal_places(&self) -> usize {
        self.decimal_places
    }

    /// The number of `path` elements rewritten since `init`.
    pub closed spec fn path_count(&self) -> usize {
        self.path_count
    }

    /// The bytes saved since `init`: the lengths of the path data read,
    /// less the lengths of the path data written.
    pub closed spec fn total_chars_saved(&self) -> i128 {
        self.total_chars_saved
    }

    pub closed spec fn formatter(&self) -> F {
        self.formatter
    }

    /// The formatter can be called on every text and count.
    pub open spec fn callable(formatter: F) -> bool {
        forall|text: &str, places: usize| call_requires(formatter, (text, places))
    }

    /// Whether the formatter can answer `fixed` for the token `raw`.
    pub open spec fn formats(&self, raw: Seq<char>, fixed: Option<Seq<char>>) -> bool {
        exists|text: &str, answer: Option<String>|
            text@ == raw && text_view(answer) == fixed && #[trigger] call_ensures(
                self.formatter(),
                (text, self.decimal_places()),
                answer,
            )
    }

    /// Whether `parsed` is `token`, with an answer of the formatter where
    /// it is a numeric token.
    pub open spec fn reads_token(&self, token: Token, parsed: Token) -> bool {
        match token {
            Token::Number { raw, .. } => {
                &&& parsed matches Token::Number { raw: kept, fixed }
                &&& kept == raw
                &&& self.formats(raw, fixed)
            },
            _ => parsed == token,
        }
    }

    /// Whether `parsed` is `tokens` with an answer of the formatter in
    /// each numeric token.
    pub open spec fn reads(&self, tokens: Seq<Token>, parsed: Seq<Token>) -> bool {
        &&& parsed.len() == tokens.len()
        &&& forall|k: int|
            0 <= k < tokens.len() ==> self.reads_token(tokens[k], #[trigger] parsed[k])
    }

    /// Whether `optimized` is a minified form of `path_data`: the text
    /// rendered from its tokens, with an answer of the formatter in each
    /// numeric token.
    pub open spec fn minifies(&self, path_data: Seq<char>, optimized: Seq<char>) -> bool {
        exists|parsed: Seq<Token>| #[trigger]
            self.reads(scan(path_data), parsed) && optimized == rendered(parsed)
    }

    /// Whether `read` says what the formatter answers, for every text.
    pub open spec fn answers_by(&self, read: Reading) -> bool {
        forall|text: &str, answer: Option<String>| #[trigger]
            call_ensures(self.formatter(), (text, self.decimal_places()), answer) ==> text_view(
                answer,
            ) == read(text@)
    }

    /// Where `read` says what the formatter answers, the minified form of
    /// path data is the one that `read` gives.
    pub proof fn lemma_minifies_by(&self, read: Reading, path_data: Seq<char>, minified: Seq<char>)
        requires
            self.answers_by(read),
            self.minifies(path_data, minified),
        ensures
            minified == optimized(path_data, read),
    {
        let tokens = scan(path_data);
        let parsed = choose|parsed: Seq<Token>| #[trigger]
            self.reads(tokens, parsed) && minified == rendered(parsed);
        assert forall|k: int| 0 <= k < tokens.len() implies parsed[k] == read_token(
            tokens[k],
            read,
        ) by {
            assert(self.reads_token(tokens[k], parsed[k]));
        }
        assert(parsed =~= read_with(tokens, read));
    }

    /// The tokens of path data are well-formed, whatever the formatter
    /// answers for its numbers.
    pub proof fn lemma_reads_well_formed(&self, path_data: Seq<char>, parsed: Seq<Token>)
        requires
            self.reads(scan(path_data), parsed),
        ensures
            well_formed(parsed),
    {
        let tokens = scan(path_data);
        lemma_scan_well_formed(path_data, path_data.len() as int);
        assert forall|k: int| 0 <= k < parsed.len() implies well_formed_token(
            #[trigger] parsed[k],
        ) by {
            assert(well_formed_token(tokens[k]));
            assert(self.reads_token(tokens[k], parsed[k]));
        }
    }

    /// Minifying what the unit has minified gives the same again, where
    /// `read` says what the formatter answers, the canonical form of
    /// every number reads as a number with that canonical form, no
    /// numeric token runs into a malformed one before it, and no `e` or
    /// `E` outside a number follows a number.
    pub proof fn lemma_minified_twice(
        &self,
        read: Reading,
        path_data: Seq<char>,
        once: Seq<char>,
        twice: Seq<char>,
    )
        requires
            self.answers_by(read),
            self.minifies(path_data, once),
            self.minifies(once, twice),
            settled(read_with(scan(path_data), read), read),
            spaced(read_with(scan(path_data), read)),
        ensures
            twice == once,
    {
        self.lemma_minifies_by(read, path_data, once);
        self.lemma_minifies_by(read, once, twice);
        lemma_optimized_twice(path_data, read);
    }

    /// A unit that keeps `decimal_places` fractional digits, with nothing
    /// counted yet.
    pub fn new(decimal_places: usize, formatter: F) -> (plugin: Self)
        requires
            Self::callable(formatter),
        ensures
            plugin.wf(),
            plugin.decimal_places() == decimal_places,
            plugin.formatter() == formatter,
            plugin.path_count() == 0,
            plugin.total_chars_saved() == 0,
    {
        PathOptimizerPlugin { decimal_places, path_count: 0, total_chars_saved: 0, formatter }
    }

    /// The tokens of `tokens`, each numeric token with the formatter's
    /// answer for it.
    fn parse_numbers(&self, tokens: &Vec<PathToken>) -> (parsed: Vec<PathToken>)
        requires
            self.wf(),
        ensures
            self.reads(token_views(tokens@), token_views(parsed@)),
    {
        let ghost views = token_views(tokens@);
        let mut parsed: Vec<PathToken> = Vec::new();
        let mut k: usize = 0;
        while k < tokens.len()
            invariant
                k <= tokens.len(),
                self.wf(),
                views == token_views(tokens@),
                parsed@.len() == k,
                forall|j: int|
                    0 <= j < k ==> self.reads_token(views[j], #[trigger] token_views(parsed@)[j]),
            decreases tokens.len() - k,
        {
            let ghost before = parsed@;
            assert(views[k as int] == tokens@[k as int]@);
            match &tokens[k] {
                PathToken::Number { raw, .. } => {
                    let text = raw.as_str();
                    let fixed = (self.formatter)(text, self.decimal_places);
                    assert(self.formats(raw@, text_view(fixed))) by {
                        assert(call_ensures(
                            self.formatter(),
                            (text, self.decimal_places()),
                            fixed,
                        ));
                    }
                    parsed.push(PathToken::Number { raw: raw.clone(), fixed });
                },
                PathToken::Command(c) => {
                    parsed.push(PathToken::Command(*c));
                },
                PathToken::Other(c) => {
                    parsed.push(PathToken::Other(*c));
                },
                PathToken::Separator => {
                    parsed.push(PathToken::Separator);
                },
            }
            assert(self.reads_token(views[k as int], parsed@.last()@));
            assert forall|j: int| 0 <= j <= k implies self.reads_token(
                views[j],
                #[trigger] token_views(parsed@)[j],
            ) by {
                if j < k {
                    assert(token_views(parsed@)[j] == token_views(before)[j]);
                }
            }
            k += 1;
        }
        parsed
    }

    /// Minifies path data: numbers in canonical form at the unit's count
    /// of fractional digits, one space between two numbers, no other
    /// separator. Counts the bytes saved.
    pub fn optimize_path_data(&mut self, path_data: &str) -> (optimized: String)
        requires
            old(self).wf(),
        ensures
            final(self).wf(),
            final(self).decimal_places() == old(self).decimal_places(),
            final(self).formatter() == old(self).formatter(),
            final(self).path_count() == old(self).path_count(),
            old(self).minifies(path_data@, optimized@),
            final(self).total_chars_saved() == saturating_sum(
                old(self).total_chars_saved(),
                byte_len(path_data@) - byte_len(optimized@),
            ),
    {
        let tokens = tokenize(path_data);
        let parsed = self.parse_numbers(&tokens);
        let optimized = render(&parsed);
        let read: i128 = path_data.len() as i128;
        let written: i128 = optimized.as_str().len() as i128;
        let saved: i128 = read - written;
        self.total_chars_saved = match self.total_chars_saved.checked_add(saved) {
            Some(total) => total,
            None => if saved > 0 {
                i128::MAX
            } else {
                i128::MIN
            },
        };
        optimized
    }

    /// The number of paths rewritten and the bytes saved since `init`.
    pub fn get_statistics(&self) -> (counts: (usize, i128))
        ensures
            counts.0 == self.path_count(),
            counts.1 == self.total_chars_saved(),
    {
        (self.path_count, self.total_chars_saved)
    }
}

impl<F: Fn(&str, usize) -> Option<String>> PluginStatistics for PathOptimizerPlugin<F> {
    /// The number of paths rewritten and the bytes saved, in decimal.
    open spec fn reports(&self, statistics: Seq<(Seq<char>, Seq<char>)>) -> bool {
        statistics == seq![
            ("Paths optimized"@, decimal(self.path_count() as int)),
            ("Characters saved"@, decimal(self.total_chars_saved() as int)),
        ]
    }

    fn get_statistics(&self) -> Vec<(&str, String)> {
        let mut statistics: Vec<(&str, String)> = Vec::new();
        statistics.push(("Paths optimized", decimal_text(self.path_count as i128)));
        statistics.push(("Characters saved", decimal_text(self.total_chars_saved)));
        assert(statistics_view(statistics@) =~= seq![
            ("Paths optimized"@, decimal(self.path_count() as int)),
            ("Characters saved"@, decimal(self.total_chars_saved() as int)),
        ]);
        statistics
    }
}

impl<F: Fn(&str, usize) -> Option<String>> SVGPlugin for PathOptimizerPlugin<F> {
    open spec fn wf(&self) -> bool {
        Self::callable(self.formatter())
    }

    /// `init` succeeds and sets both counts to zero.
    open spec fn initialized(&self, after: &Self, result: Result<(), PluginError>) -> bool {
        &&& result is Ok
        &&& after.decimal_places() == self.decimal_places()
        &&& after.formatter() == self.formatter()
        &&& after.path_count() == 0
        &&& after.total_chars_saved() == 0
    }

    /// `process_element` succeeds. A `path` with a `d` attribute comes out
    /// with its other attributes in their order and then `d`, which holds a
    /// minified form of its first `d` value, decoded as UTF-8 with
    /// replacement; the path and the bytes saved are counted. Every other
    /// element comes out as it went in, and nothing is counted.
    open spec fn processed(
        &self,
        element: Element,
        after: &Self,
        rewritten: Element,
        result: Result<(), PluginError>,
    ) -> bool {
        &&& result is Ok
        &&& after.decimal_places() == self.decimal_places()
        &&& after.formatter() == self.formatter()
        &&& if has_path_data(element@) {
            let data = utf8_lossy(path_data_of(element@));
            exists|optimized: Seq<char>| #[trigger]
                self.minifies(data, optimized) && rewritten@ == with_path_data(
                    element@,
                    vstd::utf8::encode_utf8(optimized),
                ) && after.path_count() == bumped(self.path_count())
                    && after.total_chars_saved() == saturating_sum(
                    self.total_chars_saved(),
                    byte_len(data) - byte_len(optimized),
                )
        } else {
            &&& rewritten@ == element@
            &&& after.path_count() == self.path_count()
            &&& after.total_chars_saved() == self.total_chars_saved()
        }
    }

    /// `finalize` succeeds and changes nothing.
    open spec fn finalized(&self, after: &Self, result: Result<(), PluginError>) -> bool {
        &&& result is Ok
        &&& after.decimal_places() == self.decimal_places()
        &&& after.formatter() == self.formatter()
        &&& after.path_count() == self.path_count()
        &&& after.total_chars_saved() == self.total_chars_saved()
    }

    fn init(&mut self) -> (result: Result<(), PluginError>) {
        self.path_count = 0;
        self.total_chars_saved = 0;
        Ok(())
    }

    fn process_element(&mut self, element: &mut Element) -> (result: Result<(), PluginError>) {
        if !is_path_tag(&element.tag) {
            return Ok(());
        }
        let at = find_path_data(&element.attributes);
        if at >= element.attributes.len() {
            return Ok(());
        }
        let ghost before = element@;
        assert(before.attributes[at as int] == element.attributes@[at as int]@);
        let data = decode_lossy(element.attributes[at].value.as_slice());
        let optimized = self.optimize_path_data(data.as_str());
        let mut attributes = other_attributes(&element.attributes);
        let ghost others = attribute_views(attributes@);
        let mut name: Vec<u8> = Vec::new();
        name.push(0x64u8);
        assert(name@ =~= d_name());
        let value = optimized.as_str().as_bytes_vec();
        attributes.push(Attribute { name, value });
        assert(attribute_views(attributes@) =~= others.push(
            (d_name(), vstd::utf8::encode_utf8(optimized@)),
        ));
        element.attributes = attributes;
        if self.path_count < usize::MAX {
            self.path_count += 1;
        }
        proof {
            assert(has_path_data(before));
            assert(data@ == utf8_lossy(path_data_of(before)));
            assert(old(self).minifies(data@, optimized@));
            assert(element@.attributes =~= with_path_data(
                before,
                vstd::utf8::encode_utf8(optimized@),
            ).attributes);
            assert(element@ == with_path_data(before, vstd::utf8::encode_utf8(optimized@)));
            assert(self.path_count() == bumped(old(self).path_count()));
            assert(self.total_chars_saved() == saturating_sum(
                old(self).total_chars_saved(),
                byte_len(data@) - byte_len(optimized@),
            ));
        }
        Ok(())
    }

    fn finalize(&mut self) -> (result: Result<(), PluginError>) {
        Ok(())
    }

    fn name(&self) -> (name: &str)
        ensures
            name@ == "PathOptimizer"@,
    {
        "PathOptimizer"
    }
}

} // verus!
