//! Regular expressions, and what they find.

use vstd::prelude::*;

verus! {

/// `regex::Regex`. Nothing is known of what is inside.
#[verifier::external_type_specification]
#[verifier::external_body]
pub struct ExRegex(regex::Regex);

/// What one group of a regular expression matched: the bytes from `start` to `end`.
#[derive(Debug, PartialEq, Eq)]
pub struct Span {
    pub start: usize,
    pub end: usize,
    pub text: String,
}

/// The model of a `Span`.
#[verifier::ext_equal]
pub struct SpanModel {
    pub start: nat,
    pub end: nat,
    pub text: Seq<char>,
}

impl View for Span {
    type V = SpanModel;

    open spec fn view(&self) -> SpanModel {
        SpanModel { start: self.start as nat, end: self.end as nat, text: self.text@ }
    }
}

/// The model of what a group matched, if it took part in the match.
pub open spec fn group_model(group: Option<Span>) -> Option<SpanModel> {
    match group {
        Some(span) => Some(span@),
        None => None,
    }
}

/// The models of what the groups matched.
pub open spec fn groups_model(groups: Seq<Option<Span>>) -> Seq<Option<SpanModel>> {
    Seq::new(groups.len(), |i: int| group_model(groups[i]))
}

/// The pattern that a regular expression was made from.
pub uninterp spec fn regex_pattern(regex: regex::Regex) -> Seq<char>;

/// `regex::Regex::as_str`: returns the pattern that the regular expression was made from.
#[verifier::external_body]
pub(crate) fn pattern(regex: &regex::Regex) -> (r: String)
    ensures
        r@ == regex_pattern(*regex),
{
    regex.as_str().to_string()
}

/// What the groups of a regular expression match at its first match in a text.
pub uninterp spec fn regex_captures(regex: regex::Regex, text: Seq<char>) -> Option<
    Seq<Option<SpanModel>>,
>;

/// Whether a span is a range of the text: it lies on character boundaries, and its own text is
/// what the text holds there.
pub open spec fn span_of(span: SpanModel, text: Seq<char>) -> bool {
    let bytes = vstd::utf8::encode_utf8(text);
    &&& span.start <= span.end <= bytes.len()
    &&& vstd::utf8::is_char_boundary(bytes, span.start as int)
    &&& vstd::utf8::is_char_boundary(bytes, span.end as int)
    &&& vstd::utf8::encode_utf8(span.text) == bytes.subrange(span.start as int, span.end as int)
}

/// `regex::Regex::captures`: finds the first match in `text`, with what each group matched. The
/// result is determined by the regular expression and the text. The first entry, that of the whole
/// match, is always there, and every group that took part in the match is given by byte offsets on
/// character boundaries of `text`. What counts as a match, and which match is the first, is left
/// unsaid.
#[verifier::external_body]
pub(crate) fn captures(regex: &regex::Regex, text: &str) -> (r: Option<Vec<Option<Span>>>)
    ensures
        (match r {
            Some(groups) => Some(groups_model(groups@)),
            None => None,
        }) == regex_captures(*regex, text@),
        r matches Some(groups) ==> {
            &&& groups.len() >= 1
            &&& groups@[0] is Some
            &&& forall|i: int|
                0 <= i < groups.len() ==> (#[trigger] groups@[i] matches Some(span) ==> span_of(
                    span@,
                    text@,
                ))
        },
{
    let groups = regex.captures(text)?;
    let span = |m: regex::Match| Span {
        start: m.start(),
        end: m.end(),
        text: m.as_str().to_string(),
    };
    Some(groups.iter().map(|group| group.map(span)).collect())
}

} // verus!
