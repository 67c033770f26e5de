//! The textual form of names: reading it and writing it is the work of
//! `trust_dns_resolver::Name`, reached through the two functions of this
//! module. Nothing here is proved; the contracts say what the rest of the
//! library takes on trust.

use crate::plain::{dotted, is_plain, pieces, plain_name, text_octets};
use trust_dns_resolver::proto::error::ProtoError;
use trust_dns_resolver::Name;
use vstd::prelude::*;

verus! {

/// The most octets of text that are handed to the parser. No name needs
/// more, and on text of some hundred thousand characters the parser's
/// punycode encoder can overflow a counter.
pub const MAX_TEXT_LEN: usize = 1024;

/// The error of the name parser, carried through as an opaque value.
#[verifier::external_type_specification]
#[verifier::external_body]
pub struct ExProtoError(ProtoError);

/// The labels that `Name::from_utf8` reads out of `text`, first label first,
/// or `None` where it rejects the text. Reading undoes escapes, lowers case
/// and encodes non-ASCII labels as punycode.
pub uninterp spec fn parsed_labels(text: Seq<char>) -> Option<Seq<Seq<u8>>>;

/// The text that `Name` displays for these labels: the labels joined by dots,
/// punycode decoded and unsafe octets escaped, with a closing dot where the
/// name is fully qualified.
pub uninterp spec fn presentation(labels: Seq<Seq<u8>>, fqdn: bool) -> Seq<char>;

/// Whether `text` ends with a dot.
pub open spec fn ends_with_dot(text: Seq<char>) -> bool {
    text.len() > 0 && text.last() == '.'
}

/// The dot that closes the text of a fully qualified name.
pub open spec fn closing(fqdn: bool) -> Seq<char> {
    if fqdn {
        seq!['.']
    } else {
        Seq::empty()
    }
}

/// The labels read out of `text`: the pieces of plain text, and of any other
/// text what the parser makes of it.
pub open spec fn read_labels(text: Seq<char>) -> Option<Seq<Seq<u8>>> {
    if is_plain(text) {
        Some(pieces(text))
    } else {
        parsed_labels(text)
    }
}

/// The text written for a name: the labels of a plain name joined by dots,
/// closed by a dot where the name is fully qualified, and for any other name
/// what `Name` displays.
pub open spec fn written(labels: Seq<Seq<u8>>, fqdn: bool) -> Seq<char> {
    if plain_name(labels) {
        dotted(labels) + closing(fqdn)
    } else {
        presentation(labels, fqdn)
    }
}

/// Parses `text` with `Name::from_utf8` and hands back the labels of the name
/// and whether it is fully qualified.
///
/// Trusted: the labels are `parsed_labels(text)`, an error comes exactly where
/// that is `None`, and the name is fully qualified exactly where the text ends
/// with a dot. Plain text, which is lower-case letters and digits in labels
/// of 1 to 63 with single dots between them and 253 characters at most, is
/// accepted, and its labels are its pieces. Text of more than 1024 octets is
/// left out: on very long text the punycode encoder can overflow.
#[verifier::external_body]
pub(crate) fn parse_name(text: &str) -> (parsed: Result<(Vec<Vec<u8>>, bool), ProtoError>)
    requires
        text_octets(text@) <= MAX_TEXT_LEN,
    ensures
        match parsed {
            Ok((labels, fqdn)) => {
                &&& parsed_labels(text@) == Some(labels.deep_view())
                &&& fqdn == ends_with_dot(text@)
                &&& is_plain(text@) ==> labels.deep_view() == pieces(text@)
            },
            Err(_) => parsed_labels(text@) is None && !is_plain(text@),
        },
{
    let name = Name::from_utf8(text)?;
    Ok((name.iter().map(<[u8]>::to_vec).collect(), name.is_fqdn()))
}

/// Builds a `Name` of these labels with `Name::from_labels` and formats it
/// with `Name::to_utf8`.
///
/// Trusted: building fails exactly where a label is longer than 63 octets or
/// there are more than 255 labels, and the text is otherwise
/// `presentation(labels, fqdn)`. A plain name is written as its labels joined
/// by dots, with a closing dot where it is fully qualified.
#[verifier::external_body]
pub(crate) fn render_name(labels: &Vec<Vec<u8>>, fqdn: bool) -> (text: Result<String, ProtoError>)
    ensures
        text is Ok <==> {
            &&& labels.len() <= 255
            &&& forall|i: int| 0 <= i < labels.len() ==> (#[trigger] labels[i]).len() <= 63
        },
        text matches Ok(s) ==> s@ == presentation(labels.deep_view(), fqdn),
        text matches Ok(s) ==> (plain_name(labels.deep_view()) ==> s@ == dotted(
            labels.deep_view(),
        ) + closing(fqdn)),
{
    let mut name = Name::from_labels(labels.iter().map(Vec::as_slice))?;
    name.set_fqdn(fqdn);
    Ok(name.to_utf8())
}

} // verus!
