//! The validated name type.

use crate::error::Error;
use crate::compare::{fold_labels, names_match, normal_form, same_name};
use crate::name::{is_valid_name, lemma_encoded_len_lower_bound, valid_label, valid_name};
use crate::plain::{
    dotted, lemma_dotted_chars, lemma_pieces_of_dotted, lemma_plain_name_is_valid, plain_name,
    text_octets,
};
use crate::presentation::{
    closing, ends_with_dot, parse_name, read_labels, render_name, written, MAX_TEXT_LEN,
};
use std::hash::{Hash, Hasher};
use vstd::pervasive::unreached;
use vstd::prelude::*;
use vstd::std_specs::cmp::PartialEqSpecImpl;

verus! {

/// The mathematical value of a [`Domain`].
pub struct DomainView {
    /// The labels, in the order in which the name is written.
    pub labels: Seq<Seq<u8>>,
    /// Whether the name is fully qualified, that is, written with a closing dot.
    pub fqdn: bool,
}

/// A valid DNS name.
#[derive(Debug)]
pub struct Domain {
    labels: Vec<Vec<u8>>,
    fqdn: bool,
}

/// A blocklist is named by the apex of its zone.
pub type BlockList = Domain;

impl View for Domain {
    type V = DomainView;

    closed spec fn view(&self) -> DomainView {
        DomainView { labels: self.labels.deep_view(), fqdn: self.fqdn }
    }
}

/// The labels of a vector of labels are the views of its items.
pub proof fn lemma_labels_view(labels: &Vec<Vec<u8>>)
    ensures
        labels.deep_view().len() == labels.len(),
        forall|i: int| 0 <= i < labels.len() ==> #[trigger] labels.deep_view()[i] == labels[i]@,
{
    assert forall|i: int| 0 <= i < labels.len() implies #[trigger] labels.deep_view()[i]
        == labels[i]@ by {
        assert(labels.deep_view()[i] =~= labels[i]@);
    }
}

impl Domain {
    #[verifier::type_invariant]
    spec fn well_formed(&self) -> bool {
        valid_name(self.labels.deep_view())
    }

    /// Parses the dot-separated text of a name.
    ///
    /// The text is no name where it takes more than 1024 octets, where the
    /// parser rejects it, and where the labels read from it break a limit: an
    /// empty label, a label of more than 63 octets, a name of more than 255
    /// octets.
    pub fn new(name: &str) -> (made: Result<Domain, Error>)
        ensures
            match made {
                Ok(domain) => denoted(name@) == Some(domain@),
                Err(e) => e == Error::InvalidName && denoted(name@) is None,
            },
    {
        if name.as_bytes().len() > MAX_TEXT_LEN {
            return Err(Error::InvalidName);
        }
        match parse_name(name) {
            Ok((labels, fqdn)) => Domain::from_labels(labels, fqdn),
            Err(_) => Err(Error::InvalidName),
        }
    }

    /// Makes a name of labels that are known to form a valid one.
    pub(crate) fn assemble(labels: Vec<Vec<u8>>, fqdn: bool) -> (domain: Domain)
        requires
            valid_name(labels.deep_view()),
        ensures
            domain@ == (DomainView { labels: labels.deep_view(), fqdn }),
    {
        Domain { labels, fqdn }
    }

    /// Makes a name of `labels`, if they form a valid one.
    pub fn from_labels(labels: Vec<Vec<u8>>, fqdn: bool) -> (made: Result<Domain, Error>)
        ensures
            made is Ok <==> valid_name(labels.deep_view()),
            made matches Ok(domain) ==> domain@ == (DomainView {
                labels: labels.deep_view(),
                fqdn,
            }),
            made matches Err(e) ==> e == Error::InvalidName,
    {
        if is_valid_name(&labels) {
            Ok(Domain::assemble(labels, fqdn))
        } else {
            Err(Error::InvalidName)
        }
    }

    /// The labels of the name, first label first.
    pub fn labels(&self) -> (labels: &Vec<Vec<u8>>)
        ensures
            labels.deep_view() == self@.labels,
            valid_name(self@.labels),
    {
        proof {
            use_type_invariant(self);
        }
        &self.labels
    }

    /// Whether the name is fully qualified.
    pub fn is_fqdn(&self) -> (fqdn: bool)
        ensures
            fqdn == self@.fqdn,
    {
        self.fqdn
    }

    /// The labels in the form in which names are compared and hashed: each
    /// ASCII capital lowered. Two names are equal exactly when these are.
    pub fn normalized(&self) -> (normal: Vec<Vec<u8>>)
        ensures
            normal.deep_view() == normal_form(self@.labels),
    {
        fold_labels(&self.labels)
    }

    /// The name as text.
    pub fn to_string(&self) -> (text: String)
        ensures
            text@ == written(self@.labels, self@.fqdn),
    {
        proof {
            use_type_invariant(self);
            let labels = self.labels;
            lemma_labels_view(&labels);
            lemma_encoded_len_lower_bound(labels.deep_view());
            assert forall|i: int| 0 <= i < labels.len() implies (#[trigger] labels[i]).len()
                <= 63 by {
                assert(valid_label(labels.deep_view()[i]));
            }
        }
        match render_name(&self.labels, self.fqdn) {
            Ok(text) => text,
            Err(_) => unreached(),
        }
    }
}

/// The name that `text` denotes, if it denotes one: the labels read from it,
/// where the text takes no more than 1024 octets and the labels form a valid
/// name, fully qualified where the text ends with a dot.
pub open spec fn denoted(text: Seq<char>) -> Option<DomainView> {
    if text_octets(text) > MAX_TEXT_LEN {
        None
    } else {
        match read_labels(text) {
            Some(labels) => if valid_name(labels) {
                Some(DomainView { labels, fqdn: ends_with_dot(text) })
            } else {
                None
            },
            None => None,
        }
    }
}

/// The text that comes of parsing `text` and writing the name again: what
/// `Domain::new` followed by `Domain::to_string` gives, and `None` where
/// `text` is no name.
pub open spec fn rewritten(text: Seq<char>) -> Option<Seq<char>> {
    match denoted(text) {
        Some(name) => Some(written(name.labels, name.fqdn)),
        None => None,
    }
}

/// Whether `text` is in canonical form: it is a name, and the name is written
/// as `text` itself.
pub open spec fn canonical(text: Seq<char>) -> bool {
    rewritten(text) == Some(text)
}

/// Plain text is canonical. The dotted text of a plain name denotes that
/// name, the name is written as that text, and so parsing the text and
/// writing the name again gives the same text, round after round.
pub proof fn lemma_plain_text_is_canonical(labels: Seq<Seq<u8>>)
    requires
        plain_name(labels),
    ensures
        denoted(dotted(labels)) == Some(DomainView { labels, fqdn: false }),
        written(labels, false) == dotted(labels),
        rewritten(dotted(labels)) == Some(dotted(labels)),
        canonical(dotted(labels)),
{
    lemma_pieces_of_dotted(labels);
    lemma_plain_name_is_valid(labels);
    lemma_dotted_chars(labels);
    assert(dotted(labels) + closing(false) =~= dotted(labels));
}

impl Clone for Domain {
    fn clone(&self) -> (copy: Self)
        ensures
            copy@ == self@,
    {
        proof {
            use_type_invariant(self);
        }
        let labels = self.labels.clone();
        assert(labels.deep_view() =~~= self.labels.deep_view());
        Domain { labels, fqdn: self.fqdn }
    }
}

impl PartialEq for Domain {
    /// Names are equal when they are the same name: the case of letters and
    /// the closing dot make no difference.
    fn eq(&self, other: &Domain) -> (same: bool) {
        names_match(&self.labels, &other.labels)
    }
}

impl PartialEqSpecImpl for Domain {
    open spec fn obeys_eq_spec() -> bool {
        true
    }

    open spec fn eq_spec(&self, other: &Domain) -> bool {
        same_name(self@.labels, other@.labels)
    }
}

impl Eq for Domain {

}

/// Feeds `labels` to the hasher with `Vec`'s own `hash`. Nothing is claimed
/// of what the hasher makes of them.
#[verifier::external_body]
fn hash_labels<H: Hasher>(labels: &Vec<Vec<u8>>, state: &mut H) {
    labels.hash(state)
}

impl Hash for Domain {
    /// Names are hashed by their normal form, so that equal names hash alike.
    fn hash<H: Hasher>(&self, state: &mut H) {
        let normal = self.normalized();
        hash_labels(&normal, state)
    }
}

} // verus!
