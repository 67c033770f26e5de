//! Plain text of names: lower-case letters and digits in labels, single dots
//! between them. Such text is read and written letter for letter.

use crate::name::{encoded_len, label_octet, valid_label, valid_name};
use vstd::prelude::*;
use vstd::utf8::{encode_utf8, is_ascii_chars, is_ascii_chars_encode_utf8};

verus! {

/// The most characters the plain text of a name may have: 255 octets on the
/// wire, less the root's closing octet and the first label's length octet.
pub const MAX_PLAIN_LEN: usize = 253;

/// A lower-case ASCII letter or a digit.
pub open spec fn plain_octet(b: u8) -> bool {
    ||| 0x30 <= b <= 0x39
    ||| 0x61 <= b <= 0x7a
}

/// A plain label is 1 to 63 lower-case letters and digits.
pub open spec fn plain_label(label: Seq<u8>) -> bool {
    &&& 1 <= label.len() <= 63
    &&& forall|i: int| 0 <= i < label.len() ==> plain_octet(#[trigger] label[i])
}

/// Whether every label is plain.
pub open spec fn plain_labels(labels: Seq<Seq<u8>>) -> bool {
    forall|i: int| 0 <= i < labels.len() ==> plain_label(#[trigger] labels[i])
}

/// The octets of a label as characters.
pub open spec fn as_chars(label: Seq<u8>) -> Seq<char> {
    label.map_values(|b: u8| b as char)
}

/// The labels as characters, with one dot between each two neighbours.
pub open spec fn dotted(labels: Seq<Seq<u8>>) -> Seq<char>
    decreases labels.len(),
{
    if labels.len() == 0 {
        Seq::empty()
    } else if labels.len() == 1 {
        as_chars(labels[0])
    } else {
        dotted(labels.drop_last()) + seq!['.'] + as_chars(labels.last())
    }
}

/// A plain name has at least one label, plain labels only, and a dotted
/// text of at most 253 characters.
pub open spec fn plain_name(labels: Seq<Seq<u8>>) -> bool {
    &&& labels.len() >= 1
    &&& plain_labels(labels)
    &&& dotted(labels).len() <= MAX_PLAIN_LEN
}

/// Whether `text` is the dotted text of a plain name.
pub open spec fn is_plain(text: Seq<char>) -> bool {
    exists|labels: Seq<Seq<u8>>| plain_name(labels) && #[trigger] dotted(labels) == text
}

/// The labels of plain text: the runs of letters and digits between its dots.
pub open spec fn pieces(text: Seq<char>) -> Seq<Seq<u8>> {
    choose|labels: Seq<Seq<u8>>| plain_name(labels) && #[trigger] dotted(labels) == text
}

/// The octets that `text` takes as UTF-8.
pub open spec fn text_octets(text: Seq<char>) -> nat {
    encode_utf8(text).len()
}

/// How dotted text ends: with the last label, and before it, where there is
/// more than one label, a dot and the dotted text of the labels before.
pub proof fn lemma_dotted_ends(labels: Seq<Seq<u8>>)
    requires
        labels.len() >= 1,
    ensures
        dotted(labels).len() >= labels.last().len(),
        dotted(labels).skip(dotted(labels).len() - labels.last().len()) == as_chars(
            labels.last(),
        ),
        labels.len() == 1 ==> dotted(labels).len() == labels.last().len(),
        labels.len() >= 2 ==> {
            let cut = dotted(labels).len() - labels.last().len() - 1;
            &&& cut >= 0
            &&& dotted(labels)[cut] == '.'
            &&& dotted(labels).take(cut) == dotted(labels.drop_last())
        },
{
    let text = dotted(labels);
    let last = as_chars(labels.last());
    assert(text.skip(text.len() - last.len()) =~= last);
    if labels.len() >= 2 {
        let cut = text.len() - last.len() - 1;
        assert(text.take(cut) =~= dotted(labels.drop_last()));
    }
}

/// The dotted text of a name is two octets shorter than its encoded form.
pub proof fn lemma_dotted_len(labels: Seq<Seq<u8>>)
    requires
        labels.len() >= 1,
    ensures
        encoded_len(labels) == dotted(labels).len() + 2,
    decreases labels.len(),
{
    if labels.len() == 1 {
        assert(labels.drop_last() =~= Seq::<Seq<u8>>::empty());
        assert(encoded_len(labels.drop_last()) == 1);
    } else {
        lemma_dotted_len(labels.drop_last());
    }
}

/// Dotted text of plain labels holds ASCII only, and dots only between labels.
pub proof fn lemma_dotted_chars(labels: Seq<Seq<u8>>)
    requires
        labels.len() >= 1,
        plain_labels(labels),
    ensures
        is_ascii_chars(dotted(labels)),
        text_octets(dotted(labels)) == dotted(labels).len(),
        dotted(labels).len() >= 1,
        dotted(labels).last() != '.',
    decreases labels.len(),
{
    let text = dotted(labels);
    let last = labels.last();
    assert(plain_label(last));
    assert forall|i: int| 0 <= i < last.len() implies '\0' <= #[trigger] as_chars(last)[i]
        <= '\u{7f}' && as_chars(last)[i] != '.' by {
        assert(plain_octet(last[i]));
    }
    if labels.len() >= 2 {
        let front = labels.drop_last();
        assert forall|i: int| 0 <= i < front.len() implies plain_label(#[trigger] front[i]) by {
            assert(front[i] == labels[i]);
        }
        lemma_dotted_chars(front);
    }
    assert forall|i: int| 0 <= i < text.len() implies '\0' <= #[trigger] text[i] <= '\u{7f}' by {
        if labels.len() >= 2 {
            let front = dotted(labels.drop_last());
            if i < front.len() {
                assert(text[i] == front[i]);
            } else if i > front.len() {
                assert(text[i] == as_chars(last)[i - front.len() - 1]);
            }
        }
    }
    assert(text.last() == as_chars(last)[last.len() - 1]);
    is_ascii_chars_encode_utf8(text);
}

/// A plain name is a valid name.
pub proof fn lemma_plain_name_is_valid(labels: Seq<Seq<u8>>)
    requires
        plain_name(labels),
    ensures
        valid_name(labels),
{
    assert forall|i: int| 0 <= i < labels.len() implies valid_label(#[trigger] labels[i]) by {
        let label = labels[i];
        assert(plain_label(label));
        assert forall|j: int| 0 <= j < label.len() implies label_octet(#[trigger] label[j]) by {
            assert(plain_octet(label[j]));
        }
    }
    lemma_dotted_len(labels);
}

/// Different plain names have different dotted texts: a dotted text tells
/// its labels.
pub proof fn lemma_dotted_is_one_to_one(a: Seq<Seq<u8>>, b: Seq<Seq<u8>>)
    requires
        a.len() >= 1,
        b.len() >= 1,
        plain_labels(a),
        plain_labels(b),
        dotted(a) == dotted(b),
    ensures
        a == b,
    decreases a.len(),
{
    let text = dotted(a);
    let la = a.last();
    let lb = b.last();
    lemma_dotted_ends(a);
    lemma_dotted_ends(b);
    assert(plain_label(la));
    assert(plain_label(lb));
    let start_a = text.len() - la.len();
    let start_b = text.len() - lb.len();
    assert forall|p: int| start_a <= p < text.len() implies #[trigger] text[p] != '.' by {
        assert(text.skip(start_a)[p - start_a] == as_chars(la)[p - start_a]);
        assert(plain_octet(la[p - start_a]));
    }
    assert forall|p: int| start_b <= p < text.len() implies #[trigger] text[p] != '.' by {
        assert(text.skip(start_b)[p - start_b] == as_chars(lb)[p - start_b]);
        assert(plain_octet(lb[p - start_b]));
    }
    if la.len() < lb.len() {
        if a.len() >= 2 {
            assert(text[start_a - 1] != '.');
        }
        assert(false);
    }
    if lb.len() < la.len() {
        if b.len() >= 2 {
            assert(text[start_b - 1] != '.');
        }
        assert(false);
    }
    assert(la =~= lb) by {
        assert forall|i: int| 0 <= i < la.len() implies la[i] == lb[i] by {
            assert(as_chars(la)[i] == as_chars(lb)[i]);
        }
    }
    if a.len() == 1 || b.len() == 1 {
        assert(a.len() == 1 && b.len() == 1);
        assert(a =~= b);
    } else {
        let fa = a.drop_last();
        let fb = b.drop_last();
        assert forall|i: int| 0 <= i < fa.len() implies plain_label(#[trigger] fa[i]) by {
            assert(fa[i] == a[i]);
        }
        assert forall|i: int| 0 <= i < fb.len() implies plain_label(#[trigger] fb[i]) by {
            assert(fb[i] == b[i]);
        }
        lemma_dotted_is_one_to_one(fa, fb);
        assert(a =~= fa.push(la));
        assert(b =~= fb.push(lb));
    }
}

/// The dotted text of a plain name is plain text, and its pieces are the
/// labels of the name.
pub proof fn lemma_pieces_of_dotted(labels: Seq<Seq<u8>>)
    requires
        plain_name(labels),
    ensures
        is_plain(dotted(labels)),
        pieces(dotted(labels)) == labels,
{
    lemma_dotted_is_one_to_one(pieces(dotted(labels)), labels);
}

} // verus!
