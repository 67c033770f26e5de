//! DNS names as sequences of labels, and the limits that make them valid.

use vstd::prelude::*;

verus! {

/// The most octets one label may hold.
pub const MAX_LABEL_LEN: usize = 63;

/// The most octets a whole name may take in its encoded form.
pub const MAX_NAME_LEN: usize = 255;

/// The octets a label may hold: ASCII letters and digits, `-` and `_`, and
/// the two that text can only carry escaped or as a whole label, `.` and `*`.
pub open spec fn label_octet(b: u8) -> bool {
    ||| 0x30 <= b <= 0x39
    ||| 0x41 <= b <= 0x5a
    ||| 0x61 <= b <= 0x7a
    ||| b == 0x2d
    ||| b == 0x5f
    ||| b == 0x2e
    ||| b == 0x2a
}

/// A label is 1 to 63 octets of the label alphabet.
pub open spec fn valid_label(label: Seq<u8>) -> bool {
    &&& 1 <= label.len() <= MAX_LABEL_LEN
    &&& forall|i: int| 0 <= i < label.len() ==> label_octet(#[trigger] label[i])
}

/// The octets a name takes on the wire: one length octet before each label,
/// the labels themselves, and the closing octet of the root.
pub open spec fn encoded_len(labels: Seq<Seq<u8>>) -> nat
    decreases labels.len(),
{
    if labels.len() == 0 {
        1
    } else {
        encoded_len(labels.drop_last()) + 1 + labels.last().len()
    }
}

/// A name is valid when each of its labels is and its encoded form fits in
/// 255 octets.
pub open spec fn valid_name(labels: Seq<Seq<u8>>) -> bool {
    &&& forall|i: int| 0 <= i < labels.len() ==> valid_label(#[trigger] labels[i])
    &&& encoded_len(labels) <= MAX_NAME_LEN
}

/// No valid name has an empty label, a label of more than 63 octets, or an
/// encoded form of more than 255 octets.
pub proof fn lemma_name_limits(labels: Seq<Seq<u8>>)
    ensures
        (exists|i: int| 0 <= i < labels.len() && (#[trigger] labels[i]).len() == 0) ==> !valid_name(
            labels,
        ),
        (exists|i: int| 0 <= i < labels.len() && (#[trigger] labels[i]).len() > 63) ==> !valid_name(
            labels,
        ),
        encoded_len(labels) > 255 ==> !valid_name(labels),
{
    if exists|i: int| 0 <= i < labels.len() && (#[trigger] labels[i]).len() == 0 {
        let i = choose|i: int| 0 <= i < labels.len() && (#[trigger] labels[i]).len() == 0;
        assert(!valid_label(labels[i]));
    }
    if exists|i: int| 0 <= i < labels.len() && (#[trigger] labels[i]).len() > 63 {
        let i = choose|i: int| 0 <= i < labels.len() && (#[trigger] labels[i]).len() > 63;
        assert(!valid_label(labels[i]));
    }
}

/// The encoded length of a concatenation: the root's closing octet is
/// counted once.
pub proof fn lemma_encoded_len_concat(head: Seq<Seq<u8>>, tail: Seq<Seq<u8>>)
    ensures
        encoded_len(head + tail) + 1 == encoded_len(head) + encoded_len(tail),
    decreases tail.len(),
{
    if tail.len() == 0 {
        assert(head + tail =~= head);
    } else {
        assert((head + tail).drop_last() =~= head + tail.drop_last());
        assert((head + tail).last() == tail.last());
        lemma_encoded_len_concat(head, tail.drop_last());
    }
}

/// Every label costs at least its length octet, so a name of `n` labels
/// takes more than `n` octets.
pub proof fn lemma_encoded_len_lower_bound(labels: Seq<Seq<u8>>)
    ensures
        encoded_len(labels) >= labels.len() + 1,
    decreases labels.len(),
{
    if labels.len() > 0 {
        lemma_encoded_len_lower_bound(labels.drop_last());
    }
}

/// A name of `n` labels of at most `m` octets each takes at most
/// `1 + n * (m + 1)` octets.
pub proof fn lemma_encoded_len_upper_bound(labels: Seq<Seq<u8>>, m: nat)
    requires
        forall|i: int| 0 <= i < labels.len() ==> (#[trigger] labels[i]).len() <= m,
    ensures
        encoded_len(labels) <= 1 + labels.len() * (m + 1),
    decreases labels.len(),
{
    if labels.len() > 0 {
        let front = labels.drop_last();
        assert forall|i: int| 0 <= i < front.len() implies (#[trigger] front[i]).len() <= m by {
            assert(front[i] == labels[i]);
        }
        lemma_encoded_len_upper_bound(front, m);
        assert(1 + front.len() * (m + 1) + 1 + m == 1 + labels.len() * (m + 1)) by (nonlinear_arith)
            requires
                front.len() + 1 == labels.len(),
        ;
    }
}

/// A name takes at least as many octets as any of its prefixes.
pub proof fn lemma_encoded_len_prefix(labels: Seq<Seq<u8>>, n: int)
    requires
        0 <= n <= labels.len(),
    ensures
        encoded_len(labels.take(n)) <= encoded_len(labels),
{
    assert(labels.take(n) + labels.skip(n) =~= labels);
    lemma_encoded_len_concat(labels.take(n), labels.skip(n));
}

/// Whether `b` belongs to the label alphabet.
pub fn is_label_octet(b: u8) -> (ok: bool)
    ensures
        ok == label_octet(b),
{
    (0x30 <= b && b <= 0x39) || (0x41 <= b && b <= 0x5a) || (0x61 <= b && b <= 0x7a) || b == 0x2d
        || b == 0x5f || b == 0x2e || b == 0x2a
}

/// Whether `label` is a valid label.
pub fn is_valid_label(label: &Vec<u8>) -> (ok: bool)
    ensures
        ok == valid_label(label@),
{
    if label.len() < 1 || label.len() > MAX_LABEL_LEN {
        return false;
    }
    let mut i: usize = 0;
    while i < label.len()
        invariant
            i <= label.len(),
            forall|k: int| 0 <= k < i ==> label_octet(#[trigger] label@[k]),
        decreases label.len() - i,
    {
        if !is_label_octet(label[i]) {
            return false;
        }
        i += 1;
    }
    true
}

/// Whether `labels` form a valid name.
pub fn is_valid_name(labels: &Vec<Vec<u8>>) -> (ok: bool)
    ensures
        ok == valid_name(labels.deep_view()),
{
    let ghost all = labels.deep_view();
    let mut total: usize = 1;
    let mut i: usize = 0;
    while i < labels.len()
        invariant
            i <= labels.len(),
            all == labels.deep_view(),
            all.len() == labels.len(),
            forall|k: int| 0 <= k < i ==> valid_label(#[trigger] all[k]),
            total == encoded_len(all.take(i as int)),
            total <= MAX_NAME_LEN,
        decreases labels.len() - i,
    {
        let label = &labels[i];
        assert(all[i as int] =~= label@);
        if !is_valid_label(label) {
            return false;
        }
        proof {
            assert(all.take(i + 1).drop_last() =~= all.take(i as int));
            assert(all.take(i + 1).last() == all[i as int]);
        }
        total = total + 1 + label.len();
        if total > MAX_NAME_LEN {
            proof {
                lemma_encoded_len_prefix(all, i + 1);
            }
            return false;
        }
        i += 1;
    }
    assert(all.take(i as int) =~= all);
    true
}

} // verus!
