//! Addresses and their reverse-lookup names.

use crate::domain::{lemma_labels_view, Domain};
use crate::name::{
    label_octet, lemma_encoded_len_concat, lemma_encoded_len_upper_bound, valid_label, valid_name,
};
use vstd::prelude::*;

verus! {

/// An IP address, held by its octets in network order.
#[derive(Debug, Clone, Copy)]
pub enum IpAddress {
    /// An IPv4 address of four octets.
    V4([u8; 4]),
    /// An IPv6 address of sixteen octets.
    V6([u8; 16]),
}

impl View for IpAddress {
    type V = Seq<u8>;

    /// The octets of the address: four of them for IPv4, sixteen for IPv6.
    open spec fn view(&self) -> Seq<u8> {
        match self {
            IpAddress::V4(octets) => octets@,
            IpAddress::V6(octets) => octets@,
        }
    }
}

/// The ASCII digit for `d`, which is below ten.
pub open spec fn digit(d: u8) -> u8 {
    (0x30 + d) as u8
}

/// The label that writes `octet` in decimal, without leading zeros.
pub open spec fn decimal(octet: u8) -> Seq<u8> {
    if octet < 10 {
        seq![digit(octet)]
    } else if octet < 100 {
        seq![digit(octet / 10), digit(octet % 10)]
    } else {
        seq![digit(octet / 100), digit((octet / 10) % 10), digit(octet % 10)]
    }
}

/// The lower-case hexadecimal digit for `n`, which is below sixteen.
pub open spec fn hex_digit(n: u8) -> u8 {
    if n < 10 {
        (0x30 + n) as u8
    } else {
        (0x57 + n) as u8
    }
}

/// The `k`-th half-octet of `octets`, counted from the most significant.
pub open spec fn nibble(octets: Seq<u8>, k: int) -> u8 {
    if k % 2 == 0 {
        octets[k / 2] / 16
    } else {
        octets[k / 2] % 16
    }
}

/// The octets of an IPv4 address as labels, last octet first.
pub open spec fn reversed_octets(octets: Seq<u8>) -> Seq<Seq<u8>> {
    Seq::new(octets.len(), |k: int| decimal(octets[octets.len() - 1 - k]))
}

/// The half-octets of an IPv6 address as labels, least significant first.
pub open spec fn reversed_nibbles(octets: Seq<u8>) -> Seq<Seq<u8>> {
    Seq::new(2 * octets.len(), |k: int| seq![hex_digit(nibble(octets, 2 * octets.len() - 1 - k))])
}

/// The label `in-addr`.
pub open spec fn in_addr() -> Seq<u8> {
    seq![0x69u8, 0x6e, 0x2d, 0x61, 0x64, 0x64, 0x72]
}

/// The label `ip6`.
pub open spec fn ip6() -> Seq<u8> {
    seq![0x69u8, 0x70, 0x36]
}

/// The label `arpa`.
pub open spec fn arpa() -> Seq<u8> {
    seq![0x61u8, 0x72, 0x70, 0x61]
}

/// The labels that stand for the address itself in a reverse-lookup name.
pub open spec fn reversed_address(octets: Seq<u8>) -> Seq<Seq<u8>> {
    if octets.len() == 4 {
        reversed_octets(octets)
    } else {
        reversed_nibbles(octets)
    }
}

/// The two labels that close a reverse-lookup name.
pub open spec fn reverse_suffix(octets: Seq<u8>) -> Seq<Seq<u8>> {
    if octets.len() == 4 {
        seq![in_addr(), arpa()]
    } else {
        seq![ip6(), arpa()]
    }
}

/// The reverse-lookup name of an address: the address, reversed, under
/// `in-addr.arpa` or `ip6.arpa`.
pub open spec fn reverse_labels(octets: Seq<u8>) -> Seq<Seq<u8>> {
    reversed_address(octets) + reverse_suffix(octets)
}

/// The number that a label of decimal digits writes.
pub open spec fn decimal_value(digits: Seq<u8>) -> int
    decreases digits.len(),
{
    if digits.len() == 0 {
        0
    } else {
        10 * decimal_value(digits.drop_last()) + (digits.last() - 0x30)
    }
}

/// `decimal` writes its octet: the digits read back as the octet, and only
/// zero itself starts with a zero.
pub proof fn lemma_decimal_reads_back(octet: u8)
    ensures
        decimal_value(decimal(octet)) == octet,
        forall|i: int|
            0 <= i < decimal(octet).len() ==> 0x30 <= #[trigger] decimal(octet)[i] <= 0x39,
        decimal(octet).len() > 1 ==> decimal(octet)[0] != 0x30,
{
    let d = decimal(octet);
    reveal_with_fuel(decimal_value, 4);
    if octet < 10 {
        assert(d.drop_last() =~= Seq::<u8>::empty());
    } else if octet < 100 {
        assert(d.drop_last() =~= seq![digit(octet / 10)]);
        assert(d.drop_last().drop_last() =~= Seq::<u8>::empty());
    } else {
        assert(d.drop_last() =~= seq![digit(octet / 100), digit((octet / 10) % 10)]);
        assert(d.drop_last().drop_last() =~= seq![digit(octet / 100)]);
        assert(d.drop_last().drop_last().drop_last() =~= Seq::<u8>::empty());
    }
}

/// Writes `octet` in decimal.
fn decimal_label(octet: u8) -> (label: Vec<u8>)
    ensures
        label@ == decimal(octet),
{
    let mut label: Vec<u8> = Vec::new();
    if octet >= 100 {
        label.push(0x30 + octet / 100);
    }
    if octet >= 10 {
        label.push(0x30 + (octet / 10) % 10);
    }
    label.push(0x30 + octet % 10);
    assert(label@ =~= decimal(octet));
    label
}

/// Writes the half-octet `n` as one hexadecimal digit.
fn hex_label(n: u8) -> (label: Vec<u8>)
    requires
        n < 16,
    ensures
        label@ == seq![hex_digit(n)],
{
    let mut label: Vec<u8> = Vec::new();
    if n < 10 {
        label.push(0x30 + n);
    } else {
        label.push(0x57 + n);
    }
    assert(label@ =~= seq![hex_digit(n)]);
    label
}

impl IpAddress {
    /// The reverse-lookup name of the address, fully qualified.
    pub fn reverse_name(&self) -> (name: Domain)
        ensures
            name@.labels == reverse_labels(self@),
            name@.fqdn,
    {
        let mut labels: Vec<Vec<u8>> = Vec::new();
        match self {
            IpAddress::V4(octets) => {
                let mut i: usize = 4;
                while i > 0
                    invariant
                        i <= 4,
                        labels.len() == 4 - i,
                        forall|k: int|
                            0 <= k < labels.len() ==> (#[trigger] labels[k])@ == decimal(
                                octets@[3 - k],
                            ),
                    decreases i,
                {
                    i -= 1;
                    labels.push(decimal_label(octets[i]));
                }
                let tag: Vec<u8> = vec![0x69, 0x6e, 0x2d, 0x61, 0x64, 0x64, 0x72];
                assert(tag@ =~= in_addr());
                labels.push(tag);
            },
            IpAddress::V6(octets) => {
                let mut i: usize = 16;
                while i > 0
                    invariant
                        i <= 16,
                        labels.len() == 2 * (16 - i),
                        forall|k: int|
                            0 <= k < labels.len() ==> (#[trigger] labels[k])@ == seq![
                                hex_digit(nibble(octets@, 31 - k)),
                            ],
                    decreases i,
                {
                    i -= 1;
                    let octet: u8 = octets[i];
                    labels.push(hex_label(octet % 16));
                    labels.push(hex_label(octet / 16));
                }
                let tag: Vec<u8> = vec![0x69, 0x70, 0x36];
                assert(tag@ =~= ip6());
                labels.push(tag);
            },
        }
        let root: Vec<u8> = vec![0x61, 0x72, 0x70, 0x61];
        assert(root@ =~= arpa());
        labels.push(root);
        proof {
            let made = labels.deep_view();
            lemma_labels_view(&labels);
            assert(made =~= reverse_labels(self@));
            lemma_reverse_labels_valid(self@);
        }
        Domain::assemble(labels, true)
    }
}

/// The reverse-lookup name of an address is a valid name.
pub proof fn lemma_reverse_labels_valid(octets: Seq<u8>)
    requires
        octets.len() == 4 || octets.len() == 16,
    ensures
        valid_name(reverse_labels(octets)),
{
    let address = reversed_address(octets);
    let suffix = reverse_suffix(octets);
    let labels = reverse_labels(octets);
    assert forall|i: int| 0 <= i < address.len() implies valid_label(#[trigger] address[i])
        && address[i].len() <= 3 by {
        let label = address[i];
        assert forall|j: int| 0 <= j < label.len() implies label_octet(#[trigger] label[j]) by {}
    }
    assert forall|i: int| 0 <= i < suffix.len() implies valid_label(#[trigger] suffix[i])
        && suffix[i].len() <= 7 by {
        let label = suffix[i];
        assert forall|j: int| 0 <= j < label.len() implies label_octet(#[trigger] label[j]) by {}
    }
    assert forall|i: int| 0 <= i < labels.len() implies valid_label(#[trigger] labels[i]) by {
        if i < address.len() {
            assert(labels[i] == address[i]);
        } else {
            assert(labels[i] == suffix[i - address.len()]);
        }
    }
    lemma_encoded_len_upper_bound(address, 3);
    lemma_encoded_len_upper_bound(suffix, 7);
    lemma_encoded_len_concat(address, suffix);
    assert(address.len() * (3 + 1) <= 128) by (nonlinear_arith)
        requires
            address.len() <= 32,
    ;
    assert(suffix.len() * (7 + 1) == 16) by (nonlinear_arith)
        requires
            suffix.len() == 2,
    ;
}

} // verus!
