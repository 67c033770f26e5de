//! The blocklist client: which name is asked about a candidate.

use crate::address::{
    decimal, hex_digit, nibble, reverse_labels, reversed_address, IpAddress,
};
use crate::domain::{lemma_labels_view, BlockList, Domain, DomainView};
use crate::error::Error;
use crate::lookup::{begun, Lookup};
use crate::name::{encoded_len, is_valid_name, valid_label, MAX_NAME_LEN};
use vstd::prelude::*;

verus! {

/// The name asked about a candidate name: the labels of the candidate, then
/// those of the zone, each as it stands.
pub open spec fn domain_query(zone: Seq<Seq<u8>>, candidate: Seq<Seq<u8>>) -> Seq<Seq<u8>> {
    candidate + zone
}

/// The name asked about a candidate address: the labels of the reversed
/// address, then those of the zone.
pub open spec fn address_query(zone: Seq<Seq<u8>>, octets: Seq<u8>) -> Seq<Seq<u8>> {
    reversed_address(octets) + zone
}

/// The reversed address is the reverse-lookup name without its last two
/// labels.
pub proof fn lemma_reversed_address_is_stripped_name(octets: Seq<u8>)
    ensures
        reverse_labels(octets).len() >= 2,
        reverse_labels(octets).take(reverse_labels(octets).len() - 2) == reversed_address(octets),
{
    let name = reverse_labels(octets);
    assert(name.take(name.len() - 2) =~= reversed_address(octets));
}

/// For the IPv4 address `a.b.c.d` the name asked is `d.c.b.a` under the zone,
/// each octet written in decimal.
pub proof fn lemma_ipv4_query(zone: Seq<Seq<u8>>, octets: Seq<u8>)
    requires
        octets.len() == 4,
    ensures
        address_query(zone, octets) == seq![
            decimal(octets[3]),
            decimal(octets[2]),
            decimal(octets[1]),
            decimal(octets[0]),
        ] + zone,
{
    assert(reversed_address(octets) =~= seq![
        decimal(octets[3]),
        decimal(octets[2]),
        decimal(octets[1]),
        decimal(octets[0]),
    ]);
}

/// For an IPv6 address the name asked is its 32 half-octets, the least
/// significant first, under the zone, each written as one hexadecimal digit.
pub proof fn lemma_ipv6_query(zone: Seq<Seq<u8>>, octets: Seq<u8>, k: int)
    requires
        octets.len() == 16,
        0 <= k < 32,
    ensures
        address_query(zone, octets).len() == 32 + zone.len(),
        address_query(zone, octets)[k] == seq![hex_digit(nibble(octets, 31 - k))],
        address_query(zone, octets).skip(32) == zone,
{
    assert(address_query(zone, octets).skip(32) =~= zone);
}

/// Makes the name of the first `keep` labels of `head` followed by the labels
/// of `zone`.
fn under_zone(head: &Domain, keep: usize, zone: &Domain) -> (made: Result<Domain, Error>)
    requires
        keep <= head@.labels.len(),
    ensures
        made is Ok <==> encoded_len(head@.labels.take(keep as int) + zone@.labels) <= MAX_NAME_LEN,
        made matches Ok(name) ==> name@ == (DomainView {
            labels: head@.labels.take(keep as int) + zone@.labels,
            fqdn: true,
        }),
        made matches Err(e) ==> e == Error::NameTooLong,
{
    let first = head.labels();
    let second = zone.labels();
    proof {
        lemma_labels_view(first);
        lemma_labels_view(second);
    }
    let mut labels: Vec<Vec<u8>> = Vec::new();
    let mut i: usize = 0;
    while i < keep
        invariant
            i <= keep <= first.len(),
            labels.len() == i,
            forall|k: int| 0 <= k < i ==> (#[trigger] labels[k])@ == first[k]@,
        decreases keep - i,
    {
        let label = first[i].clone();
        assert(label@ =~= first[i as int]@);
        labels.push(label);
        i += 1;
    }
    let mut j: usize = 0;
    while j < second.len()
        invariant
            j <= second.len(),
            labels.len() == keep + j,
            forall|k: int| 0 <= k < keep ==> (#[trigger] labels[k])@ == first[k]@,
            forall|k: int| 0 <= k < j ==> (#[trigger] labels[keep + k])@ == second[k]@,
        decreases second.len() - j,
    {
        let label = second[j].clone();
        assert(label@ =~= second[j as int]@);
        labels.push(label);
        j += 1;
    }
    proof {
        let all = head@.labels.take(keep as int) + zone@.labels;
        lemma_labels_view(&labels);
        assert forall|k: int| 0 <= k < labels.len() implies #[trigger] labels.deep_view()[k]
            == all[k] by {
            if k >= keep {
                assert(labels[keep + (k - keep)]@ == second[k - keep]@);
            }
        }
        assert(labels.deep_view() =~= all);
        assert forall|k: int| 0 <= k < all.len() implies valid_label(#[trigger] all[k]) by {
            if k < keep {
                assert(all[k] == head@.labels[k]);
            } else {
                assert(all[k] == zone@.labels[k - keep]);
            }
        }
    }
    if is_valid_name(&labels) {
        Ok(Domain::assemble(labels, true))
    } else {
        Err(Error::NameTooLong)
    }
}

/// The client's part that needs no resolver: it turns a candidate and a
/// blocklist into the lookup to run.
#[derive(Debug, Clone, Copy)]
pub struct DNSBL {}

impl DNSBL {
    /// Begins the lookup of a candidate name in the blocklist `list`.
    ///
    /// The name asked is the candidate's labels followed by the zone's, fully
    /// qualified. The lookup cannot begin where that name would take more
    /// than 255 octets.
    pub fn check_domain(&self, list: &BlockList, domain: &Domain) -> (made: Result<Lookup, Error>)
        ensures
            made is Ok <==> encoded_len(domain_query(list@.labels, domain@.labels))
                <= MAX_NAME_LEN,
            made matches Ok(lookup) ==> lookup@ == begun(
                DomainView { labels: domain_query(list@.labels, domain@.labels), fqdn: true },
            ),
            made matches Err(e) ==> e == Error::NameTooLong,
    {
        let labels = domain.labels();
        let count: usize = labels.len();
        proof {
            lemma_labels_view(labels);
            assert(domain@.labels.take(count as int) =~= domain@.labels);
        }
        match under_zone(domain, count, list) {
            Ok(name) => Ok(Lookup::start(name)),
            Err(e) => Err(e),
        }
    }

    /// Begins the lookup of a candidate address in the blocklist `list`.
    ///
    /// The name asked is the reverse-lookup name of the address without its
    /// last two labels, followed by the zone's labels, fully qualified. The
    /// lookup cannot begin where that name would take more than 255 octets.
    pub fn check_ip(&self, list: &BlockList, ip_addr: IpAddress) -> (made: Result<Lookup, Error>)
        ensures
            made is Ok <==> encoded_len(address_query(list@.labels, ip_addr@)) <= MAX_NAME_LEN,
            made matches Ok(lookup) ==> lookup@ == begun(
                DomainView { labels: address_query(list@.labels, ip_addr@), fqdn: true },
            ),
            made matches Err(e) ==> e == Error::NameTooLong,
    {
        let reverse = ip_addr.reverse_name();
        let labels = reverse.labels();
        let count: usize = labels.len();
        proof {
            lemma_labels_view(labels);
            lemma_reversed_address_is_stripped_name(ip_addr@);
        }
        match under_zone(&reverse, count - 2, list) {
            Ok(name) => Ok(Lookup::start(name)),
            Err(e) => Err(e),
        }
    }
}

} // verus!
