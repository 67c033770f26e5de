use dnsbl::compare::{labels_match, names_match};
use dnsbl::name::{is_valid_label, is_valid_name};
use dnsbl::{Domain, Error};
use std::collections::hash_map::DefaultHasher;
use std::collections::HashSet;
use std::hash::{Hash, Hasher};
use trust_dns_resolver::Name;

fn hash_of(name: &Domain) -> u64 {
    let mut hasher = DefaultHasher::new();
    name.hash(&mut hasher);
    hasher.finish()
}

fn labels(parts: &[&str]) -> Vec<Vec<u8>> {
    parts.iter().map(|part| part.as_bytes().to_vec()).collect()
}

fn labels_of(name: &Name) -> Vec<Vec<u8>> {
    name.iter().map(|label| label.to_vec()).collect()
}

fn label_of(octet: u8, len: usize) -> String {
    String::from_utf8(vec![octet; len]).unwrap()
}

#[test]
fn parses_a_plain_name() {
    let name = Domain::new("zen.example.org").unwrap();
    assert_eq!(name.labels(), &labels(&["zen", "example", "org"]));
    assert!(!name.is_fqdn());
    assert_eq!(name.to_string(), "zen.example.org");
}

#[test]
fn parses_a_fully_qualified_name() {
    let name = Domain::new("zen.example.org.").unwrap();
    assert_eq!(name.labels(), &labels(&["zen", "example", "org"]));
    assert!(name.is_fqdn());
    assert_eq!(name.to_string(), "zen.example.org.");
}

#[test]
fn parses_the_root() {
    let root = Domain::new(".").unwrap();
    assert!(root.labels().is_empty());
    assert!(root.is_fqdn());
    assert_eq!(root.to_string(), ".");
}

#[test]
fn parses_the_empty_text_as_a_name_without_labels() {
    let name = Domain::new("").unwrap();
    assert!(name.labels().is_empty());
    assert!(!name.is_fqdn());
    assert_eq!(name.to_string(), "");
}

#[test]
fn lowers_case_when_parsing() {
    let name = Domain::new("WWW.Example.COM").unwrap();
    assert_eq!(name.labels(), &labels(&["www", "example", "com"]));
    assert_eq!(name.to_string(), "www.example.com");
}

#[test]
fn keeps_case_of_a_label_that_starts_with_an_underscore() {
    let name = Domain::new("_Dmarc.example.com").unwrap();
    assert_eq!(name.labels(), &labels(&["_Dmarc", "example", "com"]));
    assert_eq!(name.to_string(), "_Dmarc.example.com");
}

#[test]
fn reads_non_ascii_labels_as_punycode() {
    let name = Domain::new("🦀.example").unwrap();
    assert_eq!(name.labels(), &labels(&["xn--zs9h", "example"]));
    assert_eq!(name.to_string(), "🦀.example");
}

#[test]
fn reads_an_escaped_dot_into_the_label() {
    let name = Domain::new("a\\.b.example").unwrap();
    assert_eq!(name.labels(), &labels(&["a.b", "example"]));
    assert_eq!(name.to_string(), "a\\.b.example");
}

#[test]
fn accepts_a_wildcard_label() {
    let name = Domain::new("*.example.com").unwrap();
    assert_eq!(name.labels(), &labels(&["*", "example", "com"]));
    assert_eq!(name.to_string(), "*.example.com");
}

#[test]
fn rejects_an_empty_label() {
    assert_eq!(Domain::new("a..b").err(), Some(Error::InvalidName));
    assert_eq!(Domain::new(".a").err(), Some(Error::InvalidName));
    assert_eq!(Domain::new("..").err(), Some(Error::InvalidName));
}

#[test]
fn rejects_bad_label_syntax() {
    assert_eq!(Domain::new("bad name.example").err(), Some(Error::InvalidName));
    assert_eq!(Domain::new("dis_allowed.example.com").err(), Some(Error::InvalidName));
    assert_eq!(Domain::new("-dash.example").err(), Some(Error::InvalidName));
}

#[test]
fn holds_labels_to_63_octets() {
    let longest = format!("{}.example", label_of(b'a', 63));
    let name = Domain::new(&longest).unwrap();
    assert_eq!(name.labels()[0].len(), 63);
    assert_eq!(name.to_string(), longest);

    let too_long = format!("{}.example", label_of(b'a', 64));
    assert_eq!(Domain::new(&too_long).err(), Some(Error::InvalidName));
}

#[test]
fn holds_names_to_255_octets() {
    let a = label_of(b'a', 63);
    // 1 + 3 * 64 + 62 = 255 octets on the wire.
    let longest = format!("{}.{}.{}.{}", a, a, a, label_of(b'b', 61));
    let name = Domain::new(&longest).unwrap();
    assert_eq!(name.labels().len(), 4);
    assert_eq!(name.to_string(), longest);

    // One octet more than a name may take.
    let too_long = format!("{}.{}.{}.{}", a, a, a, label_of(b'b', 62));
    assert!(Name::from_utf8(&too_long).is_ok());
    assert_eq!(Domain::new(&too_long).err(), Some(Error::InvalidName));
}

#[test]
fn rejects_many_short_labels_over_255_octets() {
    // 127 labels of one octet take 1 + 127 * 2 = 255 octets, 128 take 257.
    let fits = vec!["a"; 127].join(".");
    assert_eq!(Domain::new(&fits).unwrap().labels().len(), 127);
    let too_long = vec!["a"; 128].join(".");
    assert_eq!(Domain::new(&too_long).err(), Some(Error::InvalidName));
}

#[test]
fn makes_a_name_of_valid_labels() {
    let name = Domain::from_labels(labels(&["Bad", "example", "com"]), true).unwrap();
    assert_eq!(name.labels(), &labels(&["Bad", "example", "com"]));
    assert!(name.is_fqdn());
    assert_eq!(name.to_string(), "Bad.example.com.");

    let relative = Domain::from_labels(labels(&["www"]), false).unwrap();
    assert!(!relative.is_fqdn());
    assert_eq!(relative.to_string(), "www");
}

#[test]
fn makes_no_name_of_invalid_labels() {
    assert_eq!(Domain::from_labels(labels(&["a", "", "b"]), true).err(), Some(Error::InvalidName));
    assert_eq!(
        Domain::from_labels(vec![vec![b'a'; 64]], true).err(),
        Some(Error::InvalidName)
    );
    assert_eq!(Domain::from_labels(labels(&["a b"]), true).err(), Some(Error::InvalidName));
    assert_eq!(
        Domain::from_labels(vec![vec![0xc3, 0xa9]], true).err(),
        Some(Error::InvalidName)
    );
    assert_eq!(
        Domain::from_labels(vec![vec![b'a'; 63]; 4], true).err(),
        Some(Error::InvalidName)
    );
    let longest = vec![vec![b'a'; 63], vec![b'a'; 63], vec![b'a'; 63], vec![b'a'; 61]];
    assert!(Domain::from_labels(longest, true).is_ok());
}

#[test]
fn tells_valid_labels_and_names() {
    assert!(is_valid_label(&b"a".to_vec()));
    assert!(is_valid_label(&b"xn--zs9h".to_vec()));
    assert!(is_valid_label(&b"_srv-1.A*".to_vec()));
    assert!(is_valid_label(&vec![b'z'; 63]));
    assert!(!is_valid_label(&vec![b'z'; 64]));
    assert!(!is_valid_label(&Vec::new()));
    assert!(!is_valid_label(&b"a/b".to_vec()));
    assert!(!is_valid_label(&b"a@b".to_vec()));
    assert!(!is_valid_label(&b"a{".to_vec()));
    assert!(!is_valid_label(&vec![0x80]));

    assert!(is_valid_name(&Vec::new()));
    assert!(is_valid_name(&labels(&["bl", "test"])));
    assert!(!is_valid_name(&labels(&["bl", "", "test"])));
    assert!(is_valid_name(&vec![vec![b'a'; 1]; 127]));
    assert!(!is_valid_name(&vec![vec![b'a'; 1]; 128]));
}

#[test]
fn compares_names_without_regard_to_case() {
    let lower = Domain::new("www.example.com").unwrap();
    let upper = Domain::from_labels(labels(&["WWW", "Example", "COM"]), false).unwrap();
    assert_eq!(lower, upper);
    assert_eq!(upper, lower);
    assert_ne!(upper.labels(), lower.labels());
}

#[test]
fn compares_names_without_regard_to_the_closing_dot() {
    assert_eq!(Domain::new("example.com").unwrap(), Domain::new("example.com.").unwrap());
}

#[test]
fn tells_different_names_apart() {
    let name = Domain::new("www.example.com").unwrap();
    assert_ne!(name, Domain::new("example.com").unwrap());
    assert_ne!(name, Domain::new("www.example.org").unwrap());
    assert_ne!(name, Domain::new("wwv.example.com").unwrap());
    assert_ne!(name, Domain::new("www.example.com.x").unwrap());
    assert_ne!(Domain::new("a-b.example").unwrap(), Domain::new("a.b.example").unwrap());
}

#[test]
fn folds_only_ascii_letters_when_comparing() {
    assert!(labels_match(&b"AbC-09_z".to_vec(), &b"aBc-09_Z".to_vec()));
    // '@' and '`' sit next to the letters and differ by the same bit.
    assert!(!labels_match(&b"@".to_vec(), &b"`".to_vec()));
    assert!(!labels_match(&b"[".to_vec(), &b"{".to_vec()));
    assert!(!labels_match(&b"ab".to_vec(), &b"abc".to_vec()));
    assert!(names_match(&labels(&["A", "b"]), &labels(&["a", "B"])));
    assert!(!names_match(&labels(&["a", "b"]), &labels(&["b", "a"])));
    assert!(!names_match(&labels(&["a"]), &labels(&["a", "a"])));
    assert!(names_match(&Vec::new(), &Vec::new()));
}

#[test]
fn copies_a_name() {
    let name = Domain::new("zen.example.org.").unwrap();
    let copy = name.clone();
    assert_eq!(copy.labels(), name.labels());
    assert_eq!(copy.is_fqdn(), name.is_fqdn());
    assert_eq!(copy.to_string(), "zen.example.org.");
}

#[test]
fn renders_canonical_text_as_it_was_written() {
    for text in [
        "zen.example.org",
        "zen.example.org.",
        "1.0.168.192.bl.test.",
        "xn--zs9h.example".replace("xn--zs9h", "🦀").as_str(),
        "_sip._tcp.example.com",
        "*.example.com",
        "a\\.b.example",
        ".",
        "",
    ] {
        assert_eq!(Domain::new(text).unwrap().to_string(), text);
    }
}

#[test]
fn rendering_settles_after_one_round() {
    for text in ["WWW.Example.COM.", "xn--zs9h.example", "EXAMPLE", "a.B.c.D", "\\141.example"] {
        let once = Domain::new(text).unwrap();
        let settled = once.to_string();
        let twice = Domain::new(&settled).unwrap();
        assert_eq!(twice.labels(), once.labels());
        assert_eq!(twice.is_fqdn(), once.is_fqdn());
        assert_eq!(twice.to_string(), settled);
    }
}

#[test]
fn agrees_with_the_resolver_crate_on_names() {
    let texts = [
        "zen.example.org",
        "Zen.Example.Org.",
        "bl.test",
        "🦀.example",
        "_dmarc.example.com",
        "*.example.com",
        "a\\.b.example",
        "a..b",
        "bad name",
        "trailing-.example",
        ".",
        "",
        "com",
        "xn--a.example",
        "\\065.example",
    ];
    for text in texts {
        let ours = Domain::new(text);
        match Name::from_utf8(text) {
            Ok(theirs) => {
                let ours = ours.unwrap();
                assert_eq!(ours.labels(), &labels_of(&theirs));
                assert_eq!(ours.is_fqdn(), theirs.is_fqdn());
                assert_eq!(ours.to_string(), theirs.to_string());
            }
            Err(_) => assert_eq!(ours.err(), Some(Error::InvalidName)),
        }
    }
}

#[test]
fn agrees_with_the_resolver_crate_on_equality() {
    let texts = ["a.b", "A.b", "a.b.", "b.a", "a", "a.b.c", "_X.b", "_x.b", "."];
    for left in texts {
        for right in texts {
            let ours = Domain::new(left).unwrap() == Domain::new(right).unwrap();
            let theirs = Name::from_utf8(left).unwrap() == Name::from_utf8(right).unwrap();
            assert_eq!(ours, theirs);
        }
    }
}

#[test]
fn gives_equal_names_the_same_normal_form() {
    let lower = Domain::new("www.example.com.").unwrap();
    let upper = Domain::from_labels(labels(&["WWW", "Example", "COM"]), false).unwrap();
    assert_eq!(upper.normalized(), labels(&["www", "example", "com"]));
    assert_eq!(upper.normalized(), lower.normalized());
    assert_ne!(lower.normalized(), Domain::new("www.example.org").unwrap().normalized());
    let other = Domain::from_labels(labels(&["_A-z.09*"]), true).unwrap();
    assert_eq!(other.normalized(), labels(&["_a-z.09*"]));
}

#[test]
fn agrees_with_the_resolver_crate_on_generated_text() {
    let alphabet: Vec<char> =
        "abcXYZ019-_*.\\ .é🦀@/:.a.b".chars().collect();
    let mut seed: u64 = 0x2545_f491_4f6c_dd1d;
    let mut next = move || {
        seed ^= seed << 13;
        seed ^= seed >> 7;
        seed ^= seed << 17;
        seed
    };
    let mut accepted = 0;
    let mut canonical = 0;
    for _ in 0..20_000 {
        let len = (next() % 12) as usize;
        let text: String =
            (0..len).map(|_| alphabet[(next() % alphabet.len() as u64) as usize]).collect();
        let ours = Domain::new(&text);
        match Name::from_utf8(&text) {
            Ok(theirs) => {
                let ours = ours.unwrap();
                assert_eq!(ours.labels(), &labels_of(&theirs), "labels of {:?}", text);
                assert_eq!(ours.is_fqdn(), theirs.is_fqdn(), "closing dot of {:?}", text);
                assert_eq!(ours.to_string(), theirs.to_string(), "text of {:?}", text);
                if ours.to_string() == text {
                    canonical += 1;
                }
                accepted += 1;
            }
            Err(_) => assert_eq!(ours.err(), Some(Error::InvalidName), "error for {:?}", text),
        }
    }
    assert!(accepted > 1_000);
    assert!(canonical > 100);
}

#[test]
fn reads_a_canonical_name_back_round_after_round() {
    for text in ["zen.example.org", "1.0.168.192.bl.test.", "🦀.example", "a\\.b.example.", "."] {
        let mut name = Domain::new(text).unwrap();
        assert_eq!(name.to_string(), text);
        for _ in 0..3 {
            let again = Domain::new(&name.to_string()).unwrap();
            assert_eq!(again.labels(), name.labels());
            assert_eq!(again.is_fqdn(), name.is_fqdn());
            assert_eq!(again.to_string(), text);
            name = again;
        }
    }
}

#[test]
fn writes_some_names_as_text_that_is_not_canonical() {
    // An escaped dot inside a label that needs punycode is written bare.
    let name = Domain::new("Zb-acb🦀1\\.").unwrap();
    assert_eq!(name.labels().len(), 1);
    assert_eq!(name.to_string(), "zb-acb🦀1..");
    assert_eq!(Domain::new(&name.to_string()).err(), Some(Error::InvalidName));
}

#[test]
fn hashes_equal_names_alike() {
    let lower = Domain::new("www.example.com").unwrap();
    let upper = Domain::from_labels(labels(&["WWW", "Example", "COM"]), true).unwrap();
    assert_eq!(lower, upper);
    assert_eq!(hash_of(&lower), hash_of(&upper));
    assert_eq!(hash_of(&lower), hash_of(&Domain::new("www.example.com.").unwrap()));
    assert_ne!(hash_of(&lower), hash_of(&Domain::new("www.example.org").unwrap()));
    assert_ne!(hash_of(&lower), hash_of(&Domain::new("wwwexample.com").unwrap()));
}

#[test]
fn keeps_one_of_several_equal_names_in_a_set() {
    let mut zones = HashSet::new();
    assert!(zones.insert(Domain::new("bl.test").unwrap()));
    assert!(!zones.insert(Domain::new("bl.test.").unwrap()));
    assert!(!zones.insert(Domain::from_labels(labels(&["BL", "Test"]), false).unwrap()));
    assert!(zones.insert(Domain::new("dbl.test").unwrap()));
    assert_eq!(zones.len(), 2);
    assert!(zones.contains(&Domain::from_labels(labels(&["Dbl", "TEST"]), true).unwrap()));
}

#[test]
fn reads_plain_text_as_its_pieces_and_writes_it_back() {
    let longest = format!(
        "{}.{}.{}.{}",
        label_of(b'a', 63),
        label_of(b'0', 63),
        label_of(b'z', 63),
        label_of(b'9', 61)
    );
    let texts = ["www.example.com", "a", "0", "xn", "x.n", "a1.b2.c3", "zen.example.org", &longest];
    for text in texts {
        let name = Domain::new(text).unwrap();
        let pieces: Vec<Vec<u8>> = text.split('.').map(|piece| piece.as_bytes().to_vec()).collect();
        assert_eq!(name.labels(), &pieces);
        assert!(!name.is_fqdn());
        assert_eq!(name.to_string(), text);
        let closed = Domain::from_labels(pieces, true).unwrap();
        assert_eq!(closed.to_string(), format!("{}.", text));
    }
}

#[test]
fn reads_generated_plain_text_as_its_pieces_and_writes_it_back() {
    let alphabet: Vec<char> = "abcdefghijklmnopqrstuvwxyz0123456789".chars().collect();
    let mut seed: u64 = 0x9e37_79b9_7f4a_7c15;
    let mut next = move || {
        seed ^= seed << 13;
        seed ^= seed >> 7;
        seed ^= seed << 17;
        seed
    };
    for _ in 0..5_000 {
        let count = 1 + (next() % 6) as usize;
        let pieces: Vec<String> = (0..count)
            .map(|_| {
                let len = 1 + (next() % 40) as usize;
                (0..len).map(|_| alphabet[(next() % 36) as usize]).collect()
            })
            .collect();
        let text = pieces.join(".");
        let name = Domain::new(&text).unwrap();
        let labels: Vec<Vec<u8>> = pieces.into_iter().map(String::into_bytes).collect();
        assert_eq!(name.labels(), &labels, "labels of {:?}", text);
        assert!(!name.is_fqdn());
        assert_eq!(name.to_string(), text);
    }
}

#[test]
fn reads_text_of_1024_octets_and_no_more() {
    // Soft hyphens count as text and leave no trace in the name.
    let padded = |hyphens: usize| format!("ab{}.example", "\u{ad}".repeat(hyphens));
    let longest = padded(507);
    assert_eq!(longest.len(), 1024);
    let name = Domain::new(&longest).unwrap();
    assert_eq!(name.labels(), &labels(&["ab", "example"]));

    let too_long = padded(508);
    assert_eq!(too_long.len(), 1026);
    assert!(Name::from_utf8(&too_long).is_ok());
    assert_eq!(Domain::new(&too_long).err(), Some(Error::InvalidName));

    let plain = vec!["a"; 513].join(".");
    assert_eq!(plain.len(), 1025);
    assert_eq!(Domain::new(&plain).err(), Some(Error::InvalidName));
}

#[test]
fn turns_away_text_that_is_far_too_long() {
    // A label of 216,479 letters and one ideograph: too much for the
    // punycode encoder, and never handed to it.
    let mut text = "a".repeat(216_479);
    text.push('\u{4e00}');
    assert_eq!(Domain::new(&text).err(), Some(Error::InvalidName));
    text.push_str(".example");
    assert_eq!(Domain::new(&text).err(), Some(Error::InvalidName));
    assert_eq!(Domain::new(&"a.".repeat(100_000)).err(), Some(Error::InvalidName));
}
