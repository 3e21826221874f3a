use cribcall_quic::trust::{
    matches_normalised, parse_allowlist, peer_fingerprint, pinned_fingerprint_matches,
    sha256_hex, TrustAllowlist,
};

const ABC_FINGERPRINT: &str = "ba7816bf8f01cfea414140de5dae2223b00361a396177a9cb410ff61f20015ad";

const EMPTY_FINGERPRINT: &str = "e3b0c44298fc1c149afbf4c8996fb92427ae41e4649b934ca495991b7852b855";

#[test]
fn sha256_hex_gives_the_known_digests() {
    assert_eq!(sha256_hex(b"abc"), ABC_FINGERPRINT);
    assert_eq!(sha256_hex(b""), EMPTY_FINGERPRINT);
    assert_eq!(sha256_hex(b"abc").len(), 64);
}

#[test]
fn peer_without_certificate_has_the_empty_fingerprint() {
    assert_eq!(peer_fingerprint(None), "");
    assert_eq!(peer_fingerprint(Some(b"abc")), ABC_FINGERPRINT);
    assert_eq!(peer_fingerprint(Some(b"")).len(), 64);
    assert_eq!(peer_fingerprint(Some(b"")), EMPTY_FINGERPRINT);
}

#[test]
fn empty_pin_accepts_every_peer() {
    assert!(pinned_fingerprint_matches("", ABC_FINGERPRINT));
    assert!(pinned_fingerprint_matches("", ""));
    assert!(pinned_fingerprint_matches("", "anything"));
}

#[test]
fn pin_is_held_against_the_lowercase_fingerprint() {
    assert!(pinned_fingerprint_matches(ABC_FINGERPRINT, ABC_FINGERPRINT));
    assert!(pinned_fingerprint_matches(ABC_FINGERPRINT, &ABC_FINGERPRINT.to_uppercase()));
    assert!(!pinned_fingerprint_matches(ABC_FINGERPRINT, EMPTY_FINGERPRINT));
    assert!(!pinned_fingerprint_matches(ABC_FINGERPRINT, ""));
    assert!(pinned_fingerprint_matches("ab", "AB"));
    assert!(!pinned_fingerprint_matches("AB", "AB"));
}

#[test]
fn lowercasing_of_ascii_changes_the_capital_letters_alone() {
    let mut all = String::new();
    let mut lowered = String::new();
    for v in 0u8..128 {
        all.push(v as char);
        lowered.push(if (65..=90).contains(&v) { (v + 32) as char } else { v as char });
    }
    assert!(pinned_fingerprint_matches(&lowered, &all));
    assert!(!pinned_fingerprint_matches(&all, &all));
    assert!(pinned_fingerprint_matches(&lowered, &lowered));
}

#[test]
fn normalised_comparison_is_exact() {
    assert!(matches_normalised("", "x"));
    assert!(matches_normalised("ab", "ab"));
    assert!(!matches_normalised("ab", "AB"));
    assert!(!matches_normalised("ab", "abc"));
}

#[test]
fn allowlist_is_trimmed_lowercased_and_without_blanks() {
    let list = parse_allowlist(" AB , cd,,EF ,  ,ab");
    assert_eq!(list.len(), 3);
    assert!(!list.is_empty());
    assert!(list.contains("ab"));
    assert!(list.contains("cd"));
    assert!(list.contains("ef"));
    assert!(!list.contains("AB"));
    assert!(!list.contains(" ab"));
    assert!(!list.contains(""));
}

#[test]
fn allowlist_of_blank_text_is_empty() {
    assert!(parse_allowlist("").is_empty());
    assert!(parse_allowlist(" , ,,").is_empty());
    assert_eq!(parse_allowlist(",").len(), 0);
    assert!(TrustAllowlist::new().is_empty());
}

#[test]
fn allowlist_of_one_field_has_one_entry() {
    let list = parse_allowlist(ABC_FINGERPRINT);
    assert_eq!(list.len(), 1);
    assert!(list.contains(ABC_FINGERPRINT));
    let upper = parse_allowlist(&format!("  {}\n", ABC_FINGERPRINT.to_uppercase()));
    assert_eq!(upper.len(), 1);
    assert!(upper.contains(ABC_FINGERPRINT));
}

fn same_entries(text: &str, other: &str, entries: &[&str]) {
    let a = parse_allowlist(text);
    let b = parse_allowlist(other);
    assert_eq!(a.len(), entries.len());
    assert_eq!(b.len(), entries.len());
    for entry in entries {
        assert!(a.contains(entry));
        assert!(b.contains(entry));
    }
}

#[test]
fn allowlist_ignores_the_order_of_its_fields() {
    same_entries("ab,cd,ef", "ef,ab,cd", &["ab", "cd", "ef"]);
    same_entries("ab,cd", "cd,ab", &["ab", "cd"]);
}

#[test]
fn allowlist_ignores_blank_fields_and_repeats() {
    same_entries("ab,cd", "ab, \t ,cd,,\n", &["ab", "cd"]);
    same_entries("ab", "ab,ab, ab ", &["ab"]);
    same_entries("ab", " \u{a0}\u{2003}ab\u{3000},\u{85}", &["ab"]);
}

#[test]
fn allowlist_ignores_the_case_of_letters() {
    same_entries("ab12,CDEF", "AB12,cdef", &["ab12", "cdef"]);
    same_entries("AbCdEf", "aBcDeF", &["abcdef"]);
}

#[test]
fn empty_allowlist_trusts_every_peer() {
    let list = TrustAllowlist::new();
    assert!(list.trusts(ABC_FINGERPRINT));
    assert!(list.trusts(""));
    assert!(list.trusts_normalised("whatever"));
}

#[test]
fn allowlist_trusts_only_its_entries() {
    let list = parse_allowlist(&format!("{},{}", ABC_FINGERPRINT, "00ff"));
    assert!(list.trusts(ABC_FINGERPRINT));
    assert!(list.trusts(&ABC_FINGERPRINT.to_uppercase()));
    assert!(list.trusts("00FF"));
    assert!(!list.trusts(EMPTY_FINGERPRINT));
    assert!(!list.trusts(""));
    assert!(list.trusts_normalised("00ff"));
    assert!(!list.trusts_normalised("00FF"));
}
