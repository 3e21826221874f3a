//! The trust policy: fingerprints of peer certificates, a pinned
//! fingerprint on the connecting side and an allowlist on the accepting
//! side.

use crate::hexcode::{hex_string, hex_text};
use crate::text::{lowercase_of, to_lowercase, trim, trimmed};
use sha2::Digest;
use vstd::hash_set::StringHashSet;
use vstd::prelude::*;
use vstd::string::*;

verus! {

/// The SHA-256 digest of a byte string.
pub uninterp spec fn sha256_digest(data: Seq<u8>) -> Seq<u8>;

/// Runs `sha2::Sha256` over the data: `new`, `update`, `finalize`.
/// Believed of it: the digest depends on the data alone and has 32 bytes.
#[verifier::external_body]
fn sha256(data: &[u8]) -> (digest: Vec<u8>)
    ensures
        digest@ == sha256_digest(data@),
        digest@.len() == 32,
{
    let mut hasher = sha2::Sha256::new();
    hasher.update(data);
    hasher.finalize().to_vec()
}

/// The fingerprint of a certificate: its SHA-256 digest in lowercase
/// hexadecimal text.
pub fn sha256_hex(data: &[u8]) -> (text: String)
    ensures
        text@ == hex_text(sha256_digest(data@)),
        text@.len() == 64,
{
    let digest = sha256(data);
    hex_string(digest.as_slice())
}

/// The fingerprint announced for a peer: that of its certificate, or the
/// empty text where it showed none.
pub open spec fn fingerprint_text(cert: Option<Seq<u8>>) -> Seq<char> {
    match cert {
        Some(bytes) => hex_text(sha256_digest(bytes)),
        None => Seq::empty(),
    }
}

/// The fingerprint announced for a peer.
pub fn peer_fingerprint(cert: Option<&[u8]>) -> (text: String)
    ensures
        text@ == fingerprint_text(
            match cert {
                Some(bytes) => Some(bytes@),
                None => None,
            },
        ),
        cert is Some ==> text@.len() == 64,
        cert is None ==> text@.len() == 0,
{
    match cert {
        Some(bytes) => sha256_hex(bytes),
        None => String::new(),
    }
}

/// Whether a connecting side that pins `expected` accepts a peer with the
/// given fingerprint: an empty pin accepts every peer, any other pin only
/// the peer whose fingerprint, in lowercase, is the pin.
pub open spec fn client_trusts(expected: Seq<char>, peer_fp: Seq<char>) -> bool {
    expected.len() == 0 || lowercase_of(peer_fp) == expected
}

/// The comparison behind [`pinned_fingerprint_matches`], on a fingerprint
/// that is in lowercase already.
pub fn matches_normalised(expected: &str, lowered: &str) -> (accepted: bool)
    ensures
        accepted == (expected@.len() == 0 || lowered@ == expected@),
{
    if expected.unicode_len() == 0 {
        return true;
    }
    let pin = String::from_str(expected);
    let shown = String::from_str(lowered);
    pin == shown
}

/// Whether a connecting side that pins `expected` accepts the peer.
pub fn pinned_fingerprint_matches(expected: &str, peer_fp: &str) -> (accepted: bool)
    ensures
        accepted == client_trusts(expected@, peer_fp@),
{
    let lowered = to_lowercase(peer_fp);
    matches_normalised(expected, lowered.as_str())
}

/// Whether `csv[from..to]` is one of the fields that the commas of `csv`
/// part it into.
pub open spec fn is_field(csv: Seq<char>, from: int, to: int) -> bool {
    &&& 0 <= from <= to <= csv.len()
    &&& from == 0 || csv[from - 1] == ','
    &&& to == csv.len() || csv[to] == ','
    &&& forall|k: int| from <= k < to ==> csv[k] != ','
}

/// The entry that a field contributes: the field trimmed, in lowercase.
pub open spec fn entry_of(csv: Seq<char>, from: int, to: int) -> Seq<char> {
    lowercase_of(trimmed(csv.subrange(from, to)))
}

/// Whether `csv[from..to]` is a field that is not blank.
pub open spec fn is_entry_field(csv: Seq<char>, from: int, to: int) -> bool {
    is_field(csv, from, to) && trimmed(csv.subrange(from, to)).len() > 0
}

/// The entries of the fields of `csv` that end before `limit`.
pub open spec fn allowlist_upto(csv: Seq<char>, limit: int) -> Set<Seq<char>> {
    Set::new(
        |entry: Seq<char>|
            exists|from: int, to: int|
                #[trigger] is_entry_field(csv, from, to) && to < limit && entry == entry_of(
                    csv,
                    from,
                    to,
                ),
    )
}

/// The allowlist that a comma-separated text stands for: the entry of each
/// field that is not blank.
pub open spec fn allowlist_of(csv: Seq<char>) -> Set<Seq<char>> {
    allowlist_upto(csv, csv.len() as int + 1)
}

/// Whether an accepting side with the given allowlist accepts a peer: an
/// empty list accepts every peer, any other list only a peer whose
/// fingerprint, in lowercase, is on it.
pub open spec fn server_trusts(allowlist: Set<Seq<char>>, peer_fp: Seq<char>) -> bool {
    allowlist =~= Set::empty() || allowlist.contains(lowercase_of(peer_fp))
}

/// The fingerprints that an accepting side trusts.
pub struct TrustAllowlist {
    entries: StringHashSet,
}

impl View for TrustAllowlist {
    type V = Set<Seq<char>>;

    closed spec fn view(&self) -> Set<Seq<char>> {
        self.entries@
    }
}

impl TrustAllowlist {
    /// The list without entries, which accepts every peer.
    pub fn new() -> (list: TrustAllowlist)
        ensures
            list@ == Set::<Seq<char>>::empty(),
    {
        TrustAllowlist { entries: StringHashSet::new() }
    }

    /// The number of fingerprints on the list.
    pub fn len(&self) -> (count: usize)
        ensures
            count == self@.len(),
    {
        self.entries.len()
    }

    /// Whether the list has no entries.
    pub fn is_empty(&self) -> (empty: bool)
        ensures
            empty == (self@ =~= Set::empty()),
    {
        self.entries.is_empty()
    }

    /// Whether the text is on the list as it stands.
    pub fn contains(&self, fingerprint: &str) -> (listed: bool)
        ensures
            listed == self@.contains(fingerprint@),
    {
        self.entries.contains(fingerprint)
    }

    /// The decision behind [`TrustAllowlist::trusts`], on a fingerprint
    /// that is in lowercase already.
    pub fn trusts_normalised(&self, lowered: &str) -> (accepted: bool)
        ensures
            accepted == (self@ =~= Set::empty() || self@.contains(lowered@)),
    {
        self.entries.is_empty() || self.entries.contains(lowered)
    }

    /// Whether a peer with the given fingerprint is accepted.
    pub fn trusts(&self, peer_fp: &str) -> (accepted: bool)
        ensures
            accepted == server_trusts(self@, peer_fp@),
    {
        let lowered = to_lowercase(peer_fp);
        self.trusts_normalised(lowered.as_str())
    }
}

/// Reads a comma-separated list of fingerprints. Each field is trimmed and
/// put in lowercase; blank fields are passed over.
pub fn parse_allowlist(csv: &str) -> (list: TrustAllowlist)
    ensures
        list@ == allowlist_of(csv@),
{
    let n = csv.unicode_len();
    let mut entries = StringHashSet::new();
    let mut start: usize = 0;
    let mut i: usize = 0;
    while i < n
        invariant
            n == csv@.len(),
            start <= i <= n,
            start == 0 || csv@[start - 1] == ',',
            forall|k: int| start <= k < i ==> csv@[k] != ',',
            entries@ == allowlist_upto(csv@, start as int),
        decreases n - i,
    {
        if csv.get_char(i) == ',' {
            let field = trim(csv.substring_char(start, i));
            let ghost before = entries@;
            if field.unicode_len() > 0 {
                entries.insert(to_lowercase(field));
            }
            proof {
                lemma_allowlist_step(csv@, start as int, i as int);
                assert(entries@ =~= allowlist_upto(csv@, i + 1));
            }
            start = i + 1;
        }
        i = i + 1;
    }
    let field = trim(csv.substring_char(start, n));
    if field.unicode_len() > 0 {
        entries.insert(to_lowercase(field));
    }
    proof {
        lemma_allowlist_step(csv@, start as int, n as int);
        assert(entries@ =~= allowlist_of(csv@));
    }
    TrustAllowlist { entries }
}

/// Fields do not overlap: one that starts at `from` ends at the first comma
/// after `from`, and one that ends at `to` starts after the last comma
/// before `to`.
proof fn lemma_field_unique(csv: Seq<char>, from: int, to: int, from2: int, to2: int)
    requires
        is_field(csv, from, to),
        is_field(csv, from2, to2),
    ensures
        to2 < from || to < from2 || (from2 == from && to2 == to),
{
    if to2 >= from && to >= from2 {
        if from2 < from {
            assert(csv[from - 1] == ',');
        }
        if from < from2 {
            assert(csv[from2 - 1] == ',');
        }
        if to2 < to {
            assert(csv[to2] == ',');
        }
        if to < to2 {
            assert(csv[to] == ',');
        }
    }
}

/// Passing the field `csv[start..end]` adds its entry, if it is not blank,
/// to the entries gathered before it.
proof fn lemma_allowlist_step(csv: Seq<char>, start: int, end: int)
    requires
        is_field(csv, start, end),
    ensures
        trimmed(csv.subrange(start, end)).len() > 0 ==> allowlist_upto(csv, end + 1)
            == allowlist_upto(csv, start).insert(entry_of(csv, start, end)),
        trimmed(csv.subrange(start, end)).len() == 0 ==> allowlist_upto(csv, end + 1)
            == allowlist_upto(csv, start),
{
    let before = allowlist_upto(csv, start);
    let after = allowlist_upto(csv, end + 1);
    let blank = trimmed(csv.subrange(start, end)).len() == 0;
    assert forall|entry: Seq<char>| after.contains(entry) implies before.contains(entry) || (!blank
        && entry == entry_of(csv, start, end)) by {
        let (from, to) = choose|from: int, to: int|
            #[trigger] is_entry_field(csv, from, to) && to < end + 1 && entry == entry_of(
                csv,
                from,
                to,
            );
        lemma_field_unique(csv, start, end, from, to);
        if to < start {
            assert(is_entry_field(csv, from, to) && to < start);
        }
    }
    assert forall|entry: Seq<char>| before.contains(entry) implies after.contains(entry) by {
        let (from, to) = choose|from: int, to: int|
            #[trigger] is_entry_field(csv, from, to) && to < start && entry == entry_of(
                csv,
                from,
                to,
            );
        assert(is_entry_field(csv, from, to) && to < end + 1);
    }
    if !blank {
        assert(is_entry_field(csv, start, end));
        assert(after.contains(entry_of(csv, start, end)));
        assert(after =~= before.insert(entry_of(csv, start, end)));
    } else {
        assert(after =~= before);
    }
}

} // verus!
