use vstd::prelude::*;
use vstd::string::*;

use crate::hexfmt::{
    encode_mixed_case, hex_decode, hex_decode_str, hex_decodes, hex_encode, hex_lower, hex_mixed,
    lemma_hex_round_trip, nibble_char, push_char,
};
use crate::pattern::{ascii_lower, has_hex_tag, without_hex_tag};
use crate::VanityError;

verus! {

/// The number that a byte sequence spells, most significant byte first.
pub open spec fn big_endian(b: Seq<u8>) -> int
    decreases b.len(),
{
    if b.len() == 0 {
        0
    } else {
        big_endian(b.drop_last()) * 256 + b.last()
    }
}

/// The order of the secp256k1 group.
pub open spec fn curve_order() -> int {
    0xFFFFFFFFFFFFFFFFFFFFFFFFFFFFFFFEBAAEDCE6AF48A03BBFD25E8CD0364141int
}

/// A secret key: 32 bytes that spell a nonzero scalar below the group order.
pub open spec fn is_secret_scalar(b: Seq<u8>) -> bool {
    b.len() == 32 && 0 < big_endian(b) && big_endian(b) < curve_order()
}

/// The 64-byte public key (the curve point's coordinates) of a secret key.
pub uninterp spec fn public_key_of(secret: Seq<u8>) -> Seq<u8>;

/// The SHA-256 digest of a byte sequence.
pub uninterp spec fn sha256_of(data: Seq<u8>) -> Seq<u8>;

/// The 32 address bytes of a secret key: the SHA-256 digest of its public key.
pub open spec fn address_bytes(secret: Seq<u8>) -> Seq<u8> {
    sha256_of(public_key_of(secret))
}

/// The address text of a secret key: `0x` and the hex of its address bytes, in lower
/// case, or in the mixed-case style when `preserve_case` holds.
pub open spec fn address_text(secret: Seq<u8>, preserve_case: bool) -> Seq<char> {
    if preserve_case {
        seq!['0', 'x'] + hex_mixed(address_bytes(secret))
    } else {
        seq!['0', 'x'] + hex_lower(address_bytes(secret))
    }
}

/// Key text left-padded with `0` to 64 characters; longer text stays as it is.
pub open spec fn padded_key(t: Seq<char>) -> Seq<char> {
    if t.len() >= 64 {
        t
    } else {
        Seq::new((64 - t.len()) as nat, |i: int| '0') + t
    }
}

/// The secret bytes that text spells as fuel_crypto reads a secret key: without an
/// optional `0x` tag, exactly 64 hex digits.
pub open spec fn parsed_secret(t: Seq<char>) -> Option<Seq<u8>> {
    let body = without_hex_tag(t);
    if body.len() == 64 && hex_decodes(body) {
        Some(hex_decode(body))
    } else {
        None
    }
}

/// The secret bytes that key text spells once left-padded to 64 characters.
pub open spec fn secret_of_key_text(t: Seq<char>) -> Option<Seq<u8>> {
    parsed_secret(padded_key(t))
}

/// `s` with every leading `0x` tag removed.
pub open spec fn trim_hex_tags(s: Seq<char>) -> Seq<char>
    decreases s.len(),
{
    if has_hex_tag(s) {
        trim_hex_tags(s.subrange(2, s.len() as int))
    } else {
        s
    }
}

/// Two texts that are equal but for the case of ASCII letters.
pub open spec fn same_ignoring_ascii_case(a: Seq<char>, b: Seq<char>) -> bool {
    a.len() == b.len() && forall|i: int| 0 <= i < a.len() ==> ascii_lower(#[trigger] a[i]) == ascii_lower(b[i])
}

/// Whether a private key text (any number of leading `0x` tags, then hex) derives an
/// address that equals `expected` but for ASCII case.
pub open spec fn key_pair_verifies(private_key: Seq<char>, expected: Seq<char>) -> bool {
    let body = trim_hex_tags(private_key);
    hex_decodes(body) && is_secret_scalar(hex_decode(body)) && same_ignoring_ascii_case(
        address_text(hex_decode(body), false),
        expected,
    )
}

/// Relies on fuel_crypto's `SecretKey::try_from(&[u8])`, which accepts exactly 32 bytes
/// that spell a nonzero scalar below the secp256k1 order, and on
/// `PublicKey::from(&SecretKey)`, whose bytes depend on the secret alone and are 64.
#[verifier::external_body]
fn public_key_from_secret(secret: &[u8]) -> (r: Option<Vec<u8>>)
    ensures
        r is Some <==> is_secret_scalar(secret@),
        r is Some ==> r->0@ == public_key_of(secret@),
{
    match fuel_crypto::SecretKey::try_from(secret) {
        Ok(key) => Some(fuel_crypto::PublicKey::from(&key).as_ref().to_vec()),
        Err(_) => None,
    }
}

/// Relies on sha2's `Sha256::digest`: a 32-byte digest that depends on the data alone.
#[verifier::external_body]
fn sha256(data: &[u8]) -> (r: Vec<u8>)
    ensures
        r@ == sha256_of(data@),
        r@.len() == 32,
{
    <sha2::Sha256 as sha2::Digest>::digest(data).to_vec()
}

/// Relies on fuel_crypto's `SecretKey::from_str`, which sets aside one leading `0x` tag
/// and accepts exactly 64 hex digits of either case that spell a nonzero scalar below the
/// secp256k1 order, and on `PublicKey::from(&SecretKey)` as in `public_key_from_secret`.
#[verifier::external_body]
fn public_key_from_key_text(t: &str) -> (r: Option<Vec<u8>>)
    ensures
        r is Some <==> (parsed_secret(t@) is Some && is_secret_scalar(parsed_secret(t@)->0)),
        r is Some ==> r->0@ == public_key_of(parsed_secret(t@)->0),
{
    match <fuel_crypto::SecretKey as std::str::FromStr>::from_str(t) {
        Ok(key) => Some(fuel_crypto::PublicKey::from(&key).as_ref().to_vec()),
        Err(_) => None,
    }
}

/// The address text of a public key: `0x` and the hex of its SHA-256 digest.
fn address_of_public_key(public_key: &[u8], preserve_case: bool) -> (r: String)
    ensures
        r@ == (if preserve_case {
            seq!['0', 'x'] + hex_mixed(sha256_of(public_key@))
        } else {
            seq!['0', 'x'] + hex_lower(sha256_of(public_key@))
        }),
        r@.len() == 66,
{
    let digest = sha256(public_key);
    let body = if preserve_case {
        encode_mixed_case(digest.as_slice())
    } else {
        hex_encode(digest.as_slice())
    };
    let text = "0x".to_owned().concat(body.as_str());
    proof {
        reveal_strlit("0x");
        lemma_hex_round_trip(digest@);
        lemma_mixed_lowers(digest@);
        assert(text@ =~= (if preserve_case {
            seq!['0', 'x'] + hex_mixed(sha256_of(public_key@))
        } else {
            seq!['0', 'x'] + hex_lower(sha256_of(public_key@))
        }));
    }
    text
}

/// The address of a secret key, or `None` when the bytes are no valid secret.
pub fn derive_address(secret: &[u8], preserve_case: bool) -> (r: Option<String>)
    ensures
        r is Some <==> is_secret_scalar(secret@),
        r is Some ==> r->0@ == address_text(secret@, preserve_case),
        r is Some ==> r->0@.len() == 66,
{
    match public_key_from_secret(secret) {
        None => None,
        Some(public_key) => Some(address_of_public_key(public_key.as_slice(), preserve_case)),
    }
}

/// The key text left-padded with `0` to 64 characters.
fn pad_key(private_key: &str) -> (r: String)
    ensures
        r@ == padded_key(private_key@),
{
    let n = private_key.unicode_len();
    if n >= 64 {
        return private_key.to_owned();
    }
    let mut padded = String::new();
    let mut i: usize = 0;
    while i < 64 - n
        invariant
            n < 64,
            i <= 64 - n,
            padded@ == Seq::new(i as nat, |k: int| '0'),
        decreases 64 - n - i,
    {
        push_char(&mut padded, '0');
        assert(padded@ =~= Seq::new((i + 1) as nat, |k: int| '0'));
        i = i + 1;
    }
    padded.concat(private_key)
}

/// The address of the secret key that `private_key` spells in hex (left-padded with `0`
/// to 64 digits, an optional `0x` tag before them), in the mixed-case style when
/// `preserve_case` holds. Text that spells no valid secret key gives `InvalidKey`.
pub fn get_address_from_private_key_case_sensitive(private_key: &str, preserve_case: bool) -> (r:
    Result<String, VanityError>)
    ensures
        match secret_of_key_text(private_key@) {
            Some(secret) => if is_secret_scalar(secret) {
                r is Ok && r->Ok_0@ == address_text(secret, preserve_case) && r->Ok_0@.len() == 66
            } else {
                r == Err::<String, VanityError>(VanityError::InvalidKey)
            },
            None => r == Err::<String, VanityError>(VanityError::InvalidKey),
        },
{
    let padded = pad_key(private_key);
    match public_key_from_key_text(padded.as_str()) {
        None => Err(VanityError::InvalidKey),
        Some(public_key) => Ok(address_of_public_key(public_key.as_slice(), preserve_case)),
    }
}

/// The lower-case address of the secret key that `private_key` spells, as
/// `get_address_from_private_key_case_sensitive` reads it.
pub fn get_address_from_private_key(private_key: &str) -> (r: Result<String, VanityError>)
    ensures
        match secret_of_key_text(private_key@) {
            Some(secret) => if is_secret_scalar(secret) {
                r is Ok && r->Ok_0@ == address_text(secret, false) && r->Ok_0@.len() == 66
            } else {
                r == Err::<String, VanityError>(VanityError::InvalidKey)
            },
            None => r == Err::<String, VanityError>(VanityError::InvalidKey),
        },
{
    get_address_from_private_key_case_sensitive(private_key, false)
}

/// `s` with every leading `0x` tag removed.
fn trim_tags(s: &str) -> (r: &str)
    ensures
        r@ == trim_hex_tags(s@),
{
    let mut rest = s;
    while rest.unicode_len() >= 2 && rest.get_char(0) == '0' && rest.get_char(1) == 'x'
        invariant
            trim_hex_tags(rest@) == trim_hex_tags(s@),
        decreases rest@.len(),
    {
        let n = rest.unicode_len();
        rest = rest.substring_char(2, n);
    }
    rest
}

/// Whether two texts are equal but for the case of ASCII letters.
pub fn eq_ignore_ascii_case(a: &str, b: &str) -> (r: bool)
    ensures
        r == same_ignoring_ascii_case(a@, b@),
{
    let n = a.unicode_len();
    if n != b.unicode_len() {
        return false;
    }
    let mut i: usize = 0;
    while i < n
        invariant
            n == a@.len(),
            n == b@.len(),
            i <= n,
            forall|j: int| 0 <= j < i ==> ascii_lower(#[trigger] a@[j]) == ascii_lower(b@[j]),
        decreases n - i,
    {
        let x = a.get_char(i);
        let y = b.get_char(i);
        let lx = if 'A' <= x && x <= 'Z' { ((x as u8) + 32) as char } else { x };
        let ly = if 'A' <= y && y <= 'Z' { ((y as u8) + 32) as char } else { y };
        if lx != ly {
            return false;
        }
        i = i + 1;
    }
    true
}

/// Whether the secret key that `private_key` spells in hex (after any leading `0x` tags)
/// derives an address equal to `expected_address` but for ASCII case.
pub fn verify_key_address_pair(private_key: &str, expected_address: &str) -> (r: bool)
    ensures
        r == key_pair_verifies(private_key@, expected_address@),
{
    let body = trim_tags(private_key);
    match hex_decode_str(body) {
        None => false,
        Some(secret) => match derive_address(secret.as_slice(), false) {
            None => false,
            Some(address) => eq_ignore_ascii_case(address.as_str(), expected_address),
        },
    }
}

/// The key text `0x` followed by the lower-case hex of a secret key.
pub open spec fn key_text(secret: Seq<u8>) -> Seq<char> {
    seq!['0', 'x'] + hex_lower(secret)
}

/// A nibble character, in either case, lower-cases to the lower-case one.
proof fn lemma_nibble_lowers(n: u8, upper: bool)
    requires
        n < 16,
    ensures
        ascii_lower(nibble_char(n, upper)) == nibble_char(n, false),
        ascii_lower(nibble_char(n, false)) == nibble_char(n, false),
{
}

/// Mixed-case hex and lower-case hex differ only in the case of ASCII letters, and
/// lower-case hex has no upper-case letter.
pub proof fn lemma_mixed_lowers(b: Seq<u8>)
    ensures
        hex_mixed(b).len() == hex_lower(b).len(),
        forall|i: int|
            0 <= i < hex_lower(b).len() ==> ascii_lower(#[trigger] hex_mixed(b)[i]) == hex_lower(b)[i]
                && ascii_lower(hex_lower(b)[i]) == hex_lower(b)[i],
    decreases b.len(),
{
    if b.len() > 0 {
        let last = b.last();
        lemma_mixed_lowers(b.drop_last());
        lemma_nibble_lowers(last / 16, last % 3 == 0);
        lemma_nibble_lowers(last % 16, last % 2 == 0);
        let m = hex_mixed(b);
        let l = hex_lower(b);
        assert forall|i: int| 0 <= i < l.len() implies ascii_lower(#[trigger] m[i]) == l[i]
            && ascii_lower(l[i]) == l[i] by {
            if i < l.len() - 2 {
                assert(m[i] == hex_mixed(b.drop_last())[i]);
                assert(l[i] == hex_lower(b.drop_last())[i]);
            }
        }
    }
}

/// Derivation and verification agree: the key text of any valid secret key verifies
/// against the address derived from it, in either style.
pub proof fn lemma_derived_pair_verifies(secret: Seq<u8>, preserve_case: bool)
    requires
        is_secret_scalar(secret),
    ensures
        key_pair_verifies(key_text(secret), address_text(secret, preserve_case)),
{
    lemma_hex_round_trip(secret);
    lemma_mixed_lowers(address_bytes(secret));
    let lower = address_text(secret, false);
    let shown = address_text(secret, preserve_case);
    assert forall|i: int| 0 <= i < lower.len() implies ascii_lower(#[trigger] lower[i]) == ascii_lower(shown[i]) by {
        if i >= 2 {
            assert(lower[i] == hex_lower(address_bytes(secret))[i - 2]);
            assert(hex_mixed(address_bytes(secret))[i - 2] == if preserve_case { shown[i] } else { hex_mixed(address_bytes(secret))[i - 2] });
        }
    }
    let t = key_text(secret);
    let h = hex_lower(secret);
    assert(t.subrange(2, t.len() as int) =~= h);
    assert(!has_hex_tag(h)) by {
        if h.len() >= 2 {
            assert(h[1] != 'x');
        }
    }
    assert(trim_hex_tags(h) == h);
    assert(trim_hex_tags(t) == h);
}

} // verus!
