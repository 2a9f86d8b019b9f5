use vstd::prelude::*;
use vstd::string::*;

verus! {

/// The character that stands for the nibble `n` (`0..16`): a decimal digit, or a
/// letter `a`..`f` (upper case when `upper` holds).
pub open spec fn nibble_char(n: u8, upper: bool) -> char {
    if n < 10 {
        (n + 48) as char
    } else if upper {
        (n + 55) as char
    } else {
        (n + 87) as char
    }
}

/// Lower-case hex of a byte sequence: two characters per byte, high nibble first.
pub open spec fn hex_lower(b: Seq<u8>) -> Seq<char>
    decreases b.len(),
{
    if b.len() == 0 {
        Seq::empty()
    } else {
        let last = b.last();
        hex_lower(b.drop_last()) + seq![nibble_char(last / 16, false), nibble_char(last % 16, false)]
    }
}

fn digit(n: u8, upper: bool) -> (c: char)
    requires
        n < 16,
    ensures
        c == nibble_char(n, upper),
{
    if n < 10 {
        (n + 48) as char
    } else if upper {
        (n + 55) as char
    } else {
        (n + 87) as char
    }
}


/// Hex of a byte sequence in the mixed-case style: a letter for the high nibble is upper
/// case when the byte is a multiple of three, one for the low nibble when it is even.
pub open spec fn hex_mixed(b: Seq<u8>) -> Seq<char>
    decreases b.len(),
{
    if b.len() == 0 {
        Seq::empty()
    } else {
        let last = b.last();
        hex_mixed(b.drop_last()) + seq![
            nibble_char(last / 16, last % 3 == 0),
            nibble_char(last % 16, last % 2 == 0),
        ]
    }
}

/// A hex digit of either case.
pub open spec fn is_hex_char(c: char) -> bool {
    ('0' <= c && c <= '9') || ('a' <= c && c <= 'f') || ('A' <= c && c <= 'F')
}

/// The value of a hex digit.
pub open spec fn hex_value(c: char) -> int {
    if c <= '9' {
        c as int - 48
    } else if c <= 'F' {
        c as int - 55
    } else {
        c as int - 87
    }
}

/// Text that decodes as hex: an even number of hex digits.
pub open spec fn hex_decodes(t: Seq<char>) -> bool {
    t.len() % 2 == 0 && forall|i: int| 0 <= i < t.len() ==> is_hex_char(#[trigger] t[i])
}

/// The bytes that hex text stands for, two digits per byte, high nibble first.
pub open spec fn hex_decode(t: Seq<char>) -> Seq<u8>
    decreases t.len(),
{
    if t.len() < 2 {
        Seq::empty()
    } else {
        let n = t.len();
        hex_decode(t.subrange(0, n - 2)).push(
            (16 * hex_value(t[n - 2]) + hex_value(t[n - 1])) as u8,
        )
    }
}

/// Relies on `String::push`: the character is appended at the end.
#[verifier::external_body]
pub(crate) fn push_char(s: &mut String, c: char)
    ensures
        final(s)@ == old(s)@.push(c),
{
    s.push(c)
}

/// Relies on `hex::encode`: two lower-case digits per byte, high nibble first.
#[verifier::external_body]
pub(crate) fn hex_encode(b: &[u8]) -> (r: String)
    ensures
        r@ == hex_lower(b@),
{
    hex::encode(b)
}

/// Relies on `hex::decode`: it accepts exactly an even number of hex digits of either
/// case, and gives the bytes that they stand for.
#[verifier::external_body]
pub(crate) fn hex_decode_str(t: &str) -> (r: Option<Vec<u8>>)
    ensures
        r is Some <==> hex_decodes(t@),
        r is Some ==> r->0@ == hex_decode(t@),
{
    hex::decode(t).ok()
}

/// Hex text of `bytes` in the mixed-case style of `hex_mixed`.
pub fn encode_mixed_case(bytes: &[u8]) -> (r: String)
    ensures
        r@ == hex_mixed(bytes@),
{
    let mut result = String::new();
    let mut i: usize = 0;
    while i < bytes.len()
        invariant
            i <= bytes@.len(),
            result@ == hex_mixed(bytes@.subrange(0, i as int)),
        decreases bytes@.len() - i,
    {
        let byte = bytes[i];
        let high = byte / 16;
        let low = byte % 16;
        push_char(&mut result, digit(high, byte % 3 == 0));
        push_char(&mut result, digit(low, byte % 2 == 0));
        proof {
            let next = bytes@.subrange(0, i + 1);
            assert(next.drop_last() =~= bytes@.subrange(0, i as int));
            assert(next.last() == byte);
        }
        i = i + 1;
    }
    proof {
        assert(bytes@.subrange(0, bytes@.len() as int) =~= bytes@);
    }
    result
}

/// Nibble characters in lower case read back as their value.
pub proof fn lemma_nibble_round_trip(n: u8)
    requires
        n < 16,
    ensures
        is_hex_char(nibble_char(n, false)),
        hex_value(nibble_char(n, false)) == n,
{
}

/// Lower-case hex always decodes, and decodes back to the bytes it was made from.
pub proof fn lemma_hex_round_trip(b: Seq<u8>)
    ensures
        hex_lower(b).len() == 2 * b.len(),
        hex_decodes(hex_lower(b)),
        hex_decode(hex_lower(b)) == b,
        forall|i: int| 0 <= i < hex_lower(b).len() ==> #[trigger] hex_lower(b)[i] != 'x',
    decreases b.len(),
{
    if b.len() > 0 {
        let last = b.last();
        lemma_hex_round_trip(b.drop_last());
        lemma_nibble_round_trip(last / 16);
        lemma_nibble_round_trip(last % 16);
        let h = hex_lower(b);
        let n = h.len();
        assert(h.subrange(0, n - 2) =~= hex_lower(b.drop_last()));
        assert(b.drop_last().push(last) =~= b);
        assert forall|i: int| 0 <= i < h.len() implies is_hex_char(#[trigger] h[i]) && h[i] != 'x' by {
            if i < n - 2 {
                assert(h[i] == hex_lower(b.drop_last())[i]);
            }
        }
    }
}

} // verus!
