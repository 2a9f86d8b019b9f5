use vstd::prelude::*;
use vstd::string::*;

use crate::hexfmt::{is_hex_char, push_char};

verus! {

/// Where in an address a pattern has to stand.
#[derive(Debug, Clone, Copy, PartialEq, Eq, Structural)]
pub enum Position {
    /// At the start, right after the `0x` tag.
    Prefix,
    /// At the end.
    Suffix,
    /// Anywhere, as a contiguous run.
    Contains,
}

/// The position that a command word names: `prefix`, `suffix`, and `contains` or
/// `anywhere` for a run in any place.
pub open spec fn position_named(word: Seq<char>) -> Option<Position> {
    if word == "prefix"@ {
        Some(Position::Prefix)
    } else if word == "suffix"@ {
        Some(Position::Suffix)
    } else if word == "contains"@ || word == "anywhere"@ {
        Some(Position::Contains)
    } else {
        None
    }
}

/// Whether `s` begins with the tag `0x`.
pub open spec fn has_hex_tag(s: Seq<char>) -> bool {
    s.len() >= 2 && s[0] == '0' && s[1] == 'x'
}

/// `s` without a leading `0x` tag.
pub open spec fn without_hex_tag(s: Seq<char>) -> Seq<char> {
    if has_hex_tag(s) {
        s.subrange(2, s.len() as int)
    } else {
        s
    }
}

/// `p` stands in `s` from index `i` on.
pub open spec fn occurs_at(s: Seq<char>, p: Seq<char>, i: int) -> bool {
    0 <= i && i + p.len() <= s.len() && s.subrange(i, i + p.len()) == p
}

/// `p` stands somewhere in `s`.
pub open spec fn occurs_in(s: Seq<char>, p: Seq<char>) -> bool {
    exists|i: int| occurs_at(s, p, i)
}

/// `p` stands in `s` at the place that `position` asks for.
pub open spec fn placed(s: Seq<char>, p: Seq<char>, position: Position) -> bool {
    match position {
        Position::Prefix => occurs_at(s, p, 0),
        Position::Suffix => occurs_at(s, p, s.len() - p.len()),
        Position::Contains => occurs_in(s, p),
    }
}

/// What `str::to_lowercase` makes of a text.
pub uninterp spec fn lower_of(s: Seq<char>) -> Seq<char>;

/// A character with ASCII upper-case letters made lower case.
pub open spec fn ascii_lower(c: char) -> char {
    if 'A' <= c && c <= 'Z' {
        (c as int + 32) as char
    } else {
        c
    }
}

/// Text made of ASCII characters only.
pub open spec fn is_ascii_text(s: Seq<char>) -> bool {
    forall|i: int| 0 <= i < s.len() ==> (#[trigger] s[i] as u32) < 128
}

/// Text with its ASCII upper-case letters made lower case.
pub open spec fn ascii_lowered(s: Seq<char>) -> Seq<char> {
    s.map_values(|c: char| ascii_lower(c))
}

/// Whether an address satisfies a pattern: its `0x` tag is set aside and, unless the
/// match is case sensitive, both sides are lower-cased first (for ASCII text, by
/// lowering `A`..`Z`).
pub open spec fn address_matches(
    address: Seq<char>,
    pattern: Seq<char>,
    position: Position,
    case_sensitive: bool,
) -> bool {
    let body = without_hex_tag(address);
    if case_sensitive {
        placed(body, pattern, position)
    } else if is_ascii_text(body) && is_ascii_text(pattern) {
        placed(ascii_lowered(body), ascii_lowered(pattern), position)
    } else {
        placed(lower_of(body), lower_of(pattern), position)
    }
}

/// The character at index `i` of an address body after mixed-case styling: a letter
/// `a`..`f` at an index that is a multiple of three becomes upper case.
pub open spec fn styled_char(c: char, i: int) -> char {
    if 'a' <= c && c <= 'f' && i % 3 == 0 {
        (c as int - 32) as char
    } else {
        c
    }
}

/// An address with the mixed-case styling applied to what follows its `0x` tag; text
/// without the tag stays as it is.
pub open spec fn styled_address(a: Seq<char>) -> Seq<char> {
    if has_hex_tag(a) {
        seq!['0', 'x'] + Seq::new((a.len() - 2) as nat, |i: int| styled_char(a[i + 2], i))
    } else {
        a
    }
}

/// Relies on `str::to_lowercase`, whose result depends on the characters alone; under
/// Unicode's case mapping an ASCII character lowers to one character, `A`..`Z` to
/// `a`..`z` and every other one to itself.
#[verifier::external_body]
fn lowercase(s: &str) -> (r: String)
    ensures
        r@ == lower_of(s@),
        is_ascii_text(s@) ==> r@ == ascii_lowered(s@),
{
    s.to_lowercase()
}

/// Whether two texts hold the same characters.
pub fn same_text(a: &str, b: &str) -> (r: bool)
    ensures
        r == (a@ == b@),
{
    let n = a.unicode_len();
    if n != b.unicode_len() {
        return false;
    }
    let mut i: usize = 0;
    while i < n
        invariant
            n == a@.len(),
            n == b@.len(),
            i <= n,
            forall|j: int| 0 <= j < i ==> a@[j] == b@[j],
        decreases n - i,
    {
        if a.get_char(i) != b.get_char(i) {
            return false;
        }
        i = i + 1;
    }
    assert(a@ =~= b@);
    true
}

/// The position that a command word names, if any.
pub fn parse_position(word: &str) -> (r: Option<Position>)
    ensures
        r == position_named(word@),
{
    proof {
        reveal_strlit("prefix");
        reveal_strlit("suffix");
        reveal_strlit("contains");
        reveal_strlit("anywhere");
    }
    if same_text(word, "prefix") {
        Some(Position::Prefix)
    } else if same_text(word, "suffix") {
        Some(Position::Suffix)
    } else if same_text(word, "contains") || same_text(word, "anywhere") {
        Some(Position::Contains)
    } else {
        None
    }
}

/// Whether `p` stands in `s` from index `start` on.
fn occurs_at_index(s: &str, p: &str, start: usize) -> (r: bool)
    ensures
        r == occurs_at(s@, p@, start as int),
{
    let n = s.unicode_len();
    let m = p.unicode_len();
    if start > n || m > n - start {
        return false;
    }
    let mut j: usize = 0;
    while j < m
        invariant
            n == s@.len(),
            m == p@.len(),
            start + m <= n,
            j <= m,
            forall|k: int| 0 <= k < j ==> s@[start + k] == p@[k],
        decreases m - j,
    {
        if s.get_char(start + j) != p.get_char(j) {
            assert(s@.subrange(start as int, start + m)[j as int] != p@[j as int]);
            return false;
        }
        j = j + 1;
    }
    assert(s@.subrange(start as int, start + m) =~= p@);
    true
}

/// Whether `pattern` stands in `text` where `position` asks, character for character.
pub fn matches_exact(text: &str, pattern: &str, position: Position) -> (r: bool)
    ensures
        r == placed(text@, pattern@, position),
{
    let n = text.unicode_len();
    let m = pattern.unicode_len();
    match position {
        Position::Prefix => occurs_at_index(text, pattern, 0),
        Position::Suffix => {
            if m > n {
                false
            } else {
                occurs_at_index(text, pattern, n - m)
            }
        },
        Position::Contains => {
            if m > n {
                return false;
            }
            if m == 0 {
                assert(text@.subrange(0, 0) =~= pattern@);
                assert(occurs_at(text@, pattern@, 0));
                assert(occurs_in(text@, pattern@));
                return true;
            }
            let mut i: usize = 0;
            while i <= n - m
                invariant
                    n == text@.len(),
                    m == pattern@.len(),
                    0 < m <= n,
                    position == Position::Contains,
                    i <= n - m + 1,
                    forall|k: int| 0 <= k < i ==> !occurs_at(text@, pattern@, k),
                decreases n - m + 1 - i,
            {
                if occurs_at_index(text, pattern, i) {
                    assert(occurs_at(text@, pattern@, i as int));
                    assert(occurs_in(text@, pattern@));
                    return true;
                }
                i = i + 1;
            }
            assert forall|k: int| !occurs_at(text@, pattern@, k) by {
                if 0 <= k < i {
                } 
            }
            false
        },
    }
}

/// The address body: `address` without its `0x` tag.
fn strip_hex_tag(address: &str) -> (r: &str)
    ensures
        r@ == without_hex_tag(address@),
{
    let n = address.unicode_len();
    if n >= 2 && address.get_char(0) == '0' && address.get_char(1) == 'x' {
        address.substring_char(2, n)
    } else {
        address
    }
}

/// Whether `address` satisfies `pattern` at `position`: the `0x` tag is set aside and,
/// unless `case_sensitive`, both sides are lower-cased. A position word that names no
/// position never matches.
pub fn matches_pattern(address: &str, pattern: &str, position: &str, case_sensitive: bool) -> (r: bool)
    ensures
        r == match position_named(position@) {
            Some(p) => address_matches(address@, pattern@, p, case_sensitive),
            None => false,
        },
{
    match parse_position(position) {
        Some(p) => matches_criteria(address, pattern, p, case_sensitive),
        None => false,
    }
}

/// Whether `address` satisfies `pattern` at `position` under the given case policy.
pub fn matches_criteria(address: &str, pattern: &str, position: Position, case_sensitive: bool) -> (r: bool)
    ensures
        r == address_matches(address@, pattern@, position, case_sensitive),
{
    let body = strip_hex_tag(address);
    if case_sensitive {
        matches_exact(body, pattern, position)
    } else {
        let body_lower = lowercase(body);
        let pattern_lower = lowercase(pattern);
        matches_exact(body_lower.as_str(), pattern_lower.as_str(), position)
    }
}

/// Matching is a function of its arguments: two results that `matches_criteria` may give
/// for the same address, pattern, position and case policy are equal.
pub proof fn lemma_matching_is_repeatable(
    address: Seq<char>,
    pattern: Seq<char>,
    position: Position,
    case_sensitive: bool,
    first: bool,
    second: bool,
)
    requires
        first == address_matches(address, pattern, position, case_sensitive),
        second == address_matches(address, pattern, position, case_sensitive),
    ensures
        first == second,
{
}

/// Case-insensitive prefix matching, stated over ASCII: an address with a `0x` tag
/// whose body begins with the pattern, letter case aside, matches it as a prefix.
pub proof fn lemma_prefix_ignores_case(address: Seq<char>, pattern: Seq<char>)
    requires
        has_hex_tag(address),
        is_ascii_text(address),
        is_ascii_text(pattern),
        pattern.len() <= address.len() - 2,
        forall|i: int| 0 <= i < pattern.len() ==> ascii_lower(#[trigger] address[i + 2]) == ascii_lower(pattern[i]),
    ensures
        address_matches(address, pattern, Position::Prefix, false),
{
    let body = without_hex_tag(address);
    assert(is_ascii_text(body)) by {
        assert forall|i: int| 0 <= i < body.len() implies (#[trigger] body[i] as u32) < 128 by {
            assert(body[i] == address[i + 2]);
        }
    }
    assert(ascii_lowered(body).subrange(0, pattern.len() as int) =~= ascii_lowered(pattern)) by {
        assert forall|i: int| 0 <= i < pattern.len() implies ascii_lowered(body)[i] == ascii_lowered(pattern)[i] by {
            assert(body[i] == address[i + 2]);
        }
    }
}

/// Whether every character of `pattern` is a hex digit of either case, so that an
/// address can hold it.
pub fn is_valid_hex_pattern(pattern: &str) -> (r: bool)
    ensures
        r == forall|i: int| 0 <= i < pattern@.len() ==> is_hex_char(#[trigger] pattern@[i]),
{
    let n = pattern.unicode_len();
    let mut i: usize = 0;
    while i < n
        invariant
            n == pattern@.len(),
            i <= n,
            forall|j: int| 0 <= j < i ==> is_hex_char(#[trigger] pattern@[j]),
        decreases n - i,
    {
        let c = pattern.get_char(i);
        if !(('0' <= c && c <= '9') || ('a' <= c && c <= 'f') || ('A' <= c && c <= 'F')) {
            return false;
        }
        i = i + 1;
    }
    true
}

/// The address with mixed-case styling after its `0x` tag, for display when matching
/// is case sensitive. Text without the tag comes back unchanged.
pub fn convert_to_mixed_case(address: &str) -> (r: String)
    ensures
        r@ == styled_address(address@),
{
    let n = address.unicode_len();
    if !(n >= 2 && address.get_char(0) == '0' && address.get_char(1) == 'x') {
        return address.to_owned();
    }
    let mut result = String::new();
    push_char(&mut result, '0');
    push_char(&mut result, 'x');
    let mut i: usize = 2;
    while i < n
        invariant
            n == address@.len(),
            2 <= i <= n,
            result@ == seq!['0', 'x'] + Seq::new((i - 2) as nat, |k: int| styled_char(address@[k + 2], k)),
        decreases n - i,
    {
        let c = address.get_char(i);
        let k = i - 2;
        let shown = if 'a' <= c && c <= 'f' && k % 3 == 0 {
            ((c as u8) - 32) as char
        } else {
            c
        };
        push_char(&mut result, shown);
        proof {
            assert(result@ =~= seq!['0', 'x'] + Seq::new((i + 1 - 2) as nat, |k: int| styled_char(address@[k + 2], k)));
        }
        i = i + 1;
    }
    assert(result@ =~= styled_address(address@));
    result
}

} // verus!
