use vstd::prelude::*;
use vstd::string::*;

use crate::address::{
    address_bytes, lemma_mixed_lowers,
    address_text, derive_address, is_secret_scalar, key_pair_verifies, key_text,
    lemma_derived_pair_verifies,
};
use crate::hexfmt::{hex_encode, hex_lower, hex_mixed, lemma_hex_round_trip};
use crate::pattern::{
    ascii_lower, ascii_lowered, has_hex_tag, is_ascii_text, occurs_in, without_hex_tag, address_matches, parse_position, position_named, Position, matches_criteria};
use crate::{VanityError, VanitySearchResult};

verus! {

/// A bounded collection of found keys: it accepts matches, in the order offered, until
/// it holds its target number of them.
pub struct ResultSink {
    matches: Vec<VanitySearchResult>,
    target: usize,
}

impl ResultSink {
    /// The address and key texts accepted so far, in order of acceptance.
    pub closed spec fn held(&self) -> Seq<(Seq<char>, Seq<char>)> {
        self.matches@.map_values(|m: VanitySearchResult| m.pair())
    }

    /// The number of matches the sink accepts.
    pub closed spec fn capacity(&self) -> nat {
        self.target as nat
    }

    /// The sink never holds more than its capacity.
    pub open spec fn wf(&self) -> bool {
        self.held().len() <= self.capacity()
    }

    /// An empty sink that accepts `target` matches.
    pub fn new(target: usize) -> (r: ResultSink)
        ensures
            r.wf(),
            r.held() == Seq::<(Seq<char>, Seq<char>)>::empty(),
            r.capacity() == target,
    {
        let r = ResultSink { matches: Vec::new(), target };
        assert(r.held() =~= Seq::<(Seq<char>, Seq<char>)>::empty());
        r
    }

    /// Accepts `m` if the sink is not full yet, and says whether it did.
    pub fn try_add(&mut self, m: VanitySearchResult) -> (r: bool)
        requires
            old(self).wf(),
        ensures
            final(self).wf(),
            final(self).capacity() == old(self).capacity(),
            r == (old(self).held().len() < old(self).capacity()),
            r ==> final(self).held() == old(self).held().push(m.pair()),
            !r ==> final(self).held() == old(self).held(),
    {
        if self.matches.len() < self.target {
            let ghost p = m.pair();
            self.matches.push(m);
            assert(self.held() =~= old(self).held().push(p));
            true
        } else {
            false
        }
    }

    /// Whether the sink holds its target number of matches.
    pub fn is_full(&self) -> (r: bool)
        requires
            self.wf(),
        ensures
            r == (self.held().len() == self.capacity()),
    {
        self.matches.len() >= self.target
    }

    /// The number of matches accepted so far.
    pub fn len(&self) -> (r: usize)
        ensures
            r == self.held().len(),
    {
        self.matches.len()
    }

    /// The accepted matches, in order of acceptance.
    pub fn snapshot(self) -> (r: Vec<VanitySearchResult>)
        ensures
            r@.map_values(|m: VanitySearchResult| m.pair()) == self.held(),
    {
        self.matches
    }
}

/// What a search looks for. A valid one has a non-empty pattern and a positive target.
pub struct SearchCriteria {
    pub pattern: String,
    pub position: Position,
    pub case_sensitive: bool,
    pub target_count: usize,
}

impl SearchCriteria {
    /// Criteria that a search can start from.
    pub open spec fn valid(&self) -> bool {
        self.pattern@.len() > 0 && self.target_count > 0
    }

    /// Criteria for `pattern`, or `InvalidCriteria` when the pattern is empty or the
    /// target is zero.
    pub fn new(pattern: &str, position: Position, case_sensitive: bool, target_count: usize) -> (r:
        Result<SearchCriteria, VanityError>)
        ensures
            pattern@.len() > 0 && target_count > 0 ==> r is Ok && r->Ok_0.pattern@ == pattern@
                && r->Ok_0.position == position && r->Ok_0.case_sensitive == case_sensitive
                && r->Ok_0.target_count == target_count,
            !(pattern@.len() > 0 && target_count > 0) ==> r == Err::<SearchCriteria, VanityError>(
                VanityError::InvalidCriteria,
            ),
    {
        if pattern.unicode_len() == 0 || target_count == 0 {
            return Err(VanityError::InvalidCriteria);
        }
        Ok(SearchCriteria { pattern: pattern.to_owned(), position, case_sensitive, target_count })
    }
}

/// A secret key that yields a match: its address, in the style that the case policy
/// calls for, satisfies the pattern.
pub open spec fn secret_matches(
    secret: Seq<u8>,
    pattern: Seq<char>,
    position: Position,
    case_sensitive: bool,
) -> bool {
    is_secret_scalar(secret) && address_matches(
        address_text(secret, case_sensitive),
        pattern,
        position,
        case_sensitive,
    )
}

/// The record of a matching secret key: its address and its key text.
pub open spec fn match_of(secret: Seq<u8>, case_sensitive: bool) -> (Seq<char>, Seq<char>) {
    (address_text(secret, case_sensitive), key_text(secret))
}

/// The records of the matching keys among `candidates`, in their order.
pub open spec fn matches_among(
    candidates: Seq<Seq<u8>>,
    pattern: Seq<char>,
    position: Position,
    case_sensitive: bool,
) -> Seq<(Seq<char>, Seq<char>)>
    decreases candidates.len(),
{
    if candidates.len() == 0 {
        Seq::empty()
    } else {
        let earlier = matches_among(candidates.drop_last(), pattern, position, case_sensitive);
        let last = candidates.last();
        if secret_matches(last, pattern, position, case_sensitive) {
            earlier.push(match_of(last, case_sensitive))
        } else {
            earlier
        }
    }
}

/// The first `n` elements of `s`, or all of them when there are fewer.
pub open spec fn first_at_most<A>(s: Seq<A>, n: nat) -> Seq<A> {
    if s.len() <= n {
        s
    } else {
        s.take(n as int)
    }
}

/// The match record for a secret key when it is valid and its address satisfies the
/// criteria.
pub fn try_candidate(secret: &[u8], criteria: &SearchCriteria) -> (r: Option<VanitySearchResult>)
    ensures
        r is Some <==> secret_matches(
            secret@,
            criteria.pattern@,
            criteria.position,
            criteria.case_sensitive,
        ),
        r is Some ==> r->0.pair() == match_of(secret@, criteria.case_sensitive),
{
    match derive_address(secret, criteria.case_sensitive) {
        None => None,
        Some(address) => {
            if matches_criteria(
                address.as_str(),
                criteria.pattern.as_str(),
                criteria.position,
                criteria.case_sensitive,
            ) {
                let key = "0x".to_owned().concat(hex_encode(secret).as_str());
                proof {
                    reveal_strlit("0x");
                    assert(key@ =~= key_text(secret@));
                }
                Some(VanitySearchResult { private_key: key, address })
            } else {
                None
            }
        },
    }
}

/// The first `n` matches among `draws` with one more draw `d` after them: the match of
/// `d` joins when it is one and fewer than `n` were kept before.
pub proof fn lemma_kept_after_draw(
    draws: Seq<Seq<u8>>,
    d: Seq<u8>,
    pattern: Seq<char>,
    position: Position,
    case_sensitive: bool,
    n: nat,
)
    ensures
        ({
            let before = first_at_most(matches_among(draws, pattern, position, case_sensitive), n);
            let after = first_at_most(
                matches_among(draws.push(d), pattern, position, case_sensitive),
                n,
            );
            after == if before.len() < n && secret_matches(d, pattern, position, case_sensitive) {
                before.push(match_of(d, case_sensitive))
            } else {
                before
            }
        }),
{
    let all = draws.push(d);
    assert(all.drop_last() =~= draws);
    let earlier = matches_among(draws, pattern, position, case_sensitive);
    let later = matches_among(all, pattern, position, case_sensitive);
    if later.len() > earlier.len() && earlier.len() >= n {
        assert(later.take(n as int) =~= earlier.take(n as int));
    }
}

/// One search step: offers the drawn secret key `draw` to `sink`. A failed draw
/// (`None`) leaves the sink as it was and reports `EntropySourceUnavailable`; a drawn key
/// is tried only while the sink is not full, and its match record joins the sink exactly
/// when the key matches `criteria`. The result says whether a record joined.
pub fn offer_draw(sink: &mut ResultSink, draw: Option<&[u8]>, criteria: &SearchCriteria) -> (r:
    Result<bool, VanityError>)
    requires
        old(sink).wf(),
    ensures
        final(sink).wf(),
        final(sink).capacity() == old(sink).capacity(),
        draw is None ==> r == Err::<bool, VanityError>(VanityError::EntropySourceUnavailable)
            && final(sink).held() == old(sink).held(),
        draw is Some ==> r is Ok && (r->Ok_0 <==> (old(sink).held().len() < old(sink).capacity()
            && secret_matches(
            draw->0@,
            criteria.pattern@,
            criteria.position,
            criteria.case_sensitive,
        ))) && final(sink).held() == (if r->Ok_0 {
            old(sink).held().push(match_of(draw->0@, criteria.case_sensitive))
        } else {
            old(sink).held()
        }),
{
    match draw {
        None => Err(VanityError::EntropySourceUnavailable),
        Some(secret) => {
            if sink.is_full() {
                return Ok(false);
            }
            match try_candidate(secret, criteria) {
                Some(m) => Ok(sink.try_add(m)),
                None => Ok(false),
            }
        },
    }
}

/// The matches among `candidates`, tried in order, until `criteria`'s target count of
/// them is reached.
pub fn search_candidates(candidates: &Vec<Vec<u8>>, criteria: &SearchCriteria) -> (r: Vec<
    VanitySearchResult,
>)
    ensures
        r@.map_values(|m: VanitySearchResult| m.pair()) == first_at_most(
            matches_among(
                candidates@.map_values(|c: Vec<u8>| c@),
                criteria.pattern@,
                criteria.position,
                criteria.case_sensitive,
            ),
            criteria.target_count as nat,
        ),
{
    let ghost keys = candidates@.map_values(|c: Vec<u8>| c@);
    let mut sink = ResultSink::new(criteria.target_count);
    let mut i: usize = 0;
    while i < candidates.len()
        invariant
            i <= candidates@.len(),
            keys == candidates@.map_values(|c: Vec<u8>| c@),
            sink.wf(),
            sink.capacity() == criteria.target_count,
            sink.held() == first_at_most(
                matches_among(keys.take(i as int), criteria.pattern@, criteria.position, criteria.case_sensitive),
                criteria.target_count as nat,
            ),
        decreases candidates@.len() - i,
    {
        proof {
            assert(keys.take(i + 1) =~= keys.take(i as int).push(candidates@[i as int]@));
            lemma_kept_after_draw(
                keys.take(i as int),
                candidates@[i as int]@,
                criteria.pattern@,
                criteria.position,
                criteria.case_sensitive,
                criteria.target_count as nat,
            );
        }
        let _ = offer_draw(&mut sink, Some(candidates[i].as_slice()), criteria);
        i = i + 1;
    }
    proof {
        assert(keys.take(candidates@.len() as int) =~= keys);
    }
    sink.snapshot()
}

/// A record that some matching secret key yields.
pub open spec fn found_record(
    record: (Seq<char>, Seq<char>),
    pattern: Seq<char>,
    position: Position,
    case_sensitive: bool,
) -> bool {
    exists|secret: Seq<u8>|
        secret_matches(secret, pattern, position, case_sensitive) && record == #[trigger] match_of(
            secret,
            case_sensitive,
        )
}

/// Relies on rand's `OsRng::try_fill_bytes`, which fills the whole buffer from the
/// operating system's entropy source or reports that the source failed.
#[verifier::external_body]
fn random_secret() -> (r: Option<Vec<u8>>)
    ensures
        r is Some ==> r->0@.len() == 32,
{
    let mut key = [0u8; 32];
    match rand::RngCore::try_fill_bytes(&mut rand::rngs::OsRng, &mut key) {
        Ok(()) => Some(key.to_vec()),
        Err(_) => None,
    }
}

/// One attempt: draws a fresh secret key from the operating system and gives its match
/// record when it satisfies `criteria`.
pub fn next_candidate(criteria: &SearchCriteria) -> (r: Result<Option<VanitySearchResult>, VanityError>)
    ensures
        r is Err ==> r == Err::<Option<VanitySearchResult>, VanityError>(
            VanityError::EntropySourceUnavailable,
        ),
        r is Ok && r->Ok_0 is Some ==> found_record(
            r->Ok_0->0.pair(),
            criteria.pattern@,
            criteria.position,
            criteria.case_sensitive,
        ),
{
    match random_secret() {
        None => Err(VanityError::EntropySourceUnavailable),
        Some(secret) => {
            let found = try_candidate(secret.as_slice(), criteria);
            proof {
                if found is Some {
                    assert(match_of(secret@, criteria.case_sensitive) == found->0.pair());
                }
            }
            Ok(found)
        },
    }
}

/// The address and key texts of a sequence of found keys.
pub open spec fn records(v: Seq<VanitySearchResult>) -> Seq<(Seq<char>, Seq<char>)> {
    v.map_values(|m: VanitySearchResult| m.pair())
}

/// What a search that made the draws `draws` may return: the first matches among them,
/// at most `max_addresses`, from at most `max_attempts` draws, and all `max_attempts` of
/// them unless the target was reached.
pub open spec fn outcome_of_draws(
    draws: Seq<Seq<u8>>,
    pattern: Seq<char>,
    position: Position,
    case_sensitive: bool,
    max_addresses: nat,
    max_attempts: nat,
    results: Seq<(Seq<char>, Seq<char>)>,
) -> bool {
    draws.len() <= max_attempts && results == first_at_most(
        matches_among(draws, pattern, position, case_sensitive),
        max_addresses,
    ) && (results.len() < max_addresses ==> draws.len() == max_attempts)
}

/// What a search may return from some sequence of draws, as `outcome_of_draws` says.
pub open spec fn outcome_of_some_draws(
    pattern: Seq<char>,
    position: Position,
    case_sensitive: bool,
    max_addresses: nat,
    max_attempts: nat,
    results: Seq<(Seq<char>, Seq<char>)>,
) -> bool {
    exists|draws: Seq<Seq<u8>>|
        #[trigger] outcome_of_draws(
            draws,
            pattern,
            position,
            case_sensitive,
            max_addresses,
            max_attempts,
            results,
        )
}

/// Searches fresh random keys for addresses that satisfy `pattern` at `position`
/// (`prefix`, `suffix`, `contains` or `anywhere`), until `max_addresses` are found or
/// `max_attempts` keys have been tried. Criteria with an empty pattern, no match wanted
/// or an unknown position are refused before any key is drawn; a failing entropy
/// source ends the search.
pub fn search_vanity_address(
    pattern: &str,
    position: &str,
    case_sensitive: bool,
    max_addresses: u32,
    max_attempts: u64,
) -> (r: Result<Vec<VanitySearchResult>, VanityError>)
    ensures
        (r == Err::<Vec<VanitySearchResult>, VanityError>(VanityError::InvalidCriteria)) <==> (
        pattern@.len() == 0 || max_addresses == 0 || position_named(position@) is None),
        r is Err ==> r == Err::<Vec<VanitySearchResult>, VanityError>(VanityError::InvalidCriteria)
            || r == Err::<Vec<VanitySearchResult>, VanityError>(
            VanityError::EntropySourceUnavailable,
        ),
        pattern@.len() > 0 && max_addresses > 0 && position_named(position@) is Some
            && max_attempts == 0 ==> r is Ok && r->Ok_0@.len() == 0,
        r is Ok ==> pattern@.len() > 0 && max_addresses > 0 && position_named(position@) is Some,
        r is Ok ==> r->Ok_0@.len() <= max_addresses,
        r is Ok ==> outcome_of_some_draws(
            pattern@,
            position_named(position@)->0,
            case_sensitive,
            max_addresses as nat,
            max_attempts as nat,
            records(r->Ok_0@),
        ),
        r is Ok ==> forall|i: int|
            0 <= i < r->Ok_0@.len() ==> found_record(
                #[trigger] r->Ok_0@[i].pair(),
                pattern@,
                position_named(position@)->0,
                case_sensitive,
            ),
{
    let place = match parse_position(position) {
        Some(p) => p,
        None => return Err(VanityError::InvalidCriteria),
    };
    let criteria = match SearchCriteria::new(pattern, place, case_sensitive, max_addresses as usize) {
        Ok(c) => c,
        Err(_) => return Err(VanityError::InvalidCriteria),
    };
    let mut sink = ResultSink::new(max_addresses as usize);
    let ghost mut draws: Seq<Seq<u8>> = Seq::empty();
    let mut attempts: u64 = 0;
    while attempts < max_attempts && !sink.is_full()
        invariant
            sink.wf(),
            sink.capacity() == max_addresses,
            criteria.pattern@ == pattern@,
            criteria.position == place,
            criteria.case_sensitive == case_sensitive,
            criteria.target_count == max_addresses,
            pattern@.len() > 0,
            max_addresses > 0,
            position_named(position@) == Some(place),
            attempts <= max_attempts,
            draws.len() == attempts,
            sink.held() == first_at_most(
                matches_among(draws, pattern@, place, case_sensitive),
                max_addresses as nat,
            ),
            forall|j: int|
                0 <= j < sink.held().len() ==> found_record(
                    #[trigger] sink.held()[j],
                    pattern@,
                    place,
                    case_sensitive,
                ),
        decreases max_attempts - attempts,
    {
        let drawn = random_secret();
        let ghost before = sink.held();
        let offered = match &drawn {
            Some(secret) => offer_draw(&mut sink, Some(secret.as_slice()), &criteria),
            None => offer_draw(&mut sink, None, &criteria),
        };
        if offered.is_err() {
            return Err(VanityError::EntropySourceUnavailable);
        }
        proof {
            let d = drawn->0@;
            lemma_kept_after_draw(draws, d, pattern@, place, case_sensitive, max_addresses as nat);
            if sink.held() != before {
                assert(match_of(d, case_sensitive) == sink.held()[before.len() as int]);
                assert forall|j: int| 0 <= j < sink.held().len() implies found_record(
                    #[trigger] sink.held()[j],
                    pattern@,
                    place,
                    case_sensitive,
                ) by {
                    if j < before.len() {
                        assert(sink.held()[j] == before[j]);
                    }
                }
            }
            draws = draws.push(d);
        }
        attempts = attempts + 1;
    }
    let found = sink.snapshot();
    proof {
        assert(outcome_of_draws(
            draws,
            pattern@,
            place,
            case_sensitive,
            max_addresses as nat,
            max_attempts as nat,
            records(found@),
        ));
        assert forall|i: int| 0 <= i < found@.len() implies found_record(
            #[trigger] found@[i].pair(),
            pattern@,
            place,
            case_sensitive,
        ) by {
            assert(found@.map_values(|m: VanitySearchResult| m.pair())[i] == found@[i].pair());
        }
        assert(outcome_of_some_draws(
            pattern@,
            position_named(position@)->0,
            case_sensitive,
            max_addresses as nat,
            max_attempts as nat,
            records(found@),
        ));
    }
    Ok(found)
}

/// A search over a list of candidates returns exactly the smaller of its target count
/// and the number of matching candidates, never more than the target.
pub proof fn lemma_candidate_search_count(
    candidates: Seq<Seq<u8>>,
    pattern: Seq<char>,
    position: Position,
    case_sensitive: bool,
    target: nat,
)
    ensures
        ({
            let found = matches_among(candidates, pattern, position, case_sensitive);
            let kept = first_at_most(found, target);
            kept.len() <= target && (found.len() >= target ==> kept.len() == target) && (found.len()
                < target ==> kept == found)
        }),
{
}

/// Every record that a search can return satisfies its criteria, and its key text
/// verifies against its address.
pub proof fn lemma_found_record_is_sound(
    record: (Seq<char>, Seq<char>),
    pattern: Seq<char>,
    position: Position,
    case_sensitive: bool,
)
    requires
        found_record(record, pattern, position, case_sensitive),
    ensures
        address_matches(record.0, pattern, position, case_sensitive),
        key_pair_verifies(record.1, record.0),
{
    let secret = choose|secret: Seq<u8>|
        secret_matches(secret, pattern, position, case_sensitive) && record == #[trigger] match_of(
            secret,
            case_sensitive,
        );
    lemma_derived_pair_verifies(secret, case_sensitive);
}

/// A record found by a case-insensitive search for a run anywhere: its address is `0x`
/// and lower-case hex whose body holds the pattern, lower-cased, as a contiguous run;
/// and its key text verifies against it.
pub proof fn lemma_found_holds_pattern(record: (Seq<char>, Seq<char>), pattern: Seq<char>)
    requires
        found_record(record, pattern, Position::Contains, false),
        is_ascii_text(pattern),
    ensures
        has_hex_tag(record.0),
        occurs_in(without_hex_tag(record.0), ascii_lowered(pattern)),
        key_pair_verifies(record.1, record.0),
{
    let secret = choose|secret: Seq<u8>|
        secret_matches(secret, pattern, Position::Contains, false) && record == #[trigger] match_of(
            secret,
            false,
        );
    lemma_derived_pair_verifies(secret, false);
    let digest = address_bytes(secret);
    lemma_hex_round_trip(digest);
    lemma_mixed_lowers(digest);
    let body = without_hex_tag(record.0);
    assert(body =~= hex_lower(digest));
    assert(is_ascii_text(body)) by {
        assert forall|i: int| 0 <= i < body.len() implies (#[trigger] body[i] as u32) < 128 by {
            assert(hex_lower(digest)[i] == body[i]);
        }
    }
    assert(ascii_lowered(body) =~= body) by {
        assert forall|i: int| 0 <= i < body.len() implies ascii_lowered(body)[i] == body[i] by {
            assert(ascii_lower(hex_mixed(digest)[i]) == hex_lower(digest)[i]);
            assert(hex_lower(digest)[i] == body[i]);
        }
    }
}

} // verus!
