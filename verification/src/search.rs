//! The vanity search: prefix validation, the single worker attempt,
//! and the loop that returns the first matching keypair's encodings.
use vstd::prelude::*;
use crate::encoding::{
    char_to_u5, chars_to_string, encode, encode_chars, encode_spec, hrp_ok, in_alphabet,
    str_to_chars,
};
use crate::keys::{derive_public, fresh_keypair, is_valid_scalar, pubkey_of, Keypair};

verus! {

/// The human-readable part of an encoded public key.
pub open spec fn npub_hrp() -> Seq<char> {
    seq!['n', 'p', 'u', 'b']
}

/// The human-readable part of an encoded private key.
pub open spec fn nsec_hrp() -> Seq<char> {
    seq!['n', 's', 'e', 'c']
}

/// `pre` is a prefix of `s`.
pub open spec fn seq_starts_with(s: Seq<char>, pre: Seq<char>) -> bool {
    pre.len() <= s.len() && s.subrange(0, pre.len() as int) == pre
}

/// A prefix a caller may search for: non-empty, drawn from the
/// 32-character data alphabet.
pub open spec fn valid_prefix(s: Seq<char>) -> bool {
    s.len() > 0 && forall|i: int| 0 <= i < s.len() ==> in_alphabet(#[trigger] s[i])
}

/// Why a requested prefix was rejected.
#[derive(Debug, Clone, Copy, PartialEq, Eq)]
pub enum ValidationError {
    /// The prefix is empty.
    EmptyPrefix,
    /// The prefix holds this character, which is outside the data
    /// alphabet.
    DisallowedCharacter(char),
}

/// Checks a requested prefix: accepted exactly when it is non-empty
/// and every character belongs to the data alphabet; otherwise the
/// error names the first offending character.
#[verifier::loop_isolation(false)]
pub fn validate_prefix(prefix: &str) -> (r: Result<(), ValidationError>)
    ensures
        r is Ok <==> valid_prefix(prefix@),
        prefix@.len() == 0 <==> r == Result::<(), ValidationError>::Err(
            ValidationError::EmptyPrefix,
        ),
        r matches Err(ValidationError::DisallowedCharacter(c)) ==> exists|i: int|
            0 <= i < prefix@.len() && prefix@[i] == c && !in_alphabet(c) && (forall|j: int|
                0 <= j < i ==> in_alphabet(#[trigger] prefix@[j])),
{
    let chars = str_to_chars(prefix);
    if chars.len() == 0 {
        return Err(ValidationError::EmptyPrefix);
    }
    let mut i: usize = 0;
    while i < chars.len()
        invariant
            i <= chars@.len(),
            forall|j: int| 0 <= j < i ==> in_alphabet(#[trigger] prefix@[j]),
        decreases chars@.len() - i,
    {
        let c = chars[i];
        let v = char_to_u5(c);
        if v >= 32 {
            return Err(ValidationError::DisallowedCharacter(c));
        }
        i = i + 1;
    }
    Ok(())
}

/// Receives the informational matches that a search reports for its
/// additional prefixes. They never affect the search's result.
pub trait VanityObserver {
    /// Called once per generated keypair whose public encoding starts
    /// with `npub1` followed by one of the additional prefixes.
    fn on_additional_match(&mut self, npub: &String, nsec: &String);
}

/// An observer that ignores every informational match.
pub struct SilentObserver;

impl VanityObserver for SilentObserver {
    fn on_additional_match(&mut self, _npub: &String, _nsec: &String) {
    }
}

/// What a search returns: the two encodings of one well-formed keypair,
/// the public one 63 characters long and starting with `npub1` followed
/// by the requested prefix.
pub open spec fn is_vanity_result(prefix: Seq<char>, npub: Seq<char>, nsec: Seq<char>) -> bool {
    &&& seq_starts_with(npub, npub_hrp() + seq!['1'] + prefix)
    &&& npub.len() == 63
    &&& exists|sk: Seq<u8>|
        {
            &&& #[trigger] is_valid_scalar(sk)
            &&& sk.len() == 32
            &&& nsec == encode_spec(nsec_hrp(), sk)
            &&& npub == encode_spec(npub_hrp(), pubkey_of(sk))
        }
}

fn npub_hrp_vec() -> (r: Vec<char>)
    ensures
        r@ == npub_hrp(),
        hrp_ok(r@),
{
    let mut v: Vec<char> = Vec::new();
    v.push('n');
    v.push('p');
    v.push('u');
    v.push('b');
    proof {
        assert(v@ =~= npub_hrp());
        assert(33 <= 'n' as u32 <= 126);
        assert(33 <= 'p' as u32 <= 126);
        assert(33 <= 'u' as u32 <= 126);
        assert(33 <= 'b' as u32 <= 126);
    }
    v
}

fn nsec_hrp_vec() -> (r: Vec<char>)
    ensures
        r@ == nsec_hrp(),
        hrp_ok(r@),
{
    let mut v: Vec<char> = Vec::new();
    v.push('n');
    v.push('s');
    v.push('e');
    v.push('c');
    proof {
        assert(v@ =~= nsec_hrp());
        assert(33 <= 'n' as u32 <= 126);
        assert(33 <= 's' as u32 <= 126);
        assert(33 <= 'e' as u32 <= 126);
        assert(33 <= 'c' as u32 <= 126);
    }
    v
}

/// The characters an encoded public key must start with to match a
/// prefix: `npub1` and then the prefix itself.
#[verifier::loop_isolation(false)]
fn prefix_target(prefix: &str) -> (r: Vec<char>)
    ensures
        r@ == npub_hrp() + seq!['1'] + prefix@,
{
    let mut v: Vec<char> = Vec::new();
    v.push('n');
    v.push('p');
    v.push('u');
    v.push('b');
    v.push('1');
    let chars = str_to_chars(prefix);
    let mut i: usize = 0;
    while i < chars.len()
        invariant
            i <= chars@.len(),
            v@ =~= (npub_hrp() + seq!['1'] + prefix@).subrange(0, 5 + i as int),
        decreases chars@.len() - i,
    {
        v.push(chars[i]);
        proof {
            assert(v@ =~= (npub_hrp() + seq!['1'] + prefix@).subrange(0, 5 + i as int + 1));
        }
        i = i + 1;
    }
    proof {
        assert(v@ =~= npub_hrp() + seq!['1'] + prefix@);
    }
    v
}

/// Whether the characters of `s` start with `pre`.
#[verifier::loop_isolation(false)]
fn starts_with_chars(s: &Vec<char>, pre: &Vec<char>) -> (r: bool)
    ensures
        r == seq_starts_with(s@, pre@),
{
    if pre.len() > s.len() {
        return false;
    }
    let mut i: usize = 0;
    while i < pre.len()
        invariant
            pre@.len() <= s@.len(),
            i <= pre@.len(),
            forall|j: int| 0 <= j < i ==> s@[j] == pre@[j],
        decreases pre@.len() - i,
    {
        if s[i] != pre[i] {
            proof {
                assert(s@.subrange(0, pre@.len() as int)[i as int] != pre@[i as int]);
            }
            return false;
        }
        i = i + 1;
    }
    proof {
        assert(s@.subrange(0, pre@.len() as int) =~= pre@);
    }
    true
}

/// Whether two byte vectors hold the same bytes.
#[verifier::loop_isolation(false)]
fn bytes_eq(a: &Vec<u8>, b: &Vec<u8>) -> (r: bool)
    ensures
        r <==> a@ == b@,
{
    if a.len() != b.len() {
        return false;
    }
    let mut i: usize = 0;
    while i < a.len()
        invariant
            a@.len() == b@.len(),
            i <= a@.len(),
            forall|j: int| 0 <= j < i ==> a@[j] == b@[j],
        decreases a@.len() - i,
    {
        if a[i] != b[i] {
            return false;
        }
        i = i + 1;
    }
    proof {
        assert(a@ =~= b@);
    }
    true
}

/// Tests one keypair against the primary prefix: returns its two
/// encodings exactly when its public encoding starts with `npub1`
/// followed by the prefix, and `None` on every other keypair.
pub fn test_keypair(kp: &Keypair, primary_prefix: &str) -> (r: Option<(String, String)>)
    requires
        kp.wf(),
    ensures
        r is Some <==> seq_starts_with(
            encode_spec(npub_hrp(), kp.public@),
            npub_hrp() + seq!['1'] + primary_prefix@,
        ),
        r matches Some(found) ==> {
            &&& found.0@ == encode_spec(npub_hrp(), kp.public@)
            &&& found.1@ == encode_spec(nsec_hrp(), kp.secret@)
            &&& is_vanity_result(primary_prefix@, found.0@, found.1@)
        },
{
    let npub_hrp_v = npub_hrp_vec();
    let npub_chars = encode_chars(&npub_hrp_v, &kp.public);
    let target = prefix_target(primary_prefix);
    if starts_with_chars(&npub_chars, &target) {
        let nsec_hrp_v = nsec_hrp_vec();
        let npub_s = chars_to_string(&npub_chars);
        let nsec_chars = encode_chars(&nsec_hrp_v, &kp.secret);
        let nsec_s = chars_to_string(&nsec_chars);
        proof {
            assert(is_valid_scalar(kp.secret@));
            assert(npub_s@ == encode_spec(npub_hrp(), pubkey_of(kp.secret@)));
            assert(nsec_s@ == encode_spec(nsec_hrp(), kp.secret@));
        }
        Some((npub_s, nsec_s))
    } else {
        None
    }
}

/// One generate-encode-test cycle of the worker loop: draws a fresh
/// keypair, encodes its public half, reports an informational match for
/// every additional prefix that the encoding starts with, and returns
/// both encodings where the primary prefix matches. Whether it returns
/// a result depends only on the randomly drawn keypair.
#[verifier::loop_isolation(false)]
pub fn search_attempt<O: VanityObserver>(
    primary_prefix: &str,
    additional_prefixes: Option<&[String]>,
    observer: &mut O,
) -> (r: Option<(String, String)>)
    requires
        valid_prefix(primary_prefix@),
    ensures
        r matches Some(found) ==> is_vanity_result(primary_prefix@, found.0@, found.1@),
{
    let kp = fresh_keypair();
    if let Some(prefixes) = additional_prefixes {
        let npub_hrp_v = npub_hrp_vec();
        let nsec_hrp_v = nsec_hrp_vec();
        let npub_chars = encode_chars(&npub_hrp_v, &kp.public);
        let mut i: usize = 0;
        while i < prefixes.len()
            invariant
                i <= prefixes@.len(),
            decreases prefixes@.len() - i,
        {
            let target = prefix_target(prefixes[i].as_str());
            if starts_with_chars(&npub_chars, &target) {
                let npub_s = chars_to_string(&npub_chars);
                let nsec_chars = encode_chars(&nsec_hrp_v, &kp.secret);
                let nsec_s = chars_to_string(&nsec_chars);
                observer.on_additional_match(&npub_s, &nsec_s);
            }
            i = i + 1;
        }
    }
    match test_keypair(&kp, primary_prefix) {
        Some(found) => {
            // the derivation self-check: the public half must re-derive
            // from the secret half
            match derive_public(&kp.secret) {
                Some(rederived) => {
                    if !bytes_eq(&rederived, &kp.public) {
                        return None;
                    }
                },
                None => {
                    return None;
                },
            }
            Some(found)
        },
        None => None,
    }
}

/// The search coordinator: holds the worker count that the outer
/// thread pool is asked to use.
pub struct NostrKeyGenerator {
    thread_count: u32,
}

impl NostrKeyGenerator {
    /// The worker count this coordinator was created with.
    pub closed spec fn spec_thread_count(&self) -> u32 {
        self.thread_count
    }

    pub fn new(thread_count: u32) -> (r: Self)
        ensures
            r.spec_thread_count() == thread_count,
    {
        Self { thread_count }
    }

    pub fn thread_count(&self) -> (r: u32)
        ensures
            r == self.spec_thread_count(),
    {
        self.thread_count
    }

    /// Draws one fresh keypair.
    pub fn generate_key() -> (r: Keypair)
        ensures
            r.wf(),
    {
        fresh_keypair()
    }

    /// Encodes a 32-byte x-only public key under the `npub` prefix.
    pub fn to_npub(pubkey: &Vec<u8>) -> (r: String)
        requires
            pubkey@.len() == 32,
        ensures
            r@ == encode_spec(npub_hrp(), pubkey@),
            r@.len() == 63,
    {
        let hrp = npub_hrp_vec();
        encode(&hrp, pubkey)
    }

    /// Encodes a keypair's secret scalar under the `nsec` prefix.
    pub fn to_nsec(keypair: &Keypair) -> (r: String)
        requires
            keypair.secret@.len() == 32,
        ensures
            r@ == encode_spec(nsec_hrp(), keypair.secret@),
            r@.len() == 63,
    {
        let hrp = nsec_hrp_vec();
        encode(&hrp, &keypair.secret)
    }

    /// Searches with a caller-supplied observer for the informational
    /// matches; returns the first keypair whose public encoding starts
    /// with `npub1` followed by the primary prefix.
    ///
    /// The search draws keypairs until one matches; the expected number
    /// of draws grows as 32 to the power of the prefix length. The loop
    /// is capped at 2^64 - 1 draws, far past any reachable search, so
    /// that it provably makes progress; only an exhausted cap returns
    /// `None`.
    pub fn find_vanity_key_observed<O: VanityObserver>(
        &self,
        primary_prefix: &str,
        additional_prefixes: Option<&[String]>,
        observer: &mut O,
    ) -> (r: Option<(String, String)>)
        requires
            valid_prefix(primary_prefix@),
        ensures
            r matches Some(found) ==> is_vanity_result(primary_prefix@, found.0@, found.1@),
    {
        let mut budget: u64 = u64::MAX;
        while budget > 0
            invariant
                valid_prefix(primary_prefix@),
            decreases budget,
        {
            if let Some(found) = search_attempt(primary_prefix, additional_prefixes, observer) {
                return Some(found);
            }
            budget = budget - 1;
        }
        None
    }

    /// Searches for the first keypair whose public encoding starts with
    /// `npub1` followed by the primary prefix; informational matches on
    /// the additional prefixes are dropped.
    pub fn find_vanity_key(
        &self,
        primary_prefix: &str,
        additional_prefixes: Option<&[String]>,
    ) -> (r: Option<(String, String)>)
        requires
            valid_prefix(primary_prefix@),
        ensures
            r matches Some(found) ==> is_vanity_result(primary_prefix@, found.0@, found.1@),
    {
        let mut observer = SilentObserver;
        self.find_vanity_key_observed(primary_prefix, additional_prefixes, &mut observer)
    }
}

/// Binding of the two halves of a result: decoding the returned private
/// encoding recovers a scalar, and re-deriving and re-encoding that
/// scalar's public key reproduces the returned public encoding exactly.
pub proof fn lemma_result_binding(prefix: Seq<char>, npub: Seq<char>, nsec: Seq<char>)
    requires
        is_vanity_result(prefix, npub, nsec),
    ensures
        exists|sk: Seq<u8>|
            #![trigger pubkey_of(sk)]
            {
                &&& crate::encoding::decode_spec(nsec) == Some((nsec_hrp(), sk))
                &&& npub == encode_spec(npub_hrp(), pubkey_of(sk))
            },
{
    let sk = choose|sk: Seq<u8>|
        {
            &&& #[trigger] is_valid_scalar(sk)
            &&& sk.len() == 32
            &&& nsec == encode_spec(nsec_hrp(), sk)
            &&& npub == encode_spec(npub_hrp(), pubkey_of(sk))
        };
    assert(33 <= 'n' as u32 <= 126);
    assert(33 <= 's' as u32 <= 126);
    assert(33 <= 'e' as u32 <= 126);
    assert(33 <= 'c' as u32 <= 126);
    assert(hrp_ok(nsec_hrp()));
    crate::encoding::lemma_decode_encode(nsec_hrp(), sk);
}

} // verus!
