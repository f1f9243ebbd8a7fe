use bech32::{FromBase32, ToBase32, Variant};
use vanikey::{
    decode, validate_prefix, Keypair, NostrKeyGenerator, SilentObserver, ValidationError,
    VanityObserver,
};

fn sample_payloads() -> Vec<Vec<u8>> {
    let zeros = vec![0u8; 32];
    let ones = vec![0xffu8; 32];
    let ramp: Vec<u8> = (0u8..32u8).collect();
    let mixed: Vec<u8> = (0u8..32u8).map(|i| i.wrapping_mul(37).wrapping_add(11)).collect();
    vec![zeros, ones, ramp, mixed]
}

#[test]
fn npub_decode_inverts_encode() {
    for payload in sample_payloads() {
        let npub = NostrKeyGenerator::to_npub(&payload);
        let (hrp, bytes) = decode(&npub).expect("an encoded key must decode");
        assert_eq!(hrp, "npub");
        assert_eq!(bytes, payload);
    }
}

#[test]
fn nsec_decode_inverts_encode() {
    for payload in sample_payloads() {
        let keypair = Keypair { secret: payload.clone(), public: vec![0u8; 32] };
        let nsec = NostrKeyGenerator::to_nsec(&keypair);
        assert_eq!(nsec.len(), 63);
        assert!(nsec.starts_with("nsec1"));
        let (hrp, bytes) = decode(&nsec).expect("an encoded key must decode");
        assert_eq!(hrp, "nsec");
        assert_eq!(bytes, payload);
    }
}

#[test]
fn generated_keypair_round_trips() {
    let keypair = NostrKeyGenerator::generate_key();
    let npub = NostrKeyGenerator::to_npub(&keypair.public);
    let nsec = NostrKeyGenerator::to_nsec(&keypair);
    assert_eq!(decode(&npub).unwrap().1, keypair.public);
    assert_eq!(decode(&nsec).unwrap().1, keypair.secret);
}

#[test]
fn encoding_matches_reference_encoder() {
    for payload in sample_payloads() {
        let ours = NostrKeyGenerator::to_npub(&payload);
        let reference =
            bech32::encode("npub", payload.to_base32(), Variant::Bech32).unwrap();
        assert_eq!(ours, reference);
    }
}

#[test]
fn decode_accepts_reference_encoder_output() {
    let payload: Vec<u8> = (100u8..132u8).collect();
    let reference = bech32::encode("nsec", payload.to_base32(), Variant::Bech32).unwrap();
    let (hrp, bytes) = decode(&reference).expect("a reference encoding must decode");
    assert_eq!(hrp, "nsec");
    assert_eq!(bytes, payload);
}

#[test]
fn reference_decoder_accepts_our_output() {
    let keypair = NostrKeyGenerator::generate_key();
    let nsec = NostrKeyGenerator::to_nsec(&keypair);
    let (hrp, data, variant) = bech32::decode(&nsec).unwrap();
    assert_eq!(hrp, "nsec");
    assert_eq!(variant, Variant::Bech32);
    assert_eq!(Vec::<u8>::from_base32(&data).unwrap(), keypair.secret);
}

#[test]
fn all_zero_payload_has_expected_data_part() {
    let npub = NostrKeyGenerator::to_npub(&vec![0u8; 32]);
    let expected_head = format!("npub1{}", "q".repeat(52));
    assert_eq!(&npub[..57], expected_head.as_str());
    assert_eq!(npub.len(), 63);
}

#[test]
fn decode_rejects_damaged_strings() {
    let payload: Vec<u8> = (0u8..32u8).collect();
    let npub = NostrKeyGenerator::to_npub(&payload);
    // flip one data character
    let mut damaged: Vec<char> = npub.chars().collect();
    damaged[10] = if damaged[10] == 'q' { 'p' } else { 'q' };
    let damaged: String = damaged.into_iter().collect();
    assert!(decode(&damaged).is_none());
    // no separator
    assert!(decode("npubqqqqqqqq").is_none());
    // empty
    assert!(decode("").is_none());
    // separator but wrong data length
    assert!(decode("npub1qqqq").is_none());
    // character outside the alphabet in the data part
    let bad: String = npub.replace('1', "1b");
    assert!(decode(&bad).is_none());
    // truncated by one character
    assert!(decode(&npub[..62]).is_none());
}

#[test]
fn decode_rejects_other_payload_sizes() {
    // a well-formed checksummed string whose payload is not 32 bytes:
    // the decoder is for key material and rejects it
    let short = bech32::encode("npub", vec![0u8; 20].to_base32(), Variant::Bech32).unwrap();
    assert!(decode(&short).is_none());
}

#[test]
fn rederived_public_key_matches_generated() {
    let keypair = NostrKeyGenerator::generate_key();
    let secret_key = secp256k1::SecretKey::from_slice(&keypair.secret).unwrap();
    let secp = secp256k1::Secp256k1::new();
    let rederived = secp256k1::KeyPair::from_secret_key(&secp, &secret_key);
    let (xonly, _) = rederived.x_only_public_key();
    assert_eq!(xonly.serialize().to_vec(), keypair.public);
}

#[test]
fn validate_prefix_accepts_alphabet_strings() {
    assert_eq!(validate_prefix("a"), Ok(()));
    assert_eq!(validate_prefix("test"), Ok(()));
    assert_eq!(validate_prefix("023456789acdefghjklmnpqrstuvwxyz"), Ok(()));
}

#[test]
fn validate_prefix_rejects_empty() {
    assert_eq!(validate_prefix(""), Err(ValidationError::EmptyPrefix));
}

#[test]
fn validate_prefix_rejects_characters_outside_alphabet() {
    assert_eq!(
        validate_prefix("b1"),
        Err(ValidationError::DisallowedCharacter('b'))
    );
    assert_eq!(
        validate_prefix("a1"),
        Err(ValidationError::DisallowedCharacter('1'))
    );
    assert_eq!(
        validate_prefix("aBc"),
        Err(ValidationError::DisallowedCharacter('B'))
    );
    assert_eq!(
        validate_prefix("io"),
        Err(ValidationError::DisallowedCharacter('i'))
    );
}

#[test]
fn search_result_is_worker_count_independent() {
    for workers in [1u32, 8u32] {
        let generator = NostrKeyGenerator::new(workers);
        assert_eq!(generator.thread_count(), workers);
        let (npub, nsec) = generator.find_vanity_key("a", None).expect("search exhausted");
        assert!(npub.starts_with("npub1a"));
        assert_eq!(npub.len(), 63);
        assert!(nsec.starts_with("nsec1"));
        assert!(decode(&npub).is_some());
        assert!(decode(&nsec).is_some());
    }
}

struct CountingObserver {
    matches: Vec<(String, String)>,
}

impl VanityObserver for CountingObserver {
    fn on_additional_match(&mut self, npub: &String, nsec: &String) {
        self.matches.push((npub.clone(), nsec.clone()));
    }
}

#[test]
fn additional_prefixes_do_not_change_the_result() {
    let generator = NostrKeyGenerator::new(4);
    let additional = vec!["abc".to_string(), "xyz".to_string()];
    let mut observer = CountingObserver { matches: Vec::new() };
    let (npub, _) = generator
        .find_vanity_key_observed("a", Some(&additional), &mut observer)
        .expect("search exhausted");
    assert!(npub.starts_with("npub1a"));
    // every reported informational match carries one of the additional
    // prefixes; none is required to have fired
    for (reported_npub, reported_nsec) in &observer.matches {
        assert!(
            reported_npub.starts_with("npub1abc") || reported_npub.starts_with("npub1xyz")
        );
        assert!(reported_nsec.starts_with("nsec1"));
    }
}

#[test]
fn silent_observer_search_matches_primary() {
    let generator = NostrKeyGenerator::new(2);
    let mut observer = SilentObserver;
    let additional = vec!["q".to_string()];
    let (npub, _) = generator
        .find_vanity_key_observed("e", Some(&additional), &mut observer)
        .expect("search exhausted");
    assert!(npub.starts_with("npub1e"));
}
