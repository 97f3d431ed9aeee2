//! Concrete checks of the library's stated properties: codec round trips,
//! the restricted alphabet, nil's identity, ordering, deterministic
//! seeding, and the entropy source's exact output sequence.

use ulid_lite::base32::decode;
use ulid_lite::base32::encode;
use ulid_lite::base32::encode_checked;
use ulid_lite::ctx::ulid_ctx_destroy;
use ulid_lite::ctx::ulid_init;
use ulid_lite::ctx::ulid_write;
use ulid_lite::ulid;
use ulid_lite::ulid_raw;
use ulid_lite::Ulid;
use ulid_lite::UlidError;
use ulid_lite::UlidGenerator;

use xorshift::Rand;
use xorshift::Rng;
use xorshift::SeedableRng;
use xorshift::SplitMix64;
use xorshift::Xoroshiro128 as TheirXoroshiro128;

#[test]
fn round_trip_preserves_value() {
    let samples: [u128; 7] = [
        0,
        1,
        31,
        0xDEAD_BEEF,
        (1u128 << 80) - 1,
        u128::MAX - 1,
        u128::MAX,
    ];
    for &v in samples.iter() {
        let mut buf = vec![0u8; 26];
        encode(v, &mut buf);
        assert_eq!(decode(&buf), Ok(v));
    }
}

#[test]
fn encode_produces_known_text() {
    // 1 encodes to 25 zero symbols and a final '1'.
    let mut buf = vec![0u8; 26];
    encode(1, &mut buf);
    assert_eq!(std::str::from_utf8(&buf).unwrap(), "00000000000000000000000001");

    // The largest 128-bit value: a '7' then 25 'Z's.
    encode(u128::MAX, &mut buf);
    assert_eq!(std::str::from_utf8(&buf).unwrap(), "7ZZZZZZZZZZZZZZZZZZZZZZZZZ");
}

#[test]
fn decode_rejects_bad_input() {
    // Wrong lengths.
    assert_eq!(decode(b"123"), Err(UlidError::InvalidEncoding));
    assert_eq!(decode(b""), Err(UlidError::InvalidEncoding));
    assert_eq!(
        decode(b"000000000000000000000000000"),
        Err(UlidError::InvalidEncoding)
    );

    // Excluded letters, one per position family.
    assert_eq!(
        decode(b"0000000000000000000000000I"),
        Err(UlidError::InvalidEncoding)
    );
    assert_eq!(
        decode(b"0000000000000000000000000L"),
        Err(UlidError::InvalidEncoding)
    );
    assert_eq!(
        decode(b"0000000000000000000000000O"),
        Err(UlidError::InvalidEncoding)
    );
    assert_eq!(
        decode(b"0000000000000000000000000U"),
        Err(UlidError::InvalidEncoding)
    );

    // Lowercase is outside the alphabet.
    assert_eq!(
        decode(b"0000000000000000000000000a"),
        Err(UlidError::InvalidEncoding)
    );

    // A first symbol of 8 or more stands for a value beyond 128 bits.
    assert_eq!(
        decode(b"80000000000000000000000000"),
        Err(UlidError::InvalidEncoding)
    );
}

#[test]
fn checked_encode_rejects_short_buffer() {
    let mut buf = vec![7u8; 25];
    assert_eq!(encode_checked(42, &mut buf), Err(UlidError::BufferTooSmall));
    assert_eq!(buf, vec![7u8; 25]);

    let mut buf = vec![0u8; 26];
    assert_eq!(encode_checked(42, &mut buf), Ok(()));
    assert_eq!(std::str::from_utf8(&buf).unwrap(), "0000000000000000000000001A");
}

#[test]
fn nil_encodes_to_zero_symbols() {
    let nil = Ulid::new_nil();
    assert_eq!(nil.to_string(), "00000000000000000000000000");
    assert!(nil < Ulid::from_bits(1));
    assert!(nil < Ulid::new().unwrap());
    assert!(nil.to_string() < Ulid::new().unwrap().to_string());
}

#[test]
fn encoded_text_avoids_excluded_letters() {
    for _ in 0..100 {
        let text = ulid().unwrap();
        assert!(!text.contains('I'));
        assert!(!text.contains('L'));
        assert!(!text.contains('O'));
        assert!(!text.contains('U'));
    }
}

#[test]
fn seeded_generator_pins_known_text() {
    let mut gen = UlidGenerator::from_seed(12345);
    let ulids: Vec<Ulid> = gen.take(5).unwrap();

    // Only the low bits are fixed by the seed, so the trailing characters
    // are checked.
    assert_eq!(&(ulids[0].to_string()[20..]), "RBPBCT");
    assert_eq!(&(ulids[4].to_string()[20..]), "BZBF00");
}

#[test]
fn same_seed_same_sequence() {
    let mut g1 = UlidGenerator::from_seed(777);
    let mut g2 = UlidGenerator::from_seed(777);
    for millis in [0u128, 1, 99, 1 << 47] {
        let a = g1.ulid_with_time(millis);
        let b = g2.ulid_with_time(millis);
        assert_eq!(a, b);
    }
}

#[test]
fn time_field_lands_in_high_bits() {
    let mut g = UlidGenerator::from_seed(9);
    let id = g.ulid_with_time(0xABCD);
    assert_eq!(id.bits() >> 80, 0xABCD);

    // The millisecond count wraps modulo 2^48.
    let id = g.ulid_with_time((1u128 << 48) + 5);
    assert_eq!(id.bits() >> 80, 5);
}

#[test]
fn later_millisecond_sorts_higher() {
    let mut g1 = UlidGenerator::from_seed(1);
    let mut g2 = UlidGenerator::from_seed(2);
    let a = g1.ulid_with_time(1000);
    let b = g2.ulid_with_time(1001);
    assert!(a < b);
    assert!(a.to_string() < b.to_string());

    // The same holds with the payload odds reversed.
    let c = g2.ulid_with_time(5000);
    let d = g1.ulid_with_time(5001);
    assert!(c < d);
    assert!(c.to_string() < d.to_string());
}

#[test]
fn entropy_source_matches_reference_generator() {
    let seed: u64 = 987_654_321;
    let mut sm: SplitMix64 = SeedableRng::from_seed(seed);
    let mut theirs: TheirXoroshiro128 = Rand::rand(&mut sm);
    let mut mine = ulid_lite::rng::Xoroshiro128::from_seed(seed);
    for _ in 0..64 {
        assert_eq!(mine.next_u64(), theirs.next_u64());
    }
}

#[test]
fn binary_form_is_big_endian() {
    let v: u128 = 0x000102030405060708090A0B0C0D0E0F;
    let id = Ulid::from_bits(v);
    let bytes = id.to_bytes();
    let expected: Vec<u8> = (0u8..16).collect();
    assert_eq!(bytes, expected);
    assert_eq!(id.bits(), v);
}

#[test]
fn write_text_round_trips_binary() {
    let v: u128 = 0x0102030405060708090A0B0C0D0E0F10;
    let id_bytes = Ulid::from_bits(v).to_bytes();
    let mut dest = vec![0u8; 27];
    assert_eq!(ulid_write(&id_bytes, &mut dest), 26);
    assert_eq!(dest[26], 0);
    assert_eq!(decode(&dest[..26]), Ok(v));
}

#[test]
fn hex_forms_render_raw_value() {
    assert_eq!(Ulid::from_bits(0).to_hex_lower(), "0");
    assert_eq!(Ulid::from_bits(0).to_hex_upper(), "0");
    assert_eq!(Ulid::from_bits(255).to_hex_lower(), "ff");
    assert_eq!(Ulid::from_bits(255).to_hex_upper(), "FF");
    assert_eq!(Ulid::from_bits(0xDEADBEEF).to_hex_lower(), "deadbeef");
    assert_eq!(Ulid::from_bits(u128::MAX).to_hex_upper(), "F".repeat(32));
}

#[test]
fn context_lifecycle() {
    let ctx = ulid_init(42).unwrap();
    ulid_ctx_destroy(ctx);
}

#[test]
fn raw_ulid_is_nonzero() {
    assert_ne!(ulid_raw().unwrap(), 0);
}
