//! The library exercised end to end: uniqueness and ordering of freshly
//! minted identifiers, and the boundary layer's buffer handling.

use ulid_lite::clock::duration_since_epoch;
use ulid_lite::ctx::ulid_init;
use ulid_lite::ctx::ulid_new;
use ulid_lite::ctx::ulid_new_ephemeral;
use ulid_lite::ctx::ulid_write;
use ulid_lite::ctx::ulid_write_new_ephemeral;
use ulid_lite::ulid;
use ulid_lite::ULID_BINARY_LEN;
use ulid_lite::ULID_LEN;

fn epoch_millis() -> u128 {
    let (secs, nanos) = duration_since_epoch().unwrap();
    secs as u128 * 1000 + (nanos / 1_000_000) as u128
}

#[test]
fn each_ulid_is_unique() {
    let ulids: Vec<String> = (0..100).map(|_| ulid().unwrap()).collect();
    println!("{:?}", ulids);
    for i in 0..ulids.len() {
        for j in 0..ulids.len() {
            if i != j {
                assert_ne!(ulids[i], ulids[j]);
            }
        }
    }
}

#[test]
fn newer_ulids_are_higher() {
    let a = ulid().unwrap();
    let start = epoch_millis();
    loop {
        if epoch_millis() >= start + 2 {
            break;
        }
    }
    let b = ulid().unwrap();
    assert!(a < b);
}

#[test]
fn can_init_ctx() {
    let mut ctx = ulid_init(42).unwrap();
    let mut dest = vec![0u8; ULID_BINARY_LEN];
    ulid_new(&mut ctx, &mut dest).unwrap();
    let as_u32: u32 = 10 + (dest[15] % 10) as u32;
    assert!(as_u32 >= 10);
    assert!(as_u32 <= 20);

    let mut ctx = ulid_init(0).unwrap();
    ulid_new(&mut ctx, &mut dest).unwrap();
    let as_u32: u32 = 10 + (dest[15] % 10) as u32;
    assert!(as_u32 >= 10);
    assert!(as_u32 <= 20);
}

#[test]
fn can_create_new_ulid() {
    let mut dest = vec![0u8; ULID_BINARY_LEN];

    ulid_new_ephemeral(&mut dest).unwrap();
    assert_ne!(dest, vec![0u8; ULID_BINARY_LEN]); // should be impossible after 1-1-1970
}

#[test]
fn can_create_new_ulid_as_base32() {
    let mut dest = vec![0u8; ULID_LEN + 1];

    let ret = ulid_write_new_ephemeral(&mut dest).unwrap();
    assert_eq!(ret, 26);
}

#[test]
fn creating_new_ulid_as_base32_doesnt_overflow() {
    let mut dest = vec![0u8; ULID_LEN]; // one byte too small

    let ret = ulid_write_new_ephemeral(&mut dest).unwrap();
    assert_eq!(ret, -libc::ERANGE);
    assert_eq!(dest[0], 0); // nothing written to dest
}

#[test]
fn can_encode_binary_ulid_as_base32() {
    let mut id = vec![0u8; ULID_BINARY_LEN];
    ulid_new_ephemeral(&mut id).unwrap();

    let mut dest = vec![0u8; 64];

    let ret = ulid_write(&id, &mut dest);
    assert_eq!(ret, 26);

    assert_eq!(dest[26], 0);
    let reconst = std::str::from_utf8(&dest[..26]).unwrap();
    assert_eq!(reconst.len(), 26);
}

#[test]
fn encoding_binary_ulid_as_base32_doesnt_overflow() {
    let mut id = vec![0u8; ULID_BINARY_LEN];
    ulid_new_ephemeral(&mut id).unwrap();

    let mut dest = vec![0u8; ULID_LEN]; // one byte too small

    let ret = ulid_write(&id, &mut dest);
    assert_eq!(ret, -libc::ERANGE);
    assert_eq!(dest[0], 0); // nothing written to dest
}
