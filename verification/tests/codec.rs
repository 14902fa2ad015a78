use pw_vault::codec::{decode_db, encode_db};
use pw_vault::database::CredentialsDatabase;

fn sample_db() -> CredentialsDatabase {
    let mut db = CredentialsDatabase::new("owner".to_string());
    db.add("mail".to_string(), "o@x".to_string(), "pw-one".to_string());
    db.add("bank".to_string(), "owner".to_string(), "pw-two".to_string());
    db.add("".to_string(), "empty-name".to_string(), "works".to_string());
    db
}

fn assert_same(a: &CredentialsDatabase, b: &CredentialsDatabase) {
    assert_eq!(a.username(), b.username());
    let ea = a.entries();
    let eb = b.entries();
    assert_eq!(ea.len(), eb.len());
    for i in 0..ea.len() {
        assert_eq!(ea[i].0, eb[i].0);
        assert_eq!(ea[i].1.username, eb[i].1.username);
        assert_eq!(ea[i].1.password, eb[i].1.password);
    }
}

#[test]
fn codec_round_trip() {
    let db = sample_db();
    let bytes = encode_db(&db);
    let back = decode_db(&bytes).expect("the canonical form decodes");
    assert_same(&db, &back);

    let empty = CredentialsDatabase::new("".to_string());
    let bytes = encode_db(&empty);
    let back = decode_db(&bytes).expect("the canonical form decodes");
    assert_same(&empty, &back);
}

#[test]
fn codec_round_trip_unicode() {
    let mut db = CredentialsDatabase::new("Ωwner".to_string());
    db.add("café".to_string(), "naïve".to_string(), "𝄞-clef".to_string());
    let bytes = encode_db(&db);
    let back = decode_db(&bytes).expect("the canonical form decodes");
    assert_same(&db, &back);
}

#[test]
fn decode_rejects_malformed_input() {
    let db = sample_db();
    let bytes = encode_db(&db);

    // trailing bytes
    let mut longer = bytes.clone();
    longer.push(0);
    assert!(decode_db(&longer).is_none());

    // truncation anywhere in the frame
    for cut in 0..bytes.len() {
        assert!(decode_db(&bytes[..cut]).is_none());
    }

    // not even a length prefix
    assert!(decode_db(&[]).is_none());
    assert!(decode_db(&[1, 2, 3]).is_none());

    // a length prefix pointing past the end
    let huge = [0xffu8; 16];
    assert!(decode_db(&huge).is_none());

    // bytes that are not UTF-8 where a string is expected
    let mut bad = Vec::new();
    bad.extend_from_slice(&2u64.to_le_bytes());
    bad.extend_from_slice(&[0xff, 0xfe]);
    bad.extend_from_slice(&0u64.to_le_bytes());
    assert!(decode_db(&bad).is_none());
}

#[test]
fn decode_rejects_duplicate_names() {
    // hand-build a frame with two entries of the same name
    fn put_str(out: &mut Vec<u8>, s: &str) {
        out.extend_from_slice(&(s.len() as u64).to_le_bytes());
        out.extend_from_slice(s.as_bytes());
    }
    let mut frame = Vec::new();
    put_str(&mut frame, "owner");
    frame.extend_from_slice(&2u64.to_le_bytes());
    put_str(&mut frame, "site");
    put_str(&mut frame, "u1");
    put_str(&mut frame, "p1");
    put_str(&mut frame, "site");
    put_str(&mut frame, "u2");
    put_str(&mut frame, "p2");
    assert!(decode_db(&frame).is_none());

    // the same frame with distinct names decodes
    let mut frame = Vec::new();
    put_str(&mut frame, "owner");
    frame.extend_from_slice(&2u64.to_le_bytes());
    put_str(&mut frame, "site");
    put_str(&mut frame, "u1");
    put_str(&mut frame, "p1");
    put_str(&mut frame, "other");
    put_str(&mut frame, "u2");
    put_str(&mut frame, "p2");
    let db = decode_db(&frame).expect("distinct names decode");
    assert_eq!(db.username(), "owner");
    assert_eq!(db.entries().len(), 2);
}

#[test]
fn encoding_is_not_the_identity() {
    // the frame carries length prefixes, not just the raw strings
    let db = CredentialsDatabase::new("ab".to_string());
    let bytes = encode_db(&db);
    assert_eq!(bytes.len(), 8 + 2 + 8);
    assert_eq!(&bytes[0..8], &2u64.to_le_bytes());
    assert_eq!(&bytes[8..10], b"ab");
    assert_eq!(&bytes[10..18], &0u64.to_le_bytes());
}
