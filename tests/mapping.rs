use steam_login::mapping::{bytes_eq, insert_last_wins};

#[test]
fn bytes_eq_compares_contents() {
    assert!(bytes_eq(&b"abc".to_vec(), &b"abc".to_vec()));
    assert!(!bytes_eq(&b"abc".to_vec(), &b"abd".to_vec()));
    assert!(!bytes_eq(&b"ab".to_vec(), &b"abc".to_vec()));
    assert!(bytes_eq(&Vec::new(), &Vec::new()));
}

#[test]
fn insert_replaces_existing_key() {
    let mut v: Vec<(Vec<u8>, Vec<u8>)> = Vec::new();
    insert_last_wins(&mut v, b"a".to_vec(), b"1".to_vec());
    insert_last_wins(&mut v, b"b".to_vec(), b"2".to_vec());
    insert_last_wins(&mut v, b"a".to_vec(), b"3".to_vec());
    assert_eq!(
        v,
        vec![
            (b"a".to_vec(), b"3".to_vec()),
            (b"b".to_vec(), b"2".to_vec())
        ]
    );
}
