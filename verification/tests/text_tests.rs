use rcan_testing::repl::hello_message;
use rcan_testing::text::{
    bytes_equal, compare_keys, compare_strs, decode_token, encode_token, same_key, str_starts_with,
    to_ascii_lowercase, to_ascii_uppercase, Order, TokenError,
};

#[test]
fn starts_with_examples() {
    assert!(str_starts_with("/hello", "/"));
    assert!(str_starts_with("abc", ""));
    assert!(str_starts_with("héllo", "hé"));
    assert!(!str_starts_with("ab", "abc"));
    assert!(!str_starts_with("abc", "b"));
}

#[test]
fn string_order_is_lexicographic() {
    assert_eq!(compare_strs("a", "b"), Order::Less);
    assert_eq!(compare_strs("b", "a"), Order::Greater);
    assert_eq!(compare_strs("ab", "abc"), Order::Less);
    assert_eq!(compare_strs("abc", "ab"), Order::Greater);
    assert_eq!(compare_strs("", ""), Order::Equal);
    assert_eq!(compare_strs("/x", "/x"), Order::Equal);
    assert_eq!(compare_strs("Z", "a"), Order::Less);
}

#[test]
fn key_order_is_bytewise() {
    let a = [0u8; 32];
    let mut b = [0u8; 32];
    b[31] = 1;
    let mut c = [0u8; 32];
    c[0] = 1;
    assert_eq!(compare_keys(&a, &b), Order::Less);
    assert_eq!(compare_keys(&c, &b), Order::Greater);
    assert_eq!(compare_keys(&c, &c), Order::Equal);
    assert!(same_key(&a, &a));
    assert!(!same_key(&a, &b));
    assert!(bytes_equal(b"rcan", b"rcan"));
    assert!(!bytes_equal(b"rcan", b"rca"));
}

#[test]
fn ascii_case() {
    assert_eq!(to_ascii_lowercase(b"NBSWY3DP-Z@["), b"nbswy3dp-z@[".to_vec());
    assert_eq!(to_ascii_uppercase(b"nbswy3dp-z`{"), b"NBSWY3DP-Z`{".to_vec());
}

#[test]
fn token_text_is_lowercase_base32() {
    assert_eq!(encode_token(b"hello"), b"nbswy3dp".to_vec());
    assert_eq!(encode_token(b""), Vec::<u8>::new());
    assert_eq!(encode_token(&[0xff]), b"74".to_vec());
    assert_eq!(encode_token(&[0u8; 11]).len(), 18);
    assert_eq!(encode_token(&[1u8; 10]).len(), 16);
}

#[test]
fn token_text_reads_either_case() {
    assert_eq!(decode_token(b"nbswy3dp"), Ok(b"hello".to_vec()));
    assert_eq!(decode_token(b"NBSWY3DP"), Ok(b"hello".to_vec()));
    assert_eq!(decode_token(b"NbSwY3dP"), Ok(b"hello".to_vec()));
    assert_eq!(decode_token(b"not base32!"), Err(TokenError::NotBase32));
    assert_eq!(decode_token(b"a"), Err(TokenError::NotBase32));
}

#[test]
fn token_text_round_trip() {
    for bytes in [vec![], vec![0u8], vec![1, 2, 3, 4, 5], (0u8..=255).collect::<Vec<u8>>()] {
        let text = encode_token(&bytes);
        assert_eq!(decode_token(&text), Ok(bytes.clone()));
    }
}

#[test]
fn greeting() {
    assert_eq!(hello_message("world"), "Hello, world");
    assert_eq!(hello_message(""), "Hello, ");
}

#[test]
fn token_text_alphabet() {
    let text = encode_token(&(0u8..=255).collect::<Vec<u8>>());
    assert!(text.iter().all(|b| b.is_ascii_lowercase() || (b'2'..=b'7').contains(b)));
}
