use fanout::pattern::{compile, expand, DateKind, PatternError, PatternToken};
use fanout::codec::{hex_encode, join_path, path_basename};
use fanout::date::civil_from_unix;

#[test]
fn compile_basic_pattern() {
    let p = compile(&b"%y/%m/%z".to_vec()).unwrap();
    assert_eq!(
        p.tokens,
        vec![
            PatternToken::DateField(DateKind::Year),
            PatternToken::Literal(b'/'),
            PatternToken::DateField(DateKind::Month),
            PatternToken::Literal(b'/'),
            PatternToken::HashSplit,
        ]
    );
    assert!(p.has_hash);
}

#[test]
fn compile_unknown_directive_fails() {
    let r = compile(&b"%q".to_vec());
    assert_eq!(
        r.unwrap_err(),
        PatternError::InvalidPattern { position: 1, directive: b'q' }
    );
}

#[test]
fn compile_trailing_percent_fails() {
    let r = compile(&b"abc%".to_vec());
    assert_eq!(
        r.unwrap_err(),
        PatternError::InvalidPattern { position: 3, directive: b'%' }
    );
}

#[test]
fn compile_escaped_percent_is_literal() {
    let p = compile(&b"a%%b".to_vec()).unwrap();
    assert_eq!(
        p.tokens,
        vec![
            PatternToken::Literal(b'a'),
            PatternToken::Literal(b'%'),
            PatternToken::Literal(b'b'),
        ]
    );
    assert!(!p.has_hash);
}

#[test]
fn compile_second_hash_split_fails() {
    let r = compile(&b"%z%z".to_vec());
    assert_eq!(
        r.unwrap_err(),
        PatternError::InvalidPattern { position: 3, directive: b'z' }
    );
}

#[test]
fn pattern_round_trip_renders_fixed_date_and_digest() {
    let p = compile(&b"%y/%m/%z".to_vec()).unwrap();
    let rendered = expand(&p, 2021, 3, 7, &b"abc".to_vec());
    assert_eq!(rendered, b"2021/03/abc".to_vec());
}

#[test]
fn expand_pads_single_digit_fields() {
    let p = compile(&b"%y-%m-%d".to_vec()).unwrap();
    let rendered = expand(&p, 987, 12, 5, &Vec::new());
    assert_eq!(rendered, b"0987-12-05".to_vec());
}

#[test]
fn hex_encodes_lowercase_pairs() {
    assert_eq!(hex_encode(&vec![0x00, 0xff, 0x1a]), b"00ff1a".to_vec());
    assert_eq!(hex_encode(&Vec::new()), Vec::<u8>::new());
}

#[test]
fn civil_date_of_epoch_and_leap_day() {
    assert_eq!(civil_from_unix(0), (1970, 1, 1));
    assert_eq!(civil_from_unix(86399), (1970, 1, 1));
    assert_eq!(civil_from_unix(86400), (1970, 1, 2));
    assert_eq!(civil_from_unix(951782400), (2000, 2, 29));
    assert_eq!(civil_from_unix(1609459199), (2020, 12, 31));
}

#[test]
fn basename_and_join() {
    assert_eq!(path_basename(&b"a/b/c.txt".to_vec()), b"c.txt".to_vec());
    assert_eq!(path_basename(&b"plain".to_vec()), b"plain".to_vec());
    assert_eq!(join_path(&b"".to_vec(), &b"x".to_vec()), b"x".to_vec());
    assert_eq!(join_path(&b"a".to_vec(), &b"x".to_vec()), b"a/x".to_vec());
}
