//! Tests of the text-reading helpers: token splitting, numeric reading,
//! and line-limited reading.

use hexsweeper::reader::{parse_usize, split_tokens, take_lines};

fn token_string(tok: &[u8]) -> String {
    String::from_utf8(tok.to_vec()).unwrap()
}

#[test]
fn test_read_to_end() {
    let source = "12 -3\n4.5";

    let toks = split_tokens(source.as_bytes());
    let a: usize = parse_usize(toks[0].as_slice()).unwrap();
    let b: i32 = token_string(&toks[1]).parse().unwrap();
    let c: f64 = token_string(&toks[2]).parse().unwrap();

    assert_eq!(a, 12);
    assert_eq!(b, -3);
    assert_eq!(c, 4.5);
}

#[test]
fn test_read_lines() {
    let source = "12 -3\n4.5";

    let head = take_lines(source.as_bytes(), 2);
    let toks = split_tokens(head.as_slice());
    let a: usize = parse_usize(toks[0].as_slice()).unwrap();
    let b: i32 = token_string(&toks[1]).parse().unwrap();
    let c: f64 = token_string(&toks[2]).parse().unwrap();

    assert_eq!(a, 12);
    assert_eq!(b, -3);
    assert_eq!(c, 4.5);
}

#[test]
fn test_read_vec() {
    let source = "1 2 3 4 5";

    let toks = split_tokens(source.as_bytes());
    let a: Vec<usize> = toks.iter().map(|t| parse_usize(t.as_slice()).unwrap()).collect();

    assert_eq!(a, vec![1, 2, 3, 4, 5])
}

#[test]
fn test_read_vec2() {
    let source = "1 2 3 4";

    let toks = split_tokens(source.as_bytes());
    let mut a: Vec<Vec<usize>> = Vec::new();
    for pair in toks.chunks(2) {
        a.push(pair.iter().map(|t| parse_usize(t.as_slice()).unwrap()).collect());
    }

    assert_eq!(a.len(), 2);
    assert_eq!(a, vec![vec![1, 2], vec![3, 4]]);
}

#[test]
fn test_read_chars() {
    let source = "Hello!";

    let toks = split_tokens(source.as_bytes());
    let a: Vec<char> = token_string(&toks[0]).chars().collect();

    assert_eq!(a, vec!['H', 'e', 'l', 'l', 'o', '!']);
}

#[test]
fn test_read_multiple_time() {
    let source = "1 4 7\nabc\n2 2 2 2";

    let head = take_lines(source.as_bytes(), 3);
    let toks = split_tokens(head.as_slice());
    let a: Vec<usize> = toks[0..3].iter().map(|t| parse_usize(t.as_slice()).unwrap()).collect();
    let b: String = token_string(&toks[3]);
    let c: Vec<usize> = toks[4..8].iter().map(|t| parse_usize(t.as_slice()).unwrap()).collect();

    assert_eq!(a, vec![1, 4, 7]);
    assert_eq!(b, "abc".to_string());
    assert_eq!(c, vec![2, 2, 2, 2]);
}

#[test]
fn split_tokens_handles_extremes() {
    assert_eq!(split_tokens(b"").len(), 0);
    assert_eq!(split_tokens(b"  \t\r\n ").len(), 0);
    let toks = split_tokens(b"  one\ttwo\r\nthree ");
    assert_eq!(toks.len(), 3);
    assert_eq!(toks[0], b"one".to_vec());
    assert_eq!(toks[1], b"two".to_vec());
    assert_eq!(toks[2], b"three".to_vec());
}

#[test]
fn parse_usize_rejects_bad_tokens() {
    assert_eq!(parse_usize(b""), None);
    assert_eq!(parse_usize(b"12a"), None);
    assert_eq!(parse_usize(b"-3"), None);
    assert_eq!(parse_usize(b"0"), Some(0));
    assert_eq!(parse_usize(b"007"), Some(7));
    assert_eq!(parse_usize(b"99999999999999999999999999999999"), None);
}

#[test]
fn take_lines_stops_at_text_end() {
    assert_eq!(take_lines(b"a\nb\nc", 2), b"a\nb\n".to_vec());
    assert_eq!(take_lines(b"a\nb", 5), b"a\nb".to_vec());
    assert_eq!(take_lines(b"abc", 0), Vec::<u8>::new());
}
