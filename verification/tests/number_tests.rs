use accelerator::number::is_numeric_token;
use accelerator::tokenize::Delims;
use accelerator::tokenize::strip_parens;
use accelerator::tokenize::tokenize;

#[test]
fn plain_numbers_are_accepted() {
    assert!(is_numeric_token(b"1"));
    assert!(is_numeric_token(b"42"));
    assert!(is_numeric_token(b"-2.5"));
    assert!(is_numeric_token(b"+3"));
    assert!(is_numeric_token(b"4."));
    assert!(is_numeric_token(b".5"));
    assert!(is_numeric_token(b"-.5"));
}

#[test]
fn exponent_forms_are_accepted() {
    assert!(is_numeric_token(b"1e3"));
    assert!(is_numeric_token(b"1E3"));
    assert!(is_numeric_token(b"-0.5e-10"));
    assert!(is_numeric_token(b"+.5e+2"));
    assert!(is_numeric_token(b"1e999"));
}

#[test]
fn malformed_tokens_are_rejected() {
    assert!(!is_numeric_token(b""));
    assert!(!is_numeric_token(b"-"));
    assert!(!is_numeric_token(b"+"));
    assert!(!is_numeric_token(b"."));
    assert!(!is_numeric_token(b"--5"));
    assert!(!is_numeric_token(b"1.2.3"));
    assert!(!is_numeric_token(b"1e"));
    assert!(!is_numeric_token(b"1e+"));
    assert!(!is_numeric_token(b"e5"));
    assert!(!is_numeric_token(b"foo"));
    assert!(!is_numeric_token(b"(1"));
    assert!(!is_numeric_token(b"inf"));
    assert!(!is_numeric_token(b"nan"));
    assert!(!is_numeric_token(b"1 2"));
}

#[test]
fn accepted_tokens_parse_as_floats() {
    let toks: [&[u8]; 7] = [b"1", b"-2.5", b"4.", b".5", b"1e3", b"-0.5e-10", b"1e999"];
    for t in toks {
        assert!(is_numeric_token(t));
        assert!(std::str::from_utf8(t).unwrap().parse::<f64>().is_ok());
    }
}

#[test]
fn tokenize_splits_on_whitespace() {
    let data = b" 1\n2\t3\r 4 ";
    let ts = tokenize(data, 0, data.len(), Delims::Space, true);
    let toks: Vec<&[u8]> = ts.iter().map(|t| t.as_slice()).collect();
    assert_eq!(toks, vec![b"1" as &[u8], b"2", b"3", b"4"]);
}

#[test]
fn tokenize_numeric_filter_drops_words() {
    let data = b"1 width 2.5 -x";
    let ts = tokenize(data, 0, data.len(), Delims::Space, true);
    let toks: Vec<&[u8]> = ts.iter().map(|t| t.as_slice()).collect();
    assert_eq!(toks, vec![b"1" as &[u8], b"2.5"]);
}

#[test]
fn tokenize_paren_mode_unwraps_triples() {
    let data = b"(1 0 0)(3 2 0)";
    let ts = tokenize(data, 0, data.len(), Delims::SpaceParen, true);
    let toks: Vec<&[u8]> = ts.iter().map(|t| t.as_slice()).collect();
    assert_eq!(toks, vec![b"1" as &[u8], b"0", b"0", b"3", b"2", b"0"]);
}

#[test]
fn tokenize_keeps_all_without_filter() {
    let data = b"1 x 3";
    let ts = tokenize(data, 0, data.len(), Delims::AnyWs, false);
    let toks: Vec<&[u8]> = ts.iter().map(|t| t.as_slice()).collect();
    assert_eq!(toks, vec![b"1" as &[u8], b"x", b"3"]);
}

#[test]
fn tokenize_subrange_only() {
    let data = b"9 (1 2) 9";
    let ts = tokenize(data, 2, 7, Delims::SpaceParen, true);
    let toks: Vec<&[u8]> = ts.iter().map(|t| t.as_slice()).collect();
    assert_eq!(toks, vec![b"1" as &[u8], b"2"]);
}

#[test]
fn strip_parens_removes_only_parens() {
    assert_eq!(strip_parens(b"(1 2 3)"), b"1 2 3".to_vec());
    assert_eq!(strip_parens(b"1 2 3"), b"1 2 3".to_vec());
    assert_eq!(strip_parens(b"((a)(b))"), b"ab".to_vec());
    assert_eq!(strip_parens(b""), Vec::<u8>::new());
}
