//! The lexer on its own: longest match, greedy literals, matched texts.

use minic::lexer::tokenize;
use minic::token::TokenKind;
use minic::{default_ignore, default_symbols};

fn scan(src: &str) -> Vec<(TokenKind, Option<i64>, String)> {
    let symbols = default_symbols();
    let ignore = default_ignore();
    tokenize(&src.to_string(), &symbols, &ignore)
        .expect("scan")
        .into_iter()
        .map(|t| (t.kind, t.val, t.string))
        .collect()
}

#[test]
fn longest_match_wins() {
    // one two-character token, never `<` then `=`
    let tokens = scan("<=");
    assert_eq!(tokens, vec![(TokenKind::Reserved, None, "<=".to_string())]);
}

#[test]
fn all_two_character_symbols() {
    let tokens = scan("== != <= >=");
    let texts: Vec<&str> = tokens.iter().map(|t| t.2.as_str()).collect();
    assert_eq!(texts, vec!["==", "!=", "<=", ">="]);
    assert!(tokens.iter().all(|t| t.0 == TokenKind::Reserved));
}

#[test]
fn token_texts_reconstruct_the_source() {
    // the concatenated texts are the source without its whitespace
    let tokens = scan("ab = 12\t+ (3);");
    let joined: String = tokens.iter().map(|t| t.2.as_str()).collect();
    assert_eq!(joined, "ab=12+(3);");
}

#[test]
fn numbers_carry_value_and_text() {
    let tokens = scan("007");
    assert_eq!(tokens, vec![(TokenKind::Num, Some(7), "007".to_string())]);
}

#[test]
fn identifiers_are_lowercase_runs() {
    let tokens = scan("abc de");
    assert_eq!(
        tokens,
        vec![
            (TokenKind::Ident, None, "abc".to_string()),
            (TokenKind::Ident, None, "de".to_string()),
        ]
    );
}

#[test]
fn literal_stops_before_overflowing() {
    // twenty nines: the scan takes the longest prefix whose value fits a
    // signed 64-bit word (eighteen nines), then starts a new literal
    let tokens = scan("99999999999999999999");
    assert_eq!(
        tokens,
        vec![
            (TokenKind::Num, Some(999999999999999999), "999999999999999999".to_string()),
            (TokenKind::Num, Some(99), "99".to_string()),
        ]
    );
}

#[test]
fn max_literal_fits() {
    let tokens = scan("9223372036854775807");
    assert_eq!(tokens[0].1, Some(i64::MAX));
}

#[test]
fn empty_source_scans_to_nothing() {
    assert_eq!(scan(""), vec![]);
}

#[test]
fn unrecognised_character_fails() {
    let symbols = default_symbols();
    let ignore = default_ignore();
    assert!(tokenize(&"1&2;".to_string(), &symbols, &ignore).is_err());
    assert!(tokenize(&"A;".to_string(), &symbols, &ignore).is_err());
}
