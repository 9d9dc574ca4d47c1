//! The line-oriented tokenizer, exercised through its public entry point.

use textile::lexer::{tokenize, Token};
use textile::options::Options;

#[test]
fn no_eol() {
    let tokens = tokenize("orange", &Options::default()).unwrap();
    assert_eq!(
        tokens,
        vec![
            Token::BlockStartImplicit,
            Token::Text("orange".to_string()),
            Token::BlockEnd,
            Token::Eof,
        ]
    );
}

#[test]
fn with_eol() {
    let tokens = tokenize("orange\n", &Options::default()).unwrap();
    assert_eq!(
        tokens,
        vec![
            Token::BlockStartImplicit,
            Token::Text("orange".to_string()),
            Token::BlockEnd,
            Token::NewLine,
            Token::Eof,
        ]
    );
}

#[test]
fn lexer_implicit_paragraphs() {
    let tokens = tokenize("hello ðŸ˜\n\nyay", &Options::default()).unwrap();
    assert_eq!(
        tokens,
        vec![
            Token::BlockStartImplicit,
            Token::Text("hello ðŸ˜".to_string()),
            Token::BlockEnd,
            Token::NewLine,
            Token::NewLine,
            Token::BlockStartImplicit,
            Token::Text("yay".to_string()),
            Token::BlockEnd,
            Token::Eof,
        ]
    );
}

#[test]
fn linebreaks() {
    let tokens = tokenize("orange\nmocha\n", &Options::default()).unwrap();
    assert_eq!(
        tokens,
        vec![
            Token::BlockStartImplicit,
            Token::Text("orange".to_string()),
            Token::NewLine,
            Token::Text("mocha".to_string()),
            Token::BlockEnd,
            Token::NewLine,
            Token::Eof,
        ]
    );
}

#[test]
fn block_tags() {
    let tokens = tokenize("h1.  orange\n\nmocha. frappuccino\n", &Options::default()).unwrap();
    assert_eq!(
        tokens,
        vec![
            Token::BlockStartExplicit,
            Token::SignatureStart("h1".to_string()),
            Token::SignatureEnd,
            Token::Text(" orange".to_string()),
            Token::BlockEnd,
            Token::NewLine,
            Token::NewLine,
            Token::BlockStartImplicit,
            Token::Text("mocha. frappuccino".to_string()),
            Token::BlockEnd,
            Token::NewLine,
            Token::Eof,
        ]
    );
}

#[test]
fn empty_doc() {
    let tokens = tokenize("", &Options::default()).unwrap();
    assert_eq!(tokens, vec![Token::Eof]);
}

#[test]
fn newlines_only_doc() {
    let tokens = tokenize("\n\n\n", &Options::default()).unwrap();
    assert_eq!(
        tokens,
        vec![Token::NewLine, Token::NewLine, Token::NewLine, Token::Eof]
    );
}

#[test]
fn modifiers() {
    let tokens = tokenize("h1(so-hot). hansel", &Options::default()).unwrap();
    assert_eq!(
        tokens,
        vec![
            Token::BlockStartExplicit,
            Token::SignatureStart("h1".to_string()),
            Token::ModifierParenOpen,
            Token::Modifier("so-hot".to_string()),
            Token::ModifierParenClose,
            Token::SignatureEnd,
            Token::Text("hansel".to_string()),
            Token::BlockEnd,
            Token::Eof,
        ]
    );
}
