use potenv::err::{ErrorKind, SyntaxError};
use potenv::pos::Position;
use potenv::token::{Token, TokenKind};
use potenv::tokenizer::Tokenizer;

fn tokenize(input: &str) -> Result<Vec<Token>, SyntaxError> {
    Tokenizer::new(input, Some("<test>".to_string())).tokenize()
}

fn tok(kind: TokenKind, value: &str, line: usize, column: usize) -> Token {
    Token::new(kind, value.to_string(), Position::new(line, column))
}

#[test]
fn tokenize_empty() {
    let expected = vec![tok(TokenKind::Eof, "", 1, 1)];
    assert_eq!(expected, tokenize("").unwrap());
}

#[test]
fn tokenize_comments() {
    let input = "\n# a comment\na=42\n# another comment\n";
    let expected = vec![
        tok(TokenKind::Assign, "a", 3, 1),
        tok(TokenKind::Characters, "42", 3, 3),
        tok(TokenKind::Eof, "", 5, 1),
    ];
    assert_eq!(expected, tokenize(input).unwrap());
}

#[test]
fn simple_raw_values() {
    let input = "A=a B=1\tC=yes";
    let expected = vec![
        tok(TokenKind::Assign, "A", 1, 1),
        tok(TokenKind::Characters, "a", 1, 3),
        tok(TokenKind::Assign, "B", 1, 5),
        tok(TokenKind::Characters, "1", 1, 7),
        tok(TokenKind::Assign, "C", 1, 9),
        tok(TokenKind::Characters, "yes", 1, 11),
        tok(TokenKind::Eof, "", 1, 14),
    ];
    assert_eq!(expected, tokenize(input).unwrap());
}

fn kinds_and_values(tokens: Vec<Token>) -> Vec<(TokenKind, String)> {
    tokens.into_iter().map(|t| (t.kind, t.value)).collect()
}

#[test]
fn test_spec() {
    // Simple expansion in a raw value.
    assert_eq!(
        vec![
            (TokenKind::Assign, "a".to_string()),
            (TokenKind::SimpleExpansion, "b".to_string()),
            (TokenKind::Eof, "".to_string()),
        ],
        kinds_and_values(tokenize("a=$b").unwrap())
    );
    // Braced expansion without an operator.
    assert_eq!(
        vec![
            (TokenKind::Assign, "a".to_string()),
            (TokenKind::SimpleExpansion, "b".to_string()),
            (TokenKind::Eof, "".to_string()),
        ],
        kinds_and_values(tokenize("a=${b}").unwrap())
    );
    // Braced expansion with a two-character operator and a default.
    assert_eq!(
        vec![
            (TokenKind::Assign, "a".to_string()),
            (TokenKind::StartExpansion, "b".to_string()),
            (TokenKind::ExpansionOperator, ":-".to_string()),
            (TokenKind::Characters, "x".to_string()),
            (TokenKind::EndExpansion, "}".to_string()),
            (TokenKind::Eof, "".to_string()),
        ],
        kinds_and_values(tokenize("a=${b:-x}").unwrap())
    );
    // Braced expansion with a one-character operator.
    assert_eq!(
        vec![
            (TokenKind::Assign, "a".to_string()),
            (TokenKind::StartExpansion, "b".to_string()),
            (TokenKind::ExpansionOperator, "-".to_string()),
            (TokenKind::Characters, "x".to_string()),
            (TokenKind::EndExpansion, "}".to_string()),
            (TokenKind::Eof, "".to_string()),
        ],
        kinds_and_values(tokenize("a=${b-x}").unwrap())
    );
    // Double quotes: escapes apply to the escape targets only.
    assert_eq!(
        vec![
            (TokenKind::Assign, "a".to_string()),
            (TokenKind::Characters, "x\"y$z\\w".to_string()),
            (TokenKind::Eof, "".to_string()),
        ],
        kinds_and_values(tokenize("a=\"x\\\"y\\$z\\\\w\"").unwrap())
    );
    // A non-target keeps its backslash inside double quotes.
    assert_eq!(
        vec![
            (TokenKind::Assign, "a".to_string()),
            (TokenKind::Characters, "a\\nb".to_string()),
            (TokenKind::Eof, "".to_string()),
        ],
        kinds_and_values(tokenize("a=\"a\\nb\"").unwrap())
    );
    // Line continuation outside quotes erases the newline.
    assert_eq!(
        vec![
            (TokenKind::Assign, "a".to_string()),
            (TokenKind::Characters, "xy".to_string()),
            (TokenKind::Eof, "".to_string()),
        ],
        kinds_and_values(tokenize("a=x\\\ny").unwrap())
    );
    // A lone dollar before the terminator is literal.
    assert_eq!(
        vec![
            (TokenKind::Assign, "a".to_string()),
            (TokenKind::Characters, "$".to_string()),
            (TokenKind::Eof, "".to_string()),
        ],
        kinds_and_values(tokenize("a=$").unwrap())
    );
    // An expansion inside double quotes.
    assert_eq!(
        vec![
            (TokenKind::Assign, "a".to_string()),
            (TokenKind::Characters, "x ".to_string()),
            (TokenKind::SimpleExpansion, "b".to_string()),
            (TokenKind::Eof, "".to_string()),
        ],
        kinds_and_values(tokenize("a=\"x $b\"").unwrap())
    );
    // A single quote inside an expansion body under double quotes is
    // literal.
    assert_eq!(
        vec![
            (TokenKind::Assign, "a".to_string()),
            (TokenKind::StartExpansion, "b".to_string()),
            (TokenKind::ExpansionOperator, "-".to_string()),
            (TokenKind::Characters, "'x'".to_string()),
            (TokenKind::EndExpansion, "}".to_string()),
            (TokenKind::Eof, "".to_string()),
        ],
        kinds_and_values(tokenize("a=\"${b-'x'}\"").unwrap())
    );
    // Errors, by kind.
    assert!(matches!(
        tokenize("a=`pwd`").unwrap_err().kind(),
        ErrorKind::UnsupportedCommandExpansion
    ));
    assert!(matches!(
        tokenize("a=$(pwd)").unwrap_err().kind(),
        ErrorKind::UnsupportedCommandOrArithmeticExpansion
    ));
    assert!(matches!(
        tokenize("a=$0").unwrap_err().kind(),
        ErrorKind::UnsupportedShellParameter(p) if p == "$0"
    ));
    assert!(matches!(
        tokenize("a=${0}").unwrap_err().kind(),
        ErrorKind::UnsupportedShellParameter(p) if p == "${0}"
    ));
    assert!(matches!(
        tokenize("a=b&c").unwrap_err().kind(),
        ErrorKind::UnescapedSpecialCharacter('&')
    ));
    assert!(matches!(
        tokenize("a=\u{0}").unwrap_err().kind(),
        ErrorKind::NullCharacter
    ));
    assert!(matches!(
        tokenize("abc").unwrap_err().kind(),
        ErrorKind::Eof
    ));
    assert!(matches!(
        tokenize("%").unwrap_err().kind(),
        ErrorKind::InvalidCharacter('%')
    ));
    assert!(matches!(
        tokenize("a=${b!}").unwrap_err().kind(),
        ErrorKind::InvalidCharacter('!')
    ));
}

#[test]
fn test_error_position() {
    let cases: Vec<(&str, usize, usize)> = vec![
        ("&", 1, 1),
        ("abc", 1, 4),
        ("a=b&c", 1, 4),
        ("a='0\n\u{0}'", 2, 1),
        ("a='1\n2\n3", 1, 3),
        ("a=\"1\n2\n3", 1, 3),
        ("a=${a-1\n2\n3", 1, 4),
        ("a=\"1\n2\n${3}\"", 3, 3),
        ("#x\na=`pwd`", 2, 3),
        ("#x\na=$(pwd)", 2, 4),
        ("A=$(pwd)", 1, 4),
        ("A=${0}", 1, 5),
    ];
    for (input, line, column) in cases {
        let e = tokenize(input).unwrap_err();
        assert_eq!(
            (line, column),
            (e.line(), e.column()),
            "wrong position for {:?}",
            input
        );
    }
}

#[test]
fn test_error_carries_filename() {
    let e = tokenize("&").unwrap_err();
    assert_eq!(Some("<test>".to_string()), e.file());
    let e2 = Tokenizer::new("&", None).tokenize().unwrap_err();
    assert_eq!(None, e2.file());
    assert!(matches!(e2.kind(), ErrorKind::InvalidCharacter('&')));
}
