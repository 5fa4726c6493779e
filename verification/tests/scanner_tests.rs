use nlox::scanner::Scanner;
use nlox::token::Kind;

fn single_token_test(source: String, expected_kind: Kind) {
    let mut scanner = Scanner::new(source.clone());
    let token = scanner.next();

    assert_eq!(token.kind, expected_kind);
    assert_eq!(token.string, source);
    assert_eq!(scanner.next().kind, Kind::Eof, "Expected Eof.");
}

#[test]
fn number_literals() {
    single_token_test(String::from("123"), Kind::NumberLiteral);
    single_token_test(String::from("123.1"), Kind::NumberLiteral);
    single_token_test(String::from("123.456"), Kind::NumberLiteral);
    single_token_test(String::from("0.456"), Kind::NumberLiteral);
    single_token_test(String::from("0.0"), Kind::NumberLiteral);
}

#[test]
fn string_literals() {
    single_token_test(String::from("\"\""), Kind::StringLiteral);
    single_token_test(String::from("\"a string literal\""), Kind::StringLiteral);
}

#[test]
fn identifier_literals() {
    single_token_test(String::from("x"), Kind::IdentifierLiteral);
    single_token_test(String::from("While"), Kind::IdentifierLiteral);
    single_token_test(String::from("_"), Kind::IdentifierLiteral);
    single_token_test(String::from("_1"), Kind::IdentifierLiteral);
    single_token_test(String::from("_abc123"), Kind::IdentifierLiteral);
}

#[test]
fn keywords() {
    single_token_test(String::from("and"), Kind::And);
    single_token_test(String::from("or"), Kind::Or);
    single_token_test(String::from("class"), Kind::Class);
    single_token_test(String::from("fun"), Kind::Fun);
    single_token_test(String::from("var"), Kind::Var);
    single_token_test(String::from("if"), Kind::If);
    single_token_test(String::from("else"), Kind::Else);
    single_token_test(String::from("while"), Kind::While);
    single_token_test(String::from("for"), Kind::For);
    single_token_test(String::from("true"), Kind::True);
    single_token_test(String::from("false"), Kind::False);
    single_token_test(String::from("nil"), Kind::Nil);
    single_token_test(String::from("print"), Kind::Print);
    single_token_test(String::from("return"), Kind::Return);
    single_token_test(String::from("super"), Kind::Super);
    single_token_test(String::from("this"), Kind::This);
}

#[test]
fn other_tokens() {
    single_token_test(String::from("{"), Kind::LeftBrace);
    single_token_test(String::from("}"), Kind::RightBrace);
    single_token_test(String::from("("), Kind::LeftParen);
    single_token_test(String::from(")"), Kind::RightParen);
    single_token_test(String::from(","), Kind::Comma);
    single_token_test(String::from("."), Kind::Dot);
    single_token_test(String::from("-"), Kind::Minus);
    single_token_test(String::from("+"), Kind::Plus);
    single_token_test(String::from("*"), Kind::Star);
    single_token_test(String::from("/"), Kind::Slash);
    single_token_test(String::from(";"), Kind::Semicolon);
    single_token_test(String::from("!"), Kind::Bang);
    single_token_test(String::from("!="), Kind::BangEqual);
    single_token_test(String::from("="), Kind::Equal);
    single_token_test(String::from("=="), Kind::EqualEqual);
    single_token_test(String::from(">"), Kind::Greater);
    single_token_test(String::from(">="), Kind::GreaterEqual);
    single_token_test(String::from("<"), Kind::Less);
    single_token_test(String::from("<="), Kind::LessEqual);
}

#[test]
fn whitespace_and_comments() {
    let source = "
            // This is a comment
            while (true) // another comment
                print \"hey   \"
        ";

    let mut scanner = Scanner::new(String::from(source));
    assert_eq!(scanner.next().kind, Kind::While);
    assert_eq!(scanner.next().kind, Kind::LeftParen);
    assert_eq!(scanner.next().kind, Kind::True);
    assert_eq!(scanner.next().kind, Kind::RightParen);
    assert_eq!(scanner.next().kind, Kind::Print);
    assert_eq!(scanner.next().kind, Kind::StringLiteral);
}

#[test]
fn empty_file() {
    let mut scanner = Scanner::new(String::new());
    assert_eq!(scanner.next().kind, Kind::Eof);
}

#[test]
fn line_numbers_follow_newlines() {
    let mut scanner = Scanner::new(String::from("1\n// note\n2"));
    let first = scanner.next();
    assert_eq!(first.kind, Kind::NumberLiteral);
    assert_eq!(first.line, 1);
    let second = scanner.next();
    assert_eq!(second.kind, Kind::NumberLiteral);
    assert_eq!(second.line, 3);
}

#[test]
fn scan_tokens_ends_with_eof() {
    let tokens = nlox::scanner::scan_tokens(String::from("print(1 + 2);"));
    assert_eq!(tokens.last().unwrap().kind, Kind::Eof);
    assert_eq!(tokens.len(), 8);
    assert_eq!(tokens[0].kind, Kind::Print);
    assert_eq!(tokens[1].kind, Kind::LeftParen);
    assert_eq!(tokens[2].kind, Kind::NumberLiteral);
    assert_eq!(tokens[3].kind, Kind::Plus);
    assert_eq!(tokens[4].kind, Kind::NumberLiteral);
    assert_eq!(tokens[5].kind, Kind::RightParen);
    assert_eq!(tokens[6].kind, Kind::Semicolon);
    assert_eq!(tokens[7].kind, Kind::Eof);
}

#[test]
fn unterminated_string_is_an_error() {
    let mut scanner = Scanner::new(String::from("\"abc"));
    assert_eq!(scanner.next().kind, Kind::Error);
}
