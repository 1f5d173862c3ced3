use kurisu::scanner::{Scanner, Token, TokenType};

fn kinds_of(source: &str) -> Vec<TokenType> {
    let mut scanner = Scanner::new(source);
    let mut kinds = Vec::new();
    loop {
        let t = scanner.scan_token();
        let done = t.type_ == TokenType::Eof;
        kinds.push(t.type_);
        if done {
            return kinds;
        }
    }
}

#[test]
fn single_character_tokens() {
    assert_eq!(
        kinds_of("(){};,.+-*/"),
        vec![
            TokenType::LeftParen,
            TokenType::RightParen,
            TokenType::LeftBrace,
            TokenType::RightBrace,
            TokenType::Semicolon,
            TokenType::Comma,
            TokenType::Dot,
            TokenType::Plus,
            TokenType::Minus,
            TokenType::Star,
            TokenType::Slash,
            TokenType::Eof,
        ]
    );
}

#[test]
fn one_and_two_character_operators() {
    assert_eq!(
        kinds_of("! != = == > >= < <="),
        vec![
            TokenType::Bang,
            TokenType::BangEqual,
            TokenType::Equal,
            TokenType::EqualEqual,
            TokenType::Greater,
            TokenType::GreaterEqual,
            TokenType::Less,
            TokenType::LessEqual,
            TokenType::Eof,
        ]
    );
}

#[test]
fn keywords_classify() {
    let source = "and class else false for fun if nil or print return super this true var while";
    assert_eq!(
        kinds_of(source),
        vec![
            TokenType::And,
            TokenType::Class,
            TokenType::Else,
            TokenType::False,
            TokenType::For,
            TokenType::Fun,
            TokenType::If,
            TokenType::Nil,
            TokenType::Or,
            TokenType::Print,
            TokenType::Return,
            TokenType::Super,
            TokenType::This,
            TokenType::True,
            TokenType::Var,
            TokenType::While,
            TokenType::Eof,
        ]
    );
}

#[test]
fn near_keywords_are_identifiers() {
    assert_eq!(
        kinds_of("andy classes fal f t whil"),
        vec![
            TokenType::Identifier,
            TokenType::Identifier,
            TokenType::Identifier,
            TokenType::Identifier,
            TokenType::Identifier,
            TokenType::Identifier,
            TokenType::Eof,
        ]
    );
}

#[test]
fn number_lexemes_keep_their_text() {
    let mut scanner = Scanner::new("12.5 7 3.");
    let t = scanner.scan_token();
    assert_eq!(t.type_, TokenType::Number);
    assert_eq!(t.name, "12.5");
    let t = scanner.scan_token();
    assert_eq!(t.name, "7");
    let t = scanner.scan_token();
    assert_eq!(t.name, "3.");
}

#[test]
fn string_lexeme_includes_quotes_and_counts_lines() {
    let mut scanner = Scanner::new("\"a\nb\"");
    let t = scanner.scan_token();
    assert_eq!(t.type_, TokenType::String);
    assert_eq!(t.name, "\"a\nb\"");
    assert_eq!(t.line, 2);
}

#[test]
fn unterminated_string_is_an_error_token() {
    let mut scanner = Scanner::new("\"abc");
    let t = scanner.scan_token();
    assert_eq!(t.type_, TokenType::Error);
    assert_eq!(t.name, "Unterminated string");
    let t = scanner.scan_token();
    assert_eq!(t.type_, TokenType::Eof);
}

#[test]
fn unexpected_character_then_scanning_resumes() {
    let mut scanner = Scanner::new("@ 1");
    let t = scanner.scan_token();
    assert_eq!(t.type_, TokenType::Error);
    assert_eq!(t.name, "Unexpected character.");
    let t = scanner.scan_token();
    assert_eq!(t.type_, TokenType::Number);
    assert_eq!(t.name, "1");
    let t = scanner.scan_token();
    assert_eq!(t.type_, TokenType::Eof);
}

#[test]
fn comments_and_whitespace_are_skipped() {
    let mut scanner = Scanner::new("  // a comment\n\t 42 // trailing");
    let t = scanner.scan_token();
    assert_eq!(t.type_, TokenType::Number);
    assert_eq!(t.name, "42");
    assert_eq!(t.line, 2);
    let t = scanner.scan_token();
    assert_eq!(t.type_, TokenType::Eof);
}

#[test]
fn lone_slash_is_a_token_not_a_comment() {
    assert_eq!(kinds_of("/"), vec![TokenType::Slash, TokenType::Eof]);
}

#[test]
fn eof_is_produced_forever() {
    let mut scanner = Scanner::new("");
    assert_eq!(scanner.scan_token().type_, TokenType::Eof);
    assert_eq!(scanner.scan_token().type_, TokenType::Eof);
    assert_eq!(scanner.scan_token().type_, TokenType::Eof);
}

#[test]
fn default_constructed_token() {
    let t = Token::new();
    assert_eq!(t.type_, TokenType::DefaultConstructed);
    assert_eq!(t.line, 0);
}

#[test]
fn advance_consumes_one_character() {
    let mut scanner = Scanner::new("ab");
    assert_eq!(scanner.advance(), 'a');
    assert_eq!(scanner.advance(), 'b');
}
