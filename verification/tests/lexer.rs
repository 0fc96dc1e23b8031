use teflon::lexer::Lexer;
use teflon::lexer::State;
use teflon::token::Error;
use teflon::token::LexerError;
use teflon::token::Token;
use teflon::token::TokenType;

#[test]
fn test_get_lexemes_for_load_instruction() {
    let mut test_lexer = Lexer::new();
    test_lexer.lex_single_line("LOAD $1 #1000");
    let tokens = vec![
        Token::new(TokenType::OPCODE(String::from("LOAD")), 1),
        Token::new(TokenType::REGISTER, 1),
        Token::new(TokenType::NUMBER(String::from("1")), 1),
        Token::new(TokenType::IntOperand, 1),
        Token::new(TokenType::NUMBER(String::from("1000")), 1),
        Token::new(TokenType::EOF, 1),
    ];
    assert_eq!(test_lexer.tokens, tokens);
}

#[test]
fn test_get_lexemes_for_add_instruction() {
    let mut test_lexer = Lexer::new();
    test_lexer.lex_single_line("ADD $11 $2 $3");
    let tokens = vec![
        Token::new(TokenType::OPCODE(String::from("ADD")), 1),
        Token::new(TokenType::REGISTER, 1),
        Token::new(TokenType::NUMBER(String::from("11")), 1),
        Token::new(TokenType::REGISTER, 1),
        Token::new(TokenType::NUMBER(String::from("2")), 1),
        Token::new(TokenType::REGISTER, 1),
        Token::new(TokenType::NUMBER(String::from("3")), 1),
        Token::new(TokenType::EOF, 1),
    ];
    assert_eq!(test_lexer.tokens, tokens);
}

#[test]
fn test_comment() {
    let mut test_lexer = Lexer::new();
    test_lexer.lex_single_line("< Hello for a comment >");
    let tokens = vec![
        Token::new(TokenType::EOF, 1),
    ];
    assert_eq!(test_lexer.tokens, tokens);
}

#[test]
fn test_comment_with_code() {
    let mut test_lexer = Lexer::new();
    test_lexer.lex_single_line("ADD $11 $2 $3 <this code should work>");
    let tokens = vec![
        Token::new(TokenType::OPCODE(String::from("ADD")), 1),
        Token::new(TokenType::REGISTER, 1),
        Token::new(TokenType::NUMBER(String::from("11")), 1),
        Token::new(TokenType::REGISTER, 1),
        Token::new(TokenType::NUMBER(String::from("2")), 1),
        Token::new(TokenType::REGISTER, 1),
        Token::new(TokenType::NUMBER(String::from("3")), 1),
        Token::new(TokenType::EOF, 1),
    ];
    assert_eq!(test_lexer.tokens, tokens);
}

#[test]
fn test_invalid_symbol_percent() {
    let mut test_lexer = Lexer::new();
    test_lexer.lex_single_line("ADD $11 $2% $3 <this code should work>");
    let tokens = vec![
        Token::new(TokenType::OPCODE(String::from("ADD")), 1),
        Token::new(TokenType::REGISTER, 1),
        Token::new(TokenType::NUMBER(String::from("11")), 1),
        Token::new(TokenType::REGISTER, 1),
        Token::new(TokenType::NUMBER(String::from("2")), 1),
        Token::new(TokenType::REGISTER, 1),
        Token::new(TokenType::NUMBER(String::from("3")), 1),
        Token::new(TokenType::EOF, 1),
    ];
    let errors = vec![LexerError::new(Error::TokenError(1, '%'))];
    assert_eq!(test_lexer.tokens, tokens);
    assert_eq!(test_lexer.errors, errors);
}

#[test]
fn test_invalid_comment_error() {
    let mut test_lexer = Lexer::new();
    test_lexer.lex_single_line("ADD $11 $2 $3 <this code should work");
    let tokens = vec![
        Token::new(TokenType::OPCODE(String::from("ADD")), 1),
        Token::new(TokenType::REGISTER, 1),
        Token::new(TokenType::NUMBER(String::from("11")), 1),
        Token::new(TokenType::REGISTER, 1),
        Token::new(TokenType::NUMBER(String::from("2")), 1),
        Token::new(TokenType::REGISTER, 1),
        Token::new(TokenType::NUMBER(String::from("3")), 1),
        Token::new(TokenType::EOF, 1),
    ];
    let errors = vec![LexerError::new(Error::CommentError(1))];

    assert_eq!(test_lexer.tokens, tokens);
    assert_eq!(test_lexer.errors, errors);
}

#[test]
fn fresh_lexer_is_empty_and_neutral() {
    let test_lexer = Lexer::new();
    assert_eq!(test_lexer.state, State::S);
    assert_eq!(test_lexer.val, String::new());
    assert!(test_lexer.tokens.is_empty());
    assert!(test_lexer.errors.is_empty());
}

#[test]
fn empty_line_yields_no_tokens() {
    let mut test_lexer = Lexer::new();
    test_lexer.lex_line("", 1);
    assert!(test_lexer.tokens.is_empty());
    assert!(test_lexer.errors.is_empty());
}

#[test]
fn line_number_is_carried_into_tokens_and_errors() {
    let mut test_lexer = Lexer::new();
    test_lexer.lex_line("HLT %", 7);
    let tokens = vec![Token::new(TokenType::OPCODE(String::from("HLT")), 7)];
    let errors = vec![LexerError::new(Error::TokenError(7, '%'))];
    assert_eq!(test_lexer.tokens, tokens);
    assert_eq!(test_lexer.errors, errors);
}

#[test]
fn stray_closing_bracket_is_a_comment_error() {
    let mut test_lexer = Lexer::new();
    test_lexer.lex_single_line("> ");
    let errors = vec![LexerError::new(Error::CommentError(1))];
    assert_eq!(test_lexer.errors, errors);
    assert_eq!(test_lexer.tokens, vec![Token::new(TokenType::EOF, 1)]);
}

#[test]
fn number_at_end_of_line_is_flushed() {
    let mut test_lexer = Lexer::new();
    test_lexer.lex_line("LOAD $1 #500", 1);
    let tokens = vec![
        Token::new(TokenType::OPCODE(String::from("LOAD")), 1),
        Token::new(TokenType::REGISTER, 1),
        Token::new(TokenType::NUMBER(String::from("1")), 1),
        Token::new(TokenType::IntOperand, 1),
        Token::new(TokenType::NUMBER(String::from("500")), 1),
    ];
    assert_eq!(test_lexer.tokens, tokens);
}
