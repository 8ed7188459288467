//! The lexical automaton through the scanner: token families, push-back,
//! the cursor, and the numbered lexical errors.
use analisador_lexico::class::Class;
use analisador_lexico::scanner::LexicalError;
use analisador_lexico::scanner::Scanner;
use analisador_lexico::token::Token;
use analisador_lexico::token_type::TokenType;

fn scan_all(source: &str) -> Vec<Token> {
    let mut scanner = Scanner::new(source.chars().collect());
    let mut tokens = Vec::new();
    loop {
        let token = scanner.scan();
        let done = token.class == Some(Class::Eof);
        tokens.push(token);
        if done {
            break;
        }
    }
    tokens
}

#[test]
fn integers_and_reals_classify() {
    let tokens = scan_all("12 1.5 2e3 1e-2 7e+4\n");
    let got: Vec<(Option<Class>, Option<TokenType>)> =
        tokens.iter().map(|t| (t.class, t.token_type)).collect();
    assert_eq!(
        got,
        vec![
            (Some(Class::Num), Some(TokenType::Inteiro)),
            (Some(Class::Num), Some(TokenType::Real)),
            (Some(Class::Num), Some(TokenType::Inteiro)),
            (Some(Class::Num), Some(TokenType::Real)),
            (Some(Class::Num), Some(TokenType::Inteiro)),
            (Some(Class::Eof), None),
        ]
    );
    assert_eq!(tokens[0].lexeme.as_deref(), Some("12"));
    assert_eq!(tokens[3].lexeme.as_deref(), Some("1e-2"));
}

#[test]
fn operators_classify() {
    let tokens = scan_all("< <= <> <- > >= = + - * / ( ) ; ,\n");
    let got: Vec<Option<Class>> = tokens.iter().map(|t| t.class).collect();
    assert_eq!(
        got,
        vec![
            Some(Class::Opr),
            Some(Class::Opr),
            Some(Class::Opr),
            Some(Class::Rcb),
            Some(Class::Opr),
            Some(Class::Opr),
            Some(Class::Rcb),
            Some(Class::Opm),
            Some(Class::Opm),
            Some(Class::Opm),
            Some(Class::Opm),
            Some(Class::Abp),
            Some(Class::Fcp),
            Some(Class::Ptv),
            Some(Class::Vir),
            Some(Class::Eof),
        ]
    );
}

#[test]
fn string_literal_classifies() {
    let tokens = scan_all("\"ola mundo\"\n");
    assert_eq!(tokens[0].class, Some(Class::Lit));
    assert_eq!(tokens[0].token_type, Some(TokenType::Literal));
    assert_eq!(tokens[0].lexeme.as_deref(), Some("\"ola mundo\""));
}

#[test]
fn comment_is_discarded() {
    let tokens = scan_all("x{this is ignored}y\n");
    let lexemes: Vec<&str> = tokens.iter().filter_map(|t| t.lexeme.as_deref()).collect();
    assert_eq!(lexemes, vec!["x", "y", "EOF"]);
}

#[test]
fn reserved_words_come_from_the_symbol_table() {
    let tokens = scan_all("se fim inteiro\n");
    assert_eq!(tokens[0].class, Some(Class::Se));
    assert_eq!(tokens[0].token_type, Some(TokenType::Se));
    assert_eq!(tokens[1].class, Some(Class::Fim));
    assert_eq!(tokens[2].class, Some(Class::Inteiro));
}

#[test]
fn identifier_is_stored_and_returned_verbatim() {
    let mut scanner = Scanner::new("abc abc\n".chars().collect());
    let first = scanner.scan();
    assert_eq!(first.class, Some(Class::Id));
    assert_eq!(first.lexeme.as_deref(), Some("abc"));
    assert_eq!(first.token_type, None);
    let second = scanner.scan();
    assert_eq!(second.class, first.class);
    assert_eq!(second.lexeme, first.lexeme);
    assert_eq!(second.token_type, first.token_type);
    let stored = scanner.symbol_table.get("abc".to_string());
    assert!(stored.is_some());
}

#[test]
fn concatenated_lexemes_rebuild_the_source() {
    let source = "inicio{note}x <- 12 ;\nfim";
    let stripped: String = "iniciox<-12;fim".to_string();
    let tokens = scan_all(source);
    let rebuilt: String = tokens
        .iter()
        .filter(|t| t.class != Some(Class::Eof))
        .filter_map(|t| t.lexeme.as_deref())
        .collect::<Vec<&str>>()
        .concat();
    assert_eq!(rebuilt, stripped);
}

#[test]
fn underscore_start_is_lexical_error_1() {
    let mut scanner = Scanner::new("_x\n".chars().collect());
    let token = scanner.scan();
    assert_eq!(token.class, Some(Class::Erro));
    assert_eq!(token.lexeme, None);
    assert_eq!(
        scanner.error_messages(),
        &vec![LexicalError { code: 1, row: 1, col: 1, ch: '_' }]
    );
}

#[test]
fn character_outside_alphabet_is_lexical_error_0() {
    let mut scanner = Scanner::new("@\n".chars().collect());
    let token = scanner.scan();
    assert_eq!(token.class, Some(Class::Erro));
    assert_eq!(scanner.error_messages()[0].code, 0);
}

#[test]
fn malformed_numbers_give_errors_2_to_5() {
    let cases: Vec<(&str, u8)> = vec![("1.\n", 2), ("1e\n", 3), ("1e+\n", 4), ("1e-\n", 5)];
    for (source, code) in cases {
        let mut scanner = Scanner::new(source.chars().collect());
        let token = scanner.scan();
        assert_eq!(token.class, Some(Class::Erro), "{}", source);
        let errors = scanner.error_messages();
        assert_eq!(errors.len(), 1, "{}", source);
        assert_eq!(errors[0].code, code, "{}", source);
        assert_eq!(errors[0].row, 1);
    }
}

#[test]
fn unterminated_literal_is_error_6_then_eof() {
    let mut scanner = Scanner::new("\"ab\n".chars().collect());
    let token = scanner.scan();
    assert_eq!(token.class, Some(Class::Erro));
    let errors = scanner.error_messages().clone();
    assert_eq!(errors.len(), 1);
    assert_eq!(errors[0].code, 6);
    let next = scanner.scan();
    assert_eq!(next.class, Some(Class::Eof));
}

#[test]
fn unterminated_comment_is_error_6_then_eof() {
    let mut scanner = Scanner::new("{ab\n".chars().collect());
    let token = scanner.scan();
    assert_eq!(token.class, Some(Class::Erro));
    assert_eq!(scanner.error_messages()[0].code, 6);
    let next = scanner.scan();
    assert_eq!(next.class, Some(Class::Eof));
}

#[test]
fn safe_scan_skips_error_tokens() {
    let mut scanner = Scanner::new("_ 12\n".chars().collect());
    let token = scanner.safe_scan();
    assert_eq!(token.class, Some(Class::Num));
    assert_eq!(token.lexeme.as_deref(), Some("12"));
    assert_eq!(scanner.error_messages().len(), 1);
}

#[test]
fn cursor_points_past_the_last_consumed_character() {
    let mut scanner = Scanner::new("ab\ncd".chars().collect());
    let token = scanner.scan();
    assert_eq!(token.lexeme.as_deref(), Some("ab"));
    // the newline was read and pushed back: the cursor stands on it
    assert_eq!(scanner.get_row(), 1);
    assert_eq!(scanner.get_col(), 2);
    let token = scanner.scan();
    assert_eq!(token.lexeme.as_deref(), Some("cd"));
    // everything was consumed: the cursor stands past the end
    assert_eq!(scanner.get_row(), 3);
    assert_eq!(scanner.get_col(), 0);
    let token = scanner.scan();
    assert_eq!(token.class, Some(Class::Eof));
}
