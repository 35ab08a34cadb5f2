use lib::lexer::{Lexer, Token, SpannedToken};

fn lex(src: &str) -> Result<Vec<SpannedToken>, String> {
    let mut lx = Lexer::new(src);
    lx.tokenize()
}

#[test]
fn lexes_a_let_statement_with_positions() {
    let toks = lex("let x = 42;").unwrap();
    assert_eq!(toks.len(), 6);
    assert!(matches!(toks[0].node, Token::Let));
    assert!(matches!(&toks[1].node, Token::Ident(n) if n == "x"));
    assert!(matches!(toks[2].node, Token::Eq));
    assert!(matches!(toks[3].node, Token::IntLit(42)));
    assert!(matches!(toks[4].node, Token::Semicolon));
    assert!(matches!(toks[5].node, Token::EOF));
    let cols: Vec<usize> = toks.iter().map(|t| t.col).collect();
    assert_eq!(cols, vec![1, 5, 7, 9, 11, 12]);
    assert!(toks.iter().all(|t| t.line == 1));
}

#[test]
fn empty_source_is_just_eof() {
    let toks = lex("").unwrap();
    assert_eq!(toks.len(), 1);
    assert!(matches!(toks[0].node, Token::EOF));
    assert_eq!((toks[0].line, toks[0].col), (1, 1));
}

#[test]
fn lines_count_from_one_and_comments_are_skipped() {
    let toks = lex("// note\nmut y").unwrap();
    assert!(matches!(toks[0].node, Token::Mut));
    assert_eq!((toks[0].line, toks[0].col), (2, 1));
    assert!(matches!(&toks[1].node, Token::Ident(n) if n == "y"));
    assert_eq!((toks[1].line, toks[1].col), (2, 5));
}

#[test]
fn fractional_literal_keeps_its_text() {
    let toks = lex("3.14").unwrap();
    assert!(matches!(&toks[0].node, Token::FloatLit(t) if t == "3.14"));
}

#[test]
fn string_escapes_are_decoded() {
    let toks = lex("\"a\\nb\\\"c\"").unwrap();
    assert!(matches!(&toks[0].node, Token::StringLit(s) if s == "a\nb\"c"));
}

#[test]
fn unicode_letters_form_identifiers() {
    let toks = lex("ñame2 = 1").unwrap();
    assert!(matches!(&toks[0].node, Token::Ident(n) if n == "ñame2"));
}

#[test]
fn unicode_spaces_separate_tokens() {
    let toks = lex("let\u{3000}z").unwrap();
    assert!(matches!(toks[0].node, Token::Let));
    assert!(matches!(&toks[1].node, Token::Ident(n) if n == "z"));
}

#[test]
fn hardware_annotations() {
    let toks = lex("@gpu @cpu").unwrap();
    assert!(matches!(toks[0].node, Token::AtGpu));
    assert!(matches!(toks[1].node, Token::AtCpu));
}

#[test]
fn unterminated_string_is_an_error() {
    assert_eq!(lex("let s = \"abc").unwrap_err(), "Unterminated string at line 1");
}

#[test]
fn unknown_annotation_is_an_error() {
    assert_eq!(lex("@tpu").unwrap_err(), "Unknown annotation @tpu at line 1");
}

#[test]
fn unexpected_character_is_an_error() {
    assert_eq!(lex("x $").unwrap_err(), "Unexpected character '$' at line 1, col 3");
}

#[test]
fn lone_ampersand_is_an_error() {
    assert_eq!(lex("a & b").unwrap_err(), "Unexpected '&' at line 1, col 3");
}

#[test]
fn lone_bar_is_an_error() {
    assert_eq!(lex("a | b").unwrap_err(), "Unexpected '|' at line 1, col 3");
}

#[test]
fn two_character_operators() {
    let toks = lex("== != <= >= && || -> ..").unwrap();
    assert!(matches!(toks[0].node, Token::EqEq));
    assert!(matches!(toks[1].node, Token::BangEq));
    assert!(matches!(toks[2].node, Token::LtEq));
    assert!(matches!(toks[3].node, Token::GtEq));
    assert!(matches!(toks[4].node, Token::AndAnd));
    assert!(matches!(toks[5].node, Token::OrOr));
    assert!(matches!(toks[6].node, Token::Arrow));
    assert!(matches!(toks[7].node, Token::DotDot));
}

#[test]
fn every_successful_lex_ends_with_eof() {
    for src in ["", "fn f() {}", "let a = [1, 2];", "x.push(3)"] {
        let toks = lex(src).unwrap();
        assert!(matches!(toks.last().unwrap().node, Token::EOF));
        assert_eq!(toks.iter().filter(|t| matches!(t.node, Token::EOF)).count(), 1);
    }
}

#[test]
fn a_keyword_lexes_back_to_itself() {
    for (src, n) in [("while", 5usize), ("->", 2), ("tensor", 6), ("@gpu", 4)] {
        let toks = lex(src).unwrap();
        assert_eq!(toks.len(), 2);
        assert_eq!((toks[0].line, toks[0].col), (1, 1));
        assert_eq!((toks[1].line, toks[1].col), (1, n + 1));
    }
    assert!(matches!(lex("while").unwrap()[0].node, Token::While));
}

#[test]
fn a_run_of_digits_lexes_to_its_value() {
    let toks = lex("9223372036854775807").unwrap();
    assert!(matches!(toks[0].node, Token::IntLit(i64::MAX)));
    assert_eq!((toks[1].line, toks[1].col), (1, 20));
}

#[test]
fn unicode_numerals_continue_identifiers() {
    let toks = lex("x² y").unwrap();
    assert!(matches!(&toks[0].node, Token::Ident(n) if n == "x²"));
    assert!(matches!(&toks[1].node, Token::Ident(n) if n == "y"));
}

#[test]
fn doc_lines_are_tokens() {
    let toks = lex("/// hi\nfn").unwrap();
    assert!(matches!(&toks[0].node, Token::DocComment(t) if t == " hi"));
    assert!(matches!(toks[1].node, Token::Fn));
}

#[test]
fn unterminated_escape_is_an_error() {
    assert_eq!(lex("\"abc\\").unwrap_err(), "Unterminated escape");
}

#[test]
fn integers_beyond_i64_are_errors() {
    assert_eq!(
        lex("9223372036854775808").unwrap_err(),
        "Invalid integer '9223372036854775808': number too large to fit in target type"
    );
}

#[test]
fn numbers_with_two_points_are_errors() {
    assert_eq!(lex("1.2.3").unwrap_err(), "Invalid float '1.2.3': invalid float literal");
}

#[test]
fn token_positions_strictly_increase() {
    for src in ["let x = 42;\nlet y = x + 1;", "fn f() {\n  return 1;\n}\n", "a\n\n  b c // note\nd"] {
        let toks = lex(src).unwrap();
        for w in toks.windows(2) {
            assert!((w[0].line, w[0].col) < (w[1].line, w[1].col));
        }
    }
}

#[test]
fn comments_and_spaces_are_skipped_to_the_next_token() {
    let toks = lex("x // c\ny").unwrap();
    assert_eq!(toks.len(), 3);
    assert!(matches!(&toks[0].node, Token::Ident(n) if n == "x"));
    assert!(matches!(&toks[1].node, Token::Ident(n) if n == "y"));
    assert_eq!((toks[1].line, toks[1].col), (2, 1));
}
