use parlan::lexer::{Lexer, Token, TokenKind};

fn tokens_of(src: &str) -> Vec<Token> {
    let mut lexer = Lexer::new(src, 0);
    let mut out = Vec::new();
    while let Some(item) = lexer.next() {
        match item {
            Ok(t) => out.push(t),
            Err(d) => panic!("unexpected diagnostic: {}", d.message),
        }
    }
    out
}

#[test]
fn lexes_a_variable_declaration() {
    let toks = tokens_of("var x = 12;\0");
    let kinds: Vec<TokenKind> = toks.iter().map(|t| t.kind).collect();
    assert_eq!(
        kinds,
        vec![TokenKind::VarKw, TokenKind::Id, TokenKind::Assign, TokenKind::Int, TokenKind::Semi]
    );
    let spans: Vec<(usize, usize)> = toks.iter().map(|t| t.span).collect();
    assert_eq!(spans, vec![(0, 3), (4, 5), (6, 7), (8, 10), (10, 11)]);
}

#[test]
fn lexes_a_function_header() {
    let toks = tokens_of("func main() {}\0");
    let kinds: Vec<TokenKind> = toks.iter().map(|t| t.kind).collect();
    assert_eq!(
        kinds,
        vec![
            TokenKind::FuncKw,
            TokenKind::Id,
            TokenKind::OpenParen,
            TokenKind::CloseParen,
            TokenKind::OpenBrace,
            TokenKind::CloseBrace
        ]
    );
}

#[test]
fn keywords_are_whole_words() {
    let toks = tokens_of("variable funcs var_ _x\0");
    assert!(toks.iter().all(|t| t.kind == TokenKind::Id));
    assert_eq!(toks.len(), 4);
}

#[test]
fn colon_and_whitespace() {
    let toks = tokens_of(" \t\n:\r\0");
    assert_eq!(toks.len(), 1);
    assert_eq!(toks[0].kind, TokenKind::Colon);
    assert_eq!(toks[0].span, (3, 4));
}

#[test]
fn unknown_byte_gives_a_diagnostic_and_lexing_goes_on() {
    let mut lexer = Lexer::new("@ x\0", 7);
    match lexer.next() {
        Some(Err(d)) => {
            assert_eq!(d.message, "unknown start of token: @");
            assert_eq!(d.labels.len(), 1);
            assert_eq!(d.labels[0].file_id, 7);
            assert_eq!(d.labels[0].start, 0);
            assert_eq!(d.labels[0].end, 0);
            assert_eq!(d.labels[0].message, "");
            assert!(d.notes.is_empty());
        }
        other => panic!("expected a diagnostic, got {:?}", other),
    }
    match lexer.next() {
        Some(Ok(t)) => {
            assert_eq!(t.kind, TokenKind::Id);
            assert_eq!(t.span, (2, 3));
        }
        other => panic!("expected a token, got {:?}", other),
    }
    assert!(lexer.next().is_none());
}

#[test]
fn end_of_input_is_sticky() {
    let mut lexer = Lexer::new("x\0", 0);
    assert!(matches!(lexer.next(), Some(Ok(_))));
    assert!(lexer.next().is_none());
    assert!(lexer.next().is_none());
    assert!(lexer.next().is_none());
}

#[test]
fn lexing_stops_at_the_nul_byte() {
    let toks = tokens_of("x\0y\0");
    assert_eq!(toks.len(), 1);
}

#[test]
fn tokens_come_in_order_without_overlap() {
    let toks = tokens_of("func f(){var a=1;var bb = 22 ;}\0");
    for w in toks.windows(2) {
        assert!(w[0].span.0 < w[0].span.1);
        assert!(w[0].span.1 <= w[1].span.0);
    }
}

#[test]
fn token_kind_names() {
    assert_eq!(TokenKind::VarKw.to_string(), "`var`");
    assert_eq!(TokenKind::FuncKw.to_string(), "`func`");
    assert_eq!(TokenKind::Assign.to_string(), "`=`");
    assert_eq!(TokenKind::Semi.to_string(), "`;`");
    assert_eq!(TokenKind::Colon.to_string(), "`:`");
    assert_eq!(TokenKind::OpenParen.to_string(), "`(`");
    assert_eq!(TokenKind::CloseParen.to_string(), "`)`");
    assert_eq!(TokenKind::OpenBrace.to_string(), "`{`");
    assert_eq!(TokenKind::CloseBrace.to_string(), "}");
    assert_eq!(TokenKind::Int.to_string(), "integer");
    assert_eq!(TokenKind::Id.to_string(), "identifier");
}
