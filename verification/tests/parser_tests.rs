use parlan::ast::{AstItem, Expr, Literal, Stmt, Ty};
use parlan::lexer::Lexer;
use parlan::parser::{ParseAbort, Parser};

fn parser_for(src: &str) -> Parser<'_> {
    Parser::new(3, src, Lexer::new(src, 3))
}

#[test]
fn parses_a_function_with_a_declaration() {
    let src = "func main() { var x = 1; }\0";
    let mut p = parser_for(src);
    let m = p.parse().expect("no abort");
    assert_eq!(m.file_id, 3);
    assert_eq!(m.items.len(), 1);
    match &m.items[0] {
        AstItem::Function { name, args, ret, body } => {
            assert_eq!(*name, "main");
            assert!(args.is_empty());
            assert!(matches!(ret, Ty::Void));
            match body {
                Stmt::Block { stmts } => {
                    assert_eq!(stmts.len(), 1);
                    match &stmts[0] {
                        Stmt::VarDecl { name, ty, expr } => {
                            assert_eq!(*name, "x");
                            assert!(matches!(ty, Ty::Unknown));
                            assert!(matches!(expr, Expr::Literal(Literal::Integer(1))));
                        }
                        other => panic!("unexpected statement {:?}", other),
                    }
                }
                other => panic!("unexpected body {:?}", other),
            }
        }
        other => panic!("unexpected item {:?}", other),
    }
    assert!(p.errors.is_empty());
    assert!(p.diagnostics().is_empty());
}

#[test]
fn parses_nested_blocks_and_several_functions() {
    let src = "func a() { { var y = 22; } }\nfunc b() {}\0";
    let mut p = parser_for(src);
    let m = p.parse().expect("no abort");
    assert_eq!(m.items.len(), 2);
    match &m.items[0] {
        AstItem::Function { name, body: Stmt::Block { stmts }, .. } => {
            assert_eq!(*name, "a");
            assert_eq!(stmts.len(), 1);
            assert!(matches!(&stmts[0], Stmt::Block { stmts } if stmts.len() == 1));
        }
        other => panic!("unexpected item {:?}", other),
    }
    assert!(matches!(&m.items[1], AstItem::Function { name: "b", .. }));
    assert!(p.errors.is_empty());
}

#[test]
fn empty_input_gives_an_empty_module() {
    let src = "  \n\0";
    let mut p = parser_for(src);
    let m = p.parse().expect("no abort");
    assert!(m.items.is_empty());
    assert!(p.errors.is_empty());
}

#[test]
fn missing_semicolon_is_reported_and_parsing_recovers() {
    let src = "func main() { var x = 1 var y = 2; var z = 3; }\0";
    let mut p = parser_for(src);
    let m = p.parse().expect("no abort");
    assert_eq!(m.items.len(), 1);
    match &m.items[0] {
        AstItem::Function { body: Stmt::Block { stmts }, .. } => {
            assert_eq!(stmts.len(), 3);
            assert!(matches!(stmts[0], Stmt::Error((14, 27))));
            assert!(matches!(stmts[1], Stmt::Error((33, 34))));
            assert!(matches!(&stmts[2], Stmt::VarDecl { name: "z", .. }));
        }
        other => panic!("unexpected item {:?}", other),
    }
    assert_eq!(p.errors.len(), 2);
    assert_eq!(p.errors[0].message, "expected `;` after variable declaration");
    assert_eq!(p.errors[0].labels[0].start, 24);
    assert_eq!(p.errors[0].labels[0].end, 27);
    assert_eq!(p.errors[0].labels[0].message, "expected `;` here");
    assert_eq!(p.errors[0].labels[0].file_id, 3);
    assert_eq!(p.errors[1].message, "expected an statement");
    assert_eq!(p.errors[1].labels[0].start, 33);
    assert_eq!(p.errors[1].labels[0].end, 34);
    assert_eq!(p.errors[1].labels[0].message, "");
}

#[test]
fn stray_tokens_at_top_level_are_not_items() {
    let src = "var x = 1;\nfunc main() { }\0";
    let mut p = parser_for(src);
    let m = p.parse().expect("no abort");
    assert_eq!(m.items.len(), 3);
    assert!(matches!(m.items[0], AstItem::Error((0, 3))));
    assert!(matches!(m.items[1], AstItem::Error((9, 10))));
    assert!(matches!(&m.items[2], AstItem::Function { name: "main", .. }));
    assert_eq!(p.errors.len(), 2);
    for d in &p.errors {
        assert_eq!(d.message, "expected an item");
        assert_eq!(d.notes, vec!["an item can be either a function or a constant".to_string()]);
    }
}

#[test]
fn function_with_parameters_is_an_error_item() {
    let src = "func f(a) { }\0";
    let mut p = parser_for(src);
    let m = p.parse().expect("no abort");
    assert!(matches!(m.items[0], AstItem::Error((0, 8))));
    assert_eq!(p.errors[0].message, "expected `)`, functions doesn't support parameters yet");
    assert_eq!(p.errors[0].labels[0].message, "expected `)`");
    assert_eq!(m.items.len(), 1);
    assert_eq!(p.errors.len(), 1);
}

#[test]
fn missing_function_name() {
    let src = "func (\0";
    let mut p = parser_for(src);
    let m = p.parse().expect("no abort");
    assert_eq!(m.items.len(), 1);
    assert!(matches!(m.items[0], AstItem::Error((0, 6))));
    assert_eq!(p.errors.len(), 1);
    assert_eq!(p.errors[0].message, "expected identifier after `func`");
    assert_eq!(p.errors[0].labels[0].message, "expected identifier");
}

#[test]
fn end_of_input_in_a_function_header() {
    let src = "func\0";
    let mut p = parser_for(src);
    let m = p.parse().expect("no abort");
    assert!(matches!(m.items[0], AstItem::Error((0, 5))));
    assert_eq!(p.errors.len(), 1);
    assert_eq!(p.errors[0].message, "unexpected end of file");
    assert_eq!(p.errors[0].labels[0].start, 4);
    assert_eq!(p.errors[0].labels[0].end, 5);
    assert_eq!(p.errors[0].labels[0].message, "unterminaded function declaration");
}

#[test]
fn wrong_expression_is_reported_with_its_text() {
    // the token after the wrong one is skipped too, up to the next `;`
    let src = "func main() { var x = y var z = 1; }\0";
    let mut p = parser_for(src);
    let m = p.parse().expect("no abort");
    match &m.items[0] {
        AstItem::Function { body: Stmt::Block { stmts }, .. } => {
            assert_eq!(stmts.len(), 1);
            assert!(matches!(&stmts[0], Stmt::VarDecl { name: "x", expr: Expr::Error((22, 23)), .. }));
        }
        other => panic!("unexpected item {:?}", other),
    }
    assert_eq!(p.errors.len(), 1);
    assert_eq!(p.errors[0].message, "expected an expression, found `y` instead");
    assert_eq!(p.errors[0].labels[0].message, "expected expression");
}

#[test]
fn wrong_expression_before_semicolon_aborts() {
    let src = "func main() { var x = y; }\0";
    let mut p = parser_for(src);
    assert_eq!(p.parse().unwrap_err(), ParseAbort::UnexpectedEof);
    assert_eq!(p.errors.len(), 2);
    assert_eq!(p.errors[0].message, "expected an expression, found `y` instead");
    assert_eq!(p.errors[1].message, "unexpected end of file");
    assert_eq!(p.errors[1].labels[0].message, "unterminated variable declaration");
}

#[test]
fn wrong_token_after_var() {
    let src = "func main() { var = 1; }\0";
    let mut p = parser_for(src);
    assert_eq!(p.parse().unwrap_err(), ParseAbort::UnexpectedEof);
    assert_eq!(p.errors[0].message, "expected identifier after `var`, found `=` instead");
}

#[test]
fn wrong_token_after_variable_name() {
    let src = "func main() { var x ; }\0";
    let mut p = parser_for(src);
    assert_eq!(p.parse().unwrap_err(), ParseAbort::UnexpectedEof);
    assert_eq!(p.errors[0].message, "expected `=`, found `;` instead");
    assert_eq!(p.errors[0].labels[0].message, "expected `=` here");
}

#[test]
fn lexer_diagnostics_are_collected() {
    let src = "func main() { @ }\0";
    let mut p = parser_for(src);
    let m = p.parse().expect("no abort");
    assert_eq!(m.items.len(), 1);
    assert!(matches!(&m.items[0], AstItem::Function { body: Stmt::Block { stmts }, .. } if stmts.is_empty()));
    assert_eq!(p.errors.len(), 1);
    assert_eq!(p.errors[0].message, "unknown start of token: @");
}

#[test]
fn unterminated_block_aborts() {
    let src = "func main() { var x = 1;\0";
    let mut p = parser_for(src);
    assert_eq!(p.parse().unwrap_err(), ParseAbort::UnexpectedEof);
}

#[test]
fn missing_name_at_end_aborts() {
    let src = "func main() { var\0";
    let mut p = parser_for(src);
    assert_eq!(p.parse().unwrap_err(), ParseAbort::UnexpectedEof);
}

#[test]
fn huge_integer_aborts() {
    let src = "func main() { var x = 99999999999999999999999; }\0";
    let mut p = parser_for(src);
    assert_eq!(p.parse().unwrap_err(), ParseAbort::IntegerOverflow);
}

#[test]
fn largest_integer_literal_parses() {
    let src = "func main() { var x = 9223372036854775807; }\0";
    let mut p = parser_for(src);
    let m = p.parse().expect("no abort");
    match &m.items[0] {
        AstItem::Function { body: Stmt::Block { stmts }, .. } => {
            assert!(matches!(
                &stmts[0],
                Stmt::VarDecl { expr: Expr::Literal(Literal::Integer(9223372036854775807)), .. }
            ));
        }
        other => panic!("unexpected item {:?}", other),
    }
}

#[test]
fn parse_stmt_reads_one_statement() {
    let src = "var a = 5; { }\0";
    let mut p = parser_for(src);
    let s = p.parse_stmt().expect("no abort");
    assert!(matches!(s, Stmt::VarDecl { name: "a", expr: Expr::Literal(Literal::Integer(5)), .. }));
    let b = p.parse_stmt().expect("no abort");
    assert!(matches!(b, Stmt::Block { ref stmts } if stmts.is_empty()));
    let e = p.parse_stmt().expect("no abort");
    assert!(matches!(e, Stmt::Error((15, 15))));
    assert_eq!(p.errors.len(), 1);
    assert_eq!(p.errors[0].message, "unexpected end of file, expected an statement");
}
