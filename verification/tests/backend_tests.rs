use parlan::ast::Node;
use parlan::backend::Backend;
use parlan::lexer::TkType;

fn sp(src: &str, word: &str) -> (usize, usize) {
    let s = src.find(word).expect("word in source");
    (s, s + word.len())
}

fn id(src: &str, word: &str) -> Node {
    let (s, e) = sp(src, word);
    Node::Id(s, e)
}

fn var(src: &str, name: &str, vtype: TkType, value: Node) -> Node {
    let (s, e) = sp(src, name);
    Node::VarDecl { name_s: s, name_e: e, vtype, value: Box::new(value) }
}

fn bin(l: Node, op: TkType, r: Node) -> Node {
    Node::BinOp { left: Box::new(l), right: Box::new(r), op }
}

fn emit(src: &str, nodes: &Vec<Node>) -> String {
    let mut b = Backend::new(src.to_string());
    b.emit_c(nodes)
}

fn hello_program(src: &str) -> Vec<Node> {
    let (ps, pe) = sp(src, "printf");
    let (fs, fe) = sp(src, "fmt");
    let (vs, ve) = sp(src, "...");
    let (ms, me) = sp(src, "main");
    let (hs, he) = sp(src, "hello");
    vec![
        Node::FuncDecl {
            name_s: ps,
            name_e: pe,
            args: vec![(fs, fe, TkType::StringT), (vs, ve, TkType::VaArgs)],
            rtype: TkType::IntT,
            body: None,
            is_extern: true,
        },
        Node::FuncDecl {
            name_s: ms,
            name_e: me,
            args: vec![],
            rtype: TkType::IntT,
            body: Some(Box::new(Node::Block(vec![
                Node::FuncCall { name: Box::new(id(src, "printf")), args: vec![Node::Str(hs, he)] },
                Node::Return(Box::new(Node::Integer(0))),
            ]))),
            is_extern: false,
        },
    ]
}

#[test]
fn emits_hello_world() {
    let src = "printf fmt ... main hello";
    let code = emit(src, &hello_program(src));
    assert_eq!(
        code,
        "extern int printf(const char* fmt,...);\n\nint main() {\n    printf(\"hello\");\n    return 0;\n}\n\n"
    );
}

#[test]
fn c_types_of_the_language_types() {
    let src = "a b c d e";
    let nodes = vec![
        var(src, "a", TkType::IntT, Node::Integer(1)),
        var(src, "b", TkType::FloatT, Node::Float("2.5".to_string())),
        var(src, "c", TkType::BoolT, Node::Bool(true)),
        var(src, "d", TkType::StringT, Node::Str(0, 1)),
        var(src, "e", TkType::VoidT, Node::Bool(false)),
    ];
    assert_eq!(
        emit(src, &nodes),
        "int a = 1;\ndouble b = 2.5;\nunsigned char c = 1;\nconst char* d = \"a\";\nvoid e = 0;\n"
    );
}

#[test]
fn main_parameters_use_char_pointer_pointer() {
    let src = "main argc argv";
    let (ms, me) = sp(src, "main");
    let (cs, ce) = sp(src, "argc");
    let (vs, ve) = sp(src, "argv");
    let nodes = vec![Node::FuncDecl {
        name_s: ms,
        name_e: me,
        args: vec![(cs, ce, TkType::IntT), (vs, ve, TkType::StringT)],
        rtype: TkType::IntT,
        body: Some(Box::new(Node::Block(vec![Node::Return(Box::new(id(src, "argc")))]))),
        is_extern: false,
    }];
    assert_eq!(emit(src, &nodes), "int main(int argc,char** argv) {\n    return argc;\n}\n\n");
}

#[test]
fn loops_and_branches_are_indented() {
    let src = "i c";
    let nodes = vec![
        Node::While {
            cond: Box::new(bin(id(src, "i"), TkType::Lt, Node::Integer(10))),
            body: Box::new(Node::Block(vec![Node::VarReassing {
                name_s: 0,
                name_e: 1,
                value: Box::new(bin(id(src, "i"), TkType::Plus, Node::Integer(1))),
            }])),
        },
        Node::If {
            cond: Box::new(id(src, "c")),
            then_br: Box::new(Node::Block(vec![Node::Return(Box::new(Node::Integer(1)))])),
            else_br: Some(Box::new(Node::Block(vec![Node::Return(Box::new(Node::Integer(-2)))]))),
        },
        Node::If {
            cond: Box::new(Node::Unary { right: Box::new(id(src, "c")), op: TkType::Not }),
            then_br: Box::new(Node::Block(vec![])),
            else_br: None,
        },
    ];
    assert_eq!(
        emit(src, &nodes),
        "while ((i < 10)) {\n\n    i = (i + 1);\n}\n\nif (c) {\n\n    return 1;\n} else {\n\n    return -2;\n}\n\nif (!(c)) {\n\n} \n"
    );
}

#[test]
fn nested_blocks_indent_deeper() {
    let src = "f x";
    let (fs, fe) = sp(src, "f");
    let nodes = vec![Node::FuncDecl {
        name_s: fs,
        name_e: fe,
        args: vec![],
        rtype: TkType::VoidT,
        body: Some(Box::new(Node::Block(vec![Node::While {
            cond: Box::new(Node::Bool(true)),
            body: Box::new(Node::Block(vec![var(src, "x", TkType::IntT, Node::Integer(3))])),
        }]))),
        is_extern: false,
    }];
    assert_eq!(
        emit(src, &nodes),
        "void f() {\n    while (1) {\n\n        int x = 3;\n    }\n\n}\n\n"
    );
}

#[test]
fn operators_and_calls_in_expressions() {
    let src = "r f a b";
    let ops = [
        (TkType::Plus, "+"),
        (TkType::Minus, "-"),
        (TkType::Star, "*"),
        (TkType::Slash, "/"),
        (TkType::Lt, "<"),
        (TkType::Gt, ">"),
        (TkType::Le, "<="),
        (TkType::Ge, ">="),
        (TkType::Eq, "=="),
        (TkType::Ne, "!="),
        (TkType::And, "&&"),
        (TkType::Or, "||"),
    ];
    for (op, text) in ops {
        let nodes = vec![Node::VarReassing {
            name_s: 0,
            name_e: 1,
            value: Box::new(bin(id(src, "a"), op, id(src, "b"))),
        }];
        assert_eq!(emit(src, &nodes), format!("r = (a {} b);\n", text));
    }
    let call = vec![Node::FuncCall {
        name: Box::new(id(src, "f")),
        args: vec![Node::Integer(1), id(src, "a"), Node::Unary { right: Box::new(id(src, "b")), op: TkType::Minus }],
    }];
    assert_eq!(emit(src, &call), "f(1,a,-(rhs));\n");
    let nested = vec![Node::Return(Box::new(Node::FuncCall {
        name: Box::new(id(src, "f")),
        args: vec![Node::FuncCall { name: Box::new(id(src, "f")), args: vec![] }],
    }))];
    assert_eq!(emit(src, &nested), "return f(f());\n");
}

#[test]
fn integers_are_written_in_decimal() {
    let src = "x";
    for (v, text) in [(0i64, "0"), (7, "7"), (-7, "-7"), (1234567890, "1234567890"), (i64::MIN, "-9223372036854775808"), (i64::MAX, "9223372036854775807")] {
        let nodes = vec![Node::Return(Box::new(Node::Integer(v)))];
        assert_eq!(emit(src, &nodes), format!("return {};\n", text));
    }
}

#[test]
fn emitting_twice_appends_to_the_code() {
    let src = "printf fmt ... main hello";
    let all = hello_program(src);
    let mut first = hello_program(src);
    let second = first.split_off(1);
    let mut b = Backend::new(src.to_string());
    let part = b.emit_c(&first);
    assert_eq!(part, "extern int printf(const char* fmt,...);\n\n");
    let whole = b.emit_c(&second);
    assert_eq!(whole, emit(src, &all));
}

#[test]
fn non_ascii_source_text_is_kept() {
    let src = "é ñame";
    let nodes = vec![var(src, "ñame", TkType::StringT, Node::Str(0, 2))];
    assert_eq!(emit(src, &nodes), "const char* ñame = \"é\";\n");
}

#[test]
fn str_parameters_of_other_functions_are_const_char_pointers() {
    let src = "greet name";
    let (gs, ge) = sp(src, "greet");
    let (ns, ne) = sp(src, "name");
    let nodes = vec![Node::FuncDecl {
        name_s: gs,
        name_e: ge,
        args: vec![(ns, ne, TkType::StringT)],
        rtype: TkType::VoidT,
        body: Some(Box::new(Node::Block(vec![]))),
        is_extern: false,
    }];
    assert_eq!(emit(src, &nodes), "void greet(const char* name) {\n}\n\n");
}
