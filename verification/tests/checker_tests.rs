use parlan::ast::Node;
use parlan::lexer::TkType;
use parlan::semchecker::{SemChecker, SemError};
use parlan::tychecker::{TyChecker, TyError, Type};

fn sp(src: &str, word: &str) -> (usize, usize) {
    let s = src.find(word).expect("word in source");
    (s, s + word.len())
}

fn id(src: &str, word: &str) -> Node {
    let (s, e) = sp(src, word);
    Node::Id(s, e)
}

fn func(src: &str, name: &str, params: &[(&str, TkType)], rtype: TkType, body: Option<Vec<Node>>) -> Node {
    let (s, e) = sp(src, name);
    let args = params
        .iter()
        .map(|(p, t)| {
            let (a, b) = sp(src, p);
            (a, b, *t)
        })
        .collect();
    Node::FuncDecl {
        name_s: s,
        name_e: e,
        args,
        rtype,
        is_extern: body.is_none(),
        body: body.map(|b| Box::new(Node::Block(b))),
    }
}

fn var(src: &str, name: &str, vtype: TkType, value: Node) -> Node {
    let (s, e) = sp(src, name);
    Node::VarDecl { name_s: s, name_e: e, vtype, value: Box::new(value) }
}

fn assign(src: &str, name: &str, value: Node) -> Node {
    let (s, e) = sp(src, name);
    Node::VarReassing { name_s: s, name_e: e, value: Box::new(value) }
}

fn call(src: &str, name: &str, args: Vec<Node>) -> Node {
    Node::FuncCall { name: Box::new(id(src, name)), args }
}

fn bin(l: Node, op: TkType, r: Node) -> Node {
    Node::BinOp { left: Box::new(l), right: Box::new(r), op }
}

fn ret(x: Node) -> Node {
    Node::Return(Box::new(x))
}

fn sem(src: &str, nodes: &Vec<Node>) -> Result<(), SemError> {
    let mut c = SemChecker::new(nodes, src);
    c.analize()
}

fn ty(src: &str, nodes: &Vec<Node>) -> Result<(), TyError> {
    let mut c = TyChecker::new(nodes, src);
    c.analize()
}

// ---- semantic analysis ----

#[test]
fn sem_accepts_declared_variables() {
    let src = "main value";
    let nodes = vec![func(
        src,
        "main",
        &[],
        TkType::IntT,
        Some(vec![var(src, "value", TkType::IntT, Node::Integer(1)), ret(id(src, "value"))]),
    )];
    assert_eq!(sem(src, &nodes), Ok(()));
}

#[test]
fn sem_rejects_undeclared_identifier() {
    let src = "main value";
    let nodes = vec![func(src, "main", &[], TkType::IntT, Some(vec![ret(id(src, "value"))]))];
    let err = sem(src, &nodes).unwrap_err();
    assert_eq!(err, SemError::UndeclaredIdentifier { start: 5, end: 10 });
    assert_eq!(err.message(src), Some("[ERROR] undeclared identifier `value`".to_string()));
}

#[test]
fn sem_block_declarations_end_with_the_block() {
    let src = "main value";
    let nodes = vec![func(
        src,
        "main",
        &[],
        TkType::IntT,
        Some(vec![
            Node::Block(vec![var(src, "value", TkType::IntT, Node::Integer(1))]),
            ret(id(src, "value")),
        ]),
    )];
    assert_eq!(sem(src, &nodes), Err(SemError::UndeclaredIdentifier { start: 5, end: 10 }));
}

#[test]
fn sem_parameters_are_in_scope() {
    let src = "main argc";
    let nodes = vec![func(
        src,
        "main",
        &[("argc", TkType::IntT)],
        TkType::IntT,
        Some(vec![ret(id(src, "argc"))]),
    )];
    assert_eq!(sem(src, &nodes), Ok(()));
}

#[test]
fn sem_assignment_needs_a_declared_target() {
    let src = "main count";
    let nodes = vec![func(
        src,
        "main",
        &[],
        TkType::IntT,
        Some(vec![assign(src, "count", Node::Integer(2))]),
    )];
    assert_eq!(sem(src, &nodes), Err(SemError::UndeclaredIdentifier { start: 5, end: 10 }));
}

#[test]
fn sem_wrong_argument_count() {
    let src = "main f a";
    let nodes = vec![
        func(src, "f", &[("a", TkType::IntT)], TkType::IntT, None),
        func(src, "main", &[], TkType::IntT, Some(vec![call(src, "f", vec![])])),
    ];
    let err = sem(src, &nodes).unwrap_err();
    assert_eq!(err, SemError::WrongArgCount { expected: 1, found: 0 });
    assert_eq!(
        err.message(src),
        Some("[ERROR] wrong number of arguments, expected 1 found 0".to_string())
    );
}

#[test]
fn sem_variadic_call_takes_any_number_of_arguments() {
    let src = "main printf fmt ... hello";
    let nodes = vec![
        func(src, "printf", &[("fmt", TkType::StringT), ("...", TkType::VaArgs)], TkType::IntT, None),
        func(
            src,
            "main",
            &[],
            TkType::IntT,
            Some(vec![call(src, "printf", vec![Node::Str(20, 25), Node::Integer(1), Node::Integer(2)])]),
        ),
    ];
    assert_eq!(sem(src, &nodes), Ok(()));
}

#[test]
fn sem_call_arguments_must_be_declared() {
    let src_main = "f n y main";
    let nodes_main = vec![
        func(src_main, "f", &[("n", TkType::IntT)], TkType::IntT, None),
        func(src_main, "main", &[], TkType::IntT, Some(vec![call(src_main, "f", vec![id(src_main, "y")])])),
    ];
    let err = sem(src_main, &nodes_main).unwrap_err();
    assert_eq!(err, SemError::UndeclaredIdentifier { start: 4, end: 5 });
    assert_eq!(err.message(src_main), Some("[ERROR] undeclared identifier `y`".to_string()));
    let ok = vec![
        func(src_main, "f", &[("n", TkType::IntT)], TkType::IntT, None),
        func(
            src_main,
            "main",
            &[("y", TkType::IntT)],
            TkType::IntT,
            Some(vec![call(src_main, "f", vec![id(src_main, "y")])]),
        ),
    ];
    assert_eq!(sem(src_main, &ok), Ok(()));
}

#[test]
fn sem_undeclared_function() {
    let src = "main g";
    let nodes = vec![func(src, "main", &[], TkType::IntT, Some(vec![call(src, "g", vec![])]))];
    let err = sem(src, &nodes).unwrap_err();
    assert_eq!(err, SemError::UndeclaredFunction { start: 5, end: 6 });
    assert_eq!(err.message(src), Some("[ERROR] undeclared function `g`".to_string()));
}

#[test]
fn sem_function_inside_function() {
    let src = "main inner";
    let nodes = vec![func(
        src,
        "main",
        &[],
        TkType::IntT,
        Some(vec![func(src, "inner", &[], TkType::IntT, Some(vec![]))]),
    )];
    let err = sem(src, &nodes).unwrap_err();
    assert_eq!(err, SemError::NestedFunction);
    assert_eq!(
        err.message(src),
        Some("[ERROR] cannot declare a function inside a function".to_string())
    );
}

#[test]
fn sem_call_of_parameterless_function_stops() {
    let src = "main f";
    let nodes = vec![
        func(src, "f", &[], TkType::IntT, Some(vec![])),
        func(src, "main", &[], TkType::IntT, Some(vec![call(src, "f", vec![])])),
    ];
    let err = sem(src, &nodes).unwrap_err();
    assert_eq!(err, SemError::EmptyParameterList { start: 5, end: 6 });
    assert_eq!(err.message(src), None);
}

#[test]
fn sem_checks_loops_and_branches() {
    let src = "main flag other";
    let nodes = vec![func(
        src,
        "main",
        &[("flag", TkType::BoolT)],
        TkType::IntT,
        Some(vec![Node::If {
            cond: Box::new(id(src, "flag")),
            then_br: Box::new(Node::Block(vec![])),
            else_br: Some(Box::new(Node::While {
                cond: Box::new(id(src, "other")),
                body: Box::new(Node::Block(vec![])),
            })),
        }]),
    )];
    assert_eq!(sem(src, &nodes), Err(SemError::UndeclaredIdentifier { start: 10, end: 15 }));
}

// ---- type checking ----

#[test]
fn ty_accepts_a_well_typed_function() {
    let src = "main x";
    let nodes = vec![func(
        src,
        "main",
        &[],
        TkType::IntT,
        Some(vec![var(src, "x", TkType::IntT, Node::Integer(1)), ret(id(src, "x"))]),
    )];
    assert_eq!(ty(src, &nodes), Ok(()));
}

#[test]
fn ty_declaration_mismatch() {
    let src = "main x";
    let nodes = vec![func(
        src,
        "main",
        &[],
        TkType::IntT,
        Some(vec![var(src, "x", TkType::IntT, Node::Float("1.5".to_string()))]),
    )];
    let err = ty(src, &nodes).unwrap_err();
    assert_eq!(err, TyError::DeclarationMismatch { expected: Type::Int, found: Type::Float });
    assert_eq!(
        err.message(),
        Some("[ERROR] expected value to be of type `Int`, found Float".to_string())
    );
}

#[test]
fn ty_int_variable_cannot_take_a_float() {
    let src = "main x";
    let nodes = vec![func(
        src,
        "main",
        &[],
        TkType::IntT,
        Some(vec![
            var(src, "x", TkType::Error, Node::Integer(9)),
            assign(src, "x", Node::Float("8.0".to_string())),
        ]),
    )];
    let err = ty(src, &nodes).unwrap_err();
    assert_eq!(err, TyError::AssignmentMismatch { expected: Type::Int, found: Type::Float });
    assert_eq!(err.message(), Some("[ERROR] expected type `Int`, found Float".to_string()));
}

#[test]
fn ty_comparisons_are_bool() {
    let src = "main b c";
    let ok = vec![func(
        src,
        "main",
        &[],
        TkType::IntT,
        Some(vec![var(src, "b", TkType::BoolT, bin(Node::Integer(1), TkType::Lt, Node::Integer(2)))]),
    )];
    assert_eq!(ty(src, &ok), Ok(()));
    let bad = vec![func(
        src,
        "main",
        &[],
        TkType::IntT,
        Some(vec![var(src, "c", TkType::IntT, bin(Node::Bool(true), TkType::Eq, Node::Bool(false)))]),
    )];
    assert_eq!(
        ty(src, &bad),
        Err(TyError::DeclarationMismatch { expected: Type::Int, found: Type::Bool })
    );
}

#[test]
fn ty_division_is_float() {
    let src = "main d";
    let nodes = vec![func(
        src,
        "main",
        &[],
        TkType::IntT,
        Some(vec![var(src, "d", TkType::FloatT, bin(Node::Integer(4), TkType::Slash, Node::Integer(2)))]),
    )];
    assert_eq!(ty(src, &nodes), Ok(()));
}

#[test]
fn ty_operand_mismatch() {
    let src = "main";
    let nodes = vec![func(
        src,
        "main",
        &[],
        TkType::IntT,
        Some(vec![ret(bin(Node::Integer(1), TkType::Plus, Node::Float("1.5".to_string())))]),
    )];
    let err = ty(src, &nodes).unwrap_err();
    assert_eq!(err, TyError::OperandMismatch);
    assert_eq!(
        err.message(),
        Some("[ERROR] type mismatch, both types in the operation must be the same".to_string())
    );
}

#[test]
fn ty_boolean_operators_need_booleans() {
    let src = "main";
    let nodes = vec![func(
        src,
        "main",
        &[],
        TkType::IntT,
        Some(vec![ret(bin(Node::Integer(1), TkType::And, Node::Integer(2)))]),
    )];
    let err = ty(src, &nodes).unwrap_err();
    assert_eq!(err, TyError::NotBoolean(Type::Int));
    assert_eq!(
        err.message(),
        Some("[ERROR] cannot do boolean operations over values of type `Int`".to_string())
    );
}

#[test]
fn ty_arithmetic_needs_numbers() {
    let src = "main";
    let nodes = vec![func(
        src,
        "main",
        &[],
        TkType::IntT,
        Some(vec![ret(bin(Node::Bool(true), TkType::Star, Node::Bool(true)))]),
    )];
    let err = ty(src, &nodes).unwrap_err();
    assert_eq!(err, TyError::NotNumeric(Type::Bool));
    assert_eq!(
        err.message(),
        Some("[ERROR] cannot do arithmetic over values of type `Bool`".to_string())
    );
}

#[test]
fn ty_strings_cannot_be_compared() {
    let src = "main a b";
    let nodes = vec![func(
        src,
        "main",
        &[],
        TkType::IntT,
        Some(vec![ret(bin(Node::Str(5, 6), TkType::Ne, Node::Str(7, 8)))]),
    )];
    let err = ty(src, &nodes).unwrap_err();
    assert_eq!(err, TyError::NotComparable);
    assert_eq!(
        err.message(),
        Some("[ERROR] cannot compare values that are not boolean or numeric".to_string())
    );
}

#[test]
fn ty_unary_operators() {
    let src = "main";
    let not_int = vec![func(
        src,
        "main",
        &[],
        TkType::IntT,
        Some(vec![ret(Node::Unary { right: Box::new(Node::Integer(1)), op: TkType::Not })]),
    )];
    let err = ty(src, &not_int).unwrap_err();
    assert_eq!(err, TyError::NotOnNonBoolean);
    assert_eq!(err.message(), Some("[ERROR] cannot apply `not` over non-boolean values".to_string()));
    let neg_bool = vec![func(
        src,
        "main",
        &[],
        TkType::IntT,
        Some(vec![ret(Node::Unary { right: Box::new(Node::Bool(true)), op: TkType::Minus })]),
    )];
    let err = ty(src, &neg_bool).unwrap_err();
    assert_eq!(err, TyError::NegationOnNonNumeric);
    assert_eq!(err.message(), Some("[ERROR] cannot apply `-` over non-numeric values".to_string()));
    let neg_int = vec![func(
        src,
        "main",
        &[],
        TkType::IntT,
        Some(vec![ret(Node::Unary { right: Box::new(Node::Integer(3)), op: TkType::Minus })]),
    )];
    assert_eq!(ty(src, &neg_int), Ok(()));
}

#[test]
fn ty_return_mismatch() {
    let src = "main";
    let nodes = vec![func(src, "main", &[], TkType::IntT, Some(vec![ret(Node::Bool(true))]))];
    let err = ty(src, &nodes).unwrap_err();
    assert_eq!(err, TyError::ReturnMismatch { expected: Type::Int, found: Type::Bool });
    assert_eq!(err.message(), Some("[ERROR] expected return type `Int`, found `Bool`".to_string()));
}

#[test]
fn ty_void_function_returns_no_value() {
    let src = "f x";
    let nodes = vec![func(src, "f", &[], TkType::VoidT, Some(vec![ret(Node::Bool(true))]))];
    let err = ty(src, &nodes).unwrap_err();
    assert_eq!(err, TyError::ReturnMismatch { expected: Type::Void, found: Type::Bool });
    assert_eq!(err.message(), Some("[ERROR] expected return type `Void`, found `Bool`".to_string()));
    let decl = vec![func(
        src,
        "f",
        &[],
        TkType::VoidT,
        Some(vec![var(src, "x", TkType::VoidT, Node::Bool(false))]),
    )];
    assert_eq!(
        ty(src, &decl),
        Err(TyError::DeclarationMismatch { expected: Type::Void, found: Type::Bool })
    );
}

#[test]
fn ty_conditions_must_be_boolean() {
    let src = "main";
    let nodes = vec![func(
        src,
        "main",
        &[],
        TkType::IntT,
        Some(vec![Node::While { cond: Box::new(Node::Integer(1)), body: Box::new(Node::Block(vec![])) }]),
    )];
    let err = ty(src, &nodes).unwrap_err();
    assert_eq!(err, TyError::ConditionNotBoolean);
    assert_eq!(err.message(), Some("[ERROR] condition must be a boolean value".to_string()));
    let ok = vec![func(
        src,
        "main",
        &[],
        TkType::IntT,
        Some(vec![Node::If {
            cond: Box::new(Node::Bool(true)),
            then_br: Box::new(Node::Block(vec![ret(Node::Integer(1))])),
            else_br: Some(Box::new(Node::Block(vec![ret(Node::Integer(0))]))),
        }]),
    )];
    assert_eq!(ty(src, &ok), Ok(()));
}

#[test]
fn ty_argument_types_are_checked() {
    let src = "main f a";
    let nodes = vec![
        func(src, "f", &[("a", TkType::IntT)], TkType::IntT, None),
        func(src, "main", &[], TkType::IntT, Some(vec![ret(call(src, "f", vec![Node::Bool(true)]))])),
    ];
    let err = ty(src, &nodes).unwrap_err();
    assert_eq!(err, TyError::ArgumentMismatch { expected: Type::Int, found: Type::Bool });
    assert_eq!(
        err.message(),
        Some("[ERROR] expected argument of type `Int`, found `Bool`".to_string())
    );
    let good = vec![
        func(src, "f", &[("a", TkType::IntT)], TkType::IntT, None),
        func(src, "main", &[], TkType::IntT, Some(vec![ret(call(src, "f", vec![Node::Integer(4)]))])),
    ];
    assert_eq!(ty(src, &good), Ok(()));
}

#[test]
fn ty_variadic_call_has_the_return_type() {
    let src = "main printf fmt ...";
    let nodes = vec![
        func(src, "printf", &[("fmt", TkType::StringT), ("...", TkType::VaArgs)], TkType::IntT, None),
        func(
            src,
            "main",
            &[],
            TkType::IntT,
            Some(vec![ret(call(src, "printf", vec![Node::Bool(true), Node::Integer(1)]))]),
        ),
    ];
    assert_eq!(ty(src, &nodes), Ok(()));
}

#[test]
fn ty_token_that_is_not_a_type() {
    let src = "main x";
    let nodes = vec![func(
        src,
        "main",
        &[],
        TkType::IntT,
        Some(vec![var(src, "x", TkType::Plus, Node::Integer(1))]),
    )];
    let err = ty(src, &nodes).unwrap_err();
    assert_eq!(err, TyError::NotAType(TkType::Plus));
    assert_eq!(err.message(), Some("[ERROR] cannot use token`Plus` as a type".to_string()));
    let bad_ret = vec![func(src, "main", &[], TkType::Or, Some(vec![]))];
    assert_eq!(ty(src, &bad_ret), Err(TyError::NotAType(TkType::Or)));
}

#[test]
fn ty_identifier_without_type_stops() {
    let src = "main x";
    let nodes = vec![func(src, "main", &[], TkType::IntT, Some(vec![ret(id(src, "x"))]))];
    let err = ty(src, &nodes).unwrap_err();
    assert_eq!(err, TyError::UnresolvedIdentifier { start: 5, end: 6 });
    assert_eq!(err.message(), None);
}

#[test]
fn ty_call_of_unknown_function_stops() {
    let src = "main g";
    let nodes = vec![func(src, "main", &[], TkType::IntT, Some(vec![ret(call(src, "g", vec![]))]))];
    let err = ty(src, &nodes).unwrap_err();
    assert_eq!(err, TyError::UnknownFunction { start: 5, end: 6 });
    assert_eq!(err.message(), None);
}

#[test]
fn ty_call_of_parameterless_function_stops() {
    let src = "main f";
    let nodes = vec![
        func(src, "f", &[], TkType::IntT, None),
        func(src, "main", &[], TkType::IntT, Some(vec![ret(call(src, "f", vec![]))])),
    ];
    assert_eq!(ty(src, &nodes), Err(TyError::EmptyParameterList { start: 5, end: 6 }));
}

#[test]
fn ty_too_many_arguments_stops() {
    let src = "main f a";
    let nodes = vec![
        func(src, "f", &[("a", TkType::IntT)], TkType::IntT, None),
        func(
            src,
            "main",
            &[],
            TkType::IntT,
            Some(vec![ret(call(src, "f", vec![Node::Integer(1), Node::Integer(2)]))]),
        ),
    ];
    assert_eq!(ty(src, &nodes), Err(TyError::TooManyArguments));
}

#[test]
fn ty_return_after_nested_function_stops() {
    let src = "main inner";
    let nodes = vec![func(
        src,
        "main",
        &[],
        TkType::IntT,
        Some(vec![
            func(src, "inner", &[], TkType::IntT, Some(vec![ret(Node::Integer(1))])),
            ret(Node::Integer(0)),
        ]),
    )];
    let err = ty(src, &nodes).unwrap_err();
    assert_eq!(err, TyError::ReturnOutsideFunction);
    assert_eq!(err.message(), None);
}

#[test]
fn ty_scopes_of_earlier_functions_stay_visible() {
    // every function body opens a scope that is never closed
    let src = "first second shared";
    let nodes = vec![
        func(
            src,
            "first",
            &[],
            TkType::IntT,
            Some(vec![var(src, "shared", TkType::IntT, Node::Integer(1))]),
        ),
        func(src, "second", &[], TkType::IntT, Some(vec![ret(id(src, "shared"))])),
    ];
    assert_eq!(ty(src, &nodes), Ok(()));
}

#[test]
fn ty_variadic_call_arguments_are_not_read() {
    let src = "main printf fmt ...";
    let nodes = vec![
        func(src, "printf", &[("fmt", TkType::StringT), ("...", TkType::VaArgs)], TkType::IntT, None),
        func(
            src,
            "main",
            &[],
            TkType::IntT,
            Some(vec![ret(call(src, "printf", vec![Node::Id(100, 200)]))]),
        ),
    ];
    assert_eq!(ty(src, &nodes), Ok(()));
}

#[test]
fn ty_missing_type_token_is_named_err() {
    let src = "main";
    let nodes = vec![func(src, "main", &[], TkType::Error, Some(vec![]))];
    let err = ty(src, &nodes).unwrap_err();
    assert_eq!(err, TyError::NotAType(TkType::Error));
    assert_eq!(err.message(), Some("[ERROR] cannot use token`Err` as a type".to_string()));
}
