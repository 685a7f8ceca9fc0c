//! Type checker: infers the type of every expression of the program's
//! functions and checks operators, declarations, assignments, returns, calls
//! and conditions against it.
use vstd::prelude::*;
use vstd::string::StringSliceAdditionalSpecFns;
use crate::ast::Node;
use crate::lexer::TkType;
use crate::text::{valid_span, substr, str_eq};

verus! {

broadcast use vstd::utf8::encode_utf8_valid_utf8;

/// The types of the language.
#[derive(Debug, Clone, Copy, PartialEq, Eq, Structural)]
pub enum Type {
    Int,
    Float,
    Str,
    Bool,
    Void,
    Unknown,
}

/// Why type checking rejects a program.
#[derive(Debug, Clone, Copy, PartialEq, Eq, Structural)]
pub enum TyError {
    /// A token that names no type is used as one.
    NotAType(TkType),
    /// The operands of a binary operation have different types.
    OperandMismatch,
    /// Arithmetic or ordering on operands of this non-numeric type.
    NotNumeric(Type),
    /// `and`/`or` on operands of this non-boolean type.
    NotBoolean(Type),
    /// `==`/`!=` on operands that are neither boolean nor numeric.
    NotComparable,
    /// `not` on a non-boolean value.
    NotOnNonBoolean,
    /// `-` on a non-numeric value.
    NegationOnNonNumeric,
    /// A declaration's value is not of its declared type.
    DeclarationMismatch { expected: Type, found: Type },
    /// An assignment's value is not of the variable's type.
    AssignmentMismatch { expected: Type, found: Type },
    /// A returned value is not of the function's return type.
    ReturnMismatch { expected: Type, found: Type },
    /// An argument is not of its parameter's type.
    ArgumentMismatch { expected: Type, found: Type },
    /// A `while` or `if` condition is not boolean.
    ConditionNotBoolean,
    /// The identifier at `start..end` has no type in any scope.
    UnresolvedIdentifier { start: usize, end: usize },
    /// The function called by the name at `start..end` is not declared.
    UnknownFunction { start: usize, end: usize },
    /// The function called by the name at `start..end` has no parameters, so
    /// it has no last parameter to tell whether it is variadic.
    EmptyParameterList { start: usize, end: usize },
    /// A call passes more arguments than its function has parameters.
    TooManyArguments,
    /// A `return` outside the function being checked.
    ReturnOutsideFunction,
}

/// How a type is named in messages.
pub open spec fn ty_name(t: Type) -> Seq<char> {
    match t {
        Type::Int => "Int"@,
        Type::Float => "Float"@,
        Type::Str => "Str"@,
        Type::Bool => "Bool"@,
        Type::Void => "Void"@,
        Type::Unknown => "Unknown"@,
    }
}

/// How a token type is named in messages.
pub open spec fn tk_name(t: TkType) -> Seq<char> {
    match t {
        TkType::IntT => "IntT"@,
        TkType::FloatT => "FloatT"@,
        TkType::StringT => "StringT"@,
        TkType::BoolT => "BoolT"@,
        TkType::VoidT => "VoidT"@,
        TkType::VaArgs => "VaArgs"@,
        TkType::Error => "Err"@,
        TkType::Plus => "Plus"@,
        TkType::Minus => "Minus"@,
        TkType::Star => "Star"@,
        TkType::Slash => "Slash"@,
        TkType::Lt => "Lt"@,
        TkType::Gt => "Gt"@,
        TkType::Le => "Le"@,
        TkType::Ge => "Ge"@,
        TkType::Eq => "Eq"@,
        TkType::Ne => "Ne"@,
        TkType::And => "And"@,
        TkType::Or => "Or"@,
        TkType::Not => "Not"@,
    }
}

/// The message printed for a type error; `None` for the failures that stop
/// the type checker without a message of its own.
pub open spec fn ty_message(e: TyError) -> Option<Seq<char>> {
    match e {
        TyError::NotAType(t) => Some("[ERROR] cannot use token`"@ + tk_name(t) + "` as a type"@),
        TyError::OperandMismatch => Some(
            "[ERROR] type mismatch, both types in the operation must be the same"@,
        ),
        TyError::NotNumeric(t) => Some(
            "[ERROR] cannot do arithmetic over values of type `"@ + ty_name(t) + "`"@,
        ),
        TyError::NotBoolean(t) => Some(
            "[ERROR] cannot do boolean operations over values of type `"@ + ty_name(t) + "`"@,
        ),
        TyError::NotComparable => Some(
            "[ERROR] cannot compare values that are not boolean or numeric"@,
        ),
        TyError::NotOnNonBoolean => Some("[ERROR] cannot apply `not` over non-boolean values"@),
        TyError::NegationOnNonNumeric => Some("[ERROR] cannot apply `-` over non-numeric values"@),
        TyError::DeclarationMismatch { expected, found } => Some(
            "[ERROR] expected value to be of type `"@ + ty_name(expected) + "`, found "@ + ty_name(
                found,
            ),
        ),
        TyError::AssignmentMismatch { expected, found } => Some(
            "[ERROR] expected type `"@ + ty_name(expected) + "`, found "@ + ty_name(found),
        ),
        TyError::ReturnMismatch { expected, found } => Some(
            "[ERROR] expected return type `"@ + ty_name(expected) + "`, found `"@ + ty_name(found)
                + "`"@,
        ),
        TyError::ArgumentMismatch { expected, found } => Some(
            "[ERROR] expected argument of type `"@ + ty_name(expected) + "`, found `"@ + ty_name(
                found,
            ) + "`"@,
        ),
        TyError::ConditionNotBoolean => Some("[ERROR] condition must be a boolean value"@),
        _ => None,
    }
}

fn ty_name_str(t: Type) -> (r: &'static str)
    ensures
        r@ == ty_name(t),
{
    match t {
        Type::Int => "Int",
        Type::Float => "Float",
        Type::Str => "Str",
        Type::Bool => "Bool",
        Type::Void => "Void",
        Type::Unknown => "Unknown",
    }
}

fn tk_name_str(t: TkType) -> (r: &'static str)
    ensures
        r@ == tk_name(t),
{
    match t {
        TkType::IntT => "IntT",
        TkType::FloatT => "FloatT",
        TkType::StringT => "StringT",
        TkType::BoolT => "BoolT",
        TkType::VoidT => "VoidT",
        TkType::VaArgs => "VaArgs",
        TkType::Error => "Err",
        TkType::Plus => "Plus",
        TkType::Minus => "Minus",
        TkType::Star => "Star",
        TkType::Slash => "Slash",
        TkType::Lt => "Lt",
        TkType::Gt => "Gt",
        TkType::Le => "Le",
        TkType::Ge => "Ge",
        TkType::Eq => "Eq",
        TkType::Ne => "Ne",
        TkType::And => "And",
        TkType::Or => "Or",
        TkType::Not => "Not",
    }
}

/// `a`, then `b`, then `c`.
fn concat3(a: &str, b: &str, c: &str) -> (r: String)
    ensures
        r@ == a@ + b@ + c@,
{
    let mut r = String::from_str(a);
    r.append(b);
    r.append(c);
    r
}

impl TyError {
    /// The message printed for this error; `None` for the failures that stop
    /// the type checker without a message of its own.
    pub fn message(&self) -> (r: Option<String>)
        ensures
            match r {
                Some(m) => ty_message(*self) == Some(m@),
                None => ty_message(*self) is None,
            },
    {
        match self {
            TyError::NotAType(t) => Some(
                concat3("[ERROR] cannot use token`", tk_name_str(*t), "` as a type"),
            ),
            TyError::OperandMismatch => Some(
                String::from_str("[ERROR] type mismatch, both types in the operation must be the same"),
            ),
            TyError::NotNumeric(t) => Some(
                concat3("[ERROR] cannot do arithmetic over values of type `", ty_name_str(*t), "`"),
            ),
            TyError::NotBoolean(t) => Some(
                concat3(
                    "[ERROR] cannot do boolean operations over values of type `",
                    ty_name_str(*t),
                    "`",
                ),
            ),
            TyError::NotComparable => Some(
                String::from_str("[ERROR] cannot compare values that are not boolean or numeric"),
            ),
            TyError::NotOnNonBoolean => Some(
                String::from_str("[ERROR] cannot apply `not` over non-boolean values"),
            ),
            TyError::NegationOnNonNumeric => Some(
                String::from_str("[ERROR] cannot apply `-` over non-numeric values"),
            ),
            TyError::DeclarationMismatch { expected, found } => {
                let mut m = concat3(
                    "[ERROR] expected value to be of type `",
                    ty_name_str(*expected),
                    "`, found ",
                );
                m.append(ty_name_str(*found));
                Some(m)
            },
            TyError::AssignmentMismatch { expected, found } => {
                let mut m = concat3("[ERROR] expected type `", ty_name_str(*expected), "`, found ");
                m.append(ty_name_str(*found));
                Some(m)
            },
            TyError::ReturnMismatch { expected, found } => {
                let mut m = concat3(
                    "[ERROR] expected return type `",
                    ty_name_str(*expected),
                    "`, found `",
                );
                m.append(ty_name_str(*found));
                m.append("`");
                Some(m)
            },
            TyError::ArgumentMismatch { expected, found } => {
                let mut m = concat3(
                    "[ERROR] expected argument of type `",
                    ty_name_str(*expected),
                    "`, found `",
                );
                m.append(ty_name_str(*found));
                m.append("`");
                Some(m)
            },
            TyError::ConditionNotBoolean => Some(
                String::from_str("[ERROR] condition must be a boolean value"),
            ),
            _ => None,
        }
    }
}

/// The type a type token names.
pub open spec fn tk_type(ty: TkType) -> Result<Type, TyError> {
    match ty {
        TkType::IntT => Ok(Type::Int),
        TkType::FloatT => Ok(Type::Float),
        TkType::StringT => Ok(Type::Str),
        TkType::BoolT => Ok(Type::Bool),
        TkType::VoidT => Ok(Type::Void),
        TkType::VaArgs => Ok(Type::Unknown),
        _ => Err(TyError::NotAType(ty)),
    }
}

/// A function as the type checker knows it: name, typed parameters, return type, body.
pub struct TyFunc {
    pub name: Seq<u8>,
    pub params: Seq<(Seq<u8>, Type)>,
    pub ret: Type,
    pub body: Option<Box<Node>>,
}

/// The type checker's state: the scopes, innermost last, and the function whose
/// returns are being checked.
pub struct TyState {
    pub envs: Seq<Map<Seq<u8>, Type>>,
    pub curr: Option<TyFunc>,
}

/// The type of `id` in the innermost scope that has it.
pub open spec fn lookup(envs: Seq<Map<Seq<u8>, Type>>, id: Seq<u8>) -> Option<Type>
    decreases envs.len(),
{
    if envs.len() == 0 {
        None
    } else if envs.last().contains_key(id) {
        Some(envs.last()[id])
    } else {
        lookup(envs.drop_last(), id)
    }
}

/// `envs` with `id` of type `t` in its innermost scope.
pub open spec fn bind(envs: Seq<Map<Seq<u8>, Type>>, id: Seq<u8>, t: Type) -> Seq<Map<Seq<u8>, Type>> {
    envs.update(envs.len() - 1, envs.last().insert(id, t))
}

/// `envs` with the parameters `ps[i..]` bound in order in its innermost scope.
pub open spec fn bind_params(envs: Seq<Map<Seq<u8>, Type>>, ps: Seq<(Seq<u8>, Type)>, i: int) -> Seq<
    Map<Seq<u8>, Type>,
>
    decreases ps.len() - i,
{
    if i < 0 || i >= ps.len() {
        envs
    } else {
        bind_params(bind(envs, ps[i].0, ps[i].1), ps, i + 1)
    }
}

/// The typed parameters of a declaration, or the first token that names no type.
pub open spec fn ty_params(src: Seq<u8>, args: Seq<(usize, usize, TkType)>, i: int) -> Result<
    Seq<(Seq<u8>, Type)>,
    TyError,
>
    decreases args.len() - i,
{
    if i < 0 || i >= args.len() {
        Ok(seq![])
    } else {
        match tk_type(args[i].2) {
            Err(x) => Err(x),
            Ok(t) => match ty_params(src, args, i + 1) {
                Err(x) => Err(x),
                Ok(rest) => Ok(seq![(src.subrange(args[i].0 as int, args[i].1 as int), t)] + rest),
            },
        }
    }
}

/// The first function named `name`.
pub open spec fn find_func(funcs: Seq<TyFunc>, name: Seq<u8>) -> Option<TyFunc>
    decreases funcs.len(),
{
    if funcs.len() == 0 {
        None
    } else if funcs[0].name == name {
        Some(funcs[0])
    } else {
        find_func(funcs.drop_first(), name)
    }
}

/// The bytes `...`, the name of the variadic parameter.
pub open spec fn variadic_name() -> Seq<u8> {
    seq![0x2eu8, 0x2eu8, 0x2eu8]
}

/// A numeric type.
pub open spec fn is_numeric(t: Type) -> bool {
    t == Type::Int || t == Type::Float
}

/// The type of a binary operation on operands of type `t` (the same on both sides).
pub open spec fn binop_type(op: TkType, t: Type) -> Result<Type, TyError> {
    match op {
        TkType::Plus | TkType::Minus | TkType::Star => if is_numeric(t) {
            Ok(t)
        } else {
            Err(TyError::NotNumeric(t))
        },
        TkType::Slash => if is_numeric(t) {
            Ok(Type::Float)
        } else {
            Err(TyError::NotNumeric(t))
        },
        TkType::Lt | TkType::Gt | TkType::Le | TkType::Ge => if is_numeric(t) {
            Ok(Type::Bool)
        } else {
            Err(TyError::NotNumeric(t))
        },
        TkType::And | TkType::Or => if t == Type::Bool {
            Ok(Type::Bool)
        } else {
            Err(TyError::NotBoolean(t))
        },
        _ => if t == Type::Bool || is_numeric(t) {
            Ok(Type::Bool)
        } else {
            Err(TyError::NotComparable)
        },
    }
}

/// The binary operators.
pub open spec fn is_binop(op: TkType) -> bool {
    match op {
        TkType::Plus | TkType::Minus | TkType::Star | TkType::Slash | TkType::Lt | TkType::Gt
        | TkType::Le | TkType::Ge | TkType::And | TkType::Or | TkType::Eq | TkType::Ne => true,
        _ => false,
    }
}

/// The type of `n` and the state after checking it, or why it fails.
pub open spec fn ty_node(src: Seq<u8>, funcs: Seq<TyFunc>, st: TyState, n: Node) -> Result<
    (Type, TyState),
    TyError,
>
    decreases n,
{
    match n {
        Node::Integer(_) => Ok((Type::Int, st)),
        Node::Float(_) => Ok((Type::Float, st)),
        Node::Bool(_) => Ok((Type::Bool, st)),
        Node::Str(_, _) => Ok((Type::Str, st)),
        Node::Id(s, e) => match lookup(st.envs, src.subrange(s as int, e as int)) {
            Some(t) => Ok((t, st)),
            None => Err(TyError::UnresolvedIdentifier { start: s, end: e }),
        },
        Node::BinOp { left, right, op } => match ty_node(src, funcs, st, *left) {
            Err(x) => Err(x),
            Ok((lhs, st1)) => match ty_node(src, funcs, st1, *right) {
                Err(x) => Err(x),
                Ok((rhs, st2)) => if lhs != rhs {
                    Err(TyError::OperandMismatch)
                } else {
                    match binop_type(op, lhs) {
                        Err(x) => Err(x),
                        Ok(t) => Ok((t, st2)),
                    }
                },
            },
        },
        Node::Unary { right, op } => match ty_node(src, funcs, st, *right) {
            Err(x) => Err(x),
            Ok((t, st1)) => if op == TkType::Not {
                if t == Type::Bool {
                    Ok((t, st1))
                } else {
                    Err(TyError::NotOnNonBoolean)
                }
            } else if is_numeric(t) {
                Ok((t, st1))
            } else {
                Err(TyError::NegationOnNonNumeric)
            },
        },
        Node::VarDecl { name_s, name_e, vtype, value } => match ty_node(src, funcs, st, *value) {
            Err(x) => Err(x),
            Ok((t, st1)) => if vtype != TkType::Error && tk_type(vtype) is Err {
                Err(tk_type(vtype)->Err_0)
            } else if vtype != TkType::Error && t != tk_type(vtype)->Ok_0 {
                Err(TyError::DeclarationMismatch { expected: tk_type(vtype)->Ok_0, found: t })
            } else {
                Ok(
                    (
                        Type::Void,
                        TyState {
                            envs: bind(st1.envs, src.subrange(name_s as int, name_e as int), t),
                            curr: st1.curr,
                        },
                    ),
                )
            },
        },
        Node::VarReassing { name_s, name_e, value } => match ty_node(src, funcs, st, *value) {
            Err(x) => Err(x),
            Ok((t, st1)) => match lookup(st1.envs, src.subrange(name_s as int, name_e as int)) {
                Some(vt) => if vt != t {
                    Err(TyError::AssignmentMismatch { expected: vt, found: t })
                } else {
                    Ok((Type::Void, st1))
                },
                None => Ok((Type::Void, st1)),
            },
        },
        Node::Block(nodes) => match ty_seq(src, funcs, st, nodes@, 0) {
            Err(x) => Err(x),
            Ok(st1) => Ok((Type::Void, st1)),
        },
        Node::FuncDecl { name_s, name_e, args, rtype, body, .. } => match ty_params(src, args@, 0) {
            Err(x) => Err(x),
            Ok(ps) => match tk_type(rtype) {
                Err(x) => Err(x),
                Ok(rt) => {
                    let f = TyFunc {
                        name: src.subrange(name_s as int, name_e as int),
                        params: ps,
                        ret: rt,
                        body,
                    };
                    match ty_body(src, funcs, st.envs, Some(f), ps, body) {
                        Err(x) => Err(x),
                        Ok(st1) => Ok((Type::Void, TyState { envs: st1.envs, curr: None })),
                    }
                },
            },
        },
        Node::Return(x) => match ty_node(src, funcs, st, *x) {
            Err(e) => Err(e),
            Ok((t, st1)) => match st1.curr {
                None => Err(TyError::ReturnOutsideFunction),
                Some(f) => if f.ret != t {
                    Err(TyError::ReturnMismatch { expected: f.ret, found: t })
                } else {
                    Ok((Type::Void, st1))
                },
            },
        },
        Node::FuncCall { name, args } => match *name {
            Node::Id(s, e) => match find_func(funcs, src.subrange(s as int, e as int)) {
                None => Err(TyError::UnknownFunction { start: s, end: e }),
                Some(f) => if f.params.len() == 0 {
                    Err(TyError::EmptyParameterList { start: s, end: e })
                } else if f.params.last().0 == variadic_name() {
                    Ok((f.ret, st))
                } else {
                    match ty_args(src, funcs, st, args@, 0, f.params) {
                        Err(x) => Err(x),
                        Ok(st1) => Ok((f.ret, st1)),
                    }
                },
            },
            _ => Ok((Type::Unknown, st)),
        },
        Node::While { cond, body } => match ty_node(src, funcs, st, *cond) {
            Err(x) => Err(x),
            Ok((t, st1)) => if t != Type::Bool {
                Err(TyError::ConditionNotBoolean)
            } else {
                match *body {
                    Node::Block(nodes) => match ty_seq(src, funcs, st1, nodes@, 0) {
                        Err(x) => Err(x),
                        Ok(st2) => Ok((Type::Void, st2)),
                    },
                    _ => Ok((Type::Void, st1)),
                }
            },
        },
        Node::If { cond, then_br, else_br } => match ty_node(src, funcs, st, *cond) {
            Err(x) => Err(x),
            Ok((t, st1)) => if t != Type::Bool {
                Err(TyError::ConditionNotBoolean)
            } else {
                match *then_br {
                    Node::Block(nodes) => match ty_seq(src, funcs, st1, nodes@, 0) {
                        Err(x) => Err(x),
                        Ok(st2) => match else_br {
                            Some(b) => match ty_node(src, funcs, st2, *b) {
                                Err(x) => Err(x),
                                Ok((_, st3)) => Ok((Type::Void, st3)),
                            },
                            None => Ok((Type::Void, st2)),
                        },
                    },
                    _ => Ok((Type::Void, st1)),
                }
            },
        },
    }
}

/// Checking the nodes `s[i..]` in order, their types set aside.
pub open spec fn ty_seq(src: Seq<u8>, funcs: Seq<TyFunc>, st: TyState, s: Seq<Node>, i: int) -> Result<
    TyState,
    TyError,
>
    decreases s, s.len() - i,
{
    if i < 0 || i >= s.len() {
        Ok(st)
    } else {
        match ty_node(src, funcs, st, s[i]) {
            Err(x) => Err(x),
            Ok((_, st1)) => ty_seq(src, funcs, st1, s, i + 1),
        }
    }
}

/// Checking the arguments `args[i..]` of a call against the parameters `ps`.
pub open spec fn ty_args(
    src: Seq<u8>,
    funcs: Seq<TyFunc>,
    st: TyState,
    args: Seq<Node>,
    i: int,
    ps: Seq<(Seq<u8>, Type)>,
) -> Result<TyState, TyError>
    decreases args, args.len() - i,
{
    if i < 0 || i >= args.len() {
        Ok(st)
    } else {
        match ty_node(src, funcs, st, args[i]) {
            Err(x) => Err(x),
            Ok((t, st1)) => if i >= ps.len() {
                Err(TyError::TooManyArguments)
            } else if t != ps[i].1 {
                Err(TyError::ArgumentMismatch { expected: ps[i].1, found: t })
            } else {
                ty_args(src, funcs, st1, args, i + 1, ps)
            },
        }
    }
}

/// Checking a function body: a new scope is opened (and never closed), the
/// parameters are bound in it, and each statement of the body is checked
/// with `curr` as the function being checked.
pub open spec fn ty_body(
    src: Seq<u8>,
    funcs: Seq<TyFunc>,
    envs: Seq<Map<Seq<u8>, Type>>,
    curr: Option<TyFunc>,
    ps: Seq<(Seq<u8>, Type)>,
    body: Option<Box<Node>>,
) -> Result<TyState, TyError>
    decreases body,
{
    let envs1 = envs.push(Map::empty());
    match body {
        None => Ok(TyState { envs: envs1, curr }),
        Some(b) => match *b {
            Node::Block(stmts) => ty_seq(
                src,
                funcs,
                TyState { envs: bind_params(envs1, ps, 0), curr },
                stmts@,
                0,
            ),
            _ => Ok(TyState { envs: bind_params(envs1, ps, 0), curr }),
        },
    }
}

/// What type checking needs of a node to run without an internal failure:
/// the names it reads are character-aligned byte ranges of the source, binary
/// operations have binary operators, calls name their function by an
/// identifier, and function, loop and `then` bodies are blocks.
pub open spec fn ty_wf(src: Seq<u8>, funcs: Seq<TyFunc>, n: Node) -> bool
    decreases n,
{
    match n {
        Node::Id(s, e) => valid_span(src, s as int, e as int),
        Node::BinOp { left, right, op } => is_binop(op) && ty_wf(src, funcs, *left) && ty_wf(src, funcs, *right),
        Node::Unary { right, .. } => ty_wf(src, funcs, *right),
        Node::VarDecl { name_s, name_e, value, .. } => valid_span(src, name_s as int, name_e as int)
            && ty_wf(src, funcs, *value),
        Node::VarReassing { name_s, name_e, value } => valid_span(
            src,
            name_s as int,
            name_e as int,
        ) && ty_wf(src, funcs, *value),
        Node::Block(nodes) => ty_wf_seq(src, funcs, nodes@, 0),
        Node::FuncDecl { name_s, name_e, args, body, .. } => valid_span(
            src,
            name_s as int,
            name_e as int,
        ) && args_wf(src, args@) && match body {
            Some(b) => match *b {
                Node::Block(stmts) => ty_wf_seq(src, funcs, stmts@, 0),
                _ => false,
            },
            None => true,
        },
        Node::Return(x) => ty_wf(src, funcs, *x),
        Node::FuncCall { name, args } => match *name {
            Node::Id(s, e) => valid_span(src, s as int, e as int) && match find_func(
                funcs,
                src.subrange(s as int, e as int),
            ) {
                Some(f) => f.params.len() == 0 || f.params.last().0 == variadic_name() || ty_wf_seq(
                    src,
                    funcs,
                    args@,
                    0,
                ),
                None => true,
            },
            _ => false,
        },
        Node::While { cond, body } => ty_wf(src, funcs, *cond) && match *body {
            Node::Block(nodes) => ty_wf_seq(src, funcs, nodes@, 0),
            _ => false,
        },
        Node::If { cond, then_br, else_br } => ty_wf(src, funcs, *cond) && match *then_br {
            Node::Block(nodes) => ty_wf_seq(src, funcs, nodes@, 0),
            _ => false,
        } && match else_br {
            Some(b) => ty_wf(src, funcs, *b),
            None => true,
        },
        _ => true,
    }
}

/// [`ty_wf`] of every node of `s[i..]`.
pub open spec fn ty_wf_seq(src: Seq<u8>, funcs: Seq<TyFunc>, s: Seq<Node>, i: int) -> bool
    decreases s, s.len() - i,
{
    if i < 0 || i >= s.len() {
        true
    } else {
        ty_wf(src, funcs, s[i]) && ty_wf_seq(src, funcs, s, i + 1)
    }
}

/// The parameter names of a declaration are character-aligned byte ranges.
pub open spec fn args_wf(src: Seq<u8>, args: Seq<(usize, usize, TkType)>) -> bool {
    forall|j: int| 0 <= j < args.len() ==> valid_span(src, (#[trigger] args[j]).0 as int, args[j].1 as int)
}

/// [`ty_wf_seq`] from `i` gives [`ty_wf`] of each node from `i` on.
pub proof fn lemma_ty_wf_seq(src: Seq<u8>, funcs: Seq<TyFunc>, s: Seq<Node>, i: int, k: int)
    requires
        0 <= i <= k,
        ty_wf_seq(src, funcs, s, i),
    ensures
        k < s.len() ==> ty_wf(src, funcs, s[k]),
        ty_wf_seq(src, funcs, s, k),
    decreases k - i,
{
    if i < k && i < s.len() {
        lemma_ty_wf_seq(src, funcs, s, i + 1, k);
    }
}

/// A known function can be checked: its body, if any, is a block of
/// statements satisfying [`ty_wf`].
pub open spec fn ty_func_ok(src: Seq<u8>, funcs: Seq<TyFunc>, body: Option<Box<Node>>) -> bool {
    match body {
        Some(b) => match *b {
            Node::Block(stmts) => ty_wf_seq(src, funcs, stmts@, 0),
            _ => false,
        },
        None => true,
    }
}

/// The function declarations among the top-level nodes have character-aligned
/// name and parameter ranges: what listing the functions needs.
pub open spec fn ty_program_spans(src: Seq<u8>, nodes: Seq<Node>) -> bool {
    forall|i: int|
        0 <= i < nodes.len() ==> match #[trigger] nodes[i] {
            Node::FuncDecl { name_s, name_e, args, .. } => valid_span(
                src,
                name_s as int,
                name_e as int,
            ) && args_wf(src, args@),
            _ => true,
        }
}

/// What type checking the program `nodes` needs, with the functions `known`
/// already listed: [`ty_program_spans`], and, once its functions are listed,
/// every function of the whole list has a body that can be checked against
/// that list.
pub open spec fn ty_program_wf(src: Seq<u8>, known: Seq<TyFunc>, nodes: Seq<Node>) -> bool {
    &&& ty_program_spans(src, nodes)
    &&& ty_funcs_of(src, nodes, nodes.len() as int) matches Ok(fs) ==> forall|i: int|
        0 <= i < (known + fs).len() ==> ty_func_ok(src, known + fs, (#[trigger] (known + fs)[i]).body)
}

/// The functions the first `k` top-level nodes declare, in order, or the
/// first token among their parameter and return types that names no type.
pub open spec fn ty_funcs_of(src: Seq<u8>, nodes: Seq<Node>, k: int) -> Result<Seq<TyFunc>, TyError>
    decreases k,
{
    if k <= 0 || k > nodes.len() {
        Ok(seq![])
    } else {
        match ty_funcs_of(src, nodes, k - 1) {
            Err(x) => Err(x),
            Ok(fs) => match nodes[k - 1] {
                Node::FuncDecl { name_s, name_e, args, rtype, body, .. } => match ty_params(
                    src,
                    args@,
                    0,
                ) {
                    Err(x) => Err(x),
                    Ok(ps) => match tk_type(rtype) {
                        Err(x) => Err(x),
                        Ok(rt) => Ok(
                            fs.push(
                                TyFunc {
                                    name: src.subrange(name_s as int, name_e as int),
                                    params: ps,
                                    ret: rt,
                                    body,
                                },
                            ),
                        ),
                    },
                },
                _ => Ok(fs),
            },
        }
    }
}

/// Checking the functions `funcs[i..]` in order, each as the current function.
pub open spec fn ty_funcs(src: Seq<u8>, funcs: Seq<TyFunc>, st: TyState, i: int) -> Result<
    TyState,
    TyError,
>
    decreases funcs.len() - i,
{
    if i < 0 || i >= funcs.len() {
        Ok(st)
    } else {
        match ty_body(src, funcs, st.envs, Some(funcs[i]), funcs[i].params, funcs[i].body) {
            Err(x) => Err(x),
            Ok(st1) => ty_funcs(src, funcs, st1, i + 1),
        }
    }
}

/// The outcome of type checking the program `nodes` with the functions
/// `known` already listed, from the state `st`.
pub open spec fn ty_program(src: Seq<u8>, nodes: Seq<Node>, known: Seq<TyFunc>, st: TyState) -> Result<
    (),
    TyError,
> {
    match ty_funcs_of(src, nodes, nodes.len() as int) {
        Err(x) => Err(x),
        Ok(fs) => match ty_funcs(src, known + fs, st, 0) {
            Err(x) => Err(x),
            Ok(_) => Ok(()),
        },
    }
}

/// The scope held by an association list: later bindings of a name replace
/// earlier ones, as inserting into a map does.
pub open spec fn assoc_map<'a>(s: Seq<(&'a str, Type)>) -> Map<Seq<u8>, Type>
    decreases s.len(),
{
    if s.len() == 0 {
        Map::empty()
    } else {
        assoc_map(s.drop_last()).insert(s.last().0.spec_bytes(), s.last().1)
    }
}

/// The names and types of a parameter list.
pub open spec fn params_view<'a>(s: Seq<(&'a str, Type)>) -> Seq<(Seq<u8>, Type)> {
    s.map_values(|p: (&'a str, Type)| (p.0.spec_bytes(), p.1))
}

/// A type checker entry for a function: name, typed parameters, return type, body.
pub type TyEntry<'a> = (&'a str, Vec<(&'a str, Type)>, Type, &'a Option<Box<Node>>);

/// The value of a function entry.
pub open spec fn ty_entry_view<'a>(f: TyEntry<'a>) -> TyFunc {
    TyFunc { name: f.0.spec_bytes(), params: params_view(f.1@), ret: f.2, body: *f.3 }
}

/// The type a type token names (exec).
fn tktype_2_type(ty: TkType) -> (r: Result<Type, TyError>)
    ensures
        r == tk_type(ty),
{
    match ty {
        TkType::IntT => Ok(Type::Int),
        TkType::FloatT => Ok(Type::Float),
        TkType::StringT => Ok(Type::Str),
        TkType::BoolT => Ok(Type::Bool),
        TkType::VoidT => Ok(Type::Void),
        TkType::VaArgs => Ok(Type::Unknown),
        _ => Err(TyError::NotAType(ty)),
    }
}

/// Whether `s` is the name `...` of the variadic parameter.
fn is_variadic_name(s: &str) -> (r: bool)
    ensures
        r == (s.spec_bytes() == variadic_name()),
{
    let b = s.as_bytes();
    let r = b.len() == 3 && b[0] == 0x2e && b[1] == 0x2e && b[2] == 0x2e;
    assert(r ==> b@ =~= variadic_name());
    r
}

/// The type bound to `id` in the scope `env`.
fn env_get(env: &Vec<(&str, Type)>, id: &str) -> (r: Option<Type>)
    ensures
        r == (if assoc_map(env@).contains_key(id.spec_bytes()) {
            Some(assoc_map(env@)[id.spec_bytes()])
        } else {
            None
        }),
{
    let mut i = env.len();
    assert(env@.take(i as int) =~= env@);
    while i > 0
        invariant
            0 <= i <= env@.len(),
            assoc_map(env@.take(i as int)).contains_key(id.spec_bytes()) == assoc_map(
                env@,
            ).contains_key(id.spec_bytes()),
            assoc_map(env@.take(i as int)).contains_key(id.spec_bytes()) ==> assoc_map(
                env@.take(i as int),
            )[id.spec_bytes()] == assoc_map(env@)[id.spec_bytes()],
        decreases i,
    {
        let ghost pre = env@.take(i as int);
        assert(pre.drop_last() =~= env@.take(i - 1));
        assert(pre.last() == env@[i - 1]);
        if str_eq(env[i - 1].0, id) {
            return Some(env[i - 1].1);
        }
        i = i - 1;
    }
    None
}

/// The innermost scope that binds `id` gives its type.
proof fn lemma_lookup_take(envs: Seq<Map<Seq<u8>, Type>>, id: Seq<u8>, i: int)
    requires
        0 < i <= envs.len(),
    ensures
        lookup(envs.take(i), id) == if envs[i - 1].contains_key(id) {
            Some(envs[i - 1][id])
        } else {
            lookup(envs.take(i - 1), id)
        },
{
    assert(envs.take(i).drop_last() =~= envs.take(i - 1));
}

pub struct TyChecker<'a> {
    envs: Vec<Vec<(&'a str, Type)>>,
    funcs: Vec<TyEntry<'a>>,  // (name, [name, type], return type, body (None if the function is extern))
    nodes: &'a Vec<Node>,
    curr_func: Option<TyEntry<'a>>,
    src: &'a str,
}

impl<'a> TyChecker<'a> {
    /// The scopes, innermost last.
    pub closed spec fn envs_v(&self) -> Seq<Map<Seq<u8>, Type>> {
        self.envs@.map_values(|e: Vec<(&'a str, Type)>| assoc_map(e@))
    }

    /// The known functions.
    pub closed spec fn funcs_v(&self) -> Seq<TyFunc> {
        self.funcs@.map_values(|f: TyEntry<'a>| ty_entry_view(f))
    }

    /// The function being checked.
    pub closed spec fn curr_v(&self) -> Option<TyFunc> {
        match self.curr_func {
            Some(f) => Some(ty_entry_view(f)),
            None => None,
        }
    }

    /// The type checker's state.
    pub open spec fn state_v(&self) -> TyState {
        TyState { envs: self.envs_v(), curr: self.curr_v() }
    }

    /// The bytes of the source.
    pub closed spec fn src_v(&self) -> Seq<u8> {
        self.src.spec_bytes()
    }

    /// The top-level nodes.
    pub closed spec fn nodes_v(&self) -> Seq<Node> {
        self.nodes@
    }

    /// Ready to check: there is a scope, and every known function can be checked.
    pub open spec fn ready(&self) -> bool {
        &&& self.envs_v().len() >= 1
        &&& forall|i: int|
            0 <= i < self.funcs_v().len() ==> ty_func_ok(self.src_v(), self.funcs_v(), (#[trigger] self.funcs_v()[i]).body)
    }

    pub fn new(nodes: &'a Vec<Node>, src: &'a str) -> (c: Self)
        ensures
            c.ready(),
            c.envs_v() == seq![Map::<Seq<u8>, Type>::empty()],
            c.funcs_v() == Seq::<TyFunc>::empty(),
            c.curr_v() is None,
            c.nodes_v() == nodes@,
            c.src_v() == src.spec_bytes(),
    {
        let mut envs = Vec::new();
        envs.push(Vec::new());  // global env
        let c = TyChecker { envs, funcs: Vec::new(), nodes, curr_func: None, src };
        assert(c.envs_v() =~= seq![Map::<Seq<u8>, Type>::empty()]);
        assert(c.funcs_v() =~= Seq::<TyFunc>::empty());
        c
    }

    /// The type of `id` in the innermost scope that binds it.
    fn lookup(&self, id: &str) -> (r: Option<Type>)
        ensures
            r == lookup(self.envs_v(), id.spec_bytes()),
    {
        let mut i = self.envs.len();
        assert(self.envs_v().take(i as int) =~= self.envs_v());
        while i > 0
            invariant
                0 <= i <= self.envs_v().len(),
                lookup(self.envs_v().take(i as int), id.spec_bytes()) == lookup(
                    self.envs_v(),
                    id.spec_bytes(),
                ),
            decreases i,
        {
            proof {
                lemma_lookup_take(self.envs_v(), id.spec_bytes(), i as int);
            }
            if let Some(t) = env_get(&self.envs[i - 1], id) {
                return Some(t);
            }
            i = i - 1;
        }
        assert(self.envs_v().take(0) =~= Seq::<Map<Seq<u8>, Type>>::empty());
        None
    }

    /// Binds `id` to `t` in the innermost scope.
    fn bind(&mut self, id: &'a str, t: Type)
        requires
            old(self).envs_v().len() >= 1,
        ensures
            final(self).envs_v() == bind(old(self).envs_v(), id.spec_bytes(), t),
            final(self).funcs_v() == old(self).funcs_v(),
            final(self).curr_v() == old(self).curr_v(),
            final(self).src_v() == old(self).src_v(),
            final(self).nodes_v() == old(self).nodes_v(),
    {
        let ghost e0 = self.envs_v();
        let mut last = self.envs.pop().unwrap();
        let ghost l0 = last@;
        last.push((id, t));
        assert(last@.drop_last() =~= l0);
        self.envs.push(last);
        assert(self.envs_v() =~= bind(e0, id.spec_bytes(), t));
    }

    /// The index of the first known function named `name`.
    fn find_func(&self, name: &str) -> (r: Option<usize>)
        ensures
            match find_func(self.funcs_v(), name.spec_bytes()) {
                None => r is None,
                Some(f) => r matches Some(i) && i < self.funcs_v().len() && self.funcs_v()[i as int]
                    == f,
            },
    {
        let mut i: usize = 0;
        assert(self.funcs_v().skip(0) =~= self.funcs_v());
        while i < self.funcs.len()
            invariant
                0 <= i <= self.funcs_v().len(),
                find_func(self.funcs_v(), name.spec_bytes()) == find_func(
                    self.funcs_v().skip(i as int),
                    name.spec_bytes(),
                ),
            decreases self.funcs_v().len() - i,
        {
            let ghost rest = self.funcs_v().skip(i as int);
            assert(rest.drop_first() =~= self.funcs_v().skip(i + 1));
            if str_eq(self.funcs[i].0, name) {
                return Some(i);
            }
            i = i + 1;
        }
        None
    }

    /// The typed parameters of a declaration.
    fn params_of(&self, args: &Vec<(usize, usize, TkType)>) -> (r: Result<Vec<(&'a str, Type)>, TyError>)
        requires
            args_wf(self.src_v(), args@),
        ensures
            match ty_params(self.src_v(), args@, 0) {
                Ok(ps) => r matches Ok(v) && params_view(v@) == ps,
                Err(x) => r == Err::<Vec<(&'a str, Type)>, TyError>(x),
            },
    {
        let mut v: Vec<(&'a str, Type)> = Vec::new();
        let mut i: usize = 0;
        while i < args.len()
            invariant
                0 <= i <= args@.len(),
                args_wf(self.src_v(), args@),
                forall|k: int| 0 <= k < i ==> tk_type(#[trigger] args@[k].2) is Ok,
                params_view(v@) == Seq::new(
                    i as nat,
                    |k: int|
                        (
                            self.src_v().subrange(args@[k].0 as int, args@[k].1 as int),
                            tk_type(args@[k].2)->Ok_0,
                        ),
                ),
                ty_params(self.src_v(), args@, 0) == match ty_params(self.src_v(), args@, i as int) {
                    Err(x) => Err(x),
                    Ok(rest) => Ok(params_view(v@) + rest),
                },
            decreases args@.len() - i,
        {
            let name = substr(self.src, args[i].0, args[i].1);
            let t = match tktype_2_type(args[i].2) {
                Ok(t) => t,
                Err(x) => {
                    return Err(x);
                },
            };
            let ghost v0 = v@;
            v.push((name, t));
            assert(params_view(v@) =~= params_view(v0).push((name.spec_bytes(), t)));
            proof {
                match ty_params(self.src_v(), args@, i + 1) {
                    Err(x) => {},
                    Ok(rest) => {
                        assert(params_view(v@) + rest =~= params_view(v0) + (seq![
                            (name.spec_bytes(), t),
                        ] + rest));
                    },
                }
            }
            i = i + 1;
        }
        assert(params_view(v@) + Seq::<(Seq<u8>, Type)>::empty() =~= params_view(v@));
        Ok(v)
    }

    /// Checks the nodes of `nodes` in order.
    fn analize_seq(&mut self, nodes: &'a Vec<Node>) -> (r: Result<(), TyError>)
        requires
            old(self).envs_v().len() >= 1,
            ty_wf_seq(old(self).src_v(), old(self).funcs_v(), nodes@, 0),
        ensures
            final(self).funcs_v() == old(self).funcs_v(),
            final(self).src_v() == old(self).src_v(),
            final(self).nodes_v() == old(self).nodes_v(),
            match ty_seq(old(self).src_v(), old(self).funcs_v(), old(self).state_v(), nodes@, 0) {
                Ok(st) => r is Ok && final(self).state_v() == st && final(self).envs_v().len()
                    >= old(self).envs_v().len(),
                Err(x) => r == Err::<(), TyError>(x),
            },
        decreases nodes, 0int,
    {
        let mut i: usize = 0;
        #[verifier::loop_isolation(false)]
        while i < nodes.len()
            invariant
                0 <= i <= nodes@.len(),
                self.funcs_v() == old(self).funcs_v(),
                self.src_v() == old(self).src_v(),
                self.nodes_v() == old(self).nodes_v(),
                self.envs_v().len() >= old(self).envs_v().len(),
                ty_seq(self.src_v(), self.funcs_v(), self.state_v(), nodes@, i as int) == ty_seq(
                    self.src_v(),
                    self.funcs_v(),
                    old(self).state_v(),
                    nodes@,
                    0,
                ),
            decreases nodes@.len() - i,
        {
            proof {
                lemma_ty_wf_seq(self.src_v(), self.funcs_v(), nodes@, 0, i as int);
            }
            self.analize_node(&nodes[i])?;
            i = i + 1;
        }
        Ok(())
    }

    /// `after` is what checking `n` from `before` leads to, and `r` what it returns.
    pub open spec fn node_post(before: Self, after: Self, n: Node, r: Result<Type, TyError>) -> bool {
        &&& after.funcs_v() == before.funcs_v()
        &&& after.src_v() == before.src_v()
        &&& after.nodes_v() == before.nodes_v()
        &&& match ty_node(before.src_v(), before.funcs_v(), before.state_v(), n) {
            Ok((t, st)) => r == Ok::<Type, TyError>(t) && after.state_v() == st
                && after.envs_v().len() >= before.envs_v().len(),
            Err(x) => r == Err::<Type, TyError>(x),
        }
    }

    fn analize_node(&mut self, node: &'a Node) -> (r: Result<Type, TyError>)
        requires
            old(self).envs_v().len() >= 1,
            ty_wf(old(self).src_v(), old(self).funcs_v(), *node),
        ensures
            Self::node_post(*old(self), *final(self), *node, r),
        decreases node, 1int,
    {
        match node {
            Node::Integer(_) => Ok(Type::Int),
            Node::Float(_) => Ok(Type::Float),
            Node::Bool(_) => Ok(Type::Bool),
            Node::Str(_, _) => Ok(Type::Str),
            Node::Id(s, e) => {
                let id = substr(self.src, *s, *e);
                match self.lookup(id) {
                    Some(t) => Ok(t),
                    None => Err(TyError::UnresolvedIdentifier { start: *s, end: *e }),
                }
            },
            Node::BinOp { .. } => self.analize_binop(node),
            Node::Unary { right, op } => {
                let ty = self.analize_node(right)?;
                if *op == TkType::Not {
                    match ty {
                        Type::Bool => Ok(ty),
                        _ => Err(TyError::NotOnNonBoolean),
                    }
                } else {
                    match ty {
                        Type::Int | Type::Float => Ok(ty),
                        _ => Err(TyError::NegationOnNonNumeric),
                    }
                }
            },
            Node::VarDecl { .. } | Node::VarReassing { .. } => self.analize_var(node),
            Node::Block(nodes) => {
                self.analize_seq(nodes)?;
                Ok(Type::Void)
            },
            Node::FuncDecl { .. } => self.analize_func_decl(node),
            Node::Return(node) => {
                let ty = self.analize_node(node)?;
                let curr_ret_ty = match &self.curr_func {
                    Some(f) => f.2,
                    None => {
                        return Err(TyError::ReturnOutsideFunction);
                    },
                };
                if curr_ret_ty != ty {
                    return Err(TyError::ReturnMismatch { expected: curr_ret_ty, found: ty });
                }
                Ok(Type::Void)
            },
            Node::FuncCall { .. } => self.analize_call(node),
            Node::While { .. } | Node::If { .. } => self.analize_branch(node),
        }
    }

    fn analize_binop(&mut self, node: &'a Node) -> (r: Result<Type, TyError>)
        requires
            old(self).envs_v().len() >= 1,
            ty_wf(old(self).src_v(), old(self).funcs_v(), *node),
            *node is BinOp,
        ensures
            Self::node_post(*old(self), *final(self), *node, r),
        decreases node, 0int,
    {
        let (left, right, op) = match node {
            Node::BinOp { left, right, op } => (left, right, op),
            _ => {
                return Ok(Type::Unknown);
            },
        };
        let lhs = self.analize_node(left)?;
        let rhs = self.analize_node(right)?;
        if lhs != rhs {
            return Err(TyError::OperandMismatch);
        }
        match op {
            TkType::Plus | TkType::Minus | TkType::Star => {
                if lhs != Type::Int && lhs != Type::Float {
                    return Err(TyError::NotNumeric(lhs));
                }
                Ok(lhs)
            },
            TkType::Slash => {
                if lhs != Type::Int && lhs != Type::Float {
                    return Err(TyError::NotNumeric(lhs));
                }
                Ok(Type::Float)
            },
            TkType::Lt | TkType::Gt | TkType::Le | TkType::Ge => {
                if lhs != Type::Int && lhs != Type::Float {
                    return Err(TyError::NotNumeric(lhs));
                }
                Ok(Type::Bool)
            },
            TkType::And | TkType::Or => {
                if lhs != Type::Bool {
                    return Err(TyError::NotBoolean(lhs));
                }
                Ok(Type::Bool)
            },
            _ => {
                // `==` and `!=` (`ty_wf` rules out other operators)
                if lhs != Type::Bool && lhs != Type::Int && lhs != Type::Float {
                    return Err(TyError::NotComparable);
                }
                Ok(Type::Bool)
            },
        }
    }

    fn analize_var(&mut self, node: &'a Node) -> (r: Result<Type, TyError>)
        requires
            old(self).envs_v().len() >= 1,
            ty_wf(old(self).src_v(), old(self).funcs_v(), *node),
            *node is VarDecl || *node is VarReassing,
        ensures
            Self::node_post(*old(self), *final(self), *node, r),
        decreases node, 0int,
    {
        match node {
            Node::VarDecl { name_s, name_e, vtype, value } => {
                let id = substr(self.src, *name_s, *name_e);
                let ty = self.analize_node(value)?;
                if *vtype != TkType::Error {
                    let declared = tktype_2_type(*vtype)?;
                    if ty != declared {
                        return Err(TyError::DeclarationMismatch { expected: declared, found: ty });
                    }
                }
                self.bind(id, ty);
                Ok(Type::Void)
            },
            Node::VarReassing { name_s, name_e, value } => {
                let id = substr(self.src, *name_s, *name_e);
                let ty = self.analize_node(value)?;
                match self.lookup(id) {
                    Some(vt) => {
                        if vt != ty {
                            return Err(TyError::AssignmentMismatch { expected: vt, found: ty });
                        }
                    },
                    None => {},
                }
                Ok(Type::Void)
            },
            _ => Ok(Type::Unknown),
        }
    }

    fn analize_func_decl(&mut self, node: &'a Node) -> (r: Result<Type, TyError>)
        requires
            old(self).envs_v().len() >= 1,
            ty_wf(old(self).src_v(), old(self).funcs_v(), *node),
            *node is FuncDecl,
        ensures
            Self::node_post(*old(self), *final(self), *node, r),
        decreases node, 0int,
    {
        match node {
            Node::FuncDecl { name_s, name_e, args, rtype, body, is_extern } => {
                let id = substr(self.src, *name_s, *name_e);
                let params = self.params_of(args)?;
                let ret = tktype_2_type(*rtype)?;
                self.curr_func = Some((id, params, ret, body));
                self.analize_func()?;
                self.curr_func = None;
                Ok(Type::Void)
            },
            _ => Ok(Type::Unknown),
        }
    }

    fn analize_call(&mut self, node: &'a Node) -> (r: Result<Type, TyError>)
        requires
            old(self).envs_v().len() >= 1,
            ty_wf(old(self).src_v(), old(self).funcs_v(), *node),
            *node is FuncCall,
        ensures
            Self::node_post(*old(self), *final(self), *node, r),
        decreases node, 0int,
    {
        let (name, args) = match node {
            Node::FuncCall { name, args } => (name, args),
            _ => {
                return Ok(Type::Unknown);
            },
        };
        let (s, e) = match &**name {
            Node::Id(s, e) => (*s, *e),
            _ => {
                // not reached: `ty_wf` makes the callee an identifier
                return Ok(Type::Unknown);
            },
        };
        let fname = substr(self.src, s, e);
        let idx = match self.find_func(fname) {
            Some(i) => i,
            None => {
                return Err(TyError::UnknownFunction { start: s, end: e });
            },
        };
        let np = self.funcs[idx].1.len();
        if np == 0 {
            return Err(TyError::EmptyParameterList { start: s, end: e });
        }
        if is_variadic_name(self.funcs[idx].1[np - 1].0) {
            // for simplicity, we let it as this
            return Ok(self.funcs[idx].2);
        }
        let ghost f = self.funcs_v()[idx as int];
        let ghost st0 = self.state_v();
        let mut i: usize = 0;
        #[verifier::loop_isolation(false)]
        while i < args.len()
            invariant
                0 <= i <= args@.len(),
                idx < self.funcs_v().len(),
                self.funcs_v()[idx as int] == f,
                self.funcs_v() == old(self).funcs_v(),
                self.src_v() == old(self).src_v(),
                self.nodes_v() == old(self).nodes_v(),
                self.envs_v().len() >= old(self).envs_v().len(),
                ty_args(self.src_v(), self.funcs_v(), self.state_v(), args@, i as int, f.params)
                    == ty_args(self.src_v(), self.funcs_v(), st0, args@, 0, f.params),
            decreases args@.len() - i,
        {
            proof {
                lemma_ty_wf_seq(self.src_v(), self.funcs_v(), args@, 0, i as int);
            }
            let ty = self.analize_node(&args[i])?;
            if i >= np {
                return Err(TyError::TooManyArguments);
            }
            let pty = self.funcs[idx].1[i].1;
            assert(pty == f.params[i as int].1);
            if ty != pty {
                return Err(TyError::ArgumentMismatch { expected: pty, found: ty });
            }
            i = i + 1;
        }
        Ok(self.funcs[idx].2)
    }

    fn analize_branch(&mut self, node: &'a Node) -> (r: Result<Type, TyError>)
        requires
            old(self).envs_v().len() >= 1,
            ty_wf(old(self).src_v(), old(self).funcs_v(), *node),
            *node is While || *node is If,
        ensures
            Self::node_post(*old(self), *final(self), *node, r),
        decreases node, 0int,
    {
        match node {
            Node::While { cond, body } => {
                let cond_ty = self.analize_node(cond)?;
                if cond_ty != Type::Bool {
                    return Err(TyError::ConditionNotBoolean);
                }
                match &**body {
                    Node::Block(nodes) => {
                        self.analize_seq(nodes)?;
                    },
                    _ => {
                        // not reached: `ty_wf` makes loop bodies blocks
                    },
                }
                Ok(Type::Void)
            },
            Node::If { cond, then_br, else_br } => {
                let cond_ty = self.analize_node(cond)?;
                if cond_ty != Type::Bool {
                    return Err(TyError::ConditionNotBoolean);
                }
                match &**then_br {
                    Node::Block(nodes) => {
                        self.analize_seq(nodes)?;
                    },
                    _ => {
                        // not reached: `ty_wf` makes `then` branches blocks
                        return Ok(Type::Void);
                    },
                }
                if let Some(else_br) = else_br {
                    self.analize_node(else_br)?;
                }
                Ok(Type::Void)
            },
            _ => Ok(Type::Unknown),
        }
    }

    /// A copy of a parameter list.
    fn copy_params(v: &Vec<(&'a str, Type)>) -> (r: Vec<(&'a str, Type)>)
        ensures
            r@ == v@,
    {
        let mut r: Vec<(&'a str, Type)> = Vec::new();
        let mut i: usize = 0;
        while i < v.len()
            invariant
                0 <= i <= v@.len(),
                r@ == v@.take(i as int),
            decreases v@.len() - i,
        {
            r.push(v[i]);
            assert(v@.take(i + 1) =~= v@.take(i as int).push(v@[i as int]));
            i = i + 1;
        }
        assert(v@.take(v@.len() as int) =~= v@);
        r
    }

    /// Checks the body of the current function.
    fn analize_func(&mut self) -> (r: Result<(), TyError>)
        requires
            old(self).envs_v().len() >= 1,
            old(self).curr_v() matches Some(f) ==> ty_func_ok(old(self).src_v(), old(self).funcs_v(), f.body),
        ensures
            final(self).funcs_v() == old(self).funcs_v(),
            final(self).src_v() == old(self).src_v(),
            final(self).nodes_v() == old(self).nodes_v(),
            match old(self).curr_v() {
                None => r is Ok && final(self).state_v() == old(self).state_v(),
                Some(f) => match ty_body(
                    old(self).src_v(),
                    old(self).funcs_v(),
                    old(self).envs_v(),
                    old(self).curr_v(),
                    f.params,
                    f.body,
                ) {
                    Ok(st) => r is Ok && final(self).state_v() == st && final(self).envs_v().len()
                        >= old(self).envs_v().len(),
                    Err(x) => r == Err::<(), TyError>(x),
                },
            },
        decreases old(self).curr_v().unwrap().body, 0int,
    {
        let (params, body): (Vec<(&'a str, Type)>, &'a Option<Box<Node>>) = match &self.curr_func {
            Some(f) => (Self::copy_params(&f.1), f.3),
            None => {
                return Ok(());
            },
        };
        let ghost e0 = self.envs_v();
        self.envs.push(Vec::new());
        assert(self.envs_v() =~= e0.push(Map::empty()));
        let b = match body {
            Some(b) => b,
            None => {
                return Ok(());
            },
        };
        let mut i: usize = 0;
        let ghost ps = params_view(params@);
        #[verifier::loop_isolation(false)]
        while i < params.len()
            invariant
                0 <= i <= params@.len(),
                ps == params_view(params@),
                self.envs_v().len() == e0.len() + 1,
                self.curr_v() == old(self).curr_v(),
                self.funcs_v() == old(self).funcs_v(),
                self.src_v() == old(self).src_v(),
                self.nodes_v() == old(self).nodes_v(),
                bind_params(self.envs_v(), ps, i as int) == bind_params(e0.push(Map::empty()), ps, 0),
            decreases params@.len() - i,
        {
            self.bind(params[i].0, params[i].1);
            i = i + 1;
        }
        match &**b {
            Node::Block(nodes) => {
                self.analize_seq(nodes)?;
            },
            _ => {
                // not reached: function bodies are blocks
            },
        }
        Ok(())
    }

    /// Lists the functions the program declares, after those already known.
    fn populate_funcs(&mut self) -> (r: Result<(), TyError>)
        requires
            ty_program_spans(old(self).src_v(), old(self).nodes_v()),
        ensures
            final(self).state_v() == old(self).state_v(),
            final(self).src_v() == old(self).src_v(),
            final(self).nodes_v() == old(self).nodes_v(),
            match ty_funcs_of(old(self).src_v(), old(self).nodes_v(), old(self).nodes_v().len() as int) {
                Ok(fs) => r is Ok && final(self).funcs_v() == old(self).funcs_v() + fs,
                Err(x) => r == Err::<(), TyError>(x),
            },
    {
        let nodes = self.nodes;
        let ghost src = self.src_v();
        let mut i: usize = 0;
        assert(old(self).funcs_v() + Seq::<TyFunc>::empty() =~= old(self).funcs_v());
        while i < nodes.len()
            invariant
                0 <= i <= nodes@.len(),
                nodes@ == self.nodes_v(),
                src == self.src_v(),
                ty_program_spans(src, nodes@),
                self.state_v() == old(self).state_v(),
                self.src_v() == old(self).src_v(),
                self.nodes_v() == old(self).nodes_v(),
                ty_funcs_of(src, nodes@, i as int) matches Ok(fs) && self.funcs_v() == old(
                    self,
                ).funcs_v() + fs,
            decreases nodes@.len() - i,
        {
            let ghost f0 = self.funcs_v();
            let ghost fs0 = ty_funcs_of(src, nodes@, i as int)->Ok_0;
            match &nodes[i] {
                Node::FuncDecl { name_s, name_e, args, rtype, body, .. } => {
                    assert(valid_span(src, *name_s as int, *name_e as int) && args_wf(src, args@));
                    let name = substr(self.src, *name_s, *name_e);
                    let params = match self.params_of(args) {
                        Ok(p) => p,
                        Err(x) => {
                            proof {
                                lemma_funcs_of_err(src, nodes@, i as int + 1, nodes@.len() as int);
                            }
                            return Err(x);
                        },
                    };
                    let ret = match tktype_2_type(*rtype) {
                        Ok(t) => t,
                        Err(x) => {
                            proof {
                                lemma_funcs_of_err(src, nodes@, i as int + 1, nodes@.len() as int);
                            }
                            return Err(x);
                        },
                    };
                    self.funcs.push((name, params, ret, body));
                    assert(self.funcs_v() =~= f0.push(ty_entry_view((name, params, ret, body))));
                    assert(old(self).funcs_v() + fs0.push(ty_entry_view((name, params, ret, body)))
                        =~= f0.push(ty_entry_view((name, params, ret, body))));
                },
                _ => {},
            }
            i = i + 1;
        }
        Ok(())
    }

    /// Type checks the program: lists its functions, then checks the body of
    /// each known function in order, each as the current function.
    pub fn analize(&mut self) -> (r: Result<(), TyError>)
        requires
            old(self).envs_v().len() >= 1,
            ty_program_wf(old(self).src_v(), old(self).funcs_v(), old(self).nodes_v()),
        ensures
            r == ty_program(old(self).src_v(), old(self).nodes_v(), old(self).funcs_v(), old(self).state_v()),
            final(self).src_v() == old(self).src_v(),
            final(self).nodes_v() == old(self).nodes_v(),
            r is Ok ==> {
                &&& final(self).ready()
                &&& ty_funcs_of(
                    old(self).src_v(),
                    old(self).nodes_v(),
                    old(self).nodes_v().len() as int,
                ) matches Ok(fs) && final(self).funcs_v() == old(self).funcs_v() + fs
                &&& ty_funcs(old(self).src_v(), final(self).funcs_v(), old(self).state_v(), 0) == Ok::<
                    TyState,
                    TyError,
                >(final(self).state_v())
            },
    {
        self.populate_funcs()?;
        let ghost fs = self.funcs_v();
        let ghost st0 = self.state_v();
        let ghost src = self.src_v();
        assert(self.ready());
        assert(ty_program(src, old(self).nodes_v(), old(self).funcs_v(), old(self).state_v()) == match ty_funcs(src, fs, st0, 0) {
            Err(x) => Err(x),
            Ok(_) => Ok::<(), TyError>(()),
        });
        let n = self.funcs.len();
        let mut i: usize = 0;
        while i < n
            invariant
                0 <= i <= n,
                n == self.funcs_v().len(),
                self.funcs_v() == fs,
                self.ready(),
                self.src_v() == src,
                ty_funcs(src, fs, self.state_v(), i as int) == ty_funcs(src, fs, st0, 0),
                ty_program(src, old(self).nodes_v(), old(self).funcs_v(), old(self).state_v())
                    == match ty_funcs(src, fs, st0, 0) {
                    Err(x) => Err(x),
                    Ok(_) => Ok::<(), TyError>(()),
                },
                src == old(self).src_v(),
                self.nodes_v() == old(self).nodes_v(),
                st0 == old(self).state_v(),
                ty_funcs_of(src, old(self).nodes_v(), old(self).nodes_v().len() as int) matches Ok(
                    fs_of,
                ) && fs == old(self).funcs_v() + fs_of,
            decreases n - i,
        {
            let params = Self::copy_params(&self.funcs[i].1);
            let f = (self.funcs[i].0, params, self.funcs[i].2, self.funcs[i].3);
            assert(ty_entry_view(f) == fs[i as int]);
            let ghost st_pre = self.state_v();
            self.curr_func = Some(f);
            assert(self.curr_v() == Some(fs[i as int]));
            let ghost st = self.state_v();
            assert(st.envs == st_pre.envs);
            assert(ty_funcs(src, fs, st, i as int) == ty_funcs(src, fs, st_pre, i as int));
            match self.analize_func() {
                Ok(()) => {},
                Err(x) => {
                    assert(ty_funcs(src, fs, st, i as int) == Err::<TyState, TyError>(x));
                    return Err(x);
                },
            }
            i = i + 1;
        }
        assert(ty_funcs(src, fs, self.state_v(), i as int) == Ok::<TyState, TyError>(self.state_v()));
        Ok(())
    }
}

/// Comparisons and boolean operators give a `bool`: a binary operation with
/// `<`, `>`, `<=`, `>=`, `==`, `!=`, `and` or `or` that type checks has type
/// `Bool`, whatever its operands are.
pub proof fn law_comparison_is_bool(
    src: Seq<u8>,
    funcs: Seq<TyFunc>,
    st: TyState,
    left: Box<Node>,
    right: Box<Node>,
    op: TkType,
)
    requires
        op == TkType::Lt || op == TkType::Gt || op == TkType::Le || op == TkType::Ge || op
            == TkType::Eq || op == TkType::Ne || op == TkType::And || op == TkType::Or,
    ensures
        ty_node(src, funcs, st, Node::BinOp { left, right, op }) matches Ok((t, _)) ==> t
            == Type::Bool,
{
}

/// Arithmetic is numeric and keeps its operands' type, but division gives a
/// `float`: a `+`, `-`, `*` or `/` that type checks has operands of one
/// numeric type, and that type (`Float` for `/`).
pub proof fn law_arithmetic_type(
    src: Seq<u8>,
    funcs: Seq<TyFunc>,
    st: TyState,
    left: Box<Node>,
    right: Box<Node>,
    op: TkType,
)
    requires
        op == TkType::Plus || op == TkType::Minus || op == TkType::Star || op == TkType::Slash,
    ensures
        ty_node(src, funcs, st, Node::BinOp { left, right, op }) matches Ok((t, _)) ==> {
            &&& ty_node(src, funcs, st, *left) matches Ok((lt, st1))
            &&& ty_node(src, funcs, st1, *right) matches Ok((rt, _))
            &&& lt == rt
            &&& is_numeric(lt)
            &&& t == if op == TkType::Slash {
                Type::Float
            } else {
                lt
            }
        },
{
}

/// A variable keeps its type: an assignment type checks only when its value
/// has the type of the variable's innermost binding, if it has one.
pub proof fn law_assignment_keeps_type(
    src: Seq<u8>,
    funcs: Seq<TyFunc>,
    st: TyState,
    name_s: usize,
    name_e: usize,
    value: Box<Node>,
)
    ensures
        ty_node(src, funcs, st, Node::VarReassing { name_s, name_e, value }) is Ok ==> {
            &&& ty_node(src, funcs, st, *value) matches Ok((t, st1))
            &&& (lookup(st1.envs, src.subrange(name_s as int, name_e as int)) matches Some(vt)
                ==> vt == t)
        },
{
}

/// A declaration with a type takes a value of that type only, and binds the
/// name to that type in the innermost scope.
pub proof fn law_declaration_type(
    src: Seq<u8>,
    funcs: Seq<TyFunc>,
    st: TyState,
    name_s: usize,
    name_e: usize,
    vtype: TkType,
    value: Box<Node>,
)
    requires
        vtype != TkType::Error,
    ensures
        ty_node(src, funcs, st, Node::VarDecl { name_s, name_e, vtype, value }) matches Ok((_, st2))
            ==> {
            &&& ty_node(src, funcs, st, *value) matches Ok((t, st1))
            &&& tk_type(vtype) == Ok::<Type, TyError>(t)
            &&& st2.envs == bind(st1.envs, src.subrange(name_s as int, name_e as int), t)
        },
{
}

/// Conditions are boolean: a `while` or an `if` type checks only when its
/// condition has type `Bool`, and then has type `Void`; a condition of any
/// other type is refused before its branches are looked at.
pub proof fn law_condition_is_bool(src: Seq<u8>, funcs: Seq<TyFunc>, st: TyState, n: Node)
    requires
        n is While || n is If,
    ensures
        ty_node(src, funcs, st, n) matches Ok((t, _)) ==> t == Type::Void,
        ty_node(src, funcs, st, n) is Ok ==> (match n {
            Node::While { cond, .. } => ty_node(src, funcs, st, *cond) matches Ok((c, _)) && c
                == Type::Bool,
            Node::If { cond, .. } => ty_node(src, funcs, st, *cond) matches Ok((c, _)) && c
                == Type::Bool,
            _ => true,
        }),
        (match n {
            Node::While { cond, .. } => ty_node(src, funcs, st, *cond) matches Ok((c, _)) && c
                != Type::Bool,
            Node::If { cond, .. } => ty_node(src, funcs, st, *cond) matches Ok((c, _)) && c
                != Type::Bool,
            _ => false,
        }) ==> ty_node(src, funcs, st, n) == Err::<(Type, TyState), TyError>(
            TyError::ConditionNotBoolean,
        ),
{
}

/// `not` takes and gives a `Bool`; `-` takes and gives a number of the same type.
pub proof fn law_unary_type(src: Seq<u8>, funcs: Seq<TyFunc>, st: TyState, right: Box<Node>, op: TkType)
    ensures
        ty_node(src, funcs, st, Node::Unary { right, op }) matches Ok((t, _)) ==> (ty_node(
            src,
            funcs,
            st,
            *right,
        ) matches Ok((r, _)) && t == r && if op == TkType::Not {
            r == Type::Bool
        } else {
            is_numeric(r)
        }),
{
}

/// A `return` gives a value of the current function's return type: it type
/// checks only when its value has that type, and then changes nothing more
/// than checking the value did.
pub proof fn law_return_type(src: Seq<u8>, funcs: Seq<TyFunc>, st: TyState, x: Box<Node>)
    ensures
        ty_node(src, funcs, st, Node::Return(x)) matches Ok((t, st2)) ==> {
            &&& t == Type::Void
            &&& ty_node(src, funcs, st, *x) matches Ok((tx, st1))
            &&& st2 == st1
            &&& st1.curr matches Some(f) && f.ret == tx
        },
{
}

/// A `while` loop checks as its condition followed by its body: once the
/// condition has type `Bool`, the loop type checks exactly when its body block
/// does, with the state the body leaves, and fails with the body's error
/// otherwise.
pub proof fn law_while_checks_body(
    src: Seq<u8>,
    funcs: Seq<TyFunc>,
    st: TyState,
    cond: Box<Node>,
    body: Box<Node>,
)
    requires
        *body is Block,
    ensures
        match ty_node(src, funcs, st, *cond) {
            Ok((c, st1)) => c == Type::Bool ==> ty_node(src, funcs, st, Node::While { cond, body })
                == match ty_node(src, funcs, st1, *body) {
                Ok((_, st2)) => Ok::<(Type, TyState), TyError>((Type::Void, st2)),
                Err(x) => Err(x),
            },
            Err(_) => true,
        },
{
}

/// An `if` checks as its condition, its `then` block and its `else` branch in
/// turn: once the condition has type `Bool`, the `if` type checks exactly
/// when its branches do, in order, with the state they leave.
pub proof fn law_if_checks_branches(
    src: Seq<u8>,
    funcs: Seq<TyFunc>,
    st: TyState,
    cond: Box<Node>,
    then_br: Box<Node>,
    else_br: Option<Box<Node>>,
)
    requires
        *then_br is Block,
    ensures
        match ty_node(src, funcs, st, *cond) {
            Ok((c, st1)) => c == Type::Bool ==> ty_node(
                src,
                funcs,
                st,
                Node::If { cond, then_br, else_br },
            ) == match ty_node(src, funcs, st1, *then_br) {
                Err(x) => Err(x),
                Ok((_, st2)) => match else_br {
                    None => Ok::<(Type, TyState), TyError>((Type::Void, st2)),
                    Some(b) => match ty_node(src, funcs, st2, *b) {
                        Ok((_, st3)) => Ok::<(Type, TyState), TyError>((Type::Void, st3)),
                        Err(x) => Err(x),
                    },
                },
            },
            Err(_) => true,
        },
{
}

/// Once listing the functions fails at some node, it fails there for every longer prefix.
proof fn lemma_funcs_of_err(src: Seq<u8>, nodes: Seq<Node>, k: int, m: int)
    requires
        1 <= k <= m <= nodes.len(),
        ty_funcs_of(src, nodes, k) is Err,
    ensures
        ty_funcs_of(src, nodes, m) == ty_funcs_of(src, nodes, k),
    decreases m - k,
{
    if k < m {
        lemma_funcs_of_err(src, nodes, k, m - 1);
    }
}

} // verus!
