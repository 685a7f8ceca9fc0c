//! Semantic analyzer: checks that every identifier a function uses is
//! declared in an enclosing scope and that every call names a declared
//! function with the right number of arguments.
use vstd::prelude::*;
use vstd::string::StringSliceAdditionalSpecFns;
use crate::ast::Node;
use crate::text::{valid_span, span_text, substr, str_eq, usize_to_string, nat_decimal};

verus! {

broadcast use vstd::utf8::encode_utf8_valid_utf8;

/// Why the semantic analysis rejects a program.
#[derive(Debug, Clone, Copy, PartialEq, Eq, Structural)]
pub enum SemError {
    /// The identifier at `start..end` is used outside the scopes that declare it.
    UndeclaredIdentifier { start: usize, end: usize },
    /// A function is declared inside the body of another.
    NestedFunction,
    /// The function called by the name at `start..end` is not declared.
    UndeclaredFunction { start: usize, end: usize },
    /// A call passes `found` arguments to a function of `expected` parameters.
    WrongArgCount { expected: usize, found: usize },
    /// The function called by the name at `start..end` has no parameters, so
    /// it has no last parameter to tell whether it is variadic.
    EmptyParameterList { start: usize, end: usize },
}

/// The message printed for a semantic error in the program `src`; `None` for
/// the failure that stops the analysis without a message of its own.
pub open spec fn sem_message(src: Seq<u8>, e: SemError) -> Option<Seq<char>> {
    match e {
        SemError::UndeclaredIdentifier { start, end } => Some(
            "[ERROR] undeclared identifier `"@ + span_text(src, start as int, end as int) + "`"@,
        ),
        SemError::NestedFunction => Some("[ERROR] cannot declare a function inside a function"@),
        SemError::UndeclaredFunction { start, end } => Some(
            "[ERROR] undeclared function `"@ + span_text(src, start as int, end as int) + "`"@,
        ),
        SemError::WrongArgCount { expected, found } => Some(
            "[ERROR] wrong number of arguments, expected "@ + nat_decimal(expected as nat)
                + " found "@ + nat_decimal(found as nat),
        ),
        SemError::EmptyParameterList { .. } => None,
    }
}

/// The byte ranges an error points at are character-aligned ranges of `src`.
pub open spec fn sem_error_in(src: Seq<u8>, e: SemError) -> bool {
    match e {
        SemError::UndeclaredIdentifier { start, end } | SemError::UndeclaredFunction { start, end }
        | SemError::EmptyParameterList { start, end } => valid_span(src, start as int, end as int),
        _ => true,
    }
}

impl SemError {
    /// The message printed for this error in the program `src`; `None` for
    /// the failure that stops the analysis without a message of its own.
    pub fn message(&self, src: &str) -> (r: Option<String>)
        requires
            sem_error_in(src.spec_bytes(), *self),
        ensures
            match r {
                Some(m) => sem_message(src.spec_bytes(), *self) == Some(m@),
                None => sem_message(src.spec_bytes(), *self) is None,
            },
    {
        match self {
            SemError::UndeclaredIdentifier { start, end } => {
                let mut m = String::from_str("[ERROR] undeclared identifier `");
                m.append(substr(src, *start, *end));
                m.append("`");
                Some(m)
            },
            SemError::NestedFunction => Some(
                String::from_str("[ERROR] cannot declare a function inside a function"),
            ),
            SemError::UndeclaredFunction { start, end } => {
                let mut m = String::from_str("[ERROR] undeclared function `");
                m.append(substr(src, *start, *end));
                m.append("`");
                Some(m)
            },
            SemError::WrongArgCount { expected, found } => {
                let mut m = String::from_str("[ERROR] wrong number of arguments, expected ");
                let e = usize_to_string(*expected);
                m.append(e.as_str());
                m.append(" found ");
                let f = usize_to_string(*found);
                m.append(f.as_str());
                Some(m)
            },
            SemError::EmptyParameterList { .. } => None,
        }
    }
}

/// A declared function: its name, the names of its parameters and its body.
pub struct SemFunc {
    pub name: Seq<u8>,
    pub params: Seq<Seq<u8>>,
    pub body: Option<Box<Node>>,
}

/// The bytes `...`, the name of the variadic parameter.
pub open spec fn variadic_name() -> Seq<u8> {
    seq![0x2eu8, 0x2eu8, 0x2eu8]
}

/// Some scope of `envs` declares `id`.
pub open spec fn declared(envs: Seq<Seq<Seq<u8>>>, id: Seq<u8>) -> bool {
    exists|i: int, j: int| 0 <= i < envs.len() && 0 <= j < envs[i].len() && #[trigger] envs[i][j] == id
}

/// The first declared function named `name`.
pub open spec fn find_func(funcs: Seq<SemFunc>, name: Seq<u8>) -> Option<SemFunc>
    decreases funcs.len(),
{
    if funcs.len() == 0 {
        None
    } else if funcs[0].name == name {
        Some(funcs[0])
    } else {
        find_func(funcs.drop_first(), name)
    }
}

/// Past functions of other names, the search goes on in the rest.
pub proof fn lemma_find_func_skip(funcs: Seq<SemFunc>, name: Seq<u8>, i: int)
    requires
        0 <= i <= funcs.len(),
        forall|k: int| 0 <= k < i ==> (#[trigger] funcs[k]).name != name,
    ensures
        find_func(funcs, name) == find_func(funcs.skip(i), name),
    decreases i,
{
    if i > 0 {
        lemma_find_func_skip(funcs.drop_first(), name, i - 1);
        assert(funcs.drop_first().skip(i - 1) =~= funcs.skip(i));
    } else {
        assert(funcs.skip(0) =~= funcs);
    }
}

/// `envs` with `id` declared in its innermost scope.
pub open spec fn declare(envs: Seq<Seq<Seq<u8>>>, id: Seq<u8>) -> Seq<Seq<Seq<u8>>> {
    envs.update(envs.len() - 1, envs.last().push(id))
}

/// The analysis of `n` with the scopes `envs`, inside a function body when
/// `in_fn` holds: the scopes after it, or why it fails. A call's arguments are
/// analysed in order before its argument count is checked; a function
/// declaration is refused inside a function and passes unchanged outside one.
pub open spec fn sem_node(src: Seq<u8>, funcs: Seq<SemFunc>, envs: Seq<Seq<Seq<u8>>>, in_fn: bool, n: Node) -> Result<
    Seq<Seq<Seq<u8>>>,
    SemError,
>
    decreases n,
{
    match n {
        Node::Id(s, e) => if declared(envs, src.subrange(s as int, e as int)) {
            Ok(envs)
        } else {
            Err(SemError::UndeclaredIdentifier { start: s, end: e })
        },
        Node::BinOp { left, right, .. } => match sem_node(src, funcs, envs, in_fn, *left) {
            Err(x) => Err(x),
            Ok(e1) => sem_node(src, funcs, e1, in_fn, *right),
        },
        Node::Unary { right, .. } => sem_node(src, funcs, envs, in_fn, *right),
        Node::VarDecl { name_s, name_e, value, .. } => match sem_node(src, funcs, envs, in_fn, *value) {
            Err(x) => Err(x),
            Ok(e1) => Ok(declare(e1, src.subrange(name_s as int, name_e as int))),
        },
        Node::VarReassing { name_s, name_e, value } => match sem_node(src, funcs, envs, in_fn, *value) {
            Err(x) => Err(x),
            Ok(e1) => if declared(e1, src.subrange(name_s as int, name_e as int)) {
                Ok(e1)
            } else {
                Err(SemError::UndeclaredIdentifier { start: name_s, end: name_e })
            },
        },
        Node::Block(nodes) => match sem_seq(src, funcs, envs.push(seq![]), in_fn, nodes@, 0) {
            Err(x) => Err(x),
            Ok(e1) => Ok(e1.drop_last()),
        },
        Node::FuncDecl { .. } => if in_fn {
            Err(SemError::NestedFunction)
        } else {
            Ok(envs)
        },
        Node::Return(x) => sem_node(src, funcs, envs, in_fn, *x),
        Node::FuncCall { name, args } => match *name {
            Node::Id(s, e) => match find_func(funcs, src.subrange(s as int, e as int)) {
                None => Err(SemError::UndeclaredFunction { start: s, end: e }),
                Some(f) => match sem_seq(src, funcs, envs, in_fn, args@, 0) {
                    Err(x) => Err(x),
                    Ok(e1) => if f.params.len() == 0 {
                        Err(SemError::EmptyParameterList { start: s, end: e })
                    } else if f.params.last() != variadic_name() && args@.len() != f.params.len() {
                        Err(
                            SemError::WrongArgCount {
                                expected: f.params.len() as usize,
                                found: args@.len() as usize,
                            },
                        )
                    } else {
                        Ok(e1)
                    },
                },
            },
            _ => Ok(envs),
        },
        Node::While { cond, body } => match sem_node(src, funcs, envs, in_fn, *cond) {
            Err(x) => Err(x),
            Ok(e1) => sem_node(src, funcs, e1, in_fn, *body),
        },
        Node::If { cond, then_br, else_br } => match sem_node(src, funcs, envs, in_fn, *cond) {
            Err(x) => Err(x),
            Ok(e1) => match sem_node(src, funcs, e1, in_fn, *then_br) {
                Err(x) => Err(x),
                Ok(e2) => match else_br {
                    Some(b) => sem_node(src, funcs, e2, in_fn, *b),
                    None => Ok(e2),
                },
            },
        },
        _ => Ok(envs),
    }
}

/// The analysis of the nodes `s[i..]` in order.
pub open spec fn sem_seq(
    src: Seq<u8>,
    funcs: Seq<SemFunc>,
    envs: Seq<Seq<Seq<u8>>>,
    in_fn: bool,
    s: Seq<Node>,
    i: int,
) -> Result<Seq<Seq<Seq<u8>>>, SemError>
    decreases s, s.len() - i,
{
    if i < 0 || i >= s.len() {
        Ok(envs)
    } else {
        match sem_node(src, funcs, envs, in_fn, s[i]) {
            Err(x) => Err(x),
            Ok(e1) => sem_seq(src, funcs, e1, in_fn, s, i + 1),
        }
    }
}

/// Only the innermost scope changes: analysing a node keeps the number of
/// scopes and every scope but the innermost.
pub proof fn lemma_sem_node_scopes(src: Seq<u8>, funcs: Seq<SemFunc>, envs: Seq<Seq<Seq<u8>>>, in_fn: bool, n: Node)
    requires
        envs.len() >= 1,
    ensures
        sem_node(src, funcs, envs, in_fn, n) matches Ok(e) ==> e.len() == envs.len() && e.drop_last()
            == envs.drop_last(),
    decreases n,
{
    match n {
        Node::BinOp { left, right, .. } => {
            lemma_sem_node_scopes(src, funcs, envs, in_fn, *left);
            if let Ok(e1) = sem_node(src, funcs, envs, in_fn, *left) {
                lemma_sem_node_scopes(src, funcs, e1, in_fn, *right);
            }
        },
        Node::Unary { right, .. } => {
            lemma_sem_node_scopes(src, funcs, envs, in_fn, *right);
        },
        Node::VarDecl { name_s, name_e, value, .. } => {
            lemma_sem_node_scopes(src, funcs, envs, in_fn, *value);
            if let Ok(e1) = sem_node(src, funcs, envs, in_fn, *value) {
                let d = declare(e1, src.subrange(name_s as int, name_e as int));
                assert(d.drop_last() =~= e1.drop_last());
            }
        },
        Node::VarReassing { value, .. } => {
            lemma_sem_node_scopes(src, funcs, envs, in_fn, *value);
        },
        Node::Block(nodes) => {
            lemma_sem_seq_scopes(src, funcs, envs.push(seq![]), in_fn, nodes@, 0);
            if let Ok(e1) = sem_seq(src, funcs, envs.push(seq![]), in_fn, nodes@, 0) {
                assert(envs.push(seq![]).drop_last() =~= envs);
            }
        },
        Node::Return(x) => {
            lemma_sem_node_scopes(src, funcs, envs, in_fn, *x);
        },
        Node::FuncCall { args, .. } => {
            lemma_sem_seq_scopes(src, funcs, envs, in_fn, args@, 0);
        },
        Node::While { cond, body } => {
            lemma_sem_node_scopes(src, funcs, envs, in_fn, *cond);
            if let Ok(e1) = sem_node(src, funcs, envs, in_fn, *cond) {
                lemma_sem_node_scopes(src, funcs, e1, in_fn, *body);
            }
        },
        Node::If { cond, then_br, else_br } => {
            lemma_sem_node_scopes(src, funcs, envs, in_fn, *cond);
            if let Ok(e1) = sem_node(src, funcs, envs, in_fn, *cond) {
                lemma_sem_node_scopes(src, funcs, e1, in_fn, *then_br);
                if let Ok(e2) = sem_node(src, funcs, e1, in_fn, *then_br) {
                    if let Some(b) = else_br {
                        lemma_sem_node_scopes(src, funcs, e2, in_fn, *b);
                    }
                }
            }
        },
        _ => {},
    }
}

/// [`lemma_sem_node_scopes`] for the nodes `s[i..]` in order.
pub proof fn lemma_sem_seq_scopes(
    src: Seq<u8>,
    funcs: Seq<SemFunc>,
    envs: Seq<Seq<Seq<u8>>>,
    in_fn: bool,
    s: Seq<Node>,
    i: int,
)
    requires
        envs.len() >= 1,
    ensures
        sem_seq(src, funcs, envs, in_fn, s, i) matches Ok(e) ==> e.len() == envs.len() && e.drop_last()
            == envs.drop_last(),
    decreases s, s.len() - i,
{
    if 0 <= i < s.len() {
        lemma_sem_node_scopes(src, funcs, envs, in_fn, s[i]);
        if let Ok(e1) = sem_node(src, funcs, envs, in_fn, s[i]) {
            lemma_sem_seq_scopes(src, funcs, e1, in_fn, s, i + 1);
        }
    }
}

/// The names a block declares end with it: a block that passes the analysis
/// leaves the scopes as they were before it.
pub proof fn law_block_scope(src: Seq<u8>, funcs: Seq<SemFunc>, envs: Seq<Seq<Seq<u8>>>, in_fn: bool, nodes: Vec<Node>)
    ensures
        sem_node(src, funcs, envs, in_fn, Node::Block(nodes)) matches Ok(e) ==> e == envs,
{
    lemma_sem_seq_scopes(src, funcs, envs.push(seq![]), in_fn, nodes@, 0);
    assert(envs.push(seq![]).drop_last() =~= envs);
}

/// Every name is declared before it is used: an identifier, or the target of
/// an assignment, passes the analysis exactly when some enclosing scope
/// declares it.
pub proof fn law_use_needs_declaration(
    src: Seq<u8>,
    funcs: Seq<SemFunc>,
    envs: Seq<Seq<Seq<u8>>>,
    in_fn: bool,
    s: usize,
    e: usize,
    value: Box<Node>,
)
    ensures
        sem_node(src, funcs, envs, in_fn, Node::Id(s, e)) is Ok <==> declared(
            envs,
            src.subrange(s as int, e as int),
        ),
        sem_node(src, funcs, envs, in_fn, Node::VarReassing { name_s: s, name_e: e, value }) matches Ok(_)
            ==> sem_node(src, funcs, envs, in_fn, *value) matches Ok(e1) && declared(
            e1,
            src.subrange(s as int, e as int),
        ),
{
}

/// The arguments of a call are uses like any other: a call passes the
/// analysis only when each of its arguments, analysed in order, does.
pub proof fn law_call_arguments_analysed(
    src: Seq<u8>,
    funcs: Seq<SemFunc>,
    envs: Seq<Seq<Seq<u8>>>,
    in_fn: bool,
    name: Box<Node>,
    args: Vec<Node>,
)
    ensures
        sem_node(src, funcs, envs, in_fn, Node::FuncCall { name, args }) is Ok && *name is Id
            ==> sem_seq(src, funcs, envs, in_fn, args@, 0) is Ok,
{
}

/// A call must match its function's arity: for a declared function whose
/// last parameter is not `...`, a call whose arguments pass the analysis
/// passes exactly when it has as many arguments as the function has
/// parameters, and otherwise fails with `WrongArgCount` giving both numbers;
/// a call of a variadic function passes with any number of arguments.
pub proof fn law_call_arity(
    src: Seq<u8>,
    funcs: Seq<SemFunc>,
    envs: Seq<Seq<Seq<u8>>>,
    in_fn: bool,
    name: Box<Node>,
    s: usize,
    e: usize,
    args: Vec<Node>,
    f: SemFunc,
)
    requires
        *name == Node::Id(s, e),
        find_func(funcs, src.subrange(s as int, e as int)) == Some(f),
        f.params.len() > 0,
        sem_seq(src, funcs, envs, in_fn, args@, 0) is Ok,
    ensures
        f.params.last() != variadic_name() ==> (sem_node(
            src,
            funcs,
            envs,
            in_fn,
            Node::FuncCall { name, args },
        ) is Ok <==> args@.len() == f.params.len()),
        f.params.last() != variadic_name() && args@.len() != f.params.len() ==> sem_node(
            src,
            funcs,
            envs,
            in_fn,
            Node::FuncCall { name, args },
        ) == Err::<Seq<Seq<Seq<u8>>>, SemError>(
            SemError::WrongArgCount {
                expected: f.params.len() as usize,
                found: args@.len() as usize,
            },
        ),
        f.params.last() == variadic_name() ==> sem_node(
            src,
            funcs,
            envs,
            in_fn,
            Node::FuncCall { name, args },
        ) is Ok,
{
}

/// The errors of the analysis point at character-aligned ranges of the source.
pub proof fn lemma_sem_node_error_in(src: Seq<u8>, funcs: Seq<SemFunc>, envs: Seq<Seq<Seq<u8>>>, in_fn: bool, n: Node)
    requires
        sem_wf(src, n),
    ensures
        sem_node(src, funcs, envs, in_fn, n) matches Err(x) ==> sem_error_in(src, x),
    decreases n,
{
    match n {
        Node::BinOp { left, right, .. } => {
            lemma_sem_node_error_in(src, funcs, envs, in_fn, *left);
            if let Ok(e1) = sem_node(src, funcs, envs, in_fn, *left) {
                lemma_sem_node_error_in(src, funcs, e1, in_fn, *right);
            }
        },
        Node::Unary { right, .. } => {
            lemma_sem_node_error_in(src, funcs, envs, in_fn, *right);
        },
        Node::VarDecl { value, .. } | Node::VarReassing { value, .. } => {
            lemma_sem_node_error_in(src, funcs, envs, in_fn, *value);
        },
        Node::Block(nodes) => {
            lemma_sem_seq_error_in(src, funcs, envs.push(seq![]), in_fn, nodes@, 0);
        },
        Node::Return(x) => {
            lemma_sem_node_error_in(src, funcs, envs, in_fn, *x);
        },
        Node::FuncCall { args, .. } => {
            lemma_sem_seq_error_in(src, funcs, envs, in_fn, args@, 0);
        },
        Node::While { cond, body } => {
            lemma_sem_node_error_in(src, funcs, envs, in_fn, *cond);
            if let Ok(e1) = sem_node(src, funcs, envs, in_fn, *cond) {
                lemma_sem_node_error_in(src, funcs, e1, in_fn, *body);
            }
        },
        Node::If { cond, then_br, else_br } => {
            lemma_sem_node_error_in(src, funcs, envs, in_fn, *cond);
            if let Ok(e1) = sem_node(src, funcs, envs, in_fn, *cond) {
                lemma_sem_node_error_in(src, funcs, e1, in_fn, *then_br);
                if let Ok(e2) = sem_node(src, funcs, e1, in_fn, *then_br) {
                    if let Some(b) = else_br {
                        lemma_sem_node_error_in(src, funcs, e2, in_fn, *b);
                    }
                }
            }
        },
        _ => {},
    }
}

/// [`lemma_sem_node_error_in`] for the nodes `s[i..]` in order.
pub proof fn lemma_sem_seq_error_in(
    src: Seq<u8>,
    funcs: Seq<SemFunc>,
    envs: Seq<Seq<Seq<u8>>>,
    in_fn: bool,
    s: Seq<Node>,
    i: int,
)
    requires
        sem_wf_seq(src, s, i),
    ensures
        sem_seq(src, funcs, envs, in_fn, s, i) matches Err(x) ==> sem_error_in(src, x),
    decreases s, s.len() - i,
{
    if 0 <= i < s.len() {
        lemma_sem_node_error_in(src, funcs, envs, in_fn, s[i]);
        if let Ok(e1) = sem_node(src, funcs, envs, in_fn, s[i]) {
            lemma_sem_seq_error_in(src, funcs, e1, in_fn, s, i + 1);
        }
    }
}

/// The errors of analysing functions that can be analysed point at
/// character-aligned ranges of the source.
pub proof fn lemma_sem_funcs_error_in(src: Seq<u8>, funcs: Seq<SemFunc>, envs: Seq<Seq<Seq<u8>>>, i: int)
    requires
        forall|k: int| 0 <= k < funcs.len() ==> func_ok(src, #[trigger] funcs[k]),
    ensures
        sem_funcs(src, funcs, envs, i) matches Err(x) ==> sem_error_in(src, x),
    decreases funcs.len() - i,
{
    if 0 <= i < funcs.len() {
        let f = funcs[i];
        assert(func_ok(src, f));
        if let Some(b) = f.body {
            if let Node::Block(stmts) = *b {
                lemma_sem_seq_error_in(src, funcs, envs.push(f.params), true, stmts@, 0);
            }
        }
        lemma_sem_funcs_error_in(src, funcs, envs, i + 1);
    }
}

/// What the analysis needs of a node to run without an internal failure: the
/// names it reads are character-aligned byte ranges of the source, and calls
/// name their function by an identifier.
pub open spec fn sem_wf(src: Seq<u8>, n: Node) -> bool
    decreases n,
{
    match n {
        Node::Id(s, e) => valid_span(src, s as int, e as int),
        Node::BinOp { left, right, .. } => sem_wf(src, *left) && sem_wf(src, *right),
        Node::Unary { right, .. } => sem_wf(src, *right),
        Node::VarDecl { name_s, name_e, value, .. } => valid_span(src, name_s as int, name_e as int)
            && sem_wf(src, *value),
        Node::VarReassing { name_s, name_e, value } => valid_span(
            src,
            name_s as int,
            name_e as int,
        ) && sem_wf(src, *value),
        Node::Block(nodes) => sem_wf_seq(src, nodes@, 0),
        Node::Return(x) => sem_wf(src, *x),
        Node::FuncCall { name, args } => match *name {
            Node::Id(s, e) => valid_span(src, s as int, e as int) && sem_wf_seq(src, args@, 0),
            _ => false,
        },
        Node::While { cond, body } => sem_wf(src, *cond) && sem_wf(src, *body),
        Node::If { cond, then_br, else_br } => sem_wf(src, *cond) && sem_wf(src, *then_br) && match else_br {
            Some(b) => sem_wf(src, *b),
            None => true,
        },
        _ => true,
    }
}

/// [`sem_wf`] of every node of `s[i..]`.
pub open spec fn sem_wf_seq(src: Seq<u8>, s: Seq<Node>, i: int) -> bool
    decreases s, s.len() - i,
{
    if i < 0 || i >= s.len() {
        true
    } else {
        sem_wf(src, s[i]) && sem_wf_seq(src, s, i + 1)
    }
}

/// The function a top-level node declares, if it declares one.
pub open spec fn func_of(src: Seq<u8>, n: Node) -> Option<SemFunc> {
    match n {
        Node::FuncDecl { name_s, name_e, args, body, .. } => Some(
            SemFunc {
                name: src.subrange(name_s as int, name_e as int),
                params: args@.map_values(
                    |a: (usize, usize, crate::lexer::TkType)| src.subrange(a.0 as int, a.1 as int),
                ),
                body,
            },
        ),
        _ => None,
    }
}

/// The functions declared by the first `k` top-level nodes, in order.
pub open spec fn funcs_of(src: Seq<u8>, nodes: Seq<Node>, k: int) -> Seq<SemFunc>
    decreases k,
{
    if k <= 0 || k > nodes.len() {
        seq![]
    } else {
        match func_of(src, nodes[k - 1]) {
            Some(f) => funcs_of(src, nodes, k - 1).push(f),
            None => funcs_of(src, nodes, k - 1),
        }
    }
}

/// The function declarations among the top-level nodes have character-aligned
/// name and parameter ranges: what listing the functions needs.
pub open spec fn sem_program_spans(src: Seq<u8>, nodes: Seq<Node>) -> bool {
    forall|i: int|
        0 <= i < nodes.len() ==> match #[trigger] nodes[i] {
            Node::FuncDecl { name_s, name_e, args, .. } => {
                &&& valid_span(src, name_s as int, name_e as int)
                &&& forall|j: int|
                    0 <= j < args@.len() ==> valid_span(
                        src,
                        (#[trigger] args@[j]).0 as int,
                        args@[j].1 as int,
                    )
            },
            _ => true,
        }
}

/// What the analysis needs of the top-level nodes: besides
/// [`sem_program_spans`], each function's body, if present, is a block whose
/// statements satisfy [`sem_wf`].
pub open spec fn sem_program_wf(src: Seq<u8>, nodes: Seq<Node>) -> bool {
    &&& sem_program_spans(src, nodes)
    &&& forall|i: int|
        0 <= i < nodes.len() ==> match #[trigger] nodes[i] {
            Node::FuncDecl { body, .. } => match body {
                Some(b) => match *b {
                    Node::Block(stmts) => sem_wf_seq(src, stmts@, 0),
                    _ => false,
                },
                None => true,
            },
            _ => true,
        }
}

/// The analysis of the body of `f` with the scopes `envs`: in a new innermost
/// scope holding its parameters, each of its statements in turn. The scopes
/// are as before afterwards.
pub open spec fn sem_func(src: Seq<u8>, funcs: Seq<SemFunc>, envs: Seq<Seq<Seq<u8>>>, f: SemFunc) -> Result<
    (),
    SemError,
> {
    match f.body {
        None => Ok(()),
        Some(b) => match *b {
            Node::Block(stmts) => match sem_seq(src, funcs, envs.push(f.params), true, stmts@, 0) {
                Err(x) => Err(x),
                Ok(_) => Ok(()),
            },
            _ => Ok(()),
        },
    }
}

/// The analysis of the functions `funcs[i..]` in order, each against all of `funcs`.
pub open spec fn sem_funcs(src: Seq<u8>, funcs: Seq<SemFunc>, envs: Seq<Seq<Seq<u8>>>, i: int) -> Result<
    (),
    SemError,
>
    decreases funcs.len() - i,
{
    if i < 0 || i >= funcs.len() {
        Ok(())
    } else {
        match sem_func(src, funcs, envs, funcs[i]) {
            Err(x) => Err(x),
            Ok(_) => sem_funcs(src, funcs, envs, i + 1),
        }
    }
}

/// Whether `s` is the name `...` of the variadic parameter.
fn is_variadic_name(s: &str) -> (r: bool)
    ensures
        r == (s.spec_bytes() == variadic_name()),
{
    let b = s.as_bytes();
    let r = b.len() == 3 && b[0] == 0x2e && b[1] == 0x2e && b[2] == 0x2e;
    assert(r ==> b@ =~= variadic_name());
    r
}

/// [`sem_wf_seq`] from `i` gives [`sem_wf`] of each node from `i` on.
pub proof fn lemma_sem_wf_seq(src: Seq<u8>, s: Seq<Node>, i: int, k: int)
    requires
        0 <= i <= k,
        sem_wf_seq(src, s, i),
    ensures
        k < s.len() ==> sem_wf(src, s[k]),
        sem_wf_seq(src, s, k),
    decreases k - i,
{
    if i < k && i < s.len() {
        lemma_sem_wf_seq(src, s, i + 1, k);
    }
}

/// A function of the analyzer's list is one the analysis can go through: its
/// body, if any, is a block whose statements satisfy [`sem_wf`].
pub open spec fn func_ok(src: Seq<u8>, f: SemFunc) -> bool {
    match f.body {
        Some(b) => match *b {
            Node::Block(stmts) => sem_wf_seq(src, stmts@, 0),
            _ => false,
        },
        None => true,
    }
}

/// The functions the top-level nodes declare can be gone through.
pub proof fn lemma_funcs_of_ok(src: Seq<u8>, nodes: Seq<Node>, k: int)
    requires
        sem_program_wf(src, nodes),
        k <= nodes.len(),
    ensures
        forall|i: int|
            0 <= i < funcs_of(src, nodes, k).len() ==> func_ok(src, #[trigger] funcs_of(src, nodes, k)[i]),
    decreases k,
{
    if k > 0 {
        lemma_funcs_of_ok(src, nodes, k - 1);
        let n = nodes[k - 1];
        let prev = funcs_of(src, nodes, k - 1);
        if let Some(f) = func_of(src, n) {
            assert(func_ok(src, f));
            assert forall|i: int|
                0 <= i < funcs_of(src, nodes, k).len() implies func_ok(
                src,
                #[trigger] funcs_of(src, nodes, k)[i],
            ) by {
                if i < prev.len() {
                    assert(funcs_of(src, nodes, k)[i] == prev[i]);
                }
            }
        }
    }
}

/// The bytes of a sequence of names.
pub open spec fn names_view<'a>(e: Seq<&'a str>) -> Seq<Seq<u8>> {
    e.map_values(|s: &'a str| s.spec_bytes())
}

/// An analyzer entry for a function: its name, its parameters' names, its body.
pub type FuncEntry<'a> = (&'a str, Vec<&'a str>, &'a Option<Box<Node>>);

/// The value of a function entry.
pub open spec fn entry_view<'a>(f: FuncEntry<'a>) -> SemFunc {
    SemFunc { name: f.0.spec_bytes(), params: names_view(f.1@), body: *f.2 }
}

pub struct SemChecker<'a> {
    envs: Vec<Vec<&'a str>>,  // variables
    funcs: Vec<FuncEntry<'a>>,  // (name, parameters, body (None if the function is extern))
    nodes: &'a Vec<Node>,
    curr_func: Option<FuncEntry<'a>>,  // current function
    src: &'a str,
}

impl<'a> SemChecker<'a> {
    /// The scopes, innermost last.
    pub closed spec fn envs_v(&self) -> Seq<Seq<Seq<u8>>> {
        self.envs@.map_values(|e: Vec<&'a str>| names_view(e@))
    }

    /// The declared functions.
    pub closed spec fn funcs_v(&self) -> Seq<SemFunc> {
        self.funcs@.map_values(|f: FuncEntry<'a>| entry_view(f))
    }

    /// The bytes of the source.
    pub closed spec fn src_v(&self) -> Seq<u8> {
        self.src.spec_bytes()
    }

    /// The top-level nodes.
    pub closed spec fn nodes_v(&self) -> Seq<Node> {
        self.nodes@
    }

    /// A function is being analyzed.
    pub closed spec fn in_func(&self) -> bool {
        self.curr_func is Some
    }

    /// Ready to analyze: every known function can be gone through.
    pub open spec fn ready(&self) -> bool {
        forall|i: int| 0 <= i < self.funcs_v().len() ==> func_ok(self.src_v(), #[trigger] self.funcs_v()[i])
    }

    pub fn new(nodes: &'a Vec<Node>, src: &'a str) -> (c: Self)
        ensures
            c.ready(),
            c.envs_v() == seq![Seq::<Seq<u8>>::empty()],
            !c.in_func(),
            c.funcs_v() == Seq::<SemFunc>::empty(),
            c.nodes_v() == nodes@,
            c.src_v() == src.spec_bytes(),
    {
        let mut envs = Vec::new();
        envs.push(Vec::new());
        let c = SemChecker { envs, funcs: Vec::new(), nodes, curr_func: None, src };
        assert(names_view(c.envs@[0]@) =~= Seq::<Seq<u8>>::empty());
        assert(c.envs_v() =~= seq![Seq::<Seq<u8>>::empty()]);
        assert(c.funcs_v() =~= Seq::<SemFunc>::empty());
        c
    }

    fn populate_funcs(&mut self)
        requires
            sem_program_spans(old(self).src_v(), old(self).nodes_v()),
        ensures
            final(self).funcs_v() == old(self).funcs_v() + funcs_of(
                old(self).src_v(),
                old(self).nodes_v(),
                old(self).nodes_v().len() as int,
            ),
            final(self).envs_v() == old(self).envs_v(),
            final(self).src_v() == old(self).src_v(),
            final(self).nodes_v() == old(self).nodes_v(),
            final(self).in_func() == old(self).in_func(),
            final(self).curr_v() == old(self).curr_v(),
    {
        let nodes = self.nodes;
        let mut i: usize = 0;
        while i < nodes.len()
            invariant
                nodes@ == self.nodes_v(),
                0 <= i <= nodes@.len(),
                sem_program_spans(self.src_v(), self.nodes_v()),
                self.funcs_v() == old(self).funcs_v() + funcs_of(self.src_v(), nodes@, i as int),
                self.envs_v() == old(self).envs_v(),
                self.src_v() == old(self).src_v(),
                self.nodes_v() == old(self).nodes_v(),
                self.in_func() == old(self).in_func(),
                self.curr_v() == old(self).curr_v(),
            decreases nodes@.len() - i,
        {
            let node: &'a Node = &nodes[i];
            match node {
                Node::FuncDecl { name_s, name_e, args, rtype, body, is_extern } => {
                    assert(nodes@[i as int] == *node);
                    let name = substr(self.src, *name_s, *name_e);
                    let mut params: Vec<&'a str> = Vec::new();
                    let mut j: usize = 0;
                    while j < args.len()
                        invariant
                            0 <= j <= args@.len(),
                            forall|k: int|
                                0 <= k < args@.len() ==> valid_span(
                                    self.src.spec_bytes(),
                                    (#[trigger] args@[k]).0 as int,
                                    args@[k].1 as int,
                                ),
                            names_view(params@) == args@.take(j as int).map_values(
                                |a: (usize, usize, crate::lexer::TkType)|
                                    self.src.spec_bytes().subrange(a.0 as int, a.1 as int),
                            ),
                        decreases args@.len() - j,
                    {
                        let a = substr(self.src, args[j].0, args[j].1);
                        let ghost p0 = params@;
                        params.push(a);
                        assert(names_view(params@) =~= names_view(p0).push(a.spec_bytes()));
                        assert(args@.take(j + 1) =~= args@.take(j as int).push(args@[j as int]));
                        j = j + 1;
                    }
                    assert(args@.take(args@.len() as int) =~= args@);
                    let ghost f0 = self.funcs_v();
                    let entry = (name, params, body);
                    assert(entry_view(entry) == func_of(self.src_v(), nodes@[i as int]).unwrap());
                    self.funcs.push(entry);
                    assert(self.funcs_v() =~= f0.push(entry_view(entry)));
                    assert(self.funcs_v() =~= old(self).funcs_v() + funcs_of(
                        self.src_v(),
                        nodes@,
                        i + 1,
                    ));
                },
                _ => {
                    assert(nodes@[i as int] == *node);
                    assert(funcs_of(self.src_v(), nodes@, i + 1) == funcs_of(
                        self.src_v(),
                        nodes@,
                        i as int,
                    ));
                },
            }
            i = i + 1;
        }
    }

    /// Whether some scope declares `id`.
    fn lookup(&self, id: &str) -> (r: bool)
        ensures
            r == declared(self.envs_v(), id.spec_bytes()),
    {
        let mut i = self.envs.len();
        while i > 0
            invariant
                0 <= i <= self.envs@.len(),
                forall|a: int, b: int|
                    i <= a < self.envs_v().len() && 0 <= b < self.envs_v()[a].len() ==> #[trigger] self.envs_v()[a][b]
                        != id.spec_bytes(),
            decreases i,
        {
            i = i - 1;
            let env = &self.envs[i];
            let mut j: usize = 0;
            while j < env.len()
                invariant
                    0 <= i < self.envs@.len(),
                    *env == self.envs@[i as int],
                    0 <= j <= env@.len(),
                    forall|b: int| 0 <= b < j ==> #[trigger] self.envs_v()[i as int][b] != id.spec_bytes(),
                decreases env@.len() - j,
            {
                if str_eq(env[j], id) {
                    assert(self.envs_v()[i as int][j as int] == id.spec_bytes());
                    return true;
                }
                j = j + 1;
            }
        }
        false
    }

    /// The index of the first declared function named `name`.
    fn find_func(&self, name: &str) -> (r: Option<usize>)
        ensures
            match find_func(self.funcs_v(), name.spec_bytes()) {
                None => r is None,
                Some(f) => r matches Some(i) && i < self.funcs_v().len() && self.funcs_v()[i as int]
                    == f,
            },
    {
        let mut i: usize = 0;
        while i < self.funcs.len()
            invariant
                0 <= i <= self.funcs_v().len(),
                forall|k: int| 0 <= k < i ==> (#[trigger] self.funcs_v()[k]).name != name.spec_bytes(),
            decreases self.funcs_v().len() - i,
        {
            if str_eq(self.funcs[i].0, name) {
                proof {
                    lemma_find_func_skip(self.funcs_v(), name.spec_bytes(), i as int);
                }
                return Some(i);
            }
            i = i + 1;
        }
        proof {
            lemma_find_func_skip(self.funcs_v(), name.spec_bytes(), i as int);
        }
        None
    }

    /// Declares `id` in the innermost scope.
    fn declare(&mut self, id: &'a str)
        requires
            old(self).envs_v().len() >= 1,
        ensures
            final(self).envs_v() == declare(old(self).envs_v(), id.spec_bytes()),
            final(self).funcs_v() == old(self).funcs_v(),
            final(self).src_v() == old(self).src_v(),
            final(self).nodes_v() == old(self).nodes_v(),
            final(self).in_func() == old(self).in_func(),
            final(self).curr_v() == old(self).curr_v(),
    {
        let ghost e0 = self.envs_v();
        let mut last = self.envs.pop().unwrap();
        let ghost l0 = last@;
        last.push(id);
        assert(names_view(last@) =~= names_view(l0).push(id.spec_bytes()));
        self.envs.push(last);
        assert(self.envs_v() =~= declare(e0, id.spec_bytes()));
    }

    fn analize_node(&mut self, node: &'a Node) -> (r: Result<(), SemError>)
        requires
            old(self).envs_v().len() >= 1,
            sem_wf(old(self).src_v(), *node),
        ensures
            final(self).funcs_v() == old(self).funcs_v(),
            final(self).src_v() == old(self).src_v(),
            final(self).nodes_v() == old(self).nodes_v(),
            final(self).in_func() == old(self).in_func(),
            final(self).curr_v() == old(self).curr_v(),
            match sem_node(
                old(self).src_v(),
                old(self).funcs_v(),
                old(self).envs_v(),
                old(self).in_func(),
                *node,
            ) {
                Ok(e) => r is Ok && final(self).envs_v() == e && e.len() == old(self).envs_v().len()
                    && e.drop_last() == old(self).envs_v().drop_last(),
                Err(x) => r == Err::<(), SemError>(x),
            },
        decreases node,
    {
        match node {
            Node::Id(start, end) => {
                let id = substr(self.src, *start, *end);
                if self.lookup(id) {
                    return Ok(());
                }
                Err(SemError::UndeclaredIdentifier { start: *start, end: *end })
            },
            Node::BinOp { left, right, op } => {
                self.analize_node(left)?;
                self.analize_node(right)
            },
            Node::Unary { right, op } => self.analize_node(right),
            Node::VarDecl { name_s, name_e, vtype, value } => {
                let id = substr(self.src, *name_s, *name_e);
                self.analize_node(value)?;
                self.declare(id);
                Ok(())
            },
            Node::VarReassing { name_s, name_e, value } => {
                self.analize_node(value)?;
                let id = substr(self.src, *name_s, *name_e);
                if self.lookup(id) {
                    return Ok(());
                }
                Err(SemError::UndeclaredIdentifier { start: *name_s, end: *name_e })
            },
            Node::Block(nodes) => {
                let ghost e0 = self.envs_v();
                self.envs.push(Vec::new());
                assert(names_view(self.envs@.last()@) =~= Seq::<Seq<u8>>::empty());
                assert(self.envs_v() =~= e0.push(seq![]));
                let mut i: usize = 0;
                #[verifier::loop_isolation(false)]
                while i < nodes.len()
                    invariant
                        0 <= i <= nodes@.len(),
                        *node == Node::Block(*nodes),
                        sem_wf_seq(self.src_v(), nodes@, 0),
                        self.in_func() == old(self).in_func(),
                        self.curr_v() == old(self).curr_v(),
                        self.funcs_v() == old(self).funcs_v(),
                        self.src_v() == old(self).src_v(),
                        self.nodes_v() == old(self).nodes_v(),
                        self.envs_v().len() == e0.len() + 1,
                        self.envs_v().drop_last() == e0,
                        sem_seq(self.src_v(), self.funcs_v(), self.envs_v(), self.in_func(), nodes@, i as int)
                            == sem_seq(self.src_v(), self.funcs_v(), e0.push(seq![]), self.in_func(), nodes@, 0),
                    decreases nodes@.len() - i,
                {
                    proof {
                        lemma_sem_wf_seq(self.src_v(), nodes@, 0, i as int);
                    }
                    self.analize_node(&nodes[i])?;
                    i = i + 1;
                }
                let ghost e1 = self.envs_v();
                self.envs.pop();
                assert(self.envs_v() =~= e1.drop_last());
                Ok(())
            },
            Node::FuncDecl { name_s, name_e, args, rtype, body, is_extern } => {
                if self.curr_func.is_some() {
                    return Err(SemError::NestedFunction);
                }
                Ok(())
            },
            Node::Return(node) => self.analize_node(node),
            Node::FuncCall { name, args } => {
                let (s, e) = match &**name {
                    Node::Id(start, end) => (*start, *end),
                    _ => {
                        // not reached: `sem_wf` makes the callee an identifier
                        return Ok(());
                    },
                };
                let name = substr(self.src, s, e);
                let idx = match self.find_func(name) {
                    Some(i) => i,
                    None => {
                        return Err(SemError::UndeclaredFunction { start: s, end: e });
                    },
                };
                let ghost e0 = self.envs_v();
                let mut i: usize = 0;
                #[verifier::loop_isolation(false)]
                while i < args.len()
                    invariant
                        0 <= i <= args@.len(),
                        sem_wf_seq(self.src_v(), args@, 0),
                        idx < self.funcs_v().len(),
                        self.in_func() == old(self).in_func(),
                        self.curr_v() == old(self).curr_v(),
                        self.funcs_v() == old(self).funcs_v(),
                        self.src_v() == old(self).src_v(),
                        self.nodes_v() == old(self).nodes_v(),
                        self.envs_v().len() == e0.len(),
                        self.envs_v().drop_last() == e0.drop_last(),
                        sem_seq(self.src_v(), self.funcs_v(), self.envs_v(), self.in_func(), args@, i as int)
                            == sem_seq(self.src_v(), self.funcs_v(), e0, self.in_func(), args@, 0),
                    decreases args@.len() - i,
                {
                    proof {
                        lemma_sem_wf_seq(self.src_v(), args@, 0, i as int);
                    }
                    self.analize_node(&args[i])?;
                    i = i + 1;
                }
                let params = &self.funcs[idx].1;
                if params.len() == 0 {
                    return Err(SemError::EmptyParameterList { start: s, end: e });
                }
                let is_variadic = is_variadic_name(params[params.len() - 1]);
                if !is_variadic && (args.len() != params.len()) {
                    return Err(SemError::WrongArgCount { expected: params.len(), found: args.len() });
                }
                Ok(())
            },
            Node::While { cond, body } => {
                self.analize_node(cond)?;
                self.analize_node(body)
            },
            Node::If { cond, then_br, else_br } => {
                self.analize_node(cond)?;
                self.analize_node(then_br)?;
                if let Some(else_br) = else_br {
                    self.analize_node(else_br)?;
                }
                Ok(())
            },
            _ => {
                return Ok(());
            },
        }
    }

    /// The function being analyzed.
    pub closed spec fn curr_v(&self) -> Option<SemFunc> {
        match self.curr_func {
            Some(f) => Some(entry_view(f)),
            None => None,
        }
    }

    /// A copy of a list of names.
    fn copy_names(v: &Vec<&'a str>) -> (r: Vec<&'a str>)
        ensures
            r@ == v@,
    {
        let mut r: Vec<&'a str> = Vec::new();
        let mut i: usize = 0;
        while i < v.len()
            invariant
                0 <= i <= v@.len(),
                r@ == v@.take(i as int),
            decreases v@.len() - i,
        {
            r.push(v[i]);
            assert(v@.take(i + 1) =~= v@.take(i as int).push(v@[i as int]));
            i = i + 1;
        }
        assert(v@.take(v@.len() as int) =~= v@);
        r
    }

    fn analize_func(&mut self) -> (r: Result<(), SemError>)
        requires
            old(self).curr_v() is Some,
            func_ok(old(self).src_v(), old(self).curr_v().unwrap()),
        ensures
            final(self).funcs_v() == old(self).funcs_v(),
            final(self).src_v() == old(self).src_v(),
            final(self).nodes_v() == old(self).nodes_v(),
            final(self).curr_v() == old(self).curr_v(),
            r == sem_func(
                old(self).src_v(),
                old(self).funcs_v(),
                old(self).envs_v(),
                old(self).curr_v().unwrap(),
            ),
            r is Ok ==> final(self).envs_v() == old(self).envs_v(),
    {
        let body: &'a Option<Box<Node>> = match &self.curr_func {
            Some(f) => f.2,
            None => {
                return Ok(());
            },
        };
        let b: &'a Box<Node> = match body {
            Some(b) => b,
            None => {
                return Ok(());
            },
        };
        let env = match &self.curr_func {
            Some(f) => Self::copy_names(&f.1),
            None => Vec::new(),
        };
        let ghost e0 = self.envs_v();
        let ghost params = self.curr_v().unwrap().params;
        self.envs.push(env);  // enter new scope
        assert(self.envs_v() =~= e0.push(params));
        assert(self.envs_v().drop_last() =~= e0);
        match &**b {
            Node::Block(nodes) => {
                let mut i: usize = 0;
                #[verifier::loop_isolation(false)]
                while i < nodes.len()
                    invariant
                        0 <= i <= nodes@.len(),
                        sem_wf_seq(self.src_v(), nodes@, 0),
                        self.in_func(),
                        self.curr_v() == old(self).curr_v(),
                        self.funcs_v() == old(self).funcs_v(),
                        self.src_v() == old(self).src_v(),
                        self.nodes_v() == old(self).nodes_v(),
                        self.envs_v().len() == e0.len() + 1,
                        self.envs_v().drop_last() == e0,
                        sem_seq(self.src_v(), self.funcs_v(), self.envs_v(), true, nodes@, i as int)
                            == sem_seq(self.src_v(), self.funcs_v(), e0.push(params), true, nodes@, 0),
                    decreases nodes@.len() - i,
                {
                    proof {
                        lemma_sem_wf_seq(self.src_v(), nodes@, 0, i as int);
                    }
                    self.analize_node(&nodes[i])?;
                    i = i + 1;
                }
            },
            _ => {
                // not reached: function bodies are blocks
            },
        }
        let ghost e1 = self.envs_v();
        self.envs.pop();  // leave new scope
        assert(self.envs_v() =~= e1.drop_last());
        assert(self.envs_v() =~= e0);
        Ok(())
    }

    /// Checks every function of the program: its identifiers, call arguments
    /// included, are declared in an enclosing scope, and its calls name
    /// declared functions with as many arguments as parameters (or a variadic
    /// last parameter). The first problem found is returned.
    pub fn analize(&mut self) -> (r: Result<(), SemError>)
        requires
            old(self).ready(),
            sem_program_wf(old(self).src_v(), old(self).nodes_v()),
        ensures
            final(self).src_v() == old(self).src_v(),
            final(self).nodes_v() == old(self).nodes_v(),
            final(self).funcs_v() == old(self).funcs_v() + funcs_of(
                old(self).src_v(),
                old(self).nodes_v(),
                old(self).nodes_v().len() as int,
            ),
            r == sem_funcs(old(self).src_v(), final(self).funcs_v(), old(self).envs_v(), 0),
            r is Ok ==> final(self).ready() && final(self).envs_v() == old(self).envs_v(),
            r is Ok ==> final(self).curr_v() == if final(self).funcs_v().len() > 0 {
                Some(final(self).funcs_v().last())
            } else {
                old(self).curr_v()
            },
            r matches Err(x) ==> sem_error_in(old(self).src_v(), x),
    {
        self.populate_funcs();
        proof {
            lemma_funcs_of_ok(self.src_v(), self.nodes_v(), self.nodes_v().len() as int);
            assert forall|i: int| 0 <= i < self.funcs_v().len() implies func_ok(
                self.src_v(),
                #[trigger] self.funcs_v()[i],
            ) by {
                let f0 = old(self).funcs_v();
                if i >= f0.len() {
                    assert(self.funcs_v()[i] == funcs_of(
                        self.src_v(),
                        self.nodes_v(),
                        self.nodes_v().len() as int,
                    )[i - f0.len()]);
                }
            }
        }
        let ghost funcs = self.funcs_v();
        proof {
            lemma_sem_funcs_error_in(self.src_v(), funcs, old(self).envs_v(), 0);
        }
        let mut i: usize = 0;
        while i < self.funcs.len()
            invariant
                0 <= i <= funcs.len(),
                self.funcs_v() == funcs,
                funcs == old(self).funcs_v() + funcs_of(
                    old(self).src_v(),
                    old(self).nodes_v(),
                    old(self).nodes_v().len() as int,
                ),
                self.ready(),
                self.envs_v() == old(self).envs_v(),
                self.src_v() == old(self).src_v(),
                self.nodes_v() == old(self).nodes_v(),
                i == 0 ==> self.curr_v() == old(self).curr_v(),
                i > 0 ==> self.curr_v() == Some(funcs[i - 1]),
                sem_funcs(self.src_v(), funcs, self.envs_v(), i as int) == sem_funcs(
                    self.src_v(),
                    funcs,
                    self.envs_v(),
                    0,
                ),
                sem_funcs(self.src_v(), funcs, self.envs_v(), 0) matches Err(x) ==> sem_error_in(
                    self.src_v(),
                    x,
                ),
            decreases funcs.len() - i,
        {
            let f = &self.funcs[i];
            let entry = (f.0, Self::copy_names(&f.1), f.2);
            self.curr_func = Some(entry);
            assert(self.curr_v().unwrap() == funcs[i as int]);
            let r = self.analize_func();
            match r {
                Err(x) => {
                    return Err(x);
                },
                Ok(_) => {},
            }
            i = i + 1;
        }
        Ok(())
    }
}

} // verus!
