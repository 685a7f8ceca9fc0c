//! C back end: turns the program's nodes into C source text, one statement
//! per line, indented by four spaces per nesting level.
use vstd::prelude::*;
use vstd::string::StringExecFns;
use vstd::string::StringSliceAdditionalSpecFns;
use vstd::utf8::encode_utf8;
use crate::ast::Node;
use crate::lexer::TkType;
use crate::text::{valid_span, span_text, substr, push_char, int_decimal, i64_to_string};

verus! {

broadcast use vstd::utf8::encode_utf8_valid_utf8;

/// `n` spaces.
pub open spec fn spaces(n: nat) -> Seq<char> {
    Seq::new(n, |i: int| ' ')
}

/// An output line: `text` indented by four spaces per level of `pad`, then a newline.
pub open spec fn line(pad: nat, text: Seq<char>) -> Seq<char> {
    spaces(4 * pad) + text + "\n"@
}

/// The type tokens that have a C type.
pub open spec fn is_ctype(t: TkType) -> bool {
    t == TkType::IntT || t == TkType::FloatT || t == TkType::StringT || t == TkType::BoolT
        || t == TkType::VoidT
}

/// The C type of a type token; `str` is `char**` for a parameter of `main`
/// (`main_param`, its `argv`) and `const char*` elsewhere.
pub open spec fn ctype(t: TkType, main_param: bool) -> Seq<char> {
    match t {
        TkType::IntT => "int"@,
        TkType::FloatT => "double"@,
        TkType::StringT => if main_param {
            "char**"@
        } else {
            "const char*"@
        },
        TkType::BoolT => "unsigned char"@,
        _ => "void"@,
    }
}

/// The C text of a binary operator, with the spaces around it.
pub open spec fn binop_text(op: TkType) -> Seq<char> {
    match op {
        TkType::Plus => " + "@,
        TkType::Minus => " - "@,
        TkType::Star => " * "@,
        TkType::Slash => " / "@,
        TkType::Lt => " < "@,
        TkType::Gt => " > "@,
        TkType::Le => " <= "@,
        TkType::Ge => " >= "@,
        TkType::Eq => " == "@,
        TkType::Ne => " != "@,
        TkType::And => " && "@,
        _ => " || "@,
    }
}

/// The binary operators that have a C form.
pub open spec fn is_c_binop(op: TkType) -> bool {
    match op {
        TkType::Plus | TkType::Minus | TkType::Star | TkType::Slash | TkType::Lt | TkType::Gt
        | TkType::Le | TkType::Ge | TkType::Eq | TkType::Ne | TkType::And | TkType::Or => true,
        _ => false,
    }
}

/// The C text of an expression. A negation is written as the text `-(rhs)`
/// whatever its operand is.
pub open spec fn emit_expr(src: Seq<u8>, n: Node) -> Seq<char>
    decreases n,
{
    match n {
        Node::Integer(i) => int_decimal(i as int),
        Node::Float(f) => f@,
        Node::Bool(b) => if b {
            "1"@
        } else {
            "0"@
        },
        Node::Str(s, e) => "\""@ + span_text(src, s as int, e as int) + "\""@,
        Node::Id(s, e) => span_text(src, s as int, e as int),
        Node::FuncCall { name, args } => emit_expr(src, *name) + "("@ + emit_join(src, args@, args@.len() as int)
            + ")"@,
        Node::BinOp { left, right, op } => "("@ + emit_expr(src, *left) + binop_text(op) + emit_expr(
            src,
            *right,
        ) + ")"@,
        Node::Unary { right, op } => if op == TkType::Not {
            "!("@ + emit_expr(src, *right) + ")"@
        } else {
            "-(rhs)"@
        },
        _ => Seq::empty(),
    }
}

/// The C text of the first `k` expressions of `s`, separated by commas.
pub open spec fn emit_join(src: Seq<u8>, s: Seq<Node>, k: int) -> Seq<char>
    decreases s, k,
{
    if k <= 0 || k > s.len() {
        Seq::empty()
    } else {
        emit_join(src, s, k - 1) + (if k == 1 {
            Seq::empty()
        } else {
            ","@
        }) + emit_expr(src, s[k - 1])
    }
}

/// What emitting an expression needs: names and string literals are
/// character-aligned byte ranges of the source, operators have a C form,
/// and no statement stands where an expression is expected.
pub open spec fn expr_ok(src: Seq<u8>, n: Node) -> bool
    decreases n,
{
    match n {
        Node::Integer(_) | Node::Float(_) | Node::Bool(_) => true,
        Node::Str(s, e) | Node::Id(s, e) => valid_span(src, s as int, e as int),
        Node::FuncCall { name, args } => expr_ok(src, *name) && exprs_ok(src, args@, 0),
        Node::BinOp { left, right, op } => is_c_binop(op) && expr_ok(src, *left) && expr_ok(
            src,
            *right,
        ),
        Node::Unary { right, op } => (op == TkType::Not || op == TkType::Minus) && expr_ok(
            src,
            *right,
        ),
        _ => false,
    }
}

/// [`expr_ok`] of every expression of `s[i..]`.
pub open spec fn exprs_ok(src: Seq<u8>, s: Seq<Node>, i: int) -> bool
    decreases s, s.len() - i,
{
    if i < 0 || i >= s.len() {
        true
    } else {
        expr_ok(src, s[i]) && exprs_ok(src, s, i + 1)
    }
}

/// [`exprs_ok`] from `i` gives [`expr_ok`] of each expression from `i` on.
pub proof fn lemma_exprs_ok(src: Seq<u8>, s: Seq<Node>, i: int, k: int)
    requires
        0 <= i <= k,
        exprs_ok(src, s, i),
    ensures
        k < s.len() ==> expr_ok(src, s[k]),
        exprs_ok(src, s, k),
    decreases k - i,
{
    if i < k && i < s.len() {
        lemma_exprs_ok(src, s, i + 1, k);
    }
}

/// The bytes `main`, the name of the program's entry point.
pub open spec fn main_name() -> Seq<u8> {
    seq![0x6du8, 0x61u8, 0x69u8, 0x6eu8]
}

/// The C text of a parameter: `...` for the variadic one, else its C type and
/// name; a `str` parameter of `main` (its `argv`) is `char**`.
pub open spec fn param_text(src: Seq<u8>, a: (usize, usize, TkType), is_main: bool) -> Seq<char> {
    if a.2 == TkType::VaArgs {
        "..."@
    } else {
        ctype(a.2, is_main) + " "@ + span_text(src, a.0 as int, a.1 as int)
    }
}

/// The C text of the first `k` parameters of `s`, separated by commas.
pub open spec fn params_join(src: Seq<u8>, s: Seq<(usize, usize, TkType)>, k: int, is_main: bool) -> Seq<
    char,
>
    decreases k,
{
    if k <= 0 || k > s.len() {
        Seq::empty()
    } else {
        params_join(src, s, k - 1, is_main) + (if k == 1 {
            Seq::empty()
        } else {
            ","@
        }) + param_text(src, s[k - 1], is_main)
    }
}

/// The C parameter list of a declaration, in parentheses.
pub open spec fn params_text(src: Seq<u8>, s: Seq<(usize, usize, TkType)>, is_main: bool) -> Seq<char> {
    "("@ + params_join(src, s, s.len() as int, is_main) + ")"@
}

/// The parameters of a declaration can be emitted: each is variadic, or has
/// a C type and a character-aligned name.
pub open spec fn params_ok(src: Seq<u8>, s: Seq<(usize, usize, TkType)>) -> bool {
    forall|j: int|
        0 <= j < s.len() ==> (#[trigger] s[j]).2 == TkType::VaArgs || (is_ctype(s[j].2) && valid_span(
            src,
            s[j].0 as int,
            s[j].1 as int,
        ))
}

/// The C code of a statement at indentation level `p`.
pub open spec fn emit_stat(src: Seq<u8>, p: nat, n: Node) -> Seq<char>
    decreases n,
{
    match n {
        Node::VarDecl { name_s, name_e, vtype, value } => line(
            p,
            ctype(vtype, false) + " "@ + span_text(src, name_s as int, name_e as int) + " = "@
                + emit_expr(src, *value) + ";"@,
        ),
        Node::VarReassing { name_s, name_e, value } => line(
            p,
            span_text(src, name_s as int, name_e as int) + " = "@ + emit_expr(src, *value) + ";"@,
        ),
        Node::Block(nodes) => emit_seq(src, p, nodes@, nodes@.len() as int),
        Node::FuncDecl { name_s, name_e, args, rtype, body, is_extern } => if is_extern {
            line(
                p,
                "extern "@ + ctype(rtype, false) + " "@ + span_text(src, name_s as int, name_e as int)
                    + params_text(
                    src,
                    args@,
                    src.subrange(name_s as int, name_e as int) == main_name(),
                ) + ";\n"@,
            )
        } else {
            match body {
                Some(b) => line(
                    p,
                    ctype(rtype, false) + " "@ + span_text(src, name_s as int, name_e as int)
                        + params_text(
                        src,
                        args@,
                        src.subrange(name_s as int, name_e as int) == main_name(),
                    ) + " {"@,
                ) + emit_stat(src, p + 1, *b) + line(p, "}\n"@),
                None => Seq::empty(),
            }
        },
        Node::Return(x) => line(p, "return "@ + emit_expr(src, *x) + ";"@),
        Node::FuncCall { .. } => line(p, emit_expr(src, n) + ";"@),
        Node::While { cond, body } => line(p, "while ("@ + emit_expr(src, *cond) + ") {\n"@)
            + emit_stat(src, p + 1, *body) + line(p, "}\n"@),
        Node::If { cond, then_br, else_br } => line(p, "if ("@ + emit_expr(src, *cond) + ") {\n"@)
            + emit_stat(src, p + 1, *then_br) + match else_br {
            Some(b) => line(p, "} else {\n"@) + emit_stat(src, p + 1, *b) + line(p, "}\n"@),
            None => line(p, "} "@),
        },
        _ => Seq::empty(),
    }
}

/// The C code of the first `k` statements of `s`, in order, at level `p`.
pub open spec fn emit_seq(src: Seq<u8>, p: nat, s: Seq<Node>, k: int) -> Seq<char>
    decreases s, k,
{
    if k <= 0 || k > s.len() {
        Seq::empty()
    } else {
        emit_seq(src, p, s, k - 1) + emit_stat(src, p, s[k - 1])
    }
}

/// The C code of a whole program at level `p`.
pub open spec fn emit_program(src: Seq<u8>, p: nat, s: Seq<Node>) -> Seq<char> {
    emit_seq(src, p, s, s.len() as int)
}

/// What emitting a statement needs: declared types have a C form, names are
/// character-aligned, expressions satisfy [`expr_ok`], a function that is not
/// external has a body, and no bare expression other than a call stands where
/// a statement is expected.
pub open spec fn stat_ok(src: Seq<u8>, n: Node) -> bool
    decreases n,
{
    match n {
        Node::VarDecl { name_s, name_e, vtype, value } => is_ctype(vtype) && valid_span(
            src,
            name_s as int,
            name_e as int,
        ) && expr_ok(src, *value),
        Node::VarReassing { name_s, name_e, value } => valid_span(src, name_s as int, name_e as int)
            && expr_ok(src, *value),
        Node::Block(nodes) => stats_ok(src, nodes@, 0),
        Node::FuncDecl { name_s, name_e, args, rtype, body, is_extern } => valid_span(
            src,
            name_s as int,
            name_e as int,
        ) && params_ok(src, args@) && is_ctype(rtype) && (is_extern || match body {
            Some(b) => stat_ok(src, *b),
            None => false,
        }),
        Node::Return(x) => expr_ok(src, *x),
        Node::FuncCall { name, args } => expr_ok(src, *name) && exprs_ok(src, args@, 0),
        Node::While { cond, body } => expr_ok(src, *cond) && stat_ok(src, *body),
        Node::If { cond, then_br, else_br } => expr_ok(src, *cond) && stat_ok(src, *then_br)
            && match else_br {
            Some(b) => stat_ok(src, *b),
            None => true,
        },
        _ => false,
    }
}

/// [`stat_ok`] of every statement of `s[i..]`.
pub open spec fn stats_ok(src: Seq<u8>, s: Seq<Node>, i: int) -> bool
    decreases s, s.len() - i,
{
    if i < 0 || i >= s.len() {
        true
    } else {
        stat_ok(src, s[i]) && stats_ok(src, s, i + 1)
    }
}

/// [`stats_ok`] from `i` gives [`stat_ok`] of each statement from `i` on.
pub proof fn lemma_stats_ok(src: Seq<u8>, s: Seq<Node>, i: int, k: int)
    requires
        0 <= i <= k,
        stats_ok(src, s, i),
    ensures
        k < s.len() ==> stat_ok(src, s[k]),
        stats_ok(src, s, k),
    decreases k - i,
{
    if i < k && i < s.len() {
        lemma_stats_ok(src, s, i + 1, k);
    }
}

/// How many indentation levels a statement's code goes below its own.
pub open spec fn stat_depth(n: Node) -> nat
    decreases n,
{
    match n {
        Node::Block(nodes) => seq_depth(nodes@, nodes@.len() as int),
        Node::FuncDecl { body, is_extern, .. } => if is_extern {
            0
        } else {
            match body {
                Some(b) => 1 + stat_depth(*b),
                None => 0,
            }
        },
        Node::While { body, .. } => 1 + stat_depth(*body),
        Node::If { then_br, else_br, .. } => {
            let d = stat_depth(*then_br);
            match else_br {
                Some(b) => {
                    let e = stat_depth(*b);
                    1 + if d >= e {
                        d
                    } else {
                        e
                    }
                },
                None => 1 + d,
            }
        },
        _ => 0,
    }
}

/// The largest [`stat_depth`] among the first `k` statements of `s`.
pub open spec fn seq_depth(s: Seq<Node>, k: int) -> nat
    decreases s, k,
{
    if k <= 0 || k > s.len() {
        0
    } else {
        let a = seq_depth(s, k - 1);
        let b = stat_depth(s[k - 1]);
        if a >= b {
            a
        } else {
            b
        }
    }
}

/// Each of the first `k` statements is no deeper than [`seq_depth`] of them.
pub proof fn lemma_seq_depth(s: Seq<Node>, k: int, j: int)
    requires
        0 <= j < k <= s.len(),
    ensures
        stat_depth(s[j]) <= seq_depth(s, k),
    decreases k,
{
    if j < k - 1 {
        lemma_seq_depth(s, k - 1, j);
    }
}

/// The code of the first `k` statements depends on those statements alone.
proof fn lemma_emit_seq_prefix(src: Seq<u8>, p: nat, s: Seq<Node>, t: Seq<Node>, k: int)
    requires
        0 <= k <= s.len(),
        k <= t.len(),
        s.subrange(0, k) == t.subrange(0, k),
    ensures
        emit_seq(src, p, s, k) == emit_seq(src, p, t, k),
    decreases k,
{
    if k > 0 {
        assert(s[k - 1] == s.subrange(0, k)[k - 1]);
        assert(t[k - 1] == t.subrange(0, k)[k - 1]);
        assert(s.subrange(0, k - 1) =~= s.subrange(0, k).subrange(0, k - 1));
        assert(t.subrange(0, k - 1) =~= t.subrange(0, k).subrange(0, k - 1));
        lemma_emit_seq_prefix(src, p, s, t, k - 1);
    }
}

proof fn lemma_emit_seq_concat(src: Seq<u8>, p: nat, a: Seq<Node>, b: Seq<Node>, k: int)
    requires
        0 <= k <= b.len(),
    ensures
        emit_seq(src, p, a + b, a.len() + k) == emit_program(src, p, a) + emit_seq(src, p, b, k),
    decreases k,
{
    if k == 0 {
        assert((a + b).subrange(0, a.len() as int) =~= a.subrange(0, a.len() as int));
        lemma_emit_seq_prefix(src, p, a + b, a, a.len() as int);
        assert(emit_program(src, p, a) + Seq::<char>::empty() =~= emit_program(src, p, a));
    } else {
        lemma_emit_seq_concat(src, p, a, b, k - 1);
        assert((a + b)[a.len() + k - 1] == b[k - 1]);
        assert(emit_program(src, p, a) + emit_seq(src, p, b, k - 1) + emit_stat(src, p, b[k - 1])
            =~= emit_program(src, p, a) + (emit_seq(src, p, b, k - 1) + emit_stat(src, p, b[k - 1])));
    }
}

/// The code of a program is the code of its statements in order: the code of
/// two programs one after the other is the code of the first followed by the
/// code of the second, so emitting them by two calls of
/// [`Backend::emit_c`] writes what one call on both does.
pub proof fn law_emit_program_concat(src: Seq<u8>, p: nat, a: Seq<Node>, b: Seq<Node>)
    ensures
        emit_program(src, p, a + b) == emit_program(src, p, a) + emit_program(src, p, b),
{
    lemma_emit_seq_concat(src, p, a, b, b.len() as int);
}

/// Whether `s` is the name `main`.
fn is_main_name(s: &str) -> (r: bool)
    ensures
        r == (s.spec_bytes() == main_name()),
{
    let b = s.as_bytes();
    let r = b.len() == 4 && b[0] == 0x6d && b[1] == 0x61 && b[2] == 0x69 && b[3] == 0x6e;
    assert(r ==> b@ =~= main_name());
    r
}

/// The text a function declaration's C code starts with after its
/// indentation: `extern ` for an external function, then the C type of its
/// return type as the type table gives it, then a space.
pub open spec fn function_head(rtype: TkType, is_extern: bool) -> Seq<char> {
    (if is_extern {
        "extern "@
    } else {
        Seq::empty()
    }) + ctype(rtype, false) + " "@
}

/// A function's C code declares its return type as the type table gives it:
/// it starts, after its indentation, with `extern ` for an external function
/// and then the C type of the return type (`str` is `const char*`, not the
/// `char**` of `main`'s `argv`), followed by a space.
pub proof fn law_function_return_type(
    src: Seq<u8>,
    p: nat,
    name_s: usize,
    name_e: usize,
    args: Vec<(usize, usize, TkType)>,
    rtype: TkType,
    body: Option<Box<Node>>,
    is_extern: bool,
)
    requires
        is_extern || body is Some,
    ensures
        emit_stat(src, p, Node::FuncDecl { name_s, name_e, args, rtype, body, is_extern }).subrange(
            0,
            (4 * p + function_head(rtype, is_extern).len()) as int,
        ) == spaces(4 * p) + function_head(rtype, is_extern),
        rtype == TkType::StringT ==> function_head(rtype, is_extern) == (if is_extern {
            "extern "@
        } else {
            Seq::empty()
        }) + "const char*"@ + " "@,
{
    let n = Node::FuncDecl { name_s, name_e, args, rtype, body, is_extern };
    let full = emit_stat(src, p, n);
    let head = function_head(rtype, is_extern);
    let name = span_text(src, name_s as int, name_e as int);
    let ps = params_text(src, args@, src.subrange(name_s as int, name_e as int) == main_name());
    let tail: Seq<char> = if is_extern {
        name + ps + ";\n"@ + "\n"@
    } else {
        name + ps + " {"@ + "\n"@ + emit_stat(src, p + 1, *body.unwrap()) + line(p, "}\n"@)
    };
    assert(full =~= spaces(4 * p) + head + tail);
    assert((spaces(4 * p) + head + tail).subrange(0, (4 * p + head.len()) as int) =~= spaces(4 * p) + head);
}

/// The C code generator: the code written so far, the current indentation
/// level, the program's source and the line being assembled.
pub struct Backend {
    code: String,
    padding: usize,
    source: String,  // original source
    buff: String,
}

impl Backend {
    /// The code written so far.
    pub closed spec fn code_v(&self) -> Seq<char> {
        self.code@
    }

    /// The indentation level.
    pub closed spec fn padding_v(&self) -> nat {
        self.padding as nat
    }

    /// The bytes of the source.
    pub closed spec fn src_v(&self) -> Seq<u8> {
        encode_utf8(self.source@)
    }

    /// Between statements no line is being assembled.
    pub closed spec fn wf(&self) -> bool {
        self.buff@.len() == 0
    }

    pub fn new(source: String) -> (b: Self)
        ensures
            b.wf(),
            b.code_v() == Seq::<char>::empty(),
            b.padding_v() == 0,
            b.src_v() == encode_utf8(source@),
    {
        Backend { code: String::new(), padding: 0, source, buff: String::new() }
    }

    /// Writes the line being assembled, indented, and starts a new one.
    fn push_buff(&mut self)
        requires
            old(self).padding * 4 <= usize::MAX,
        ensures
            final(self).code@ == old(self).code@ + line(old(self).padding as nat, old(self).buff@),
            final(self).buff@.len() == 0,
            final(self).padding == old(self).padding,
            final(self).source == old(self).source,
    {
        let n = self.padding * 4;
        let mut i: usize = 0;
        while i < n
            invariant
                0 <= i <= n,
                n == self.padding * 4,
                self.code@ == old(self).code@ + spaces(i as nat),
                self.buff == old(self).buff,
                self.padding == old(self).padding,
                self.source == old(self).source,
            decreases n - i,
        {
            push_char(&mut self.code, ' ');
            assert(self.code@ =~= old(self).code@ + spaces(i as nat + 1));
            i = i + 1;
        }
        self.code.append(self.buff.as_str());
        self.code.append("\n");
        self.buff = String::new();
    }

    /// The C type of a type token.
    fn tk_type_to_ctype(&self, ttype: &TkType, is_main_func: bool) -> (r: String)
        requires
            is_ctype(*ttype),
        ensures
            r@ == ctype(*ttype, is_main_func),
    {
        match ttype {
            TkType::IntT => String::from_str("int"),
            TkType::FloatT => String::from_str("double"),
            TkType::StringT => if is_main_func {
                String::from_str("char**")
            } else {
                String::from_str("const char*")
            },
            TkType::BoolT => String::from_str("unsigned char"),
            _ => String::from_str("void"),
        }
    }

    /// The source text of the byte range `start..end`.
    fn text(&self, start: usize, end: usize) -> (r: String)
        requires
            valid_span(self.src_v(), start as int, end as int),
        ensures
            r@ == span_text(self.src_v(), start as int, end as int),
    {
        String::from_str(substr(self.source.as_str(), start, end))
    }

    /// Writes `text` as one line at the current indentation.
    fn emit_line(&mut self, text: &str)
        requires
            old(self).wf(),
            old(self).padding * 4 <= usize::MAX,
        ensures
            final(self).wf(),
            final(self).code@ == old(self).code@ + line(old(self).padding as nat, text@),
            final(self).padding == old(self).padding,
            final(self).source == old(self).source,
    {
        self.buff.append(text);
        assert(self.buff@ =~= text@);
        self.push_buff();
    }

    /// The C parameter list of a declaration.
    fn params_c(&self, args: &Vec<(usize, usize, TkType)>, is_main: bool) -> (r: String)
        requires
            params_ok(self.src_v(), args@),
        ensures
            r@ == params_text(self.src_v(), args@, is_main),
    {
        let mut rparams = String::new();  // raw params
        let mut i: usize = 0;
        while i < args.len()
            invariant
                0 <= i <= args@.len(),
                params_ok(self.src_v(), args@),
                rparams@ == params_join(self.src_v(), args@, i as int, is_main),
            decreases args@.len() - i,
        {
            if i > 0 {
                rparams.append(",");
            }
            let param_pair = args[i];
            if param_pair.2 == TkType::VaArgs {
                rparams.append("...");
            } else {
                let t = self.tk_type_to_ctype(&param_pair.2, is_main);
                let name = self.text(param_pair.0, param_pair.1);
                rparams.append(t.as_str());
                rparams.append(" ");
                rparams.append(name.as_str());
            }
            assert(rparams@ =~= params_join(self.src_v(), args@, i as int + 1, is_main));
            i = i + 1;
        }
        let mut r = String::from_str("(");
        r.append(rparams.as_str());
        r.append(")");
        r
    }

    fn emit_stat_c(&mut self, node: &Node)
        requires
            old(self).wf(),
            stat_ok(old(self).src_v(), *node),
            (old(self).padding + stat_depth(*node)) * 4 <= usize::MAX,
        ensures
            final(self).wf(),
            final(self).padding == old(self).padding,
            final(self).source == old(self).source,
            final(self).code@ == old(self).code@ + emit_stat(old(self).src_v(), old(self).padding as nat, *node),
        decreases node, 1int,
    {
        match node {
            Node::Block(nodes) => self.emit_block_c(node),
            Node::FuncDecl { .. } => self.emit_func_c(node),
            Node::While { .. } | Node::If { .. } => self.emit_branch_c(node),
            _ => self.emit_simple_c(node),
        }
    }

    /// Emits a statement of one line: a declaration, an assignment, a
    /// `return` or a call.
    fn emit_simple_c(&mut self, node: &Node)
        requires
            old(self).wf(),
            stat_ok(old(self).src_v(), *node),
            old(self).padding * 4 <= usize::MAX,
        ensures
            final(self).wf(),
            final(self).padding == old(self).padding,
            final(self).source == old(self).source,
            *node is VarDecl || *node is VarReassing || *node is Return || *node is FuncCall
                ==> final(self).code@ == old(self).code@ + emit_stat(
                old(self).src_v(),
                old(self).padding as nat,
                *node,
            ),
    {
        match node {
            Node::VarDecl { name_s, name_e, vtype, value } => {
                let mut t = self.tk_type_to_ctype(vtype, false);
                let name = self.text(*name_s, *name_e);
                let v = self.emit_expr_c(value);
                t.append(" ");
                t.append(name.as_str());
                t.append(" = ");
                t.append(v.as_str());
                t.append(";");
                self.emit_line(t.as_str());
            },
            Node::VarReassing { name_s, name_e, value } => {
                let expr = self.emit_expr_c(value);
                let mut t = self.text(*name_s, *name_e);
                t.append(" = ");
                t.append(expr.as_str());
                t.append(";");
                self.emit_line(t.as_str());
            },
            Node::Return(expr) => {
                let mut t = String::from_str("return ");
                let e = self.emit_expr_c(expr);
                t.append(e.as_str());
                t.append(";");
                self.emit_line(t.as_str());
            },
            Node::FuncCall { .. } => {
                let mut t = self.emit_expr_c(node);
                t.append(";");
                self.emit_line(t.as_str());
            },
            _ => {},
        }
    }

    /// Emits the statements of a block in order.
    fn emit_block_c(&mut self, node: &Node)
        requires
            old(self).wf(),
            stat_ok(old(self).src_v(), *node),
            (old(self).padding + stat_depth(*node)) * 4 <= usize::MAX,
            *node is Block,
        ensures
            final(self).wf(),
            final(self).padding == old(self).padding,
            final(self).source == old(self).source,
            final(self).code@ == old(self).code@ + emit_stat(old(self).src_v(), old(self).padding as nat, *node),
        decreases node, 0int,
    {
        let ghost src = self.src_v();
        let ghost p = self.padding as nat;
        let ghost c0 = self.code@;
        let nodes = match node {
            Node::Block(nodes) => nodes,
            _ => {
                return;
            },
        };
        let mut i: usize = 0;
        #[verifier::loop_isolation(false)]
        while i < nodes.len()
            invariant
                0 <= i <= nodes@.len(),
                self.wf(),
                self.src_v() == src,
                self.source == old(self).source,
                self.padding == p,
                self.code@ == c0 + emit_seq(src, p, nodes@, i as int),
            decreases nodes@.len() - i,
        {
            proof {
                lemma_stats_ok(src, nodes@, 0, i as int);
                lemma_seq_depth(nodes@, nodes@.len() as int, i as int);
            }
            self.emit_stat_c(&nodes[i]);
            assert(self.code@ =~= c0 + emit_seq(src, p, nodes@, i as int + 1));
            i = i + 1;
        }
    }

    /// Emits a function declaration: an `extern` prototype, or the
    /// function's header, its body one level deeper, and its closing brace.
    fn emit_func_c(&mut self, node: &Node)
        requires
            old(self).wf(),
            stat_ok(old(self).src_v(), *node),
            (old(self).padding + stat_depth(*node)) * 4 <= usize::MAX,
            *node is FuncDecl,
        ensures
            final(self).wf(),
            final(self).padding == old(self).padding,
            final(self).source == old(self).source,
            final(self).code@ == old(self).code@ + emit_stat(old(self).src_v(), old(self).padding as nat, *node),
        decreases node, 0int,
    {
        let ghost src = self.src_v();
        let ghost p = self.padding as nat;
        let ghost c0 = self.code@;
        match node {
            Node::FuncDecl { name_s, name_e, args, rtype, body, is_extern } => {
                let is_main = is_main_name(substr(self.source.as_str(), *name_s, *name_e));
                let params = self.params_c(args, is_main);
                let mut t = if *is_extern {
                    String::from_str("extern ")
                } else {
                    String::new()
                };
                let ty = self.tk_type_to_ctype(rtype, false);
                let name = self.text(*name_s, *name_e);
                t.append(ty.as_str());
                t.append(" ");
                t.append(name.as_str());
                t.append(params.as_str());
                if *is_extern {
                    t.append(";\n");
                    self.emit_line(t.as_str());
                } else {
                    t.append(" {");
                    let b = match body {
                        Some(b) => b,
                        None => {
                            return;
                        },
                    };
                    self.emit_line(t.as_str());
                    self.padding = self.padding + 1;
                    self.emit_stat_c(b);
                    self.padding = self.padding - 1;
                    self.emit_line("}\n");
                }
                assert(self.code@ =~= c0 + emit_stat(src, p, *node));
            },
            _ => {},
        }
    }

    /// Emits a `while` or an `if`: the header line, the body one level
    /// deeper, and the closing line (with the `else` branch, if any).
    fn emit_branch_c(&mut self, node: &Node)
        requires
            old(self).wf(),
            stat_ok(old(self).src_v(), *node),
            (old(self).padding + stat_depth(*node)) * 4 <= usize::MAX,
            *node is While || *node is If,
        ensures
            final(self).wf(),
            final(self).padding == old(self).padding,
            final(self).source == old(self).source,
            final(self).code@ == old(self).code@ + emit_stat(old(self).src_v(), old(self).padding as nat, *node),
        decreases node, 0int,
    {
        let ghost src = self.src_v();
        let ghost p = self.padding as nat;
        let ghost c0 = self.code@;
        match node {
            Node::While { cond, body } => {
                let expr = self.emit_expr_c(cond);
                let mut t = String::from_str("while (");
                t.append(expr.as_str());
                t.append(") {\n");
                self.emit_line(t.as_str());
                self.padding = self.padding + 1;
                self.emit_stat_c(body);
                self.padding = self.padding - 1;
                self.emit_line("}\n");
                assert(self.code@ =~= c0 + emit_stat(src, p, *node));
            },
            Node::If { cond, then_br, else_br } => {
                let expr = self.emit_expr_c(cond);
                let mut t = String::from_str("if (");
                t.append(expr.as_str());
                t.append(") {\n");
                self.emit_line(t.as_str());
                self.padding = self.padding + 1;
                self.emit_stat_c(then_br);
                self.padding = self.padding - 1;
                match else_br {
                    Some(else_br) => {
                        self.emit_line("} else {\n");
                        self.padding = self.padding + 1;
                        self.emit_stat_c(else_br);
                        self.padding = self.padding - 1;
                        self.emit_line("}\n");
                    },
                    None => {
                        self.emit_line("} ");
                    },
                }
                assert(self.code@ =~= c0 + emit_stat(src, p, *node));
            },
            _ => {},
        }
    }

    /// Emits the C code of the top-level statements `nodes` after the code
    /// written so far, and returns all of it.
    pub fn emit_c(&mut self, nodes: &Vec<Node>) -> (r: String)
        requires
            old(self).wf(),
            stats_ok(old(self).src_v(), nodes@, 0),
            (old(self).padding_v() + seq_depth(nodes@, nodes@.len() as int)) * 4 <= usize::MAX,
        ensures
            final(self).wf(),
            final(self).padding_v() == old(self).padding_v(),
            final(self).src_v() == old(self).src_v(),
            final(self).code_v() == old(self).code_v() + emit_program(old(self).src_v(), old(self).padding_v(), nodes@),
            r@ == final(self).code_v(),
    {
        let ghost src = self.src_v();
        let ghost p = self.padding as nat;
        let ghost c0 = self.code@;
        let mut i: usize = 0;
        while i < nodes.len()
            invariant
                0 <= i <= nodes@.len(),
                self.wf(),
                self.src_v() == src,
                self.padding == p,
                stats_ok(src, nodes@, 0),
                (p + seq_depth(nodes@, nodes@.len() as int)) * 4 <= usize::MAX,
                self.code@ == c0 + emit_seq(src, p, nodes@, i as int),
            decreases nodes@.len() - i,
        {
            proof {
                lemma_stats_ok(src, nodes@, 0, i as int);
                lemma_seq_depth(nodes@, nodes@.len() as int, i as int);
            }
            self.emit_stat_c(&nodes[i]);
            assert(self.code@ =~= c0 + emit_seq(src, p, nodes@, i as int + 1));
            i = i + 1;
        }
        self.code.clone()
    }

    fn emit_expr_c(&self, node: &Node) -> (r: String)
        requires
            expr_ok(self.src_v(), *node),
        ensures
            r@ == emit_expr(self.src_v(), *node),
        decreases node,
    {
        match node {
            Node::Integer(i) => i64_to_string(*i),
            Node::Float(f) => String::from_str(f.as_str()),
            Node::Bool(b) => if *b {
                String::from_str("1")
            } else {
                String::from_str("0")
            },
            Node::Str(start, end) => {
                let mut r = String::from_str("\"");
                let t = self.text(*start, *end);
                r.append(t.as_str());
                r.append("\"");
                r
            },
            Node::Id(start, end) => self.text(*start, *end),
            Node::FuncCall { name, args } => {
                let mut rargs = String::new();  // raw arguments
                let mut i: usize = 0;
                #[verifier::loop_isolation(false)]
                while i < args.len()
                    invariant
                        0 <= i <= args@.len(),
                        exprs_ok(self.src_v(), args@, 0),
                        rargs@ == emit_join(self.src_v(), args@, i as int),
                    decreases args@.len() - i,
                {
                    proof {
                        lemma_exprs_ok(self.src_v(), args@, 0, i as int);
                    }
                    let ghost before = rargs@;
                    if i > 0 {
                        rargs.append(",");
                    }
                    let a = self.emit_expr_c(&args[i]);
                    rargs.append(a.as_str());
                    assert(rargs@ =~= emit_join(self.src_v(), args@, i as int + 1));
                    i = i + 1;
                }
                let mut r = self.emit_expr_c(name);
                r.append("(");
                r.append(rargs.as_str());
                r.append(")");
                r
            },
            Node::BinOp { left, right, op } => {
                let l = self.emit_expr_c(left);
                let rt = self.emit_expr_c(right);
                let o = match op {
                    TkType::Plus => " + ",
                    TkType::Minus => " - ",
                    TkType::Star => " * ",
                    TkType::Slash => " / ",
                    TkType::Lt => " < ",
                    TkType::Gt => " > ",
                    TkType::Le => " <= ",
                    TkType::Ge => " >= ",
                    TkType::Eq => " == ",
                    TkType::Ne => " != ",
                    TkType::And => " && ",
                    _ => " || ",
                };
                let mut r = String::from_str("(");
                r.append(l.as_str());
                r.append(o);
                r.append(rt.as_str());
                r.append(")");
                r
            },
            Node::Unary { right, op } => {
                let rhs = self.emit_expr_c(right);
                if *op == TkType::Not {
                    let mut r = String::from_str("!(");
                    r.append(rhs.as_str());
                    r.append(")");
                    r
                } else {
                    String::from_str("-(rhs)")
                }
            },
            _ => String::new(),
        }
    }
}

} // verus!
