//! Syntactic Analyzer or Parser using a Recursive Descent approach
use vstd::prelude::*;
use vstd::string::StringSliceAdditionalSpecFns;
use vstd::utf8::valid_utf8;
use crate::ast::{
    AstItem, AstItemV, AstModule, AstModuleV, Expr, ExprV, Literal, Stmt, StmtV, Ty, stmt_seq_view,
    lemma_stmt_seq_view_push,
};
use crate::diagnostic::{Diagnostic, DiagnosticV, diags_view, error_diag, with_note, lemma_diags_push};
use crate::lexer::{
    LexItem, Lexer, Token, TokenKind, item_view, kind_text, lex_items, lemma_lex_step,
    nul_terminated, is_digit, token_ok, stream_ok, lemma_lex_items_ok,
};
use crate::text::{span_text, substr, lemma_ascii_is_boundary};

verus! {

broadcast use vstd::utf8::encode_utf8_valid_utf8;

/// What the parser works with: the file its diagnostics point into and the
/// bytes of the source.
pub struct PCtx {
    pub file_id: usize,
    pub src: Seq<u8>,
}

/// The parser's state: the lexer items not consumed yet and the diagnostics
/// reported so far.
pub struct PState {
    pub rest: Seq<LexItem>,
    pub errs: Seq<DiagnosticV>,
}

/// Why parsing stopped without a result: the end of the input where a token
/// is taken for granted, or an integer literal too large for `isize`.
#[derive(Debug, Clone, Copy, PartialEq, Eq, Structural)]
pub enum ParseAbort {
    UnexpectedEof,
    IntegerOverflow,
}

/// `st` with the diagnostic `d` reported.
pub open spec fn push_err(st: PState, d: DiagnosticV) -> PState {
    PState { rest: st.rest, errs: st.errs.push(d) }
}

/// Skips the lexer diagnostics at the front of the stream, reporting them.
pub open spec fn drain(st: PState) -> PState
    decreases st.rest.len(),
{
    if st.rest.len() > 0 {
        match st.rest[0] {
            Err(d) => drain(PState { rest: st.rest.drop_first(), errs: st.errs.push(d) }),
            Ok(_) => st,
        }
    } else {
        st
    }
}

/// The first token of the stream, if any, without consuming it.
pub open spec fn peek(st: PState) -> (Option<Token>, PState) {
    let d = drain(st);
    if d.rest.len() > 0 {
        match d.rest[0] {
            Ok(t) => (Some(t), d),
            Err(_) => (None, d),
        }
    } else {
        (None, d)
    }
}

/// The first token of the stream, if any, consumed.
pub open spec fn advance(st: PState) -> (Option<Token>, PState) {
    let d = drain(st);
    if d.rest.len() > 0 {
        match d.rest[0] {
            Ok(t) => (Some(t), PState { rest: d.rest.drop_first(), errs: d.errs }),
            Err(_) => (None, d),
        }
    } else {
        (None, d)
    }
}

/// Draining keeps a suffix of the stream and only adds diagnostics; after
/// it the stream is empty or starts with a token.
pub proof fn lemma_drain(st: PState)
    ensures
        drain(st).rest.len() <= st.rest.len(),
        drain(st).rest == st.rest.skip(st.rest.len() - drain(st).rest.len()),
        st.errs.is_prefix_of(drain(st).errs),
        drain(st).rest.len() > 0 ==> drain(st).rest[0] is Ok,
    decreases st.rest.len(),
{
    if st.rest.len() > 0 {
        if let Err(d) = st.rest[0] {
            let s2 = PState { rest: st.rest.drop_first(), errs: st.errs.push(d) };
            lemma_drain(s2);
            assert(drain(st).rest == s2.rest.skip(s2.rest.len() - drain(st).rest.len()));
            assert(s2.rest.skip(s2.rest.len() - drain(st).rest.len()) =~= st.rest.skip(
                st.rest.len() - drain(st).rest.len(),
            ));
        } else {
            assert(st.rest.skip(0) =~= st.rest);
        }
    } else {
        assert(st.rest.skip(0) =~= st.rest);
    }
}

/// Facts about `peek` and `advance`: what they return and how the stream shrinks.
pub proof fn lemma_peek_advance(st: PState)
    ensures
        peek(st).1 == drain(st),
        advance(st).0 == peek(st).0,
        peek(st).0 is Some <==> drain(st).rest.len() > 0,
        peek(st).0 is Some ==> advance(st).1.rest.len() < st.rest.len()
            && advance(st).1.rest == drain(st).rest.drop_first() && advance(st).1.errs == drain(
            st,
        ).errs && drain(st).rest[0] == Ok::<Token, DiagnosticV>(peek(st).0.unwrap()),
        peek(st).0 is None ==> advance(st).1 == drain(st) && drain(st).rest.len() == 0,
        advance(st).1.rest.len() <= st.rest.len(),
        st.errs.is_prefix_of(advance(st).1.errs),
        advance(st).1.rest == st.rest.skip(st.rest.len() - advance(st).1.rest.len()),
{
    lemma_drain(st);
    let d = drain(st);
    if d.rest.len() > 0 {
        assert(d.rest.drop_first() =~= st.rest.skip(st.rest.len() - d.rest.len() + 1));
    }
}

/// Skips tokens up to a synchronization point (a `;`, `var` or `func`), which
/// stays unconsumed.
pub open spec fn sync_loop(st: PState) -> PState
    decreases st.rest.len(),
{
    let (t, s1) = peek(st);
    match t {
        None => s1,
        Some(tok) => if tok.kind == TokenKind::Semi || tok.kind == TokenKind::VarKw || tok.kind
            == TokenKind::FuncKw {
            s1
        } else {
            proof {
                lemma_peek_advance(st);
                lemma_peek_advance(s1);
                lemma_drain(s1);
            }
            sync_loop(advance(s1).1)
        },
    }
}

/// Consumes a token, then skips to the next synchronization point.
pub open spec fn synchronize(st: PState) -> PState {
    sync_loop(advance(st).1)
}

/// Consumes the next token and checks that it is of `kind`. On a token of
/// another kind, reports `msg` pointing at it with `label`, synchronizes and
/// gives the token's span; at the end of the input, reports an unexpected end
/// of file pointing at the last byte with `eof_label`.
pub open spec fn expect(
    ctx: PCtx,
    st: PState,
    kind: TokenKind,
    msg: Seq<char>,
    eof_label: Seq<char>,
    label: Seq<char>,
) -> (Result<Token, (usize, usize)>, PState) {
    let (t, s1) = advance(st);
    match t {
        Some(tk) => if tk.kind == kind {
            (Ok(tk), s1)
        } else {
            (
                Err(tk.span),
                synchronize(push_err(s1, error_diag(msg, ctx.file_id, tk.span.0, tk.span.1, label))),
            )
        },
        None => {
            let n = ctx.src.len();
            (
                Err(((n - 1) as usize, n as usize)),
                push_err(
                    s1,
                    error_diag(
                        "unexpected end of file"@,
                        ctx.file_id,
                        (n - 1) as usize,
                        n as usize,
                        eof_label,
                    ),
                ),
            )
        },
    }
}

/// The value of a decimal digit string.
pub open spec fn digits_value(s: Seq<u8>) -> nat
    decreases s.len(),
{
    if s.len() == 0 {
        0
    } else {
        digits_value(s.drop_last()) * 10 + (s.last() - 48) as nat
    }
}

/// What `str::parse::<isize>` gives on a non-empty decimal digit string.
pub open spec fn isize_value(s: Seq<u8>) -> Option<isize> {
    if digits_value(s) <= isize::MAX {
        Some(digits_value(s) as isize)
    } else {
        None
    }
}

/// The span of the first token, or `(0, 0)` at the end of the input.
pub open spec fn start_span(t: Option<Token>) -> (usize, usize) {
    match t {
        Some(tk) => tk.span,
        None => (0, 0),
    }
}

/// expr ::= INTEGER
pub open spec fn parse_expr(ctx: PCtx, st: PState) -> Result<(ExprV, PState), ParseAbort> {
    let (p, s0) = peek(st);
    let start = start_span(p);
    let (t, s1) = advance(s0);
    match t {
        Some(tok) => if tok.kind == TokenKind::Int {
            match isize_value(ctx.src.subrange(tok.span.0 as int, tok.span.1 as int)) {
                Some(v) => Ok((ExprV::Literal(Literal::Integer(v)), s1)),
                None => Err(ParseAbort::IntegerOverflow),
            }
        } else {
            let msg = "expected an expression, found `"@ + span_text(
                ctx.src,
                tok.span.0 as int,
                tok.span.1 as int,
            ) + "` instead"@;
            Ok(
                (
                    ExprV::Error(start),
                    synchronize(
                        push_err(
                            s1,
                            error_diag(
                                msg,
                                ctx.file_id,
                                tok.span.0,
                                tok.span.1,
                                "expected expression"@,
                            ),
                        ),
                    ),
                ),
            )
        },
        None => Ok(
            (
                ExprV::Error(start),
                push_err(
                    s1,
                    error_diag(
                        "unexpected end of file"@,
                        ctx.file_id,
                        start.0,
                        start.1,
                        "expected an expression"@,
                    ),
                ),
            ),
        ),
    }
}

/// var_decl ::= `var` IDENT `=` expr `;`
pub open spec fn parse_var_decl(ctx: PCtx, st: PState) -> Result<(StmtV, PState), ParseAbort> {
    let (p, s0) = peek(st);
    let start = start_span(p);
    let s1 = advance(s0).1;
    let (c1, s2) = peek(s1);
    if c1 is None {
        Err(ParseAbort::UnexpectedEof)
    } else {
        let (r1, s3) = expect(
            ctx,
            s2,
            TokenKind::Id,
            "expected identifier after `var`, found "@ + kind_text(c1.unwrap().kind)
                + " instead"@,
            "unterminated `var` statemet"@,
            "expected identifier"@,
        );
        match r1 {
            Err(sp) => Ok((StmtV::Error((start.0, sp.1)), s3)),
            Ok(name) => {
                let (c2, s4) = peek(s3);
                if c2 is None {
                    Err(ParseAbort::UnexpectedEof)
                } else {
                    let (r2, s5) = expect(
                        ctx,
                        s4,
                        TokenKind::Assign,
                        "expected `=`, found "@ + kind_text(c2.unwrap().kind) + " instead"@,
                        "unterminaded variable declaration"@,
                        "expected `=` here"@,
                    );
                    match r2 {
                        Err(sp) => Ok((StmtV::Error((start.0, sp.1)), s5)),
                        Ok(_) => match parse_expr(ctx, s5) {
                            Err(a) => Err(a),
                            Ok((e, s6)) => {
                                let (r3, s7) = expect(
                                    ctx,
                                    s6,
                                    TokenKind::Semi,
                                    "expected `;` after variable declaration"@,
                                    "unterminated variable declaration"@,
                                    "expected `;` here"@,
                                );
                                match r3 {
                                    Err(sp) => Ok((StmtV::Error((start.0, sp.1)), s7)),
                                    Ok(_) => Ok(
                                        (
                                            StmtV::VarDecl {
                                                name: ctx.src.subrange(
                                                    name.span.0 as int,
                                                    name.span.1 as int,
                                                ),
                                                ty: Ty::Unknown,
                                                expr: e,
                                            },
                                            s7,
                                        ),
                                    ),
                                }
                            },
                        },
                    }
                }
            },
        }
    }
}

/// stmt ::= var_decl | block
pub open spec fn parse_stmt(ctx: PCtx, st: PState) -> Result<(StmtV, PState), ParseAbort>
    decreases st.rest.len(), 2int,
{
    let (p, s1) = peek(st);
    proof {
        lemma_peek_advance(st);
    }
    match p {
        Some(tk) => if tk.kind == TokenKind::VarKw {
            parse_var_decl(ctx, s1)
        } else if tk.kind == TokenKind::OpenBrace {
            parse_block(ctx, s1)
        } else {
            Ok(
                (
                    StmtV::Error(tk.span),
                    synchronize(
                        push_err(
                            s1,
                            error_diag(
                                "expected an statement"@,
                                ctx.file_id,
                                tk.span.0,
                                tk.span.1,
                                Seq::empty(),
                            ),
                        ),
                    ),
                ),
            )
        },
        None => {
            let n = ctx.src.len() as usize;
            Ok(
                (
                    StmtV::Error((n, n)),
                    push_err(
                        s1,
                        error_diag(
                            "unexpected end of file, expected an statement"@,
                            ctx.file_id,
                            n,
                            n,
                            "expected an statement"@,
                        ),
                    ),
                ),
            )
        },
    }
}

/// block ::= `{` stmt* `}`
pub open spec fn parse_block(ctx: PCtx, st: PState) -> Result<(StmtV, PState), ParseAbort>
    decreases st.rest.len(), 1int,
{
    let (r, s1) = expect(
        ctx,
        st,
        TokenKind::OpenBrace,
        "expected `{`"@,
        "unterminaded block statement"@,
        "expected `{` here"@,
    );
    match r {
        Err(sp) => Ok((StmtV::Error(sp), s1)),
        Ok(_) => {
            proof {
                lemma_peek_advance(st);
            }
            match block_loop(ctx, s1, seq![]) {
                Err(a) => Err(a),
                Ok((stmts, s2)) => {
                    let (r2, s3) = expect(
                        ctx,
                        s2,
                        TokenKind::CloseBrace,
                        "expected `}`"@,
                        "unterminaded block statement"@,
                        "expected `}` here"@,
                    );
                    match r2 {
                        Err(sp) => Ok((StmtV::Error(sp), s3)),
                        Ok(_) => Ok((StmtV::Block { stmts }, s3)),
                    }
                },
            }
        },
    }
}

/// The statements of a block up to its `}`, appended to `acc`; the end of the
/// input before the `}` aborts.
pub open spec fn block_loop(ctx: PCtx, st: PState, acc: Seq<StmtV>) -> Result<
    (Seq<StmtV>, PState),
    ParseAbort,
>
    decreases st.rest.len(), 3int,
{
    let (p, s1) = peek(st);
    proof {
        lemma_peek_advance(st);
    }
    match p {
        None => Err(ParseAbort::UnexpectedEof),
        Some(tk) => if tk.kind == TokenKind::CloseBrace {
            Ok((acc, s1))
        } else {
            match parse_stmt(ctx, s1) {
                Err(a) => Err(a),
                Ok((s, s2)) => if s2.rest.len() < st.rest.len() {
                    block_loop(ctx, s2, acc.push(s))
                } else {
                    // never taken: a statement consumes at least one token
                    Err(ParseAbort::UnexpectedEof)
                },
            }
        },
    }
}

/// func_decl ::= `func` IDENT `(` `)` block
pub open spec fn parse_func_decl(ctx: PCtx, st: PState) -> Result<(AstItemV, PState), ParseAbort> {
    let (p, s0) = peek(st);
    let start = start_span(p);
    let s1 = advance(s0).1;
    let (r1, s2) = expect(
        ctx,
        s1,
        TokenKind::Id,
        "expected identifier after `func`"@,
        "unterminaded function declaration"@,
        "expected identifier"@,
    );
    match r1 {
        Err(sp) => Ok((AstItemV::Error((start.0, sp.1)), s2)),
        Ok(name) => {
            let (r2, s3) = expect(
                ctx,
                s2,
                TokenKind::OpenParen,
                "expected `(` after function name"@,
                "unterminaded function declaration"@,
                "expected `(`"@,
            );
            match r2 {
                Err(sp) => Ok((AstItemV::Error((start.0, sp.1)), s3)),
                Ok(_) => {
                    let (r3, s4) = expect(
                        ctx,
                        s3,
                        TokenKind::CloseParen,
                        "expected `)`, functions doesn't support parameters yet"@,
                        "unterminaded function declaration"@,
                        "expected `)`"@,
                    );
                    match r3 {
                        Err(sp) => Ok((AstItemV::Error((start.0, sp.1)), s4)),
                        Ok(_) => match parse_block(ctx, s4) {
                            Err(a) => Err(a),
                            Ok((body, s5)) => Ok(
                                (
                                    AstItemV::Function {
                                        name: ctx.src.subrange(
                                            name.span.0 as int,
                                            name.span.1 as int,
                                        ),
                                        args: seq![],
                                        ret: Ty::Void,
                                        body,
                                    },
                                    s5,
                                ),
                            ),
                        },
                    }
                },
            }
        },
    }
}

/// item ::= func_decl
pub open spec fn parse_item(ctx: PCtx, st: PState) -> Result<(AstItemV, PState), ParseAbort> {
    let (p, s1) = peek(st);
    match p {
        Some(tk) => if tk.kind == TokenKind::FuncKw {
            parse_func_decl(ctx, s1)
        } else {
            let d = with_note(
                error_diag("expected an item"@, ctx.file_id, tk.span.0, tk.span.1, Seq::empty()),
                "an item can be either a function or a constant"@,
            );
            Ok((AstItemV::Error(tk.span), synchronize(push_err(s1, d))))
        },
        None => {
            let n = ctx.src.len() as usize;
            Ok(
                (
                    AstItemV::Error((n, n)),
                    push_err(
                        s1,
                        error_diag(
                            "unexpected end of file, expected an item"@,
                            ctx.file_id,
                            n,
                            n,
                            "expected an item"@,
                        ),
                    ),
                ),
            )
        },
    }
}

/// The items of a module, appended to `acc`, up to the end of the input.
pub open spec fn items_loop(ctx: PCtx, st: PState, acc: Seq<AstItemV>) -> Result<
    (Seq<AstItemV>, PState),
    ParseAbort,
>
    decreases st.rest.len(),
{
    let (p, s1) = peek(st);
    match p {
        None => Ok((acc, s1)),
        Some(_) => match parse_item(ctx, s1) {
            Err(a) => Err(a),
            Ok((it, s2)) => {
                proof {
                    lemma_peek_advance(st);
                    lemma_drain_idem(st);
                    lemma_parse_item_progress(ctx, s1);
                }
                items_loop(ctx, s2, acc.push(it))
            },
        },
    }
}

/// module ::= item*
pub open spec fn parse_module(ctx: PCtx, st: PState) -> Result<(AstModuleV, PState), ParseAbort> {
    match items_loop(ctx, st, seq![]) {
        Err(a) => Err(a),
        Ok((items, s)) => Ok((AstModuleV { file_id: ctx.file_id, items }, s)),
    }
}

/// `b` is reached from `a` by consuming a prefix of the stream and reporting
/// diagnostics after the ones already reported.
pub open spec fn advances(a: PState, b: PState) -> bool {
    &&& b.rest.len() <= a.rest.len()
    &&& b.rest == a.rest.skip(a.rest.len() - b.rest.len())
    &&& a.errs.is_prefix_of(b.errs)
}

/// `advances`, with at least one item consumed.
pub open spec fn strictly_advances(a: PState, b: PState) -> bool {
    advances(a, b) && b.rest.len() < a.rest.len()
}

pub proof fn lemma_advances_trans(a: PState, b: PState, c: PState)
    requires
        advances(a, b),
        advances(b, c),
    ensures
        advances(a, c),
        strictly_advances(a, b) || strictly_advances(b, c) ==> strictly_advances(a, c),
{
    assert(c.rest =~= a.rest.skip(a.rest.len() - c.rest.len()));
    assert(a.errs =~= c.errs.subrange(0, a.errs.len() as int));
}

pub proof fn lemma_push_err_advances(a: PState, d: DiagnosticV)
    ensures
        advances(a, push_err(a, d)),
{
    assert(a.rest.skip(0) =~= a.rest);
    assert(a.errs =~= a.errs.push(d).subrange(0, a.errs.len() as int));
}

/// Draining twice is draining once.
pub proof fn lemma_drain_idem(st: PState)
    ensures
        drain(drain(st)) == drain(st),
        peek(drain(st)) == peek(st),
        advance(drain(st)) == advance(st),
{
    lemma_drain(st);
}

/// `peek` and `advance` move forward; `advance` strictly when there is a token.
pub proof fn lemma_peek_advance_advances(st: PState)
    ensures
        advances(st, peek(st).1),
        advances(st, advance(st).1),
        peek(st).0 is Some ==> strictly_advances(st, advance(st).1),
{
    lemma_drain(st);
    lemma_peek_advance(st);
}

proof fn lemma_sync_loop(st: PState)
    ensures
        advances(st, sync_loop(st)),
    decreases st.rest.len(),
{
    let (t, s1) = peek(st);
    lemma_peek_advance_advances(st);
    match t {
        None => {},
        Some(tok) => {
            if !(tok.kind == TokenKind::Semi || tok.kind == TokenKind::VarKw || tok.kind
                == TokenKind::FuncKw) {
                lemma_peek_advance(st);
                lemma_drain_idem(st);
                lemma_peek_advance_advances(s1);
                let s2 = advance(s1).1;
                lemma_sync_loop(s2);
                lemma_advances_trans(s1, s2, sync_loop(s2));
                lemma_advances_trans(st, s1, sync_loop(s2));
            }
        },
    }
}

/// Synchronizing moves forward, strictly when there is a token.
pub proof fn lemma_synchronize(st: PState)
    ensures
        advances(st, synchronize(st)),
        peek(st).0 is Some ==> strictly_advances(st, synchronize(st)),
{
    lemma_peek_advance_advances(st);
    lemma_sync_loop(advance(st).1);
    lemma_advances_trans(st, advance(st).1, synchronize(st));
}

/// `expect` moves forward, strictly when there is a token.
pub proof fn lemma_expect(
    ctx: PCtx,
    st: PState,
    kind: TokenKind,
    msg: Seq<char>,
    eof_label: Seq<char>,
    label: Seq<char>,
)
    ensures
        advances(st, expect(ctx, st, kind, msg, eof_label, label).1),
        peek(st).0 is Some ==> strictly_advances(st, expect(ctx, st, kind, msg, eof_label, label).1),
{
    let (t, s1) = advance(st);
    lemma_peek_advance_advances(st);
    lemma_peek_advance(st);
    match t {
        Some(tk) => {
            if tk.kind != kind {
                let d = error_diag(msg, ctx.file_id, tk.span.0, tk.span.1, label);
                lemma_push_err_advances(s1, d);
                lemma_synchronize(push_err(s1, d));
                lemma_advances_trans(s1, push_err(s1, d), synchronize(push_err(s1, d)));
                lemma_advances_trans(st, s1, synchronize(push_err(s1, d)));
            }
        },
        None => {
            let n = ctx.src.len();
            let d = error_diag(
                "unexpected end of file"@,
                ctx.file_id,
                (n - 1) as usize,
                n as usize,
                eof_label,
            );
            lemma_push_err_advances(s1, d);
            lemma_advances_trans(st, s1, push_err(s1, d));
        },
    }
}

/// The stream part of draining does not depend on the diagnostics.
pub proof fn lemma_drain_rest(a: PState, b: PState)
    requires
        a.rest == b.rest,
    ensures
        drain(a).rest == drain(b).rest,
        peek(a).0 == peek(b).0,
        advance(a).0 == advance(b).0,
        advance(a).1.rest == advance(b).1.rest,
    decreases a.rest.len(),
{
    if a.rest.len() > 0 {
        if let Err(d) = a.rest[0] {
            lemma_drain_rest(
                PState { rest: a.rest.drop_first(), errs: a.errs.push(d) },
                PState { rest: b.rest.drop_first(), errs: b.errs.push(d) },
            );
        }
    }
}

/// Reporting a diagnostic on a drained state leaves its first token in place.
pub proof fn lemma_peek_push(st: PState, d: DiagnosticV)
    ensures
        peek(push_err(drain(st), d)).0 == peek(st).0,
{
    lemma_drain_idem(st);
    lemma_drain_rest(push_err(drain(st), d), drain(st));
}

/// A successful `parse_expr` moves forward, strictly when there is a token.
pub proof fn lemma_parse_expr_progress(ctx: PCtx, st: PState)
    ensures
        parse_expr(ctx, st) matches Ok((_, s)) ==> advances(st, s) && (peek(st).0 is Some
            ==> strictly_advances(st, s)),
{
    let (p, s0) = peek(st);
    lemma_drain_idem(st);
    lemma_peek_advance_advances(st);
    lemma_peek_advance(st);
    let (t, s1) = advance(s0);
    match t {
        Some(tok) => {
            if tok.kind != TokenKind::Int {
                let d = error_diag(
                    "expected an expression, found `"@ + span_text(
                        ctx.src,
                        tok.span.0 as int,
                        tok.span.1 as int,
                    ) + "` instead"@,
                    ctx.file_id,
                    tok.span.0,
                    tok.span.1,
                    "expected expression"@,
                );
                lemma_push_err_advances(s1, d);
                lemma_synchronize(push_err(s1, d));
                lemma_advances_trans(s1, push_err(s1, d), synchronize(push_err(s1, d)));
                lemma_advances_trans(st, s1, synchronize(push_err(s1, d)));
            }
        },
        None => {
            let d = error_diag(
                "unexpected end of file"@,
                ctx.file_id,
                start_span(p).0,
                start_span(p).1,
                "expected an expression"@,
            );
            lemma_push_err_advances(s1, d);
            lemma_advances_trans(st, s1, push_err(s1, d));
        },
    }
}

/// A successful `parse_var_decl` moves forward, strictly when there is a token.
pub proof fn lemma_parse_var_decl_progress(ctx: PCtx, st: PState)
    ensures
        parse_var_decl(ctx, st) matches Ok((_, s)) ==> advances(st, s) && (peek(st).0 is Some
            ==> strictly_advances(st, s)),
{
    let (p, s0) = peek(st);
    lemma_drain_idem(st);
    lemma_peek_advance_advances(st);
    let s1 = advance(s0).1;
    let (c1, s2) = peek(s1);
    lemma_peek_advance_advances(s1);
    lemma_advances_trans(st, s1, s2);
    if c1 is Some {
        let m1 = "expected identifier after `var`, found "@ + kind_text(c1.unwrap().kind)
            + " instead"@;
        let (r1, s3) = expect(
            ctx,
            s2,
            TokenKind::Id,
            m1,
            "unterminated `var` statemet"@,
            "expected identifier"@,
        );
        lemma_expect(ctx, s2, TokenKind::Id, m1, "unterminated `var` statemet"@, "expected identifier"@);
        lemma_advances_trans(st, s2, s3);
        if r1 is Ok {
            let (c2, s4) = peek(s3);
            lemma_peek_advance_advances(s3);
            lemma_advances_trans(st, s3, s4);
            if c2 is Some {
                let m2 = "expected `=`, found "@ + kind_text(c2.unwrap().kind) + " instead"@;
                let (r2, s5) = expect(
                    ctx,
                    s4,
                    TokenKind::Assign,
                    m2,
                    "unterminaded variable declaration"@,
                    "expected `=` here"@,
                );
                lemma_expect(
                    ctx,
                    s4,
                    TokenKind::Assign,
                    m2,
                    "unterminaded variable declaration"@,
                    "expected `=` here"@,
                );
                lemma_advances_trans(st, s4, s5);
                if r2 is Ok {
                    lemma_parse_expr_progress(ctx, s5);
                    if let Ok((e, s6)) = parse_expr(ctx, s5) {
                        lemma_advances_trans(st, s5, s6);
                        lemma_expect(
                            ctx,
                            s6,
                            TokenKind::Semi,
                            "expected `;` after variable declaration"@,
                            "unterminated variable declaration"@,
                            "expected `;` here"@,
                        );
                        let s7 = expect(
                            ctx,
                            s6,
                            TokenKind::Semi,
                            "expected `;` after variable declaration"@,
                            "unterminated variable declaration"@,
                            "expected `;` here"@,
                        ).1;
                        lemma_advances_trans(st, s6, s7);
                    }
                }
            }
        }
    }
}

/// Statements, blocks and block bodies move forward; statements and blocks
/// strictly when there is a token.
pub proof fn lemma_parse_stmt_progress(ctx: PCtx, st: PState)
    ensures
        parse_stmt(ctx, st) matches Ok((_, s)) ==> advances(st, s) && (peek(st).0 is Some
            ==> strictly_advances(st, s)),
    decreases st.rest.len(), 2int,
{
    let (p, s1) = peek(st);
    lemma_drain_idem(st);
    lemma_peek_advance_advances(st);
    lemma_peek_advance(st);
    match p {
        Some(tk) => {
            if tk.kind == TokenKind::VarKw {
                lemma_parse_var_decl_progress(ctx, s1);
                if let Ok((_, s)) = parse_var_decl(ctx, s1) {
                    lemma_advances_trans(st, s1, s);
                }
            } else if tk.kind == TokenKind::OpenBrace {
                lemma_parse_block_progress(ctx, s1);
                if let Ok((_, s)) = parse_block(ctx, s1) {
                    lemma_advances_trans(st, s1, s);
                }
            } else {
                let d = error_diag(
                    "expected an statement"@,
                    ctx.file_id,
                    tk.span.0,
                    tk.span.1,
                    Seq::empty(),
                );
                lemma_push_err_advances(s1, d);
                lemma_peek_push(st, d);
                lemma_synchronize(push_err(s1, d));
                lemma_advances_trans(s1, push_err(s1, d), synchronize(push_err(s1, d)));
                lemma_advances_trans(st, s1, synchronize(push_err(s1, d)));
            }
        },
        None => {
            let n = ctx.src.len() as usize;
            let d = error_diag(
                "unexpected end of file, expected an statement"@,
                ctx.file_id,
                n,
                n,
                "expected an statement"@,
            );
            lemma_push_err_advances(s1, d);
            lemma_advances_trans(st, s1, push_err(s1, d));
        },
    }
}

pub proof fn lemma_parse_block_progress(ctx: PCtx, st: PState)
    ensures
        parse_block(ctx, st) matches Ok((_, s)) ==> advances(st, s) && (peek(st).0 is Some
            ==> strictly_advances(st, s)),
    decreases st.rest.len(), 1int,
{
    let (r, s1) = expect(
        ctx,
        st,
        TokenKind::OpenBrace,
        "expected `{`"@,
        "unterminaded block statement"@,
        "expected `{` here"@,
    );
    lemma_expect(
        ctx,
        st,
        TokenKind::OpenBrace,
        "expected `{`"@,
        "unterminaded block statement"@,
        "expected `{` here"@,
    );
    lemma_peek_advance(st);
    if r is Ok {
        lemma_block_loop_progress(ctx, s1, seq![]);
        if let Ok((stmts, s2)) = block_loop(ctx, s1, seq![]) {
            lemma_advances_trans(st, s1, s2);
            lemma_expect(
                ctx,
                s2,
                TokenKind::CloseBrace,
                "expected `}`"@,
                "unterminaded block statement"@,
                "expected `}` here"@,
            );
            let s3 = expect(
                ctx,
                s2,
                TokenKind::CloseBrace,
                "expected `}`"@,
                "unterminaded block statement"@,
                "expected `}` here"@,
            ).1;
            lemma_advances_trans(st, s2, s3);
        }
    }
}

pub proof fn lemma_block_loop_progress(ctx: PCtx, st: PState, acc: Seq<StmtV>)
    ensures
        block_loop(ctx, st, acc) matches Ok((_, s)) ==> advances(st, s),
    decreases st.rest.len(), 3int,
{
    let (p, s1) = peek(st);
    lemma_drain_idem(st);
    lemma_peek_advance_advances(st);
    lemma_peek_advance(st);
    if let Some(tk) = p {
        if tk.kind != TokenKind::CloseBrace {
            lemma_parse_stmt_progress(ctx, s1);
            if let Ok((s, s2)) = parse_stmt(ctx, s1) {
                lemma_advances_trans(st, s1, s2);
                lemma_block_loop_progress(ctx, s2, acc.push(s));
                if let Ok((_, s3)) = block_loop(ctx, s2, acc.push(s)) {
                    lemma_advances_trans(st, s2, s3);
                }
            }
        }
    }
}

/// A statement parsed in a block consumes at least one item, so the guard
/// in [`block_loop`] always holds.
pub proof fn lemma_block_loop_guard(ctx: PCtx, st: PState)
    ensures
        peek(st).0 is Some ==> (parse_stmt(ctx, peek(st).1) matches Ok((_, s2)) ==> s2.rest.len()
            < st.rest.len()),
{
    lemma_drain_idem(st);
    lemma_peek_advance_advances(st);
    lemma_parse_stmt_progress(ctx, peek(st).1);
}

pub proof fn lemma_parse_func_decl_progress(ctx: PCtx, st: PState)
    ensures
        parse_func_decl(ctx, st) matches Ok((_, s)) ==> advances(st, s) && (peek(st).0 is Some
            ==> strictly_advances(st, s)),
{
    let (p, s0) = peek(st);
    lemma_drain_idem(st);
    lemma_peek_advance_advances(st);
    let s1 = advance(s0).1;
    let m1 = "expected identifier after `func`"@;
    let e = "unterminaded function declaration"@;
    let (r1, s2) = expect(ctx, s1, TokenKind::Id, m1, e, "expected identifier"@);
    lemma_expect(ctx, s1, TokenKind::Id, m1, e, "expected identifier"@);
    lemma_advances_trans(st, s1, s2);
    if r1 is Ok {
        let m2 = "expected `(` after function name"@;
        let (r2, s3) = expect(ctx, s2, TokenKind::OpenParen, m2, e, "expected `(`"@);
        lemma_expect(ctx, s2, TokenKind::OpenParen, m2, e, "expected `(`"@);
        lemma_advances_trans(st, s2, s3);
        if r2 is Ok {
            let m3 = "expected `)`, functions doesn't support parameters yet"@;
            let (r3, s4) = expect(ctx, s3, TokenKind::CloseParen, m3, e, "expected `)`"@);
            lemma_expect(ctx, s3, TokenKind::CloseParen, m3, e, "expected `)`"@);
            lemma_advances_trans(st, s3, s4);
            if r3 is Ok {
                lemma_parse_block_progress(ctx, s4);
                if let Ok((_, s5)) = parse_block(ctx, s4) {
                    lemma_advances_trans(st, s4, s5);
                }
            }
        }
    }
}

/// A successful `parse_item` moves forward, strictly when there is a token.
pub proof fn lemma_parse_item_progress(ctx: PCtx, st: PState)
    ensures
        parse_item(ctx, st) matches Ok((_, s)) ==> advances(st, s) && (peek(st).0 is Some
            ==> strictly_advances(st, s)),
{
    let (p, s1) = peek(st);
    lemma_drain_idem(st);
    lemma_peek_advance_advances(st);
    lemma_peek_advance(st);
    match p {
        Some(tk) => {
            if tk.kind == TokenKind::FuncKw {
                lemma_parse_func_decl_progress(ctx, s1);
                if let Ok((_, s)) = parse_func_decl(ctx, s1) {
                    lemma_advances_trans(st, s1, s);
                }
            } else {
                let d = with_note(
                    error_diag("expected an item"@, ctx.file_id, tk.span.0, tk.span.1, Seq::empty()),
                    "an item can be either a function or a constant"@,
                );
                lemma_push_err_advances(s1, d);
                lemma_peek_push(st, d);
                lemma_synchronize(push_err(s1, d));
                lemma_advances_trans(s1, push_err(s1, d), synchronize(push_err(s1, d)));
                lemma_advances_trans(st, s1, synchronize(push_err(s1, d)));
            }
        },
        None => {
            let n = ctx.src.len() as usize;
            let d = error_diag(
                "unexpected end of file, expected an item"@,
                ctx.file_id,
                n,
                n,
                "expected an item"@,
            );
            lemma_push_err_advances(s1, d);
            lemma_advances_trans(st, s1, push_err(s1, d));
        },
    }
}

/// A failed `expect` has reported a diagnostic.
proof fn lemma_expect_err(
    ctx: PCtx,
    st: PState,
    kind: TokenKind,
    msg: Seq<char>,
    eof_label: Seq<char>,
    label: Seq<char>,
)
    ensures
        expect(ctx, st, kind, msg, eof_label, label).0 is Err ==> expect(
            ctx,
            st,
            kind,
            msg,
            eof_label,
            label,
        ).1.errs.len() > st.errs.len(),
{
    let (t, s1) = advance(st);
    lemma_peek_advance(st);
    match t {
        Some(tk) => {
            if tk.kind != kind {
                let d = error_diag(msg, ctx.file_id, tk.span.0, tk.span.1, label);
                lemma_synchronize(push_err(s1, d));
            }
        },
        None => {},
    }
}

/// The syntax errors a statement holds: its statements and expressions that
/// stand for syntax errors.
pub open spec fn stmt_errors(s: StmtV) -> nat
    decreases s,
{
    match s {
        StmtV::VarDecl { expr, .. } => if expr is Error {
            1
        } else {
            0
        },
        StmtV::Block { stmts } => stmts_errors(stmts),
        StmtV::Error(_) => 1,
    }
}

/// The syntax errors of a sequence of statements.
pub open spec fn stmts_errors(s: Seq<StmtV>) -> nat
    decreases s,
{
    if s.len() == 0 {
        0
    } else {
        stmts_errors(s.subrange(0, s.len() - 1)) + stmt_errors(s[s.len() - 1])
    }
}

/// The syntax errors an item holds.
pub open spec fn item_errors(i: AstItemV) -> nat {
    match i {
        AstItemV::Function { body, .. } => stmt_errors(body),
        AstItemV::Error(_) => 1,
    }
}

/// The syntax errors of a sequence of items.
pub open spec fn items_errors(s: Seq<AstItemV>) -> nat
    decreases s.len(),
{
    if s.len() == 0 {
        0
    } else {
        items_errors(s.drop_last()) + item_errors(s.last())
    }
}

/// `b` holds at least `n` diagnostics more than `a`.
pub open spec fn reported(a: PState, b: PState, n: nat) -> bool {
    b.errs.len() >= a.errs.len() + n
}

proof fn lemma_parse_expr_errors(ctx: PCtx, st: PState)
    ensures
        parse_expr(ctx, st) matches Ok((e, s)) ==> reported(
            st,
            s,
            if e is Error {
                1
            } else {
                0
            },
        ),
{
    let (p, s0) = peek(st);
    lemma_drain_idem(st);
    lemma_peek_advance_advances(st);
    lemma_peek_advance(st);
    let (t, s1) = advance(s0);
    match t {
        Some(tok) => {
            if tok.kind != TokenKind::Int {
                let d = error_diag(
                    "expected an expression, found `"@ + span_text(
                        ctx.src,
                        tok.span.0 as int,
                        tok.span.1 as int,
                    ) + "` instead"@,
                    ctx.file_id,
                    tok.span.0,
                    tok.span.1,
                    "expected expression"@,
                );
                lemma_synchronize(push_err(s1, d));
            }
        },
        None => {},
    }
}

proof fn lemma_parse_var_decl_errors(ctx: PCtx, st: PState)
    ensures
        parse_var_decl(ctx, st) matches Ok((v, s)) ==> reported(st, s, stmt_errors(v)),
{
    let (p, s0) = peek(st);
    lemma_drain_idem(st);
    lemma_peek_advance_advances(st);
    let s1 = advance(s0).1;
    let (c1, s2) = peek(s1);
    lemma_peek_advance_advances(s1);
    lemma_advances_trans(st, s1, s2);
    if c1 is Some {
        let m1 = "expected identifier after `var`, found "@ + kind_text(c1.unwrap().kind)
            + " instead"@;
        let e1 = "unterminated `var` statemet"@;
        let l1 = "expected identifier"@;
        let (r1, s3) = expect(ctx, s2, TokenKind::Id, m1, e1, l1);
        lemma_expect(ctx, s2, TokenKind::Id, m1, e1, l1);
        lemma_expect_err(ctx, s2, TokenKind::Id, m1, e1, l1);
        lemma_advances_trans(st, s2, s3);
        if r1 is Ok {
            let (c2, s4) = peek(s3);
            lemma_peek_advance_advances(s3);
            lemma_advances_trans(st, s3, s4);
            if c2 is Some {
                let m2 = "expected `=`, found "@ + kind_text(c2.unwrap().kind) + " instead"@;
                let e2 = "unterminaded variable declaration"@;
                let l2 = "expected `=` here"@;
                let (r2, s5) = expect(ctx, s4, TokenKind::Assign, m2, e2, l2);
                lemma_expect(ctx, s4, TokenKind::Assign, m2, e2, l2);
                lemma_expect_err(ctx, s4, TokenKind::Assign, m2, e2, l2);
                lemma_advances_trans(st, s4, s5);
                if r2 is Ok {
                    lemma_parse_expr_progress(ctx, s5);
                    lemma_parse_expr_errors(ctx, s5);
                    if let Ok((e, s6)) = parse_expr(ctx, s5) {
                        lemma_advances_trans(st, s5, s6);
                        let m3 = "expected `;` after variable declaration"@;
                        let e3 = "unterminated variable declaration"@;
                        let l3 = "expected `;` here"@;
                        lemma_expect(ctx, s6, TokenKind::Semi, m3, e3, l3);
                        lemma_expect_err(ctx, s6, TokenKind::Semi, m3, e3, l3);
                        let s7 = expect(ctx, s6, TokenKind::Semi, m3, e3, l3).1;
                        lemma_advances_trans(st, s6, s7);
                    }
                }
            }
        }
    }
}

/// Every statement or expression that stands for a syntax error comes with
/// a diagnostic of its own: a statement parsed from `st` holds no more error
/// nodes than the diagnostics reported while parsing it.
pub proof fn law_stmt_errors_reported(ctx: PCtx, st: PState)
    ensures
        parse_stmt(ctx, st) matches Ok((v, s)) ==> reported(st, s, stmt_errors(v)),
    decreases st.rest.len(), 2int,
{
    let (p, s1) = peek(st);
    lemma_drain_idem(st);
    lemma_peek_advance_advances(st);
    lemma_peek_advance(st);
    match p {
        Some(tk) => {
            if tk.kind == TokenKind::VarKw {
                lemma_parse_var_decl_errors(ctx, s1);
            } else if tk.kind == TokenKind::OpenBrace {
                lemma_parse_block_errors(ctx, s1);
            } else {
                let d = error_diag(
                    "expected an statement"@,
                    ctx.file_id,
                    tk.span.0,
                    tk.span.1,
                    Seq::empty(),
                );
                lemma_synchronize(push_err(s1, d));
            }
        },
        None => {},
    }
}

proof fn lemma_parse_block_errors(ctx: PCtx, st: PState)
    ensures
        parse_block(ctx, st) matches Ok((v, s)) ==> reported(st, s, stmt_errors(v)),
    decreases st.rest.len(), 1int,
{
    let m1 = "expected `{`"@;
    let e = "unterminaded block statement"@;
    let l1 = "expected `{` here"@;
    let (r, s1) = expect(ctx, st, TokenKind::OpenBrace, m1, e, l1);
    lemma_expect(ctx, st, TokenKind::OpenBrace, m1, e, l1);
    lemma_expect_err(ctx, st, TokenKind::OpenBrace, m1, e, l1);
    lemma_peek_advance(st);
    if r is Ok {
        lemma_block_loop_errors(ctx, s1, seq![]);
        lemma_block_loop_progress(ctx, s1, seq![]);
        if let Ok((stmts, s2)) = block_loop(ctx, s1, seq![]) {
            let m2 = "expected `}`"@;
            let l2 = "expected `}` here"@;
            lemma_expect(ctx, s2, TokenKind::CloseBrace, m2, e, l2);
            lemma_expect_err(ctx, s2, TokenKind::CloseBrace, m2, e, l2);
        }
    }
}

proof fn lemma_block_loop_errors(ctx: PCtx, st: PState, acc: Seq<StmtV>)
    ensures
        block_loop(ctx, st, acc) matches Ok((stmts, s)) ==> stmts_errors(stmts) + st.errs.len()
            <= stmts_errors(acc) + s.errs.len(),
    decreases st.rest.len(), 3int,
{
    let (p, s1) = peek(st);
    lemma_drain_idem(st);
    lemma_peek_advance_advances(st);
    lemma_peek_advance(st);
    if let Some(tk) = p {
        if tk.kind != TokenKind::CloseBrace {
            law_stmt_errors_reported(ctx, s1);
            if let Ok((x, s2)) = parse_stmt(ctx, s1) {
                if s2.rest.len() < st.rest.len() {
                    lemma_block_loop_errors(ctx, s2, acc.push(x));
                    assert(acc.push(x).subrange(0, acc.len() as int) =~= acc);
                }
            }
        }
    }
}

proof fn lemma_parse_func_decl_errors(ctx: PCtx, st: PState)
    ensures
        parse_func_decl(ctx, st) matches Ok((it, s)) ==> reported(st, s, item_errors(it)),
{
    let (p, s0) = peek(st);
    lemma_drain_idem(st);
    lemma_peek_advance_advances(st);
    let s1 = advance(s0).1;
    let m1 = "expected identifier after `func`"@;
    let e = "unterminaded function declaration"@;
    let l1 = "expected identifier"@;
    let (r1, s2) = expect(ctx, s1, TokenKind::Id, m1, e, l1);
    lemma_expect(ctx, s1, TokenKind::Id, m1, e, l1);
    lemma_expect_err(ctx, s1, TokenKind::Id, m1, e, l1);
    lemma_advances_trans(st, s1, s2);
    if r1 is Ok {
        let m2 = "expected `(` after function name"@;
        let l2 = "expected `(`"@;
        let (r2, s3) = expect(ctx, s2, TokenKind::OpenParen, m2, e, l2);
        lemma_expect(ctx, s2, TokenKind::OpenParen, m2, e, l2);
        lemma_expect_err(ctx, s2, TokenKind::OpenParen, m2, e, l2);
        lemma_advances_trans(st, s2, s3);
        if r2 is Ok {
            let m3 = "expected `)`, functions doesn't support parameters yet"@;
            let l3 = "expected `)`"@;
            let (r3, s4) = expect(ctx, s3, TokenKind::CloseParen, m3, e, l3);
            lemma_expect(ctx, s3, TokenKind::CloseParen, m3, e, l3);
            lemma_expect_err(ctx, s3, TokenKind::CloseParen, m3, e, l3);
            lemma_advances_trans(st, s3, s4);
            if r3 is Ok {
                lemma_parse_block_errors(ctx, s4);
            }
        }
    }
}

proof fn lemma_parse_item_errors(ctx: PCtx, st: PState)
    ensures
        parse_item(ctx, st) matches Ok((it, s)) ==> reported(st, s, item_errors(it)),
{
    let (p, s1) = peek(st);
    lemma_peek_advance_advances(st);
    match p {
        Some(tk) => {
            if tk.kind == TokenKind::FuncKw {
                lemma_parse_func_decl_errors(ctx, s1);
            } else {
                let d = with_note(
                    error_diag("expected an item"@, ctx.file_id, tk.span.0, tk.span.1, Seq::empty()),
                    "an item can be either a function or a constant"@,
                );
                lemma_synchronize(push_err(s1, d));
            }
        },
        None => {},
    }
}

proof fn lemma_items_loop(ctx: PCtx, st: PState, acc: Seq<AstItemV>)
    ensures
        items_loop(ctx, st, acc) matches Ok((items, s)) ==> {
            &&& advances(st, s)
            &&& s.rest.len() == 0
            &&& items_errors(items) + st.errs.len() <= items_errors(acc) + s.errs.len()
        },
    decreases st.rest.len(),
{
    let (p, s1) = peek(st);
    lemma_peek_advance(st);
    lemma_peek_advance_advances(st);
    lemma_drain(st);
    match p {
        None => {},
        Some(_) => {
            lemma_drain_idem(st);
            lemma_parse_item_progress(ctx, s1);
            lemma_parse_item_errors(ctx, s1);
            if let Ok((it, s2)) = parse_item(ctx, s1) {
                lemma_items_loop(ctx, s2, acc.push(it));
                assert(acc.push(it).drop_last() =~= acc);
                if let Ok((items, s)) = items_loop(ctx, s2, acc.push(it)) {
                    lemma_advances_trans(s1, s2, s);
                    lemma_advances_trans(st, s1, s);
                }
            }
        },
    }
}

/// Parsing reads the whole input and keeps what it reported: when it gives a
/// module, no token is left, the diagnostics reported before are kept with the
/// new ones after them, and every item, statement and expression that stands
/// for a syntax error comes with a diagnostic of its own.
pub proof fn law_parse_reports_errors(ctx: PCtx, st: PState)
    ensures
        parse_module(ctx, st) matches Ok((m, s)) ==> {
            &&& advances(st, s)
            &&& s.rest.len() == 0
            &&& items_errors(m.items) <= s.errs.len() - st.errs.len()
        },
{
    lemma_items_loop(ctx, st, seq![]);
}

/// The last lexer item consumed on the way from `a` to `b`.
pub open spec fn last_consumed(a: PState, b: PState) -> LexItem {
    a.rest[a.rest.len() - b.rest.len() - 1]
}

/// A successful `expect` of `kind` consumes a token of that kind last.
proof fn lemma_expect_ok(
    ctx: PCtx,
    st: PState,
    kind: TokenKind,
    msg: Seq<char>,
    eof_label: Seq<char>,
    label: Seq<char>,
)
    ensures
        expect(ctx, st, kind, msg, eof_label, label).0 is Ok ==> {
            let s = expect(ctx, st, kind, msg, eof_label, label).1;
            &&& s.rest.len() < st.rest.len()
            &&& last_consumed(st, s) matches Ok(t) && t.kind == kind
        },
{
    lemma_peek_advance(st);
    lemma_drain(st);
    let d = drain(st).rest;
    if peek(st).0 is Some {
        assert(st.rest[st.rest.len() - d.len()] == d[0]);
    }
}

/// Declarations end with a semicolon: a variable declaration is accepted only
/// with the `;` that closes it, the last token it consumes.
pub proof fn law_declaration_ends_with_semicolon(ctx: PCtx, st: PState)
    ensures
        parse_stmt(ctx, st) matches Ok((StmtV::VarDecl { .. }, s)) ==> {
            &&& s.rest.len() < st.rest.len()
            &&& last_consumed(st, s) matches Ok(t) && t.kind == TokenKind::Semi
        },
{
    let (p, s1) = peek(st);
    lemma_drain_idem(st);
    lemma_peek_advance_advances(st);
    lemma_peek_advance(st);
    if let Some(tk) = p {
        if tk.kind == TokenKind::VarKw {
            lemma_var_decl_semicolon(ctx, s1);
            if let Ok((v, s)) = parse_var_decl(ctx, s1) {
                if v is VarDecl {
                    assert(st.rest.len() - s.rest.len() - 1 == s1.rest.len() - s.rest.len() - 1 + (
                    st.rest.len() - s1.rest.len()));
                    assert(s1.rest[s1.rest.len() - s.rest.len() - 1] == st.rest[st.rest.len()
                        - s.rest.len() - 1]);
                }
            }
        } else if tk.kind == TokenKind::OpenBrace {
            // a block is never a declaration
            lemma_parse_block_shape(ctx, s1);
        }
    }
}

/// What `parse_block` gives is a block or an error, never a declaration.
proof fn lemma_parse_block_shape(ctx: PCtx, st: PState)
    ensures
        parse_block(ctx, st) matches Ok((v, _)) ==> !(v is VarDecl),
{
}

proof fn lemma_var_decl_semicolon(ctx: PCtx, st: PState)
    ensures
        parse_var_decl(ctx, st) matches Ok((StmtV::VarDecl { .. }, s)) ==> {
            &&& s.rest.len() < st.rest.len()
            &&& last_consumed(st, s) matches Ok(t) && t.kind == TokenKind::Semi
        },
{
    let (p, s0) = peek(st);
    lemma_drain_idem(st);
    lemma_peek_advance_advances(st);
    let s1 = advance(s0).1;
    let (c1, s2) = peek(s1);
    lemma_peek_advance_advances(s1);
    lemma_advances_trans(st, s1, s2);
    if c1 is Some {
        let m1 = "expected identifier after `var`, found "@ + kind_text(c1.unwrap().kind)
            + " instead"@;
        let e1 = "unterminated `var` statemet"@;
        let l1 = "expected identifier"@;
        let (r1, s3) = expect(ctx, s2, TokenKind::Id, m1, e1, l1);
        lemma_expect(ctx, s2, TokenKind::Id, m1, e1, l1);
        lemma_advances_trans(st, s2, s3);
        if r1 is Ok {
            let (c2, s4) = peek(s3);
            lemma_peek_advance_advances(s3);
            lemma_advances_trans(st, s3, s4);
            if c2 is Some {
                let m2 = "expected `=`, found "@ + kind_text(c2.unwrap().kind) + " instead"@;
                let e2 = "unterminaded variable declaration"@;
                let l2 = "expected `=` here"@;
                let (r2, s5) = expect(ctx, s4, TokenKind::Assign, m2, e2, l2);
                lemma_expect(ctx, s4, TokenKind::Assign, m2, e2, l2);
                lemma_advances_trans(st, s4, s5);
                if r2 is Ok {
                    lemma_parse_expr_progress(ctx, s5);
                    if let Ok((e, s6)) = parse_expr(ctx, s5) {
                        lemma_advances_trans(st, s5, s6);
                        let m3 = "expected `;` after variable declaration"@;
                        let e3 = "unterminated variable declaration"@;
                        let l3 = "expected `;` here"@;
                        lemma_expect(ctx, s6, TokenKind::Semi, m3, e3, l3);
                        lemma_expect_ok(ctx, s6, TokenKind::Semi, m3, e3, l3);
                        let (r3, s7) = expect(ctx, s6, TokenKind::Semi, m3, e3, l3);
                        if r3 is Ok {
                            assert(s6.rest =~= st.rest.skip(st.rest.len() - s6.rest.len()));
                            assert(s6.rest[s6.rest.len() - s7.rest.len() - 1] == st.rest[st.rest.len()
                                - s7.rest.len() - 1]);
                        }
                    }
                }
            }
        }
    }
}

/// A declaration is named by its identifier: when the input starts with the
/// tokens `var` and then an identifier `t`, a variable declaration parsed from
/// it has as its name the whole text of `t` in the source.
pub proof fn law_declaration_name(ctx: PCtx, st: PState, v: Token, t: Token)
    requires
        st.rest.len() >= 2,
        st.rest[0] == Ok::<Token, DiagnosticV>(v),
        v.kind == TokenKind::VarKw,
        st.rest[1] == Ok::<Token, DiagnosticV>(t),
        t.kind == TokenKind::Id,
    ensures
        parse_stmt(ctx, st) matches Ok((StmtV::VarDecl { name, .. }, _)) ==> name
            == ctx.src.subrange(t.span.0 as int, t.span.1 as int),
{
    assert(drain(st) == st);
    let s1 = advance(st).1;
    assert(s1.rest == st.rest.drop_first());
    assert(s1.rest[0] == Ok::<Token, DiagnosticV>(t));
    assert(drain(s1) == s1);
    assert(advance(s1).0 == Some(t));
}

/// The value of a digit string is at least that of any of its prefixes.
pub proof fn lemma_digits_value_prefix(s: Seq<u8>, k: int)
    requires
        0 <= k <= s.len(),
    ensures
        digits_value(s.take(k)) <= digits_value(s),
    decreases s.len(),
{
    if k < s.len() {
        lemma_digits_value_prefix(s.drop_last(), k);
        assert(s.drop_last().take(k) =~= s.take(k));
    } else {
        assert(s.take(k) =~= s);
    }
}

/// The value of the decimal digits `bytes[start..end]`, or `None` when it
/// exceeds `isize::MAX` (`str::parse::<isize>`).
fn parse_isize(bytes: &[u8], start: usize, end: usize) -> (r: Option<isize>)
    requires
        start < end <= bytes@.len(),
        forall|k: int| start <= k < end ==> is_digit(#[trigger] bytes@[k]),
    ensures
        r == isize_value(bytes@.subrange(start as int, end as int)),
{
    let mut v: isize = 0;
    let mut i = start;
    assert(bytes@.subrange(start as int, start as int).len() == 0);
    while i < end
        invariant
            start <= i <= end <= bytes@.len(),
            forall|k: int| start <= k < end ==> is_digit(#[trigger] bytes@[k]),
            v as int == digits_value(bytes@.subrange(start as int, i as int)),
        decreases end - i,
    {
        let ghost whole = bytes@.subrange(start as int, end as int);
        let ghost next = bytes@.subrange(start as int, i + 1);
        assert(next.drop_last() =~= bytes@.subrange(start as int, i as int));
        assert(next.last() == bytes@[i as int]);
        assert(whole.take(i + 1 - start) =~= next);
        let d = (bytes[i] - 48) as isize;
        match v.checked_mul(10) {
            None => {
                proof {
                    lemma_digits_value_prefix(whole, i + 1 - start);
                }
                return None;
            },
            Some(m) => match m.checked_add(d) {
                None => {
                    proof {
                        lemma_digits_value_prefix(whole, i + 1 - start);
                    }
                    return None;
                },
                Some(n) => {
                    v = n;
                },
            },
        }
        i = i + 1;
    }
    Some(v)
}

/// Represents the Syntactic Analyzer
pub struct Parser<'parser> {
    lexer: Lexer<'parser>,
    peeked: Option<Option<Result<Token, Diagnostic>>>,
    file_id: usize,
    src: &'parser str,
    pub errors: Vec<Diagnostic>,
}

/// `r` and the state `after` are what the outcome `s` of a parsing function says.
pub open spec fn outcome<T: View>(
    r: Result<T, ParseAbort>,
    s: Result<(T::V, PState), ParseAbort>,
    after: PState,
) -> bool {
    match s {
        Ok((v, st)) => r matches Ok(x) && x@ == v && after == st,
        Err(a) => r matches Err(b) && b == a,
    }
}

impl<'parser> Parser<'parser> {
    /// The lexer items not consumed yet.
    pub closed spec fn rest(&self) -> Seq<LexItem> {
        match self.peeked {
            None => self.lexer.items(),
            Some(None) => seq![],
            Some(Some(x)) => seq![item_view(x)] + self.lexer.items(),
        }
    }

    /// The file and source the parser works on.
    pub closed spec fn ctx(&self) -> PCtx {
        PCtx { file_id: self.file_id, src: self.src.spec_bytes() }
    }

    /// The parser's state: the items not consumed yet and the diagnostics so far.
    pub closed spec fn state(&self) -> PState {
        PState { rest: self.rest(), errs: diags_view(self.errors@) }
    }

    /// The diagnostics reported so far (the `errors` field).
    pub fn diagnostics(&self) -> (r: &Vec<Diagnostic>)
        ensures
            diags_view(r@) == self.state().errs,
    {
        &self.errors
    }

    /// The parser's invariant: its lexer reads its source, which ends with a
    /// NUL byte, and the tokens still to come are as the lexer makes them.
    pub closed spec fn wf(&self) -> bool {
        &&& self.lexer.wf()
        &&& self.lexer.source() == self.src.spec_bytes()
        &&& (self.peeked matches Some(None) ==> self.lexer.items() == Seq::<LexItem>::empty())
        &&& stream_ok(self.src.spec_bytes(), self.rest())
    }

    /// A parser of `src`, whose tokens `lexer` yields, reporting into file `file_id`.
    pub fn new(file_id: usize, src: &'parser str, lexer: Lexer<'parser>) -> (p: Self)
        requires
            lexer.wf(),
            lexer.source() == src.spec_bytes(),
        ensures
            p.wf(),
            p.ctx() == (PCtx { file_id, src: src.spec_bytes() }),
            p.state() == (PState { rest: lexer.items(), errs: seq![] }),
    {
        proof {
            lemma_lex_items_ok(lexer.source(), lexer.file(), lexer.pos());
        }
        let p = Self { lexer, peeked: None, file_id, src, errors: Vec::new() };
        assert(diags_view(p.errors@) =~= Seq::<DiagnosticV>::empty());
        p
    }

    /// Makes sure the next lexer item has been taken from the lexer.
    fn fill(&mut self)
        requires
            old(self).wf(),
        ensures
            final(self).wf(),
            final(self).ctx() == old(self).ctx(),
            final(self).state() == old(self).state(),
            final(self).peeked is Some,
    {
        if self.peeked.is_none() {
            let x = self.lexer.next();
            self.peeked = Some(x);
        }
    }

    /// The next lexer item, consumed (`Peekable::next`).
    fn next_item(&mut self) -> (r: Option<Result<Token, Diagnostic>>)
        requires
            old(self).wf(),
        ensures
            final(self).wf(),
            final(self).ctx() == old(self).ctx(),
            final(self).errors@ == old(self).errors@,
            match r {
                None => old(self).rest() == Seq::<LexItem>::empty() && final(self).rest()
                    == Seq::<LexItem>::empty(),
                Some(x) => old(self).rest() == seq![item_view(x)] + final(self).rest(),
            },
    {
        let ghost old_rest = self.rest();
        let r = match self.peeked.take() {
            Some(v) => v,
            None => self.lexer.next(),
        };
        proof {
            let new_rest = self.rest();
            if let Some(x) = &r {
                assert(old_rest =~= seq![item_view(*x)] + new_rest);
                assert forall|i: int| 0 <= i < new_rest.len() implies (#[trigger] new_rest[i] matches Ok(
                    t,
                ) ==> token_ok(self.src.spec_bytes(), t)) by {
                    assert(new_rest[i] == old_rest[i + 1]);
                }
            }
        }
        r
    }

    /// Returns the current token without advancing if is not the end of the file,
    /// otherwise it returns `None`
    fn peek_token(&mut self) -> (r: Option<Token>)
        requires
            old(self).wf(),
        ensures
            final(self).wf(),
            final(self).ctx() == old(self).ctx(),
            (r, final(self).state()) == peek(old(self).state()),
            r matches Some(t) ==> token_ok(final(self).ctx().src, t),
    {
        proof {
            lemma_drain(self.state());
        }
        loop
            invariant
                self.wf(),
                self.ctx() == old(self).ctx(),
                drain(self.state()) == drain(old(self).state()),
            decreases self.rest().len(),
        {
            self.fill();
            let is_err = match &self.peeked {
                Some(Some(Err(_))) => true,
                _ => false,
            };
            if is_err {
                let ghost st = self.state();
                let ghost e0 = self.errors@;
                let x = self.next_item();
                if let Some(Err(d)) = x {
                    self.errors.push(d);
                    proof {
                        lemma_diags_push(e0, d);
                        assert(st.rest[0] == Err::<Token, DiagnosticV>(d@));
                        assert(st.rest.drop_first() =~= self.state().rest);
                    }
                } else {
                    assert(false);
                }
            } else {
                let ghost st = self.state();
                proof {
                    assert(drain(st) == st);
                    lemma_peek_advance(st);
                }
                return match &self.peeked {
                    Some(Some(Ok(t))) => {
                        proof {
                            assert(st.rest[0] == Ok::<Token, DiagnosticV>(*t));
                        }
                        Some(*t)
                    },
                    _ => None,
                };
            }
        }
    }

    /// Returns the current token advancing if is not the end of the file,
    /// otherwise it returns `None`
    fn next_token(&mut self) -> (r: Option<Token>)
        requires
            old(self).wf(),
        ensures
            final(self).wf(),
            final(self).ctx() == old(self).ctx(),
            (r, final(self).state()) == advance(old(self).state()),
            r matches Some(t) ==> token_ok(final(self).ctx().src, t),
    {
        proof {
            lemma_drain(self.state());
        }
        loop
            invariant
                self.wf(),
                self.ctx() == old(self).ctx(),
                drain(self.state()) == drain(old(self).state()),
            decreases self.rest().len(),
        {
            let ghost st = self.state();
            let ghost e0 = self.errors@;
            let x = self.next_item();
            match x {
                None => {
                    return None;
                },
                Some(Ok(t)) => {
                    proof {
                        assert(st.rest[0] == Ok::<Token, DiagnosticV>(t));
                        assert(drain(st) == st);
                        assert(st.rest.drop_first() =~= self.state().rest);
                        assert(st.rest[0] matches Ok(t) ==> token_ok(self.ctx().src, t));
                    }
                    return Some(t);
                },
                Some(Err(d)) => {
                    self.errors.push(d);
                    proof {
                        lemma_diags_push(e0, d);
                        assert(st.rest[0] == Err::<Token, DiagnosticV>(d@));
                        assert(st.rest.drop_first() =~= self.state().rest);
                    }
                },
            }
        }
    }

    /// Skips tokens until it reaches a synchronization point (a `;`, `var`, or `func`)
    fn synchronize(&mut self)
        requires
            old(self).wf(),
        ensures
            final(self).wf(),
            final(self).ctx() == old(self).ctx(),
            final(self).state() == synchronize(old(self).state()),
    {
        self.next_token();
        loop
            invariant
                self.wf(),
                self.ctx() == old(self).ctx(),
                sync_loop(self.state()) == synchronize(old(self).state()),
            decreases self.rest().len(),
        {
            let ghost st = self.state();
            proof {
                lemma_peek_advance(st);
                lemma_drain_idem(st);
            }
            match self.peek_token() {
                None => {
                    return ;
                },
                Some(tok) => {
                    if tok.kind == TokenKind::Semi || tok.kind == TokenKind::VarKw || tok.kind
                        == TokenKind::FuncKw {
                        return ;
                    }
                    proof {
                        lemma_peek_advance(self.state());
                    }
                    self.next_token();
                },
            }
        }
    }

    /// Takes a [`TokenKind`] and checks if the current tokens matchs the type,
    /// returns the token if it match, or returns the token's span if not
    fn expect(&mut self, kind: TokenKind, msg: String, eof_msg: String, label_msg: String) -> (r:
        Result<Token, (usize, usize)>)
        requires
            old(self).wf(),
        ensures
            final(self).wf(),
            final(self).ctx() == old(self).ctx(),
            (r, final(self).state()) == expect(
                old(self).ctx(),
                old(self).state(),
                kind,
                msg@,
                eof_msg@,
                label_msg@,
            ),
            r matches Ok(t) ==> token_ok(final(self).ctx().src, t),
    {
        match self.next_token() {
            Some(tk) => {
                if tk.kind == kind {
                    Ok(tk)
                } else {
                    let ghost e0 = self.errors@;
                    let d = Diagnostic::error(msg, self.file_id, tk.span.0, tk.span.1, label_msg);
                    self.errors.push(d);
                    proof {
                        lemma_diags_push(e0, d);
                    }
                    self.synchronize();
                    Err(tk.span)
                }
            },
            None => {
                let n = self.src.len();
                let ghost e0 = self.errors@;
                let d = Diagnostic::error(
                    String::from_str("unexpected end of file"),
                    self.file_id,
                    n - 1,
                    n,
                    eof_msg,
                );
                self.errors.push(d);
                proof {
                    lemma_diags_push(e0, d);
                }
                Err((n - 1, n))
            },
        }
    }

    /// The text of a token (`&src[span.0..span.1]`).
    fn get_span(&self, t: Token) -> (r: &'parser str)
        requires
            self.wf(),
            token_ok(self.ctx().src, t),
        ensures
            r.spec_bytes() == self.ctx().src.subrange(t.span.0 as int, t.span.1 as int),
            r@ == span_text(self.ctx().src, t.span.0 as int, t.span.1 as int),
    {
        proof {
            let b = self.src.spec_bytes();
            assert(valid_utf8(b));
            assert(b[t.span.0 as int] < 0x80);
            assert(b[t.span.1 - 1] < 0x80);
            lemma_ascii_is_boundary(b, t.span.0 as int);
            lemma_ascii_is_boundary(b, t.span.1 - 1);
        }
        substr(self.src, t.span.0, t.span.1)
    }

    fn parse_expr(&mut self) -> (r: Result<Expr<'parser>, ParseAbort>)
        requires
            old(self).wf(),
        ensures
            final(self).wf(),
            final(self).ctx() == old(self).ctx(),
            outcome(r, parse_expr(old(self).ctx(), old(self).state()), final(self).state()),
    {
        let start_span = match self.peek_token() {
            Some(t) => t.span,
            None => (0, 0),
        };
        proof {
            lemma_drain_idem(old(self).state());
        }
        if let Some(token) = self.next_token() {
            if token.kind == TokenKind::Int {
                match parse_isize(self.src.as_bytes(), token.span.0, token.span.1) {
                    Some(v) => Ok(Expr::Literal(Literal::Integer(v))),
                    None => Err(ParseAbort::IntegerOverflow),
                }
            } else {
                let text = self.get_span(token);
                let mut msg = String::from_str("expected an expression, found `");
                msg.append(text);
                msg.append("` instead");
                let ghost e0 = self.errors@;
                let d = Diagnostic::error(
                    msg,
                    self.file_id,
                    token.span.0,
                    token.span.1,
                    String::from_str("expected expression"),
                );
                self.errors.push(d);
                proof {
                    lemma_diags_push(e0, d);
                }
                self.synchronize();
                Ok(Expr::Error(start_span))
            }
        } else {
            let ghost e0 = self.errors@;
            let d = Diagnostic::error(
                String::from_str("unexpected end of file"),
                self.file_id,
                start_span.0,
                start_span.1,
                String::from_str("expected an expression"),
            );
            self.errors.push(d);
            proof {
                lemma_diags_push(e0, d);
            }
            return Ok(Expr::Error(start_span));
        }
    }

    fn parse_stmt_var_decl(&mut self) -> (r: Result<Stmt<'parser>, ParseAbort>)
        requires
            old(self).wf(),
        ensures
            final(self).wf(),
            final(self).ctx() == old(self).ctx(),
            outcome(r, parse_var_decl(old(self).ctx(), old(self).state()), final(self).state()),
    {
        let start_span = match self.peek_token() {
            Some(t) => t.span,
            None => (0, 0),
        };
        proof {
            lemma_drain_idem(old(self).state());
        }
        // consume `var`
        self.next_token();
        let curr = match self.peek_token() {
            Some(t) => t.kind,
            None => {
                return Err(ParseAbort::UnexpectedEof);
            },
        };
        let mut m1 = String::from_str("expected identifier after `var`, found ");
        let k1 = curr.to_string();
        m1.append(k1.as_str());
        m1.append(" instead");
        let name = match self.expect(
            TokenKind::Id,
            m1,
            String::from_str("unterminated `var` statemet"),
            String::from_str("expected identifier"),
        ) {
            Ok(tok) => tok,
            Err(span) => {
                return Ok(Stmt::Error((start_span.0, span.1)));
            },
        };
        // an explicit type is not accepted yet; the type is left to inference
        let ty = Ty::Unknown;
        let curr = match self.peek_token() {
            Some(t) => t.kind,
            None => {
                return Err(ParseAbort::UnexpectedEof);
            },
        };
        let mut m2 = String::from_str("expected `=`, found ");
        let k2 = curr.to_string();
        m2.append(k2.as_str());
        m2.append(" instead");
        match self.expect(
            TokenKind::Assign,
            m2,
            String::from_str("unterminaded variable declaration"),
            String::from_str("expected `=` here"),
        ) {
            Ok(_) => {},
            Err(span) => {
                return Ok(Stmt::Error((start_span.0, span.1)));
            },
        }
        let expr = match self.parse_expr() {
            Ok(e) => e,
            Err(a) => {
                return Err(a);
            },
        };
        match self.expect(
            TokenKind::Semi,
            String::from_str("expected `;` after variable declaration"),
            String::from_str("unterminated variable declaration"),
            String::from_str("expected `;` here"),
        ) {
            Ok(_) => {},
            Err(span) => {
                return Ok(Stmt::Error((start_span.0, span.1)));
            },
        }
        Ok(Stmt::VarDecl { name: self.get_span(name), ty, expr })
    }

    fn parse_stmt_block(&mut self) -> (r: Result<Stmt<'parser>, ParseAbort>)
        requires
            old(self).wf(),
        ensures
            final(self).wf(),
            final(self).ctx() == old(self).ctx(),
            outcome(r, parse_block(old(self).ctx(), old(self).state()), final(self).state()),
        decreases old(self).state().rest.len(), 1int,
    {
        let ghost ctx = self.ctx();
        proof {
            lemma_peek_advance(self.state());
        }
        match self.expect(
            TokenKind::OpenBrace,
            String::from_str("expected `{`"),
            String::from_str("unterminaded block statement"),
            String::from_str("expected `{` here"),
        ) {
            Ok(_) => {},
            Err(span) => {
                return Ok(Stmt::Error(span));
            },
        }
        let ghost s1 = self.state();
        let mut stmts: Vec<Stmt<'parser>> = Vec::new();
        assert(stmt_seq_view(stmts@) =~= Seq::<StmtV>::empty());
        #[verifier::loop_isolation(false)]
        loop
            invariant
                self.wf(),
                self.ctx() == ctx,
                s1.rest.len() < old(self).state().rest.len(),
                self.state().rest.len() <= s1.rest.len(),
                block_loop(ctx, self.state(), stmt_seq_view(stmts@)) == block_loop(
                    ctx,
                    s1,
                    seq![],
                ),
            decreases self.state().rest.len(),
        {
            let ghost cur = self.state();
            proof {
                lemma_peek_advance(cur);
                lemma_drain_idem(cur);
                lemma_block_loop_guard(ctx, cur);
            }
            match self.peek_token() {
                None => {
                    return Err(ParseAbort::UnexpectedEof);
                },
                Some(t) => {
                    if t.kind == TokenKind::CloseBrace {
                        break ;
                    }
                },
            }
            let st = match self.parse_stmt() {
                Ok(x) => x,
                Err(a) => {
                    return Err(a);
                },
            };
            proof {
                lemma_stmt_seq_view_push(stmts@, st);
            }
            stmts.push(st);
        }
        match self.expect(
            TokenKind::CloseBrace,
            String::from_str("expected `}`"),
            String::from_str("unterminaded block statement"),
            String::from_str("expected `}` here"),
        ) {
            Ok(_) => {},
            Err(span) => {
                return Ok(Stmt::Error(span));
            },
        }
        Ok(Stmt::Block { stmts })
    }

    /// Parses a statement: a variable declaration or a block.
    pub fn parse_stmt(&mut self) -> (r: Result<Stmt<'parser>, ParseAbort>)
        requires
            old(self).wf(),
        ensures
            final(self).wf(),
            final(self).ctx() == old(self).ctx(),
            outcome(r, parse_stmt(old(self).ctx(), old(self).state()), final(self).state()),
        decreases old(self).state().rest.len(), 2int,
    {
        proof {
            lemma_peek_advance(self.state());
            lemma_drain_idem(self.state());
        }
        match self.peek_token() {
            Some(tk) => {
                if tk.kind == TokenKind::VarKw {
                    self.parse_stmt_var_decl()
                } else if tk.kind == TokenKind::OpenBrace {
                    self.parse_stmt_block()
                } else {
                    let span = tk.span;
                    let ghost e0 = self.errors@;
                    let d = Diagnostic::error(
                        String::from_str("expected an statement"),
                        self.file_id,
                        span.0,
                        span.1,
                        String::new(),
                    );
                    self.errors.push(d);
                    proof {
                        lemma_diags_push(e0, d);
                    }
                    self.synchronize();
                    Ok(Stmt::Error(span))
                }
            },
            None => {
                let n = self.src.len();
                let ghost e0 = self.errors@;
                let d = Diagnostic::error(
                    String::from_str("unexpected end of file, expected an statement"),
                    self.file_id,
                    n,
                    n,
                    String::from_str("expected an statement"),
                );
                self.errors.push(d);
                proof {
                    lemma_diags_push(e0, d);
                }
                Ok(Stmt::Error((n, n)))
            },
        }
    }

    fn parse_item_func_decl(&mut self) -> (r: Result<AstItem<'parser>, ParseAbort>)
        requires
            old(self).wf(),
        ensures
            final(self).wf(),
            final(self).ctx() == old(self).ctx(),
            outcome(r, parse_func_decl(old(self).ctx(), old(self).state()), final(self).state()),
    {
        let start_span = match self.peek_token() {
            Some(t) => t.span,
            None => (0, 0),
        };
        proof {
            lemma_drain_idem(old(self).state());
        }
        // consume `func`
        self.next_token();
        let name = match self.expect(
            TokenKind::Id,
            String::from_str("expected identifier after `func`"),
            String::from_str("unterminaded function declaration"),
            String::from_str("expected identifier"),
        ) {
            Ok(tk) => tk,
            Err(span) => {
                return Ok(AstItem::Error((start_span.0, span.1)));
            },
        };
        match self.expect(
            TokenKind::OpenParen,
            String::from_str("expected `(` after function name"),
            String::from_str("unterminaded function declaration"),
            String::from_str("expected `(`"),
        ) {
            Ok(_) => {},
            Err(span) => {
                return Ok(AstItem::Error((start_span.0, span.1)));
            },
        }
        let args: Vec<(Expr<'parser>, Ty)> = Vec::new();
        match self.expect(
            TokenKind::CloseParen,
            String::from_str("expected `)`, functions doesn't support parameters yet"),
            String::from_str("unterminaded function declaration"),
            String::from_str("expected `)`"),
        ) {
            Ok(_) => {},
            Err(span) => {
                return Ok(AstItem::Error((start_span.0, span.1)));
            },
        }
        // a return type is not accepted yet; functions return nothing
        let ret = Ty::Void;
        let body = match self.parse_stmt_block() {
            Ok(b) => b,
            Err(a) => {
                return Err(a);
            },
        };
        let item = AstItem::Function { name: self.get_span(name), args, ret, body };
        assert(args@.map_values(|a: (Expr<'parser>, Ty)| (a.0@, a.1)) =~= Seq::<(ExprV, Ty)>::empty());
        Ok(item)
    }

    fn parse_item(&mut self) -> (r: Result<AstItem<'parser>, ParseAbort>)
        requires
            old(self).wf(),
        ensures
            final(self).wf(),
            final(self).ctx() == old(self).ctx(),
            outcome(r, parse_item(old(self).ctx(), old(self).state()), final(self).state()),
    {
        proof {
            lemma_peek_advance(self.state());
            lemma_drain_idem(self.state());
        }
        match self.peek_token() {
            Some(tk) => {
                if tk.kind == TokenKind::FuncKw {
                    self.parse_item_func_decl()
                } else {
                    let span = tk.span;
                    let ghost e0 = self.errors@;
                    let d = Diagnostic::error(
                        String::from_str("expected an item"),
                        self.file_id,
                        span.0,
                        span.1,
                        String::new(),
                    ).with_note(String::from_str("an item can be either a function or a constant"));
                    self.errors.push(d);
                    proof {
                        lemma_diags_push(e0, d);
                    }
                    self.synchronize();
                    Ok(AstItem::Error(span))
                }
            },
            None => {
                let n = self.src.len();
                let ghost e0 = self.errors@;
                let d = Diagnostic::error(
                    String::from_str("unexpected end of file, expected an item"),
                    self.file_id,
                    n,
                    n,
                    String::from_str("expected an item"),
                );
                self.errors.push(d);
                proof {
                    lemma_diags_push(e0, d);
                }
                Ok(AstItem::Error((n, n)))
            },
        }
    }

    /// Parses the whole input into a module of items, reporting the problems
    /// it finds into `errors`.
    pub fn parse(&mut self) -> (r: Result<AstModule<'parser>, ParseAbort>)
        requires
            old(self).wf(),
        ensures
            final(self).wf(),
            final(self).ctx() == old(self).ctx(),
            outcome(r, parse_module(old(self).ctx(), old(self).state()), final(self).state()),
    {
        let ghost ctx = self.ctx();
        let mut items: Vec<AstItem<'parser>> = Vec::new();
        assert(items@.map_values(|i: AstItem<'parser>| i@) =~= Seq::<AstItemV>::empty());
        #[verifier::loop_isolation(false)]
        loop
            invariant
                self.wf(),
                self.ctx() == ctx,
                items_loop(ctx, self.state(), items@.map_values(|i: AstItem<'parser>| i@))
                    == items_loop(ctx, old(self).state(), seq![]),
            decreases self.state().rest.len(),
        {
            let ghost cur = self.state();
            proof {
                lemma_peek_advance(cur);
                lemma_drain_idem(cur);
                lemma_parse_item_progress(ctx, peek(cur).1);
            }
            match self.peek_token() {
                None => {
                    break ;
                },
                Some(_) => {},
            }
            let it = match self.parse_item() {
                Ok(x) => x,
                Err(a) => {
                    return Err(a);
                },
            };
            let ghost old_items = items@;
            items.push(it);
            assert(items@.map_values(|i: AstItem<'parser>| i@) =~= old_items.map_values(
                |i: AstItem<'parser>| i@,
            ).push(it@));
        }
        Ok(AstModule { file_id: self.file_id, items })
    }
}

} // verus!
