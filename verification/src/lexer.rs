//! Lexer/Tokenizer and Token definitions
use vstd::prelude::*;
use crate::diagnostic::{Diagnostic, DiagnosticV, error_diag};
use crate::text::push_char;
use vstd::string::StringSliceAdditionalSpecFns;

verus! {

/// The kind of a token.
#[derive(Debug, Clone, Copy, PartialEq, Eq, Structural)]
pub enum TokenKind {
    // Keywords
    VarKw,
    FuncKw,
    // Single-Character Symbols & Operators
    Assign,
    Semi,
    Colon,
    OpenParen,
    CloseParen,
    OpenBrace,
    CloseBrace,
    // Literals
    Int,
    Id,
}

/// The token types of the tree that the semantic analyzer, the type checker
/// and the C back end work on ([`crate::ast::Node`]): type names, the
/// variadic marker, and operators.
#[derive(Debug, Clone, Copy, PartialEq, Eq, Structural)]
pub enum TkType {
    IntT,
    FloatT,
    StringT,
    BoolT,
    VoidT,
    VaArgs,
    Error,
    Plus,
    Minus,
    Star,
    Slash,
    Lt,
    Gt,
    Le,
    Ge,
    Eq,
    Ne,
    And,
    Or,
    Not,
}

/// How a token kind is named in messages.
pub open spec fn kind_text(k: TokenKind) -> Seq<char> {
    match k {
        TokenKind::VarKw => "`var`"@,
        TokenKind::FuncKw => "`func`"@,
        TokenKind::Assign => "`=`"@,
        TokenKind::Semi => "`;`"@,
        TokenKind::Colon => "`:`"@,
        TokenKind::OpenParen => "`(`"@,
        TokenKind::CloseParen => "`)`"@,
        TokenKind::OpenBrace => "`{`"@,
        TokenKind::CloseBrace => "}"@,
        TokenKind::Int => "integer"@,
        TokenKind::Id => "identifier"@,
    }
}

impl TokenKind {
    /// How the token kind is named in messages.
    pub fn to_string(&self) -> (r: String)
        ensures
            r@ == kind_text(*self),
    {
        match self {
            TokenKind::VarKw => String::from_str("`var`"),
            TokenKind::FuncKw => String::from_str("`func`"),
            TokenKind::Assign => String::from_str("`=`"),
            TokenKind::Semi => String::from_str("`;`"),
            TokenKind::Colon => String::from_str("`:`"),
            TokenKind::OpenParen => String::from_str("`(`"),
            TokenKind::CloseParen => String::from_str("`)`"),
            TokenKind::OpenBrace => String::from_str("`{`"),
            TokenKind::CloseBrace => String::from_str("}"),
            TokenKind::Int => String::from_str("integer"),
            TokenKind::Id => String::from_str("identifier"),
        }
    }
}

/// A token: its kind and the byte range `span.0..span.1` it covers.
#[derive(Debug, Clone, Copy)]
pub struct Token {
    pub kind: TokenKind,
    pub span: (usize, usize),
}

/// What the lexer yields: a token, or the diagnostic of a byte that starts no token.
pub type LexItem = Result<Token, DiagnosticV>;

/// The view of a lexer result.
pub open spec fn item_view(r: Result<Token, Diagnostic>) -> LexItem {
    match r {
        Ok(t) => Ok(t),
        Err(d) => Err(d@),
    }
}

/// `u8::is_ascii_whitespace`
pub open spec fn is_ws(b: u8) -> bool {
    b == 0x20 || b == 0x09 || b == 0x0a || b == 0x0c || b == 0x0d
}

pub open spec fn is_alpha(b: u8) -> bool {
    (0x61 <= b <= 0x7a) || (0x41 <= b <= 0x5a)
}

pub open spec fn is_digit(b: u8) -> bool {
    0x30 <= b <= 0x39
}

/// A byte that may start an identifier or keyword.
pub open spec fn is_ident_start(b: u8) -> bool {
    is_alpha(b) || b == 0x5f
}

/// A byte that may continue an identifier or keyword.
pub open spec fn is_ident_char(b: u8) -> bool {
    is_alpha(b) || is_digit(b) || b == 0x5f
}

/// The first position at or after `c` that holds no whitespace.
pub open spec fn skip_ws(bytes: Seq<u8>, c: int) -> int
    decreases bytes.len() - c,
{
    if 0 <= c < bytes.len() && is_ws(bytes[c]) {
        skip_ws(bytes, c + 1)
    } else {
        c
    }
}

/// The first position at or after `c` that holds no identifier byte.
pub open spec fn ident_end(bytes: Seq<u8>, c: int) -> int
    decreases bytes.len() - c,
{
    if 0 <= c < bytes.len() && is_ident_char(bytes[c]) {
        ident_end(bytes, c + 1)
    } else {
        c
    }
}

/// The first position at or after `c` that holds no decimal digit.
pub open spec fn digits_end(bytes: Seq<u8>, c: int) -> int
    decreases bytes.len() - c,
{
    if 0 <= c < bytes.len() && is_digit(bytes[c]) {
        digits_end(bytes, c + 1)
    } else {
        c
    }
}

/// The kind of a word: a keyword or an identifier.
pub open spec fn keyword_kind(word: Seq<u8>) -> TokenKind {
    if word == seq![0x76u8, 0x61u8, 0x72u8] {
        TokenKind::VarKw
    } else if word == seq![0x66u8, 0x75u8, 0x6eu8, 0x63u8] {
        TokenKind::FuncKw
    } else {
        TokenKind::Id
    }
}

/// The kind of a single-character token.
pub open spec fn char_kind(b: u8) -> Option<TokenKind> {
    if b == 0x3d {
        Some(TokenKind::Assign)
    } else if b == 0x3b {
        Some(TokenKind::Semi)
    } else if b == 0x3a {
        Some(TokenKind::Colon)
    } else if b == 0x28 {
        Some(TokenKind::OpenParen)
    } else if b == 0x29 {
        Some(TokenKind::CloseParen)
    } else if b == 0x7b {
        Some(TokenKind::OpenBrace)
    } else if b == 0x7d {
        Some(TokenKind::CloseBrace)
    } else {
        None
    }
}

/// The diagnostic of the byte `b` at `start`, which starts no token.
pub open spec fn unknown_token_diag(file_id: usize, b: u8, start: usize) -> DiagnosticV {
    error_diag("unknown start of token: "@.push(b as char), file_id, start, start, Seq::empty())
}

/// One step of the lexer from position `c`: the item it yields and the
/// position after it, or `None` at the end of the input (a NUL byte).
pub open spec fn lex_step(bytes: Seq<u8>, file_id: usize, c: int) -> Option<(LexItem, int)> {
    let s = skip_ws(bytes, c);
    let b = bytes[s];
    if b == 0 {
        None
    } else if is_ident_start(b) {
        let e = ident_end(bytes, s);
        Some(
            (
                Ok(Token { kind: keyword_kind(bytes.subrange(s, e)), span: (s as usize, e as usize) }),
                e,
            ),
        )
    } else if is_digit(b) {
        let e = digits_end(bytes, s);
        Some((Ok(Token { kind: TokenKind::Int, span: (s as usize, e as usize) }), e))
    } else if char_kind(b) is Some {
        Some((Ok(Token { kind: char_kind(b).unwrap(), span: (s as usize, (s + 1) as usize) }), s + 1))
    } else {
        Some((Err(unknown_token_diag(file_id, b, s as usize)), s + 1))
    }
}

/// Everything the lexer yields from position `c` on, in order.
pub open spec fn lex_items(bytes: Seq<u8>, file_id: usize, c: int) -> Seq<LexItem>
    decreases bytes.len() - c,
{
    match lex_step(bytes, file_id, c) {
        None => seq![],
        Some((it, c2)) => if c < c2 <= bytes.len() {
            seq![it] + lex_items(bytes, file_id, c2)
        } else {
            seq![]
        },
    }
}

/// Source bytes the lexer accepts: they end with a NUL byte.
pub open spec fn nul_terminated(bytes: Seq<u8>) -> bool {
    bytes.len() > 0 && bytes.last() == 0
}

proof fn lemma_skip_ws_bound(bytes: Seq<u8>, c: int)
    requires
        nul_terminated(bytes),
        0 <= c < bytes.len(),
    ensures
        c <= skip_ws(bytes, c) < bytes.len(),
        !is_ws(bytes[skip_ws(bytes, c)]),
        forall|k: int| c <= k < skip_ws(bytes, c) ==> is_ws(#[trigger] bytes[k]),
    decreases bytes.len() - c,
{
    if is_ws(bytes[c]) {
        lemma_skip_ws_bound(bytes, c + 1);
    }
}

proof fn lemma_ident_end_bound(bytes: Seq<u8>, c: int)
    requires
        nul_terminated(bytes),
        0 <= c < bytes.len(),
    ensures
        c <= ident_end(bytes, c) < bytes.len(),
        !is_ident_char(bytes[ident_end(bytes, c)]),
        forall|k: int| c <= k < ident_end(bytes, c) ==> is_ident_char(#[trigger] bytes[k]),
    decreases bytes.len() - c,
{
    if is_ident_char(bytes[c]) {
        lemma_ident_end_bound(bytes, c + 1);
    }
}

proof fn lemma_digits_end_bound(bytes: Seq<u8>, c: int)
    requires
        nul_terminated(bytes),
        0 <= c < bytes.len(),
    ensures
        c <= digits_end(bytes, c) < bytes.len(),
        !is_digit(bytes[digits_end(bytes, c)]),
        forall|k: int| c <= k < digits_end(bytes, c) ==> is_digit(#[trigger] bytes[k]),
    decreases bytes.len() - c,
{
    if is_digit(bytes[c]) {
        lemma_digits_end_bound(bytes, c + 1);
    }
}

/// From a position inside NUL-terminated input, a lexer step either ends the
/// input or moves forward and stays inside it.
pub proof fn lemma_lex_step(bytes: Seq<u8>, file_id: usize, c: int)
    requires
        nul_terminated(bytes),
        0 <= c < bytes.len(),
    ensures
        lex_step(bytes, file_id, c) matches Some((it, c2)) ==> c < c2 < bytes.len() && lex_items(
            bytes,
            file_id,
            c,
        ) == seq![it] + lex_items(bytes, file_id, c2),
        lex_step(bytes, file_id, c) is None ==> lex_items(bytes, file_id, c) == Seq::<LexItem>::empty()
            && bytes[skip_ws(bytes, c)] == 0,
{
    lemma_skip_ws_bound(bytes, c);
    let s = skip_ws(bytes, c);
    if is_ident_start(bytes[s]) {
        lemma_ident_end_bound(bytes, s);
    } else if is_digit(bytes[s]) {
        lemma_digits_end_bound(bytes, s);
    }
}

/// A token of one lexer step lies between the step's start and end.
proof fn lemma_step_span(bytes: Seq<u8>, file_id: usize, c: int)
    requires
        nul_terminated(bytes),
        bytes.len() <= usize::MAX,
        0 <= c < bytes.len(),
    ensures
        lex_step(bytes, file_id, c) matches Some((Ok(t), c2)) ==> c <= t.span.0 && t.span.1 <= c2,
{
    lemma_skip_ws_bound(bytes, c);
    let s = skip_ws(bytes, c);
    if is_ident_start(bytes[s]) {
        lemma_ident_end_bound(bytes, s);
    } else if is_digit(bytes[s]) {
        lemma_digits_end_bound(bytes, s);
    }
}

/// Tokens come in source order and do not overlap: every token yielded from
/// position `c` on starts at or after `c`, and each token ends before any
/// later one starts.
pub proof fn law_tokens_in_order(bytes: Seq<u8>, file_id: usize, c: int)
    requires
        nul_terminated(bytes),
        bytes.len() <= usize::MAX,
        0 <= c < bytes.len(),
    ensures
        forall|i: int|
            0 <= i < lex_items(bytes, file_id, c).len() ==> (#[trigger] lex_items(bytes, file_id, c)[i]
                matches Ok(t) ==> c <= t.span.0),
        forall|i: int, j: int|
            0 <= i < j < lex_items(bytes, file_id, c).len() ==> (#[trigger] lex_items(
                bytes,
                file_id,
                c,
            )[i] matches Ok(a) ==> (#[trigger] lex_items(bytes, file_id, c)[j] matches Ok(b)
                ==> a.span.1 <= b.span.0)),
    decreases bytes.len() - c,
{
    lemma_lex_step(bytes, file_id, c);
    lemma_step_span(bytes, file_id, c);
    let items = lex_items(bytes, file_id, c);
    if let Some((it, c2)) = lex_step(bytes, file_id, c) {
        law_tokens_in_order(bytes, file_id, c2);
        let rest = lex_items(bytes, file_id, c2);
        assert(items == seq![it] + rest);
        assert forall|i: int| 0 <= i < items.len() implies (#[trigger] items[i] matches Ok(t) ==> c
            <= t.span.0) by {
            if i > 0 {
                assert(items[i] == rest[i - 1]);
            }
        }
        assert forall|i: int, j: int| 0 <= i < j < items.len() implies (#[trigger] items[i] matches Ok(
            a,
        ) ==> (#[trigger] items[j] matches Ok(b) ==> a.span.1 <= b.span.0)) by {
            assert(items[j] == rest[j - 1]);
            if i > 0 {
                assert(items[i] == rest[i - 1]);
            }
        }
    }
}

/// An ASCII letter, digit or underscore: the bytes a word (an identifier or
/// a keyword) is made of.
pub open spec fn is_word_byte(b: u8) -> bool {
    (0x61 <= b && b <= 0x7a) || (0x41 <= b && b <= 0x5a) || (0x30 <= b && b <= 0x39) || b == 0x5f
}

/// The token kinds of words: identifiers and keywords.
pub open spec fn is_word_kind(k: TokenKind) -> bool {
    k == TokenKind::Id || k == TokenKind::VarKw || k == TokenKind::FuncKw
}

/// A word token covers a whole word of the source.
pub open spec fn whole_word(bytes: Seq<u8>, t: Token) -> bool {
    &&& t.span.0 < t.span.1 < bytes.len()
    &&& ((0x61 <= bytes[t.span.0 as int] && bytes[t.span.0 as int] <= 0x7a) || (0x41
        <= bytes[t.span.0 as int] && bytes[t.span.0 as int] <= 0x5a) || bytes[t.span.0 as int]
        == 0x5f)
    &&& forall|k: int| t.span.0 <= k < t.span.1 ==> is_word_byte(#[trigger] bytes[k])
    &&& !is_word_byte(bytes[t.span.1 as int])
}

proof fn lemma_step_word(bytes: Seq<u8>, file_id: usize, c: int)
    requires
        nul_terminated(bytes),
        bytes.len() <= usize::MAX,
        0 <= c < bytes.len(),
    ensures
        lex_step(bytes, file_id, c) matches Some((Ok(t), _)) ==> (is_word_kind(t.kind) ==> whole_word(
            bytes,
            t,
        )),
{
    lemma_skip_ws_bound(bytes, c);
    let s = skip_ws(bytes, c);
    if is_ident_start(bytes[s]) {
        lemma_ident_end_bound(bytes, s);
    } else if is_digit(bytes[s]) {
        lemma_digits_end_bound(bytes, s);
    }
}

/// Words are lexed whole: every identifier or keyword token starts with an
/// ASCII letter or underscore, takes every following letter, digit and
/// underscore, and stops at the first other byte (so `x1` is one identifier).
pub proof fn law_words_are_whole(bytes: Seq<u8>, file_id: usize, c: int)
    requires
        nul_terminated(bytes),
        bytes.len() <= usize::MAX,
        0 <= c < bytes.len(),
    ensures
        forall|i: int|
            0 <= i < lex_items(bytes, file_id, c).len() ==> (#[trigger] lex_items(bytes, file_id, c)[i]
                matches Ok(t) ==> (is_word_kind(t.kind) ==> whole_word(bytes, t))),
    decreases bytes.len() - c,
{
    lemma_lex_step(bytes, file_id, c);
    lemma_step_word(bytes, file_id, c);
    let items = lex_items(bytes, file_id, c);
    if let Some((it, c2)) = lex_step(bytes, file_id, c) {
        law_words_are_whole(bytes, file_id, c2);
        let rest = lex_items(bytes, file_id, c2);
        assert(items == seq![it] + rest);
        assert forall|i: int| 0 <= i < items.len() implies (#[trigger] items[i] matches Ok(t) ==> (
        is_word_kind(t.kind) ==> whole_word(bytes, t))) by {
            if i > 0 {
                assert(items[i] == rest[i - 1]);
            }
        }
    }
}

/// A token as the lexer makes them: a non-empty span of ASCII bytes that ends
/// before the last byte of the source; an integer's bytes are digits.
pub open spec fn token_ok(src: Seq<u8>, t: Token) -> bool {
    &&& t.span.0 < t.span.1 < src.len()
    &&& forall|k: int| t.span.0 <= k < t.span.1 ==> #[trigger] src[k] < 0x80
    &&& t.kind == TokenKind::Int ==> forall|k: int|
        t.span.0 <= k < t.span.1 ==> is_digit(#[trigger] src[k])
}

/// Every token of `items` is as the lexer makes them.
pub open spec fn stream_ok(src: Seq<u8>, items: Seq<LexItem>) -> bool {
    forall|i: int| 0 <= i < items.len() ==> (#[trigger] items[i] matches Ok(t) ==> token_ok(src, t))
}

/// The tokens the lexer yields are as [`token_ok`] says.
pub proof fn lemma_lex_items_ok(bytes: Seq<u8>, file_id: usize, c: int)
    requires
        nul_terminated(bytes),
        bytes.len() <= usize::MAX,
        0 <= c < bytes.len(),
    ensures
        stream_ok(bytes, lex_items(bytes, file_id, c)),
    decreases bytes.len() - c,
{
    lemma_lex_step(bytes, file_id, c);
    lemma_skip_ws_bound(bytes, c);
    let s = skip_ws(bytes, c);
    if let Some((it, c2)) = lex_step(bytes, file_id, c) {
        lemma_lex_items_ok(bytes, file_id, c2);
        if is_ident_start(bytes[s]) {
            lemma_ident_end_bound(bytes, s);
        } else if is_digit(bytes[s]) {
            lemma_digits_end_bound(bytes, s);
        }
        let items = lex_items(bytes, file_id, c);
        let tail = lex_items(bytes, file_id, c2);
        assert forall|i: int| 0 <= i < items.len() implies (#[trigger] items[i] matches Ok(t)
            ==> token_ok(bytes, t)) by {
            if i > 0 {
                assert(items[i] == tail[i - 1]);
            } else {
                assert(items[0] == it);
                assert(bytes[s] != 0);
                assert(s != bytes.len() - 1);
                if let Ok(t) = it {
                    assert(t.span.0 == s);
                    if is_ident_start(bytes[s]) {
                        assert(t.kind != TokenKind::Int);
                    }
                    assert(token_ok(bytes, t));
                }
            }
        }
    }
}

#[derive(Clone)]
pub struct Lexer<'lex> {
    cursor: usize,
    bytes: &'lex [u8],
    file_id: usize,
}

impl<'lex> Lexer<'lex> {
    /// The source bytes.
    pub closed spec fn source(&self) -> Seq<u8> {
        self.bytes@
    }

    /// The file the diagnostics point into.
    pub closed spec fn file(&self) -> usize {
        self.file_id
    }

    /// The position the next token is looked for at.
    pub closed spec fn pos(&self) -> int {
        self.cursor as int
    }

    /// The lexer's state is consistent: the source ends with a NUL byte and the
    /// position lies inside it.
    pub open spec fn wf(&self) -> bool {
        nul_terminated(self.source()) && 0 <= self.pos() < self.source().len()
            && self.source().len() <= usize::MAX
    }

    /// Everything the lexer is still to yield.
    pub open spec fn items(&self) -> Seq<LexItem> {
        lex_items(self.source(), self.file(), self.pos())
    }

    /// A lexer at the start of `src`, whose diagnostics point into file `file_id`.
    pub fn new(src: &'lex str, file_id: usize) -> (l: Self)
        requires
            nul_terminated(src.spec_bytes()),
        ensures
            l.wf(),
            l.source() == src.spec_bytes(),
            l.file() == file_id,
            l.pos() == 0,
    {
        let bytes = src.as_bytes();
        let _ = bytes.len();
        Self { cursor: 0, bytes, file_id }
    }

    fn byte(&self) -> (b: u8)
        requires
            self.wf(),
        ensures
            b == self.source()[self.pos()],
    {
        self.bytes[self.cursor]
    }

    fn lookup_keyword(&self, start: usize) -> (k: TokenKind)
        requires
            start <= self.pos() <= self.source().len(),
        ensures
            k == keyword_kind(self.source().subrange(start as int, self.pos())),
    {
        let len = self.cursor - start;
        let ghost word = self.source().subrange(start as int, self.pos());
        if len == 3 && self.bytes[start] == 0x76 && self.bytes[start + 1] == 0x61 && self.bytes[start
            + 2] == 0x72 {
            assert(word =~= seq![0x76u8, 0x61u8, 0x72u8]);
            TokenKind::VarKw
        } else if len == 4 && self.bytes[start] == 0x66 && self.bytes[start + 1] == 0x75
            && self.bytes[start + 2] == 0x6e && self.bytes[start + 3] == 0x63 {
            assert(word =~= seq![0x66u8, 0x75u8, 0x6eu8, 0x63u8]);
            TokenKind::FuncKw
        } else {
            proof {
                if word == seq![0x76u8, 0x61u8, 0x72u8] {
                    assert(word.len() == 3 && word[0] == 0x76 && word[1] == 0x61 && word[2] == 0x72);
                }
                if word == seq![0x66u8, 0x75u8, 0x6eu8, 0x63u8] {
                    assert(word.len() == 4 && word[0] == 0x66 && word[1] == 0x75 && word[2] == 0x6e
                        && word[3] == 0x63);
                }
            }
            TokenKind::Id
        }
    }

    fn lookup_character(&self, c: u8) -> (k: Option<TokenKind>)
        ensures
            k == char_kind(c),
    {
        match c {
            0x3d => Some(TokenKind::Assign),
            0x3b => Some(TokenKind::Semi),
            0x3a => Some(TokenKind::Colon),
            0x28 => Some(TokenKind::OpenParen),
            0x29 => Some(TokenKind::CloseParen),
            0x7b => Some(TokenKind::OpenBrace),
            0x7d => Some(TokenKind::CloseBrace),
            _ => None,
        }
    }

    /// The next token, or the diagnostic of a byte that starts none; `None` at
    /// the end of the input, and from then on.
    pub fn next(&mut self) -> (r: Option<Result<Token, Diagnostic>>)
        requires
            old(self).wf(),
        ensures
            final(self).wf(),
            final(self).source() == old(self).source(),
            final(self).file() == old(self).file(),
            match r {
                None => old(self).items() == Seq::<LexItem>::empty() && final(self).items()
                    == Seq::<LexItem>::empty(),
                Some(x) => old(self).items() == seq![item_view(x)] + final(self).items(),
            },
            match (r, lex_step(old(self).source(), old(self).file(), old(self).pos())) {
                (None, None) => final(self).pos() == skip_ws(old(self).source(), old(self).pos()),
                (Some(x), Some((it, c2))) => item_view(x) == it && final(self).pos() == c2,
                _ => false,
            },
    {
        proof {
            lemma_lex_step(self.source(), self.file(), self.pos());
            lemma_skip_ws_bound(self.source(), self.pos());
        }
        let ghost c0 = self.pos();
        let ghost bytes = self.source();
        let ghost fid = self.file();
        loop
            invariant
                self.wf(),
                bytes == self.source(),
                fid == self.file(),
                c0 <= self.pos() <= skip_ws(bytes, c0),
                skip_ws(bytes, c0) < bytes.len(),
                forall|k: int| c0 <= k < skip_ws(bytes, c0) ==> is_ws(#[trigger] bytes[k]),
                !is_ws(bytes[skip_ws(bytes, c0)]),
            ensures
                self.wf(),
                bytes == self.source(),
                fid == self.file(),
                self.pos() == skip_ws(bytes, c0),
            decreases bytes.len() - self.pos(),
        {
            let c = self.byte();
            if c == 0x20 || c == 0x09 || c == 0x0a || c == 0x0c || c == 0x0d {
                self.cursor += 1;
            } else {
                break;
            }
        }
        let start = self.cursor;
        let b = self.byte();
        if b == 0 {
            proof {
                lemma_lex_step(bytes, self.file(), self.pos());
            }
            return None;
        }
        if (0x61 <= b && b <= 0x7a) || (0x41 <= b && b <= 0x5a) || b == 0x5f {
            proof {
                lemma_ident_end_bound(bytes, start as int);
            }
            loop
                invariant
                    self.wf(),
                    bytes == self.source(),
                    fid == self.file(),
                    start <= self.pos() <= ident_end(bytes, start as int),
                    ident_end(bytes, start as int) < bytes.len(),
                    forall|k: int|
                        start <= k < ident_end(bytes, start as int) ==> is_ident_char(
                            #[trigger] bytes[k],
                        ),
                    !is_ident_char(bytes[ident_end(bytes, start as int)]),
                ensures
                    self.wf(),
                    bytes == self.source(),
                    fid == self.file(),
                    self.pos() == ident_end(bytes, start as int),
                decreases bytes.len() - self.pos(),
            {
                let c = self.byte();
                if (0x61 <= c && c <= 0x7a) || (0x41 <= c && c <= 0x5a) || (0x30 <= c && c <= 0x39)
                    || c == 0x5f {
                    self.cursor += 1;
                } else {
                    break;
                }
            }
            let kind = self.lookup_keyword(start);
            return Some(Ok(Token { kind, span: (start, self.cursor) }));
        }
        if 0x30 <= b && b <= 0x39 {
            proof {
                lemma_digits_end_bound(bytes, start as int);
            }
            loop
                invariant
                    self.wf(),
                    bytes == self.source(),
                    fid == self.file(),
                    start <= self.pos() <= digits_end(bytes, start as int),
                    digits_end(bytes, start as int) < bytes.len(),
                    forall|k: int|
                        start <= k < digits_end(bytes, start as int) ==> is_digit(#[trigger] bytes[k]),
                    !is_digit(bytes[digits_end(bytes, start as int)]),
                ensures
                    self.wf(),
                    bytes == self.source(),
                    fid == self.file(),
                    self.pos() == digits_end(bytes, start as int),
                decreases bytes.len() - self.pos(),
            {
                let c = self.byte();
                if 0x30 <= c && c <= 0x39 {
                    self.cursor += 1;
                } else {
                    break;
                }
            }
            return Some(Ok(Token { kind: TokenKind::Int, span: (start, self.cursor) }));
        }
        if let Some(kind) = self.lookup_character(b) {
            self.cursor += 1;
            return Some(Ok(Token { kind, span: (start, self.cursor) }));
        }
        self.cursor += 1;
        let mut message = String::from_str("unknown start of token: ");
        push_char(&mut message, b as char);
        Some(Err(Diagnostic::error(message, self.file_id, start, start, String::new())))
    }
}

} // verus!
