//! Text helpers shared by the compiler passes: byte-range slicing of source
//! text, decimal rendering and parsing of integers, and byte comparison.
use vstd::prelude::*;
use vstd::utf8::*;
use vstd::string::StringSliceAdditionalSpecFns;

verus! {

broadcast use vstd::utf8::encode_utf8_valid_utf8, vstd::utf8::encode_utf8_decode_utf8;

/// `index` is a position of `bytes` at which a UTF-8 character starts (or the end).
pub open spec fn boundary(bytes: Seq<u8>, index: int) -> bool {
    0 <= index <= bytes.len() && is_char_boundary(bytes, index)
}

/// A byte range `[start, end)` of `bytes` whose ends are character boundaries.
pub open spec fn valid_span(bytes: Seq<u8>, start: int, end: int) -> bool {
    start <= end && boundary(bytes, start) && boundary(bytes, end)
}

/// The text of the byte range `[start, end)` of valid UTF-8 `bytes`.
pub open spec fn span_text(bytes: Seq<u8>, start: int, end: int) -> Seq<char> {
    decode_utf8(bytes.subrange(start, end))
}

/// In valid UTF-8, a character boundary holding an ASCII byte is followed by
/// another boundary.
pub proof fn lemma_boundary_after_ascii(bytes: Seq<u8>, j: int)
    requires
        valid_utf8(bytes),
        0 <= j < bytes.len(),
        is_char_boundary(bytes, j),
        bytes[j] < 0x80,
    ensures
        is_char_boundary(bytes, j + 1),
    decreases bytes.len(),
{
    let l = length_of_first_scalar(bytes);
    let rest = pop_first_scalar(bytes);
    if j == 0 {
        assert(l == 1);
        reveal_with_fuel(is_char_boundary, 2);
    } else {
        reveal_with_fuel(is_char_boundary, 2);
        assert(rest.len() < bytes.len());
        if j < l {
            assert(!is_char_boundary(rest, j - l));
        } else {
            assert(rest[j - l] == bytes[j]);
            lemma_boundary_after_ascii(rest, j - l);
        }
    }
}

/// An ASCII byte of valid UTF-8 starts a character.
pub proof fn lemma_ascii_is_boundary(bytes: Seq<u8>, j: int)
    requires
        valid_utf8(bytes),
        0 <= j < bytes.len(),
        bytes[j] < 0x80,
    ensures
        is_char_boundary(bytes, j),
        is_char_boundary(bytes, j + 1),
{
    is_char_boundary_iff_not_is_continuation_byte(bytes, j);
    lemma_boundary_after_ascii(bytes, j);
}

/// The substring of `s` between the byte offsets `start` and `end`
/// (`&s[start..end]`).
pub fn substr<'a>(s: &'a str, start: usize, end: usize) -> (r: &'a str)
    requires
        valid_span(s.spec_bytes(), start as int, end as int),
    ensures
        r.spec_bytes() == s.spec_bytes().subrange(start as int, end as int),
        r@ == span_text(s.spec_bytes(), start as int, end as int),
{
    let ghost bytes = s.spec_bytes();
    let (_, rest) = s.split_at(start);
    let ghost rbytes = rest.spec_bytes();
    assert(rbytes =~= bytes.subrange(start as int, bytes.len() as int));
    proof {
        assert(valid_utf8(rbytes));
        if end == start {
            is_char_boundary_start_end_of_seq(rbytes);
        } else if end as int == bytes.len() {
            is_char_boundary_start_end_of_seq(rbytes);
        } else {
            is_char_boundary_iff_not_is_continuation_byte(bytes, end as int);
            assert(rbytes[end - start] == bytes[end as int]);
            is_char_boundary_iff_not_is_continuation_byte(rbytes, end - start);
        }
    }
    let (mid, _) = rest.split_at(end - start);
    assert(mid.spec_bytes() =~= bytes.subrange(start as int, end as int));
    mid
}

/// Appends the character `c` to `s` by std's `String::push`. Trusted: the
/// contract claims, as that method's documentation says, that the characters
/// of `s` afterwards are those before followed by `c`.
#[verifier::external_body]
pub(crate) fn push_char(s: &mut String, c: char)
    ensures
        final(s)@ == old(s)@.push(c),
{
    s.push(c);
}

/// The character of a decimal digit.
pub open spec fn digit_char(d: int) -> char {
    (d + 48) as char
}

/// Decimal notation of a natural number, most significant digit first.
pub open spec fn nat_decimal(n: nat) -> Seq<char>
    decreases n,
{
    if n < 10 {
        seq![digit_char(n as int)]
    } else {
        nat_decimal(n / 10) + seq![digit_char((n % 10) as int)]
    }
}

/// Decimal notation of an integer, with a leading `-` when negative
/// (what `i.to_string()` gives).
pub open spec fn int_decimal(i: int) -> Seq<char> {
    if i < 0 {
        seq!['-'] + nat_decimal((-i) as nat)
    } else {
        nat_decimal(i as nat)
    }
}

fn append_nat_decimal(s: &mut String, n: u64)
    ensures
        final(s)@ == old(s)@ + nat_decimal(n as nat),
    decreases n,
{
    if n >= 10 {
        append_nat_decimal(s, n / 10);
    }
    let d = (n % 10) as u8;
    let c = (d + 48) as char;
    push_char(s, c);
}

/// Decimal rendering of a signed integer.
pub fn i64_to_string(i: i64) -> (r: String)
    ensures
        r@ == int_decimal(i as int),
{
    let mut s = String::new();
    if i < 0 {
        push_char(&mut s, '-');
        let m: u64 = if i == i64::MIN {
            9223372036854775808u64
        } else {
            (-i) as u64
        };
        append_nat_decimal(&mut s, m);
    } else {
        append_nat_decimal(&mut s, i as u64);
    }
    s
}

/// Decimal rendering of an unsigned integer.
pub fn usize_to_string(n: usize) -> (r: String)
    ensures
        r@ == nat_decimal(n as nat),
{
    let mut s = String::new();
    append_nat_decimal(&mut s, n as u64);
    s
}

/// Whether two byte strings are equal.
pub fn bytes_eq(a: &[u8], b: &[u8]) -> (r: bool)
    ensures
        r == (a@ == b@),
{
    if a.len() != b.len() {
        return false;
    }
    let mut i: usize = 0;
    while i < a.len()
        invariant
            a@.len() == b@.len(),
            0 <= i <= a@.len(),
            forall|k: int| 0 <= k < i ==> a@[k] == b@[k],
        decreases a@.len() - i,
    {
        if a[i] != b[i] {
            return false;
        }
        i = i + 1;
    }
    assert(a@ =~= b@);
    true
}

/// Whether two strings are equal.
pub fn str_eq(a: &str, b: &str) -> (r: bool)
    ensures
        r == (a.spec_bytes() == b.spec_bytes()),
{
    bytes_eq(a.as_bytes(), b.as_bytes())
}

} // verus!
