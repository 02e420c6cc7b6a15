//! Byte positions in UTF-8 text.
//!
//! A text is modelled by its UTF-8 encoding, a `Seq<u8>`, and every position is a byte offset
//! into it. The functions here read and cut a `str` at such offsets.

use vstd::prelude::*;
use vstd::string::*;
use vstd::utf8::*;

verus! {

/// Whether `p` is a character boundary of the encoded text `b`.
pub open spec fn is_pos(b: Seq<u8>, p: int) -> bool {
    0 <= p <= b.len() && (p == b.len() || !is_continuation_byte(b[p]))
}

/// Every character of `b` is ASCII, and none is a carriage return.
pub open spec fn plain_text(b: Seq<u8>) -> bool {
    forall|i: int| 0 <= i < b.len() ==> #[trigger] b[i] < 0x80 && b[i] != 0x0d
}

/// Encoded width of the character whose first byte is `lead`.
pub open spec fn lead_width(lead: u8) -> int {
    if lead < 0x80 {
        1
    } else if lead < 0xe0 {
        2
    } else if lead < 0xf0 {
        3
    } else {
        4
    }
}

/// Encoded width of `c`.
pub open spec fn char_width(c: char) -> int {
    encode_scalar(c as u32).len() as int
}

/// The character that starts at the boundary `p`.
pub open spec fn char_at(b: Seq<u8>, p: int) -> char {
    decode_first_scalar(b.subrange(p, b.len() as int)) as char
}

/// The boundary right after the character that starts at `p`.
pub open spec fn after_char(b: Seq<u8>, p: int) -> int {
    p + lead_width(b[p])
}

/// The text `b` with the bytes `a..z` replaced by `ins`.
pub open spec fn spliced(b: Seq<u8>, a: int, z: int, ins: Seq<u8>) -> Seq<u8> {
    b.subrange(0, a) + ins + b.subrange(z, b.len() as int)
}

/// `unit` written `n` times.
pub open spec fn repeated(unit: Seq<u8>, n: nat) -> Seq<u8>
    decreases n,
{
    if n == 0 {
        Seq::empty()
    } else {
        repeated(unit, (n - 1) as nat) + unit
    }
}

/// Unicode's `White_Space` property.
pub open spec fn is_white_space(c: char) -> bool {
    let u = c as u32;
    ||| 0x9 <= u <= 0xd
    ||| u == 0x20
    ||| u == 0x85
    ||| u == 0xa0
    ||| u == 0x1680
    ||| 0x2000 <= u <= 0x200a
    ||| u == 0x2028
    ||| u == 0x2029
    ||| u == 0x202f
    ||| u == 0x205f
    ||| u == 0x3000
}

/// Whether a whitespace character starts at `p`.
pub open spec fn white_at(b: Seq<u8>, p: int) -> bool {
    0 <= p < b.len() && is_white_space(char_at(b, p))
}

/// Encoding is a homomorphism for concatenation.
pub proof fn lemma_encode_concat(s: Seq<char>, t: Seq<char>)
    ensures
        encode_utf8(s + t) == encode_utf8(s) + encode_utf8(t),
    decreases s.len(),
{
    if s.len() == 0 {
        assert(s + t =~= t);
        assert(encode_utf8(s) + encode_utf8(t) =~= encode_utf8(t));
    } else {
        lemma_encode_concat(s.drop_first(), t);
        assert((s + t).drop_first() =~= s.drop_first() + t);
        assert(encode_utf8(s + t) =~= encode_utf8(s) + encode_utf8(t));
    }
}

/// The local test for a boundary agrees with the one that walks the text.
pub proof fn lemma_pos_is_boundary(b: Seq<u8>, p: int)
    requires
        valid_utf8(b),
        is_pos(b, p),
    ensures
        is_char_boundary(b, p),
{
    is_char_boundary_start_end_of_seq(b);
    if p < b.len() {
        is_char_boundary_iff_not_is_continuation_byte(b, p);
    }
}

/// Shape of the character at a boundary: it lies within the text and ends at a boundary, with
/// continuation bytes only in between.
pub proof fn lemma_char(b: Seq<u8>, p: int)
    requires
        valid_utf8(b),
        is_pos(b, p),
        p < b.len(),
    ensures
        1 <= lead_width(b[p]) <= 4,
        after_char(b, p) <= b.len(),
        is_pos(b, after_char(b, p)),
        forall|q: int| p < q < after_char(b, p) ==> is_continuation_byte(#[trigger] b[q]),
        valid_first_scalar(b.subrange(p, b.len() as int)),
        length_of_first_scalar(b.subrange(p, b.len() as int)) == lead_width(b[p]),
        char_width(char_at(b, p)) == lead_width(b[p]),
{
    let s = b.subrange(p, b.len() as int);
    lemma_pos_is_boundary(b, p);
    valid_utf8_split(b, p);
    assert(valid_utf8(s));
    assert(s[0] == b[p]);
    let w = length_of_first_scalar(s);
    let rest = pop_first_scalar(s);
    assert(valid_utf8(rest));
    if p + w < b.len() {
        assert(rest[0] == b[p + w]);
    }
    assert forall|q: int| p < q < p + w implies is_continuation_byte(#[trigger] b[q]) by {
        assert(b[q] == s[q - p]);
    }
    decode_utf8_first_scalar(s);
}

/// No boundary lies strictly inside a character.
pub proof fn lemma_char_interior(b: Seq<u8>, p: int, q: int)
    requires
        valid_utf8(b),
        is_pos(b, p),
        p < b.len(),
        p < q < after_char(b, p),
    ensures
        !is_pos(b, q),
{
    lemma_char(b, p);
}

/// An ASCII byte is a whole character.
pub proof fn lemma_ascii(b: Seq<u8>, p: int)
    requires
        valid_utf8(b),
        0 <= p < b.len(),
        b[p] < 0x80,
    ensures
        is_pos(b, p),
        is_pos(b, p + 1),
        after_char(b, p) == p + 1,
        char_at(b, p) as u32 == b[p] as u32,
{
    lemma_char(b, p);
    let s = b.subrange(p, b.len() as int);
    assert(s[0] == b[p]);
    let byte = b[p];
    assert(byte < 0x80 ==> (byte & 0x7f) == byte) by (bit_vector);
}

/// The last boundary at or before `p`.
pub open spec fn floor_pos(b: Seq<u8>, p: int) -> int
    decreases p,
{
    if p <= 0 {
        0
    } else if is_pos(b, p) {
        p
    } else {
        floor_pos(b, p - 1)
    }
}

/// The boundary right before the character that ends at `p`.
pub open spec fn before_char(b: Seq<u8>, p: int) -> int {
    floor_pos(b, p - 1)
}

pub proof fn lemma_floor_range(b: Seq<u8>, p: int)
    ensures
        0 <= floor_pos(b, p),
        p >= 0 ==> floor_pos(b, p) <= p,
    decreases p,
{
    if p > 0 && !is_pos(b, p) {
        lemma_floor_range(b, p - 1);
    }
}

/// A valid text starts with a character, so position 0 is a boundary.
pub proof fn lemma_zero_pos(b: Seq<u8>)
    requires
        valid_utf8(b),
    ensures
        is_pos(b, 0),
        is_pos(b, b.len() as int),
{
    if b.len() > 0 {
        assert(b.subrange(0, b.len() as int) =~= b);
    }
}

pub proof fn lemma_floor(b: Seq<u8>, p: int)
    requires
        valid_utf8(b),
        0 <= p <= b.len(),
    ensures
        is_pos(b, floor_pos(b, p)),
        floor_pos(b, p) <= p,
        forall|q: int| floor_pos(b, p) < q <= p ==> !is_pos(b, q),
    decreases p,
{
    lemma_zero_pos(b);
    if p > 0 && !is_pos(b, p) {
        lemma_floor(b, p - 1);
    }
}

/// The character that ends at a boundary starts at the boundary before it.
pub proof fn lemma_before_char(b: Seq<u8>, p: int)
    requires
        valid_utf8(b),
        is_pos(b, p),
        0 < p,
    ensures
        0 <= before_char(b, p) < p,
        is_pos(b, before_char(b, p)),
        after_char(b, before_char(b, p)) == p,
{
    lemma_floor(b, p - 1);
    let q = before_char(b, p);
    lemma_char(b, q);
    let e = after_char(b, q);
    if e < p {
        assert(is_pos(b, e));
    } else if p < e {
        lemma_char_interior(b, q, p);
    }
}

/// The last boundary before the end of a character is its start.
pub proof fn lemma_after_before(b: Seq<u8>, p: int)
    requires
        valid_utf8(b),
        is_pos(b, p),
        p < b.len(),
    ensures
        before_char(b, after_char(b, p)) == p,
{
    lemma_char(b, p);
    let e = after_char(b, p);
    lemma_floor(b, e - 1);
    let f = before_char(b, e);
    if f > p {
        lemma_char_interior(b, p, f);
    }
}

/// Boundaries survive a splice: those before it stay, those after it shift, and both of its own
/// edges are boundaries.
pub proof fn lemma_splice_pos(b: Seq<u8>, a: int, z: int, ins: Seq<u8>)
    requires
        valid_utf8(ins),
        is_pos(b, a),
        is_pos(b, z),
        a <= z,
    ensures
        spliced(b, a, z, ins).len() == b.len() - (z - a) + ins.len(),
        forall|p: int| 0 <= p <= a && is_pos(b, p) ==> is_pos(spliced(b, a, z, ins), p),
        forall|p: int| #![trigger is_pos(b, p)]
            z <= p && is_pos(b, p) ==> is_pos(spliced(b, a, z, ins), p - (z - a) + ins.len()),
        is_pos(spliced(b, a, z, ins), a),
        is_pos(spliced(b, a, z, ins), a + ins.len()),
{
    let n = spliced(b, a, z, ins);
    if ins.len() > 0 {
        assert(n[a] == ins[0]);
        assert(ins.subrange(0, ins.len() as int) =~= ins);
    } else if z < b.len() {
        assert(n[a] == b[z]);
    }
    assert forall|p: int| 0 <= p <= a && is_pos(b, p) implies is_pos(n, p) by {
        if p < a {
            assert(n[p] == b[p]);
        }
    }
    assert forall|p: int| #![trigger is_pos(b, p)] z <= p && is_pos(b, p) implies is_pos(
        n,
        p - (z - a) + ins.len(),
    ) by {
        if p < b.len() {
            assert(n[p - (z - a) + ins.len()] == b[p]);
        }
    }
}

/// Putting back what a splice removed gives back the text.
pub proof fn lemma_splice_inverse(b: Seq<u8>, a: int, z: int, ins: Seq<u8>)
    requires
        0 <= a <= z <= b.len(),
    ensures
        spliced(spliced(b, a, z, ins), a, a + ins.len(), b.subrange(a, z)) == b,
{
    assert(spliced(spliced(b, a, z, ins), a, a + ins.len(), b.subrange(a, z)) =~= b);
}

pub proof fn lemma_repeated_len(unit: Seq<u8>, n: nat)
    ensures
        repeated(unit, n).len() == unit.len() * n,
    decreases n,
{
    if n > 0 {
        lemma_repeated_len(unit, (n - 1) as nat);
        assert(unit.len() * n == unit.len() * (n - 1) + unit.len()) by (nonlinear_arith)
            requires
                n > 0,
        ;
    } else {
        assert(unit.len() * 0 == 0) by (nonlinear_arith);
    }
}

/// `String::push` appends one character.
pub assume_specification[ String::push ](s: &mut String, c: char)
    ensures
        final(s)@ == old(s)@.push(c),
;

/// Byte length of a text.
pub fn byte_len(s: &str) -> (n: usize)
    ensures
        n == encode_utf8(s@).len(),
{
    s.as_bytes().len()
}

/// The byte at `i`.
pub fn byte_at(s: &str, i: usize) -> (r: u8)
    requires
        i < encode_utf8(s@).len(),
    ensures
        r == encode_utf8(s@)[i as int],
{
    s.as_bytes()[i]
}

/// Whether `p` is a character boundary of `s`.
pub fn is_boundary(s: &str, p: usize) -> (r: bool)
    ensures
        r == is_pos(encode_utf8(s@), p as int),
{
    let n: usize = byte_len(s);
    if p >= n {
        p == n
    } else {
        let x: u8 = byte_at(s, p);
        x < 0x80 || x > 0xbf
    }
}

/// The part of `s` between two boundaries.
pub fn slice(s: &str, a: usize, z: usize) -> (r: &str)
    requires
        a <= z,
        is_pos(encode_utf8(s@), a as int),
        is_pos(encode_utf8(s@), z as int),
    ensures
        encode_utf8(r@) == encode_utf8(s@).subrange(a as int, z as int),
{
    let ghost b = encode_utf8(s@);
    proof {
        encode_utf8_valid_utf8(s@);
        lemma_pos_is_boundary(b, z as int);
    }
    let head: &str = s.split_at(z).0;
    proof {
        encode_utf8_valid_utf8(head@);
        let h = encode_utf8(head@);
        assert(h == b.subrange(0, z as int));
        assert(is_pos(h, a as int));
        lemma_pos_is_boundary(h, a as int);
    }
    let r: &str = head.split_at(a).1;
    proof {
        assert(encode_utf8(r@) =~= b.subrange(a as int, z as int));
    }
    r
}

/// The character that starts at the boundary `p`.
pub fn char_from(s: &str, p: usize) -> (c: char)
    requires
        is_pos(encode_utf8(s@), p as int),
        p < encode_utf8(s@).len(),
    ensures
        c == char_at(encode_utf8(s@), p as int),
{
    let n: usize = byte_len(s);
    proof {
        encode_utf8_valid_utf8(s@);
        lemma_zero_pos(encode_utf8(s@));
    }
    let tail: &str = slice(s, p, n);
    proof {
        assert(encode_utf8(tail@).len() > 0);
        reveal_with_fuel(encode_utf8, 1);
        assert(tail@.len() > 0);
        encode_utf8_first_scalar(tail@);
        char_u32_cast(tail@[0], decode_first_scalar(encode_utf8(tail@)));
    }
    let c: char = tail.get_char(0);
    c
}

/// The boundary after the character that starts at `p`.
pub fn next_char(s: &str, p: usize) -> (q: usize)
    requires
        is_pos(encode_utf8(s@), p as int),
        p < encode_utf8(s@).len(),
    ensures
        q == after_char(encode_utf8(s@), p as int),
        is_pos(encode_utf8(s@), q as int),
        p < q <= encode_utf8(s@).len(),
{
    let n: usize = byte_len(s);
    proof {
        encode_utf8_valid_utf8(s@);
        lemma_char(encode_utf8(s@), p as int);
        assert(after_char(encode_utf8(s@), p as int) <= n);
    }
    let x: u8 = byte_at(s, p);
    if x < 0x80 {
        p + 1
    } else if x < 0xe0 {
        p + 2
    } else if x < 0xf0 {
        p + 3
    } else {
        p + 4
    }
}

/// The last boundary at or before `p`.
pub fn floor(s: &str, p: usize) -> (q: usize)
    requires
        p <= encode_utf8(s@).len(),
    ensures
        q == floor_pos(encode_utf8(s@), p as int),
        is_pos(encode_utf8(s@), q as int),
        q <= p,
{
    let ghost b = encode_utf8(s@);
    proof {
        encode_utf8_valid_utf8(s@);
        lemma_floor(b, p as int);
    }
    let mut q: usize = p;
    while q > 0 && !is_boundary(s, q)
        invariant
            q <= p,
            b == encode_utf8(s@),
            floor_pos(b, q as int) == floor_pos(b, p as int),
        decreases q,
    {
        q = q - 1;
    }
    q
}

/// The boundary before the character that ends at `p`.
pub fn prev_char(s: &str, p: usize) -> (q: usize)
    requires
        is_pos(encode_utf8(s@), p as int),
        0 < p,
    ensures
        q == before_char(encode_utf8(s@), p as int),
        is_pos(encode_utf8(s@), q as int),
        q < p,
{
    floor(s, p - 1)
}

/// `s` with the bytes `a..z` replaced by `ins`.
pub fn splice(s: &str, a: usize, z: usize, ins: &str) -> (r: String)
    requires
        a <= z,
        is_pos(encode_utf8(s@), a as int),
        is_pos(encode_utf8(s@), z as int),
    ensures
        encode_utf8(r@) == spliced(encode_utf8(s@), a as int, z as int, encode_utf8(ins@)),
{
    let n: usize = byte_len(s);
    proof {
        encode_utf8_valid_utf8(s@);
        lemma_zero_pos(encode_utf8(s@));
    }
    let head: &str = slice(s, 0, a);
    let tail: &str = slice(s, z, n);
    let mut r: String = head.to_owned();
    r.append(ins);
    r.append(tail);
    proof {
        lemma_encode_concat(head@ + ins@, tail@);
        lemma_encode_concat(head@, ins@);
    }
    r
}

/// `unit` written `n` times.
pub fn repeat(unit: &str, n: usize) -> (r: String)
    ensures
        encode_utf8(r@) == repeated(encode_utf8(unit@), n as nat),
{
    let mut r: String = String::new();
    let mut i: usize = 0;
    while i < n
        invariant
            i <= n,
            encode_utf8(r@) == repeated(encode_utf8(unit@), i as nat),
        decreases n - i,
    {
        proof {
            lemma_encode_concat(r@, unit@);
        }
        r.append(unit);
        i = i + 1;
    }
    r
}

/// The text made of the one character `c`.
pub fn char_text(c: char) -> (r: String)
    ensures
        encode_utf8(r@) == encode_scalar(c as u32),
        encode_utf8(r@).len() == char_width(c),
{
    let mut r: String = String::new();
    r.push(c);
    proof {
        assert(r@ =~= seq![c]);
        assert(r@.drop_first() =~= Seq::<char>::empty());
        reveal_with_fuel(encode_utf8, 2);
        assert(encode_utf8(r@) =~= encode_scalar(c as u32));
    }
    r
}

/// Encoded width of `c`.
pub fn width(c: char) -> (n: usize)
    ensures
        n == char_width(c),
        1 <= n <= 4,
{
    let u: u32 = c as u32;
    if u <= 0x7f {
        1
    } else if u <= 0x7ff {
        2
    } else if u <= 0xffff {
        3
    } else {
        4
    }
}

/// Whether `c` is whitespace.
pub fn is_whitespace(c: char) -> (r: bool)
    ensures
        r == is_white_space(c),
{
    let u: u32 = c as u32;
    (0x9 <= u && u <= 0xd) || u == 0x20 || u == 0x85 || u == 0xa0 || u == 0x1680 || (0x2000 <= u
        && u <= 0x200a) || u == 0x2028 || u == 0x2029 || u == 0x202f || u == 0x205f || u == 0x3000
}

/// Whether two texts are the same.
pub fn same_text(s: &String, t: &String) -> (r: bool)
    ensures
        r == (encode_utf8(s@) == encode_utf8(t@)),
{
    proof {
        encode_utf8_decode_utf8(s@);
        encode_utf8_decode_utf8(t@);
    }
    *s == *t
}

} // verus!
