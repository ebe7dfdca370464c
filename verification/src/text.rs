//! Texts: how long they are in bytes, in what order they stand, and how they are put together.

use vstd::prelude::*;
use vstd::utf8::*;

verus! {

/// `String::push` of the standard library appends the character to the end of the string.
pub assume_specification[ String::push ](s: &mut String, ch: char)
    ensures
        final(s)@ == old(s)@.push(ch),
;

/// The number of bytes that `text` takes in UTF-8.
pub open spec fn byte_len(text: Seq<char>) -> nat {
    encode_utf8(text).len()
}

/// The number of bytes that one character takes in UTF-8.
pub open spec fn char_width(c: char) -> nat {
    encode_scalar(c as u32).len()
}

pub proof fn lemma_byte_len_concat(a: Seq<char>, b: Seq<char>)
    ensures
        byte_len(a + b) == byte_len(a) + byte_len(b),
    decreases a.len(),
{
    if a.len() == 0 {
        assert(a + b =~= b);
    } else {
        lemma_byte_len_concat(a.drop_first(), b);
        assert((a + b).drop_first() =~= a.drop_first() + b);
    }
}

pub proof fn lemma_byte_len_push(a: Seq<char>, c: char)
    ensures
        byte_len(a.push(c)) == byte_len(a) + char_width(c),
{
    lemma_byte_len_concat(a, seq![c]);
    assert(a + seq![c] =~= a.push(c));
    reveal_with_fuel(encode_utf8, 2);
    assert(seq![c].drop_first() =~= Seq::<char>::empty());
    assert(encode_scalar(c as u32) + Seq::<u8>::empty() =~= encode_scalar(c as u32));
    assert(byte_len(seq![c]) == char_width(c));
}

/// The length of `text` in bytes.
pub fn len_of(text: &str) -> (r: usize)
    ensures
        r == byte_len(text@),
{
    text.as_bytes().len()
}

/// The number of bytes that one character takes.
pub fn width_of(c: char) -> (r: usize)
    ensures
        r == char_width(c),
        1 <= r <= 4,
{
    let code: u32 = c as u32;
    if code < 0x80 {
        1
    } else if code < 0x800 {
        2
    } else if code < 0x1_0000 {
        3
    } else {
        4
    }
}

/// The text that holds `c` alone.
pub fn single(c: char) -> (r: String)
    ensures
        r@ == seq![c],
{
    let mut s = String::new();
    s.push(c);
    proof {
        assert(s@ =~= seq![c]);
    }
    s
}

/// `text`, followed by as many spaces as bring it to `width` bytes.
pub open spec fn padded(text: Seq<char>, width: int) -> Seq<char> {
    if byte_len(text) < width {
        text + spaces((width - byte_len(text)) as nat)
    } else {
        text
    }
}

/// A text of `n` spaces.
pub open spec fn spaces(n: nat) -> Seq<char> {
    Seq::new(n, |i: int| ' ')
}

/// Copies `text` and pads the copy with spaces to `width` bytes.
pub fn padded_to(text: &str, width: usize) -> (r: String)
    ensures
        r@ == padded(text@, width as int),
{
    let mut r: String = text.to_owned();
    let len: usize = len_of(text);
    let mut at: usize = len;
    proof {
        assert(text@ + spaces(0) =~= text@);
    }
    while at < width
        invariant
            len == byte_len(text@),
            len <= at,
            len < width ==> at <= width,
            len >= width ==> at == len,
            r@ == text@ + spaces((at - len) as nat),
        decreases width - at,
    {
        r.push(' ');
        at = at + 1;
        proof {
            assert(r@ =~= text@ + spaces((at - len) as nat));
        }
    }
    r
}

/// Whether `a` comes before `b` in the order of their bytes, as in a dictionary, or is equal to it.
pub open spec fn bytes_not_after(a: Seq<u8>, b: Seq<u8>) -> bool
    decreases a.len(),
{
    if a.len() == 0 {
        true
    } else if b.len() == 0 {
        false
    } else if a[0] != b[0] {
        a[0] < b[0]
    } else {
        bytes_not_after(a.drop_first(), b.drop_first())
    }
}

pub proof fn lemma_bytes_total(a: Seq<u8>, b: Seq<u8>)
    ensures
        bytes_not_after(a, b) || bytes_not_after(b, a),
    decreases a.len(),
{
    if a.len() > 0 && b.len() > 0 && a[0] == b[0] {
        lemma_bytes_total(a.drop_first(), b.drop_first());
    }
}

pub proof fn lemma_bytes_transitive(a: Seq<u8>, b: Seq<u8>, c: Seq<u8>)
    requires
        bytes_not_after(a, b),
        bytes_not_after(b, c),
    ensures
        bytes_not_after(a, c),
    decreases a.len(),
{
    if a.len() > 0 && b.len() > 0 && c.len() > 0 && a[0] == b[0] && b[0] == c[0] {
        lemma_bytes_transitive(a.drop_first(), b.drop_first(), c.drop_first());
    }
}

/// Whether `a` comes before `b` in the order of the bytes of their UTF-8, or is equal to it.
pub open spec fn not_after(a: Seq<char>, b: Seq<char>) -> bool {
    bytes_not_after(encode_utf8(a), encode_utf8(b))
}

/// Compares two texts by the bytes of their UTF-8.
pub fn is_not_after(a: &str, b: &str) -> (r: bool)
    ensures
        r == not_after(a@, b@),
{
    let x: &[u8] = a.as_bytes();
    let y: &[u8] = b.as_bytes();
    let mut i: usize = 0;
    proof {
        assert(x@.skip(0) =~= x@);
        assert(y@.skip(0) =~= y@);
    }
    while i < x.len() && i < y.len() && x[i] == y[i]
        invariant
            i <= x@.len(),
            i <= y@.len(),
            bytes_not_after(x@, y@) == bytes_not_after(x@.skip(i as int), y@.skip(i as int)),
        decreases x@.len() - i,
    {
        proof {
            assert(x@.skip(i as int).drop_first() =~= x@.skip(i + 1));
            assert(y@.skip(i as int).drop_first() =~= y@.skip(i + 1));
        }
        i = i + 1;
    }
    if i == x.len() {
        true
    } else if i == y.len() {
        false
    } else {
        x[i] < y[i]
    }
}

pub proof fn lemma_byte_len_insert(text: Seq<char>, at: int, c: char)
    requires
        0 <= at <= text.len(),
    ensures
        byte_len(text.insert(at, c)) == byte_len(text) + char_width(c),
        byte_len(text.insert(at, c)) >= byte_len(text) + 1,
{
    let front = text.take(at);
    let back = text.skip(at);
    assert(front + back =~= text);
    assert(front.push(c) + back =~= text.insert(at, c));
    lemma_byte_len_concat(front, back);
    lemma_byte_len_concat(front.push(c), back);
    lemma_byte_len_push(front, c);
}

/// A text has no more characters than bytes.
pub proof fn lemma_byte_len_at_least(text: Seq<char>)
    ensures
        byte_len(text) >= text.len(),
    decreases text.len(),
{
    if text.len() > 0 {
        lemma_byte_len_at_least(text.drop_last());
        lemma_byte_len_push(text.drop_last(), text.last());
        assert(text.drop_last().push(text.last()) =~= text);
    }
}

/// `text` with `c` inserted before character `at`.
pub fn inserted(text: &str, at: usize, c: char) -> (r: String)
    requires
        at <= text@.len(),
    ensures
        r@ == text@.insert(at as int, c),
{
    let mut r: String = text.substring_char(0, at).to_owned();
    r.push(c);
    r.append(text.substring_char(at, text.unicode_len()));
    proof {
        assert(r@ =~= text@.insert(at as int, c));
    }
    r
}

/// `text` without character `at`.
pub fn removed(text: &str, at: usize) -> (r: String)
    requires
        at < text@.len(),
    ensures
        r@ == text@.remove(at as int),
{
    let len: usize = text.unicode_len();
    let mut r: String = text.substring_char(0, at).to_owned();
    r.append(text.substring_char(at + 1, len));
    proof {
        assert(r@ =~= text@.remove(at as int));
    }
    r
}

proof fn lemma_spaces_len(n: nat)
    ensures
        byte_len(spaces(n)) == n,
    decreases n,
{
    if n > 0 {
        let m = (n - 1) as nat;
        lemma_spaces_len(m);
        lemma_byte_len_push(spaces(m), ' ');
        assert(spaces(m).push(' ') =~= spaces(n));
    }
}

/// A padded text is as wide as it was asked to be, or as it was where that is more.
pub proof fn lemma_padded_len(text: Seq<char>, width: int)
    ensures
        byte_len(padded(text, width)) == if byte_len(text) < width {
            width
        } else {
            byte_len(text) as int
        },
{
    if byte_len(text) < width {
        let n = (width - byte_len(text)) as nat;
        lemma_spaces_len(n);
        lemma_byte_len_concat(text, spaces(n));
    }
}

/// The character of a decimal digit.
pub open spec fn digit(d: nat) -> char {
    (d + 48) as char
}

/// A number in decimal.
pub open spec fn decimal(n: nat) -> Seq<char>
    decreases n,
{
    if n < 10 {
        seq![digit(n)]
    } else {
        decimal(n / 10).push(digit(n % 10))
    }
}

/// Writes a number in decimal.
pub fn decimal_of(n: usize) -> (r: String)
    ensures
        r@ == decimal(n as nat),
    decreases n,
{
    if n < 10 {
        single((n as u8 + 48) as char)
    } else {
        let mut r: String = decimal_of(n / 10);
        r.push(((n % 10) as u8 + 48) as char);
        r
    }
}

/// The length in bytes adds up over the characters, and a character takes one byte to four, the
/// more the larger its code is.
pub proof fn law_bytes_add_up(a: Seq<char>, b: Seq<char>, c: char)
    ensures
        byte_len(a + b) == byte_len(a) + byte_len(b),
        byte_len(a) == 0 <==> a.len() == 0,
        c as u32 <= 0x7f ==> byte_len(seq![c]) == 1,
        0x80 <= c as u32 <= 0x7ff ==> byte_len(seq![c]) == 2,
        0x800 <= c as u32 <= 0xffff ==> byte_len(seq![c]) == 3,
        0x1_0000 <= c as u32 ==> byte_len(seq![c]) == 4,
{
    lemma_byte_len_concat(a, b);
    lemma_byte_len_at_least(a);
    lemma_byte_len_push(Seq::empty(), c);
    assert(Seq::empty().push(c) =~= seq![c]);
    char_is_scalar(c);
}

proof fn lemma_bytes_decided(a: Seq<u8>, b: Seq<u8>, k: int)
    requires
        0 <= k < a.len(),
        k < b.len(),
        forall|i: int| 0 <= i < k ==> a[i] == b[i],
        a[k] < b[k],
    ensures
        bytes_not_after(a, b),
        !bytes_not_after(b, a),
    decreases k,
{
    if k > 0 {
        lemma_bytes_decided(a.drop_first(), b.drop_first(), k - 1);
    }
}

proof fn lemma_bytes_antisymmetric(a: Seq<u8>, b: Seq<u8>)
    requires
        bytes_not_after(a, b),
        bytes_not_after(b, a),
    ensures
        a == b,
    decreases a.len(),
{
    if a.len() > 0 && b.len() > 0 {
        lemma_bytes_antisymmetric(a.drop_first(), b.drop_first());
        assert(a =~= seq![a[0]] + a.drop_first());
        assert(b =~= seq![b[0]] + b.drop_first());
    } else {
        assert(a =~= b);
    }
}

/// The place at which the UTF-8 of a character and that of a later one come apart.
proof fn lemma_scalars_come_apart(c: char, d: char) -> (k: int)
    requires
        (c as u32) < (d as u32),
    ensures
        0 <= k < encode_scalar(c as u32).len(),
        k < encode_scalar(d as u32).len(),
        forall|i: int|
            0 <= i < k ==> #[trigger] encode_scalar(c as u32)[i] == encode_scalar(d as u32)[i],
        encode_scalar(c as u32)[k] < encode_scalar(d as u32)[k],
{
    let u = c as u32;
    let v = d as u32;
    char_is_scalar(c);
    char_is_scalar(d);
    let a = encode_scalar(u);
    let b = encode_scalar(v);
    assert(u <= 0x7f ==> ((u & 0x7f) as u8) < 0x80) by (bit_vector);
    assert(0xc0 <= (0xc0u8 | ((v >> 6) & 0x1f) as u8) <= 0xdf) by (bit_vector);
    assert(0xc0 <= (0xc0u8 | ((u >> 6) & 0x1f) as u8) <= 0xdf) by (bit_vector);
    assert(0xe0 <= (0xe0u8 | ((v >> 12) & 0xf) as u8) <= 0xef) by (bit_vector);
    assert(0xe0 <= (0xe0u8 | ((u >> 12) & 0xf) as u8) <= 0xef) by (bit_vector);
    assert(0xf0 <= (0xf0u8 | ((v >> 18) & 0x7) as u8)) by (bit_vector);
    if has_width_1_encoding(v) {
        assert(u < v && v <= 0x7f ==> ((u & 0x7f) as u8) < ((v & 0x7f) as u8)) by (bit_vector);
        0
    } else if has_width_2_encoding(v) {
        if has_width_2_encoding(u) {
            assert(u < v && v <= 0x7ff ==> {
                ||| (0xc0u8 | ((u >> 6) & 0x1f) as u8) < (0xc0u8 | ((v >> 6) & 0x1f) as u8)
                ||| (0xc0u8 | ((u >> 6) & 0x1f) as u8) == (0xc0u8 | ((v >> 6) & 0x1f) as u8) && (
                0x80u8 | (u & 0x3f) as u8) < (0x80u8 | (v & 0x3f) as u8)
            }) by (bit_vector);
        }
        if a[0] < b[0] {
            0
        } else {
            1
        }
    } else if has_width_3_encoding(v) {
        if has_width_3_encoding(u) {
            assert(u < v && v <= 0xffff ==> {
                ||| (0xe0u8 | ((u >> 12) & 0xf) as u8) < (0xe0u8 | ((v >> 12) & 0xf) as u8)
                ||| (0xe0u8 | ((u >> 12) & 0xf) as u8) == (0xe0u8 | ((v >> 12) & 0xf) as u8) && (
                0x80u8 | ((u >> 6) & 0x3f) as u8) < (0x80u8 | ((v >> 6) & 0x3f) as u8)
                ||| (0xe0u8 | ((u >> 12) & 0xf) as u8) == (0xe0u8 | ((v >> 12) & 0xf) as u8) && (
                0x80u8 | ((u >> 6) & 0x3f) as u8) == (0x80u8 | ((v >> 6) & 0x3f) as u8) && (0x80u8
                    | (u & 0x3f) as u8) < (0x80u8 | (v & 0x3f) as u8)
            }) by (bit_vector);
        }
        if a[0] < b[0] {
            0
        } else if a[1] < b[1] {
            1
        } else {
            2
        }
    } else {
        if has_width_4_encoding(u) {
            assert(u < v && v <= 0x10_ffff ==> {
                ||| (0xf0u8 | ((u >> 18) & 0x7) as u8) < (0xf0u8 | ((v >> 18) & 0x7) as u8)
                ||| (0xf0u8 | ((u >> 18) & 0x7) as u8) == (0xf0u8 | ((v >> 18) & 0x7) as u8) && (
                0x80u8 | ((u >> 12) & 0x3f) as u8) < (0x80u8 | ((v >> 12) & 0x3f) as u8)
                ||| (0xf0u8 | ((u >> 18) & 0x7) as u8) == (0xf0u8 | ((v >> 18) & 0x7) as u8) && (
                0x80u8 | ((u >> 12) & 0x3f) as u8) == (0x80u8 | ((v >> 12) & 0x3f) as u8) && (0x80u8
                    | ((u >> 6) & 0x3f) as u8) < (0x80u8 | ((v >> 6) & 0x3f) as u8)
                ||| (0xf0u8 | ((u >> 18) & 0x7) as u8) == (0xf0u8 | ((v >> 18) & 0x7) as u8) && (
                0x80u8 | ((u >> 12) & 0x3f) as u8) == (0x80u8 | ((v >> 12) & 0x3f) as u8) && (0x80u8
                    | ((u >> 6) & 0x3f) as u8) == (0x80u8 | ((v >> 6) & 0x3f) as u8) && (0x80u8 | (u
                    & 0x3f) as u8) < (0x80u8 | (v & 0x3f) as u8)
            }) by (bit_vector);
        }
        if a[0] < b[0] {
            0
        } else if a[1] < b[1] {
            1
        } else if a[2] < b[2] {
            2
        } else {
            3
        }
    }
}

proof fn lemma_encode_concat(a: Seq<char>, b: Seq<char>)
    ensures
        encode_utf8(a + b) == encode_utf8(a) + encode_utf8(b),
    decreases a.len(),
{
    if a.len() == 0 {
        assert(a + b =~= b);
        assert(encode_utf8(a) + encode_utf8(b) =~= encode_utf8(b));
    } else {
        lemma_encode_concat(a.drop_first(), b);
        assert((a + b).drop_first() =~= a.drop_first() + b);
        assert(encode_utf8(a + b) =~= encode_utf8(a) + encode_utf8(b));
    }
}

/// Two texts that begin alike stand in the order of the first characters in which they differ.
pub proof fn law_first_difference_decides(
    begin: Seq<char>,
    c: char,
    d: char,
    rest_c: Seq<char>,
    rest_d: Seq<char>,
)
    requires
        (c as u32) < (d as u32),
    ensures
        not_after(begin + seq![c] + rest_c, begin + seq![d] + rest_d),
        !not_after(begin + seq![d] + rest_d, begin + seq![c] + rest_c),
{
    let a = seq![c] + rest_c;
    let b = seq![d] + rest_d;
    assert(begin + seq![c] + rest_c =~= begin + a);
    assert(begin + seq![d] + rest_d =~= begin + b);
    lemma_encode_concat(begin, a);
    lemma_encode_concat(begin, b);
    assert(a.drop_first() =~= rest_c);
    assert(b.drop_first() =~= rest_d);
    let front = encode_utf8(begin);
    let k = lemma_scalars_come_apart(c, d);
    let x = front + encode_utf8(a);
    let y = front + encode_utf8(b);
    assert forall|i: int| 0 <= i < front.len() + k implies x[i] == y[i] by {
        if i >= front.len() {
            assert(encode_scalar(c as u32)[i - front.len()] == encode_scalar(d as u32)[i
                - front.len()]);
        }
    }
    lemma_bytes_decided(x, y, front.len() + k);
}

proof fn lemma_bytes_prefix(a: Seq<u8>, b: Seq<u8>)
    ensures
        bytes_not_after(a, a + b),
        b.len() > 0 ==> !bytes_not_after(a + b, a),
    decreases a.len(),
{
    if a.len() > 0 {
        lemma_bytes_prefix(a.drop_first(), b);
        assert((a + b).drop_first() =~= a.drop_first() + b);
    }
}

/// A text stands before every longer one that begins with it.
pub proof fn law_beginning_comes_first(begin: Seq<char>, rest: Seq<char>)
    ensures
        not_after(begin, begin + rest),
        rest.len() > 0 ==> !not_after(begin + rest, begin),
{
    lemma_encode_concat(begin, rest);
    lemma_bytes_prefix(encode_utf8(begin), encode_utf8(rest));
    lemma_byte_len_at_least(rest);
}

/// No two texts share a place in the order: of two different ones, one stands before the other.
pub proof fn law_order_tells_texts_apart(a: Seq<char>, b: Seq<char>)
    ensures
        not_after(a, b) || not_after(b, a),
        not_after(a, b) && not_after(b, a) <==> a == b,
{
    lemma_bytes_total(encode_utf8(a), encode_utf8(b));
    if not_after(a, b) && not_after(b, a) {
        lemma_bytes_antisymmetric(encode_utf8(a), encode_utf8(b));
        encode_utf8_decode_utf8(a);
        encode_utf8_decode_utf8(b);
    }
}

/// Padding adds spaces to the end of a text, as many as bring it to the width, and changes nothing
/// else.
pub proof fn law_padding_adds_spaces(text: Seq<char>, width: int)
    ensures
        padded(text, width).len() >= text.len(),
        padded(text, width).take(text.len() as int) == text,
        forall|i: int|
            text.len() <= i < padded(text, width).len() ==> #[trigger] padded(text, width)[i]
                == ' ',
        encode_utf8(padded(text, width)).len() >= width,
        encode_utf8(padded(text, width)).len() == width || padded(text, width) == text,
{
    lemma_padded_len(text, width);
    assert(padded(text, width).take(text.len() as int) =~= text);
}

/// A number in decimal is made of digits, without a zero in front, and the digits read from left
/// to right give the number back.
pub proof fn law_decimal_reads_back(n: nat)
    ensures
        decimal(n).len() > 0,
        forall|i: int| 0 <= i < decimal(n).len() ==> '0' <= #[trigger] decimal(n)[i] <= '9',
        decimal(n)[0] == '0' ==> decimal(n).len() == 1,
        decimal(n).fold_left(0int, |value: int, c: char| 10 * value + (c as int - '0' as int)) == n,
    decreases n,
{
    let read = |value: int, c: char| 10 * value + (c as int - '0' as int);
    if n < 10 {
        assert(decimal(n).drop_last() =~= Seq::empty());
        reveal_with_fuel(Seq::fold_left, 2);
    } else {
        law_decimal_reads_back(n / 10);
        assert(decimal(n).drop_last() =~= decimal(n / 10));
        assert(decimal(n).last() == digit(n % 10));
        assert(decimal(n)[0] == decimal(n / 10)[0]);
        if decimal(n)[0] == '0' {
            assert(decimal(n / 10).len() == 1);
            assert(decimal(n / 10).drop_last() =~= Seq::empty());
            assert(decimal(n / 10).fold_left(0int, read) == 0) by {
                reveal_with_fuel(Seq::fold_left, 2);
            }
        }
    }
}

} // verus!
