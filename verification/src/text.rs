//! Text as the backend handles it: decimal rendering of numbers for messages,
//! and the byte-wise order that filters compare by.
use vstd::prelude::*;
use vstd::string::StringExecFns;
use vstd::utf8::*;

verus! {

/// The decimal digit `d` as a character.
pub open spec fn digit_char(d: nat) -> char
    recommends
        d < 10,
{
    (48 + d) as char
}

/// `n` in decimal, without leading zeros.
pub open spec fn decimal(n: nat) -> Seq<char>
    decreases n,
{
    if n < 10 {
        seq![digit_char(n)]
    } else {
        decimal(n / 10).push(digit_char(n % 10))
    }
}

/// The decimal digit `d` as text.
fn digit(d: u64) -> (r: &'static str)
    requires
        d < 10,
    ensures
        r@ == seq![digit_char(d as nat)],
{
    proof {
        reveal_strlit("0");
        reveal_strlit("1");
        reveal_strlit("2");
        reveal_strlit("3");
        reveal_strlit("4");
        reveal_strlit("5");
        reveal_strlit("6");
        reveal_strlit("7");
        reveal_strlit("8");
        reveal_strlit("9");
    }
    match d {
        0 => "0",
        1 => "1",
        2 => "2",
        3 => "3",
        4 => "4",
        5 => "5",
        6 => "6",
        7 => "7",
        8 => "8",
        _ => "9",
    }
}

/// Appends `n` in decimal to `out`.
pub(crate) fn append_decimal(out: &mut String, n: u64)
    ensures
        final(out)@ == old(out)@ + decimal(n as nat),
    decreases n,
{
    if n >= 10 {
        append_decimal(out, n / 10);
    }
    out.append(digit(n % 10));
    proof {
        assert(out@ =~= old(out)@ + decimal(n as nat));
    }
}

/// `a` and `b` agree on their first `n` bytes, and there `a` ends first or
/// holds the smaller byte.
pub open spec fn bytes_part_below(a: Seq<u8>, b: Seq<u8>, n: int) -> bool {
    &&& 0 <= n <= a.len()
    &&& n < b.len()
    &&& forall|i: int| 0 <= i < n ==> a[i] == b[i]
    &&& n == a.len() || a[n] < b[n]
}

/// `a` comes before `b` in the lexicographic order of byte strings.
pub open spec fn bytes_less(a: Seq<u8>, b: Seq<u8>) -> bool {
    exists|n: int| bytes_part_below(a, b, n)
}

/// `a` comes before `b` in the order of text: lexicographically by the bytes
/// of the UTF-8 encoding.
pub open spec fn text_less(a: Seq<char>, b: Seq<char>) -> bool {
    bytes_less(encode_utf8(a), encode_utf8(b))
}

/// How one text stands to another.
#[derive(Clone, Copy, PartialEq, Eq, Debug, Structural)]
pub enum TextOrder {
    /// The first text comes before the second.
    Less,
    /// The two texts are the same.
    Equal,
    /// The first text comes after the second.
    Greater,
}

/// Compares two texts in the order of [`text_less`].
pub fn text_order(a: &str, b: &str) -> (r: TextOrder)
    ensures
        r == TextOrder::Less <==> text_less(a@, b@),
        r == TextOrder::Equal <==> a@ == b@,
        r == TextOrder::Greater <==> text_less(b@, a@),
{
    let x = a.as_bytes();
    let y = b.as_bytes();
    let ghost p = x@;
    let ghost q = y@;
    proof {
        lemma_bytes_less_exclusive(p, q);
        encode_utf8_decode_utf8(a@);
        encode_utf8_decode_utf8(b@);
    }
    let mut i: usize = 0;
    while i < x.len() && i < y.len()
        invariant
            x@ == p,
            y@ == q,
            p == encode_utf8(a@),
            q == encode_utf8(b@),
            p == q <==> a@ == b@,
            bytes_less(p, q) ==> p != q && !bytes_less(q, p),
            bytes_less(q, p) ==> p != q,
            i <= p.len(),
            i <= q.len(),
            forall|j: int| 0 <= j < i ==> p[j] == q[j],
        decreases x.len() - i,
    {
        if x[i] < y[i] {
            assert(bytes_part_below(p, q, i as int));
            return TextOrder::Less;
        }
        if x[i] > y[i] {
            assert(bytes_part_below(q, p, i as int));
            return TextOrder::Greater;
        }
        i = i + 1;
    }
    if i < y.len() {
        assert(bytes_part_below(p, q, i as int));
        TextOrder::Less
    } else if i < x.len() {
        assert(bytes_part_below(q, p, i as int));
        TextOrder::Greater
    } else {
        assert(p =~= q);
        TextOrder::Equal
    }
}

/// Whether two texts are the same.
pub fn text_eq(a: &str, b: &str) -> (r: bool)
    ensures
        r == (a@ == b@),
{
    text_order(a, b) == TextOrder::Equal
}

/// No byte string comes before itself, and of two byte strings at most one
/// comes before the other.
proof fn lemma_bytes_less_exclusive(a: Seq<u8>, b: Seq<u8>)
    ensures
        bytes_less(a, b) ==> a != b && !bytes_less(b, a),
        bytes_less(b, a) ==> a != b,
{
    if bytes_less(a, b) {
        let n = choose|n: int| bytes_part_below(a, b, n);
        if bytes_less(b, a) {
            let m = choose|m: int| bytes_part_below(b, a, m);
            if n < m {
                assert(b[n] == a[n]);
            } else if m < n {
                assert(a[m] == b[m]);
            }
            assert(false);
        }
        assert(n == a.len() || a[n] < b[n]);
    }
    if bytes_less(b, a) {
        let m = choose|m: int| bytes_part_below(b, a, m);
        assert(m == b.len() || b[m] < a[m]);
    }
}

/// Two different byte strings that agree on their first `n` bytes are ordered
/// one way or the other.
proof fn lemma_bytes_less_total(a: Seq<u8>, b: Seq<u8>, n: int)
    requires
        a != b,
        0 <= n <= a.len(),
        n <= b.len(),
        forall|i: int| 0 <= i < n ==> a[i] == b[i],
    ensures
        bytes_less(a, b) || bytes_less(b, a),
    decreases a.len() - n,
{
    if n == a.len() && n == b.len() {
        assert(a =~= b);
    } else if n == a.len() || (n < b.len() && a[n] < b[n]) {
        assert(bytes_part_below(a, b, n));
    } else if n == b.len() || b[n] < a[n] {
        assert(bytes_part_below(b, a, n));
    } else {
        lemma_bytes_less_total(a, b, n + 1);
    }
}

/// Of two texts exactly one of three holds: the first comes before the second,
/// the second before the first, or they are the same.
pub proof fn law_text_order_is_total(a: Seq<char>, b: Seq<char>)
    ensures
        text_less(a, b) ==> a != b && !text_less(b, a),
        text_less(b, a) ==> a != b,
        text_less(a, b) || text_less(b, a) || a == b,
{
    let p = encode_utf8(a);
    let q = encode_utf8(b);
    encode_utf8_decode_utf8(a);
    encode_utf8_decode_utf8(b);
    lemma_bytes_less_exclusive(p, q);
    if p != q {
        lemma_bytes_less_total(p, q, 0);
    }
}

/// A text before a second one comes before all that the second one comes
/// before.
pub proof fn law_text_order_is_transitive(a: Seq<char>, b: Seq<char>, c: Seq<char>)
    requires
        text_less(a, b),
        text_less(b, c),
    ensures
        text_less(a, c),
{
    let p = encode_utf8(a);
    let q = encode_utf8(b);
    let r = encode_utf8(c);
    let n = choose|n: int| bytes_part_below(p, q, n);
    let m = choose|m: int| bytes_part_below(q, r, m);
    if n <= m {
        assert(bytes_part_below(p, r, n));
    } else {
        assert(p[m] == q[m]);
        assert(bytes_part_below(p, r, m));
    }
}

/// The number that decimal digits denote.
pub open spec fn number(digits: Seq<char>) -> int
    decreases digits.len(),
{
    if digits.len() == 0 {
        0
    } else {
        10 * number(digits.drop_last()) + (digits.last() as u32 - '0' as u32)
    }
}

/// A number's rendering is digits alone, denotes the number, and begins with
/// no zero that could be left out.
pub proof fn law_decimal_denotes_the_number(n: nat)
    ensures
        number(decimal(n)) == n,
        forall|i: int| 0 <= i < decimal(n).len() ==> '0' <= #[trigger] decimal(n)[i] <= '9',
        decimal(n).len() >= 1,
        decimal(n).len() > 1 ==> decimal(n)[0] != '0',
    decreases n,
{
    let d = decimal(n);
    if n < 10 {
        assert(d.drop_last() =~= Seq::empty());
        assert(number(d.drop_last()) == 0);
        assert(d.last() as u32 == 48 + n);
    } else {
        assert(d.last() as u32 == 48 + n % 10);
        let first = decimal(n / 10);
        law_decimal_denotes_the_number(n / 10);
        assert(d.drop_last() =~= first);
        assert(forall|i: int| 0 <= i < first.len() ==> d[i] == first[i]);
        if first.len() == 1 && first[0] == '0' {
            assert(first.drop_last() =~= Seq::empty());
            assert(number(first.drop_last()) == 0);
        }
    }
}

/// Of two characters the one with the smaller code point has the encoding
/// that comes first: at some byte it is smaller, and up to there they agree.
proof fn lemma_scalar_order(c: u32, d: u32) -> (k: int)
    requires
        is_scalar(c),
        is_scalar(d),
        c < d,
    ensures
        0 <= k < encode_scalar(c).len(),
        k < encode_scalar(d).len(),
        forall|i: int| 0 <= i < k ==> encode_scalar(c)[i] == encode_scalar(d)[i],
        encode_scalar(c)[k] < encode_scalar(d)[k],
{
    let x = encode_scalar(c);
    let y = encode_scalar(d);
    if has_width_1_encoding(c) && has_width_1_encoding(d) {
        assert(leading_byte_width_1(c) < leading_byte_width_1(d)) by (bit_vector)
            requires
                c < d <= 0x7F,
        ;
        0
    } else if has_width_2_encoding(c) && has_width_2_encoding(d) {
        assert(leading_byte_width_2(c) < leading_byte_width_2(d) || (leading_byte_width_2(c)
            == leading_byte_width_2(d) && last_continuation_byte(c) < last_continuation_byte(d)))
            by (bit_vector)
            requires
                c < d <= 0x7FF,
        ;
        if x[0] < y[0] {
            0
        } else {
            1
        }
    } else if has_width_3_encoding(c) && has_width_3_encoding(d) {
        assert(leading_byte_width_3(c) < leading_byte_width_3(d) || (leading_byte_width_3(c)
            == leading_byte_width_3(d) && (second_last_continuation_byte(c)
            < second_last_continuation_byte(d) || (second_last_continuation_byte(c)
            == second_last_continuation_byte(d) && last_continuation_byte(c)
            < last_continuation_byte(d))))) by (bit_vector)
            requires
                c < d <= 0xFFFF,
        ;
        if x[0] < y[0] {
            0
        } else if x[1] < y[1] {
            1
        } else {
            2
        }
    } else if has_width_4_encoding(c) && has_width_4_encoding(d) {
        assert(leading_byte_width_4(c) < leading_byte_width_4(d) || (leading_byte_width_4(c)
            == leading_byte_width_4(d) && (third_last_continuation_byte(c)
            < third_last_continuation_byte(d) || (third_last_continuation_byte(c)
            == third_last_continuation_byte(d) && (second_last_continuation_byte(c)
            < second_last_continuation_byte(d) || (second_last_continuation_byte(c)
            == second_last_continuation_byte(d) && last_continuation_byte(c)
            < last_continuation_byte(d))))))) by (bit_vector)
            requires
                c < d <= 0x10FFFF,
        ;
        if x[0] < y[0] {
            0
        } else if x[1] < y[1] {
            1
        } else if x[2] < y[2] {
            2
        } else {
            3
        }
    } else {
        assert(leading_byte_width_1(c) <= 0x7F) by (bit_vector);
        assert(0xC0 <= leading_byte_width_2(c) <= 0xDF) by (bit_vector);
        assert(0xE0 <= leading_byte_width_3(c) <= 0xEF) by (bit_vector);
        assert(0xC0 <= leading_byte_width_2(d) <= 0xDF) by (bit_vector);
        assert(0xE0 <= leading_byte_width_3(d) <= 0xEF) by (bit_vector);
        assert(0xF0 <= leading_byte_width_4(d)) by (bit_vector);
        0
    }
}

/// A text encodes to the encoding of its first characters followed by that of
/// the rest.
proof fn lemma_encoding_splits(a: Seq<char>, n: int)
    requires
        0 <= n <= a.len(),
    ensures
        encode_utf8(a) == encode_utf8(a.take(n)) + encode_utf8(a.skip(n)),
    decreases n,
{
    if n == 0 {
        assert(a.skip(0) =~= a);
        assert(encode_utf8(a.take(0)) =~= Seq::empty());
        assert(encode_utf8(a) =~= encode_utf8(a.take(0)) + encode_utf8(a.skip(0)));
    } else {
        let rest = a.drop_first();
        lemma_encoding_splits(rest, n - 1);
        assert(a.take(n).drop_first() =~= rest.take(n - 1));
        assert(a.skip(n) =~= rest.skip(n - 1));
        assert(encode_utf8(a) =~= encode_utf8(a.take(n)) + encode_utf8(a.skip(n)));
    }
}

/// Text is ordered as a dictionary is, by code points: of two texts that agree
/// on their first `n` characters, the one that ends there comes first, else
/// the one whose next character has the smaller code point.
pub proof fn law_text_is_ordered_by_code_points(a: Seq<char>, b: Seq<char>, n: int)
    requires
        0 <= n <= a.len(),
        n < b.len(),
        forall|i: int| 0 <= i < n ==> a[i] == b[i],
        n == a.len() || (a[n] as u32) < (b[n] as u32),
    ensures
        text_less(a, b),
        !text_less(b, a),
        a != b,
{
    let p = encode_utf8(a);
    let q = encode_utf8(b);
    let same = encode_utf8(a.take(n));
    assert(a.take(n) =~= b.take(n));
    lemma_encoding_splits(a, n);
    lemma_encoding_splits(b, n);
    char_is_scalar(b[n]);
    let y = encode_scalar(b[n] as u32);
    assert(b.skip(n)[0] == b[n]);
    assert(encode_utf8(b.skip(n)) == y + encode_utf8(b.skip(n).drop_first()));
    if n == a.len() {
        assert(a.skip(n) =~= Seq::empty());
        assert(p =~= same);
        assert(bytes_part_below(p, q, same.len() as int));
    } else {
        char_is_scalar(a[n]);
        let x = encode_scalar(a[n] as u32);
        assert(a.skip(n)[0] == a[n]);
        assert(encode_utf8(a.skip(n)) == x + encode_utf8(a.skip(n).drop_first()));
        let k = lemma_scalar_order(a[n] as u32, b[n] as u32);
        let at = same.len() + k;
        assert(p[at] == x[k] && q[at] == y[k]);
        assert forall|i: int| 0 <= i < at implies p[i] == q[i] by {
            if i >= same.len() {
                assert(p[i] == x[i - same.len()] && q[i] == y[i - same.len()]);
            }
        }
        assert(bytes_part_below(p, q, at));
    }
    law_text_order_is_total(a, b);
}

} // verus!
