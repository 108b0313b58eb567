//! What the text helpers are for, said of characters and numbers alone.

use vstd::prelude::*;
use vstd::utf8::*;

use crate::text::{
    bytes_less, decimal, digit_char, digit_value, digits, digits_value, hex_digits, hex_value,
    i64_value, is_letter, is_space, is_word, joined, lemma_decimal_reads_back, lower_char,
    lower_text, padded, repeated, split_at, text_less, trim_back, trim_front, trimmed, zero_padded,
};

verus! {

// ---- the order of texts ----

/// Byte strings are compared behind what they have in common.
proof fn lemma_common_front(a: Seq<u8>, b: Seq<u8>, front: Seq<u8>)
    ensures
        bytes_less(front + a, front + b) == bytes_less(a, b),
    decreases front.len(),
{
    if front.len() == 0 {
        assert(front + a =~= a);
        assert(front + b =~= b);
    } else {
        lemma_common_front(a, b, front.skip(1));
        assert((front + a).skip(1) =~= front.skip(1) + a);
        assert((front + b).skip(1) =~= front.skip(1) + b);
    }
}

/// Byte strings are compared at the first byte in which they differ.
proof fn lemma_first_byte(a: Seq<u8>, b: Seq<u8>, k: int)
    requires
        0 <= k < a.len(),
        k < b.len(),
        forall|i: int| 0 <= i < k ==> a[i] == b[i],
        a[k] != b[k],
    ensures
        bytes_less(a, b) == (a[k] < b[k]),
{
    lemma_common_front(a.skip(k), b.skip(k), a.take(k));
    assert(a.take(k) + a.skip(k) =~= a);
    assert(a.take(k) + b.skip(k) =~= b);
}

/// The bytes of a character's encoding, as numbers.
proof fn lemma_encoding_bytes(s: u32)
    by (bit_vector)
    requires
        s <= 0x10FFFF,
    ensures
        (s & 0x7F) as u8 == s % 128,
        (0xC0 | ((s >> 6) & 0x1F) as u8) == 0xC0 + (s / 64) % 32,
        (0xE0 | ((s >> 12) & 0x0F) as u8) == 0xE0 + (s / 4096) % 16,
        (0xF0 | ((s >> 18) & 0x7) as u8) == 0xF0 + (s / 262144) % 8,
        (0x80 | (s & 0x3F) as u8) == 0x80 + s % 64,
        (0x80 | ((s >> 6) & 0x3F) as u8) == 0x80 + (s / 64) % 64,
        (0x80 | ((s >> 12) & 0x3F) as u8) == 0x80 + (s / 4096) % 64,
{
}

/// The encoding of a character, as numbers.
proof fn lemma_encoding(c: char)
    ensures
        ({
            let s = c as u32;
            let bytes = encode_scalar(s);
            if s < 0x80 {
                bytes == seq![s as u8]
            } else if s < 0x800 {
                &&& bytes.len() == 2
                &&& bytes[0] == 0xC0 + s / 64
                &&& bytes[1] == 0x80 + s % 64
            } else if s < 0x10000 {
                &&& bytes.len() == 3
                &&& bytes[0] == 0xE0 + s / 4096
                &&& bytes[1] == 0x80 + (s / 64) % 64
                &&& bytes[2] == 0x80 + s % 64
            } else {
                &&& bytes.len() == 4
                &&& bytes[0] == 0xF0 + s / 262144
                &&& bytes[1] == 0x80 + (s / 4096) % 64
                &&& bytes[2] == 0x80 + (s / 64) % 64
                &&& bytes[3] == 0x80 + s % 64
            }
        }),
{
    let s = c as u32;
    char_is_scalar(c);
    lemma_encoding_bytes(s);
    if s < 0x80 {
        assert(encode_scalar(s) =~= seq![s as u8]);
    }
}

/// Where the encodings of two characters differ first, the one of the smaller
/// character has the smaller byte.
proof fn lemma_first_difference(c: char, d: char) -> (k: int)
    requires
        c < d,
    ensures
        0 <= k < encode_scalar(c as u32).len(),
        k < encode_scalar(d as u32).len(),
        forall|i: int|
            0 <= i < k ==> #[trigger] encode_scalar(c as u32)[i] == encode_scalar(d as u32)[i],
        encode_scalar(c as u32)[k] < encode_scalar(d as u32)[k],
{
    let s = c as u32;
    let t = d as u32;
    lemma_encoding(c);
    lemma_encoding(d);
    let a = encode_scalar(s);
    let b = encode_scalar(t);
    assert(s < t <= 0x10FFFF);
    if t < 0x80 {
        0
    } else if t < 0x800 {
        if s < 0x80 || s / 64 != t / 64 {
            0
        } else {
            1
        }
    } else if t < 0x10000 {
        if s < 0x800 || s / 4096 != t / 4096 {
            0
        } else if (s / 64) % 64 != (t / 64) % 64 {
            1
        } else {
            2
        }
    } else {
        if s < 0x10000 || s / 262144 != t / 262144 {
            0
        } else if (s / 4096) % 64 != (t / 4096) % 64 {
            1
        } else if (s / 64) % 64 != (t / 64) % 64 {
            2
        } else {
            3
        }
    }
}

/// A character with a smaller number has an encoding that comes first, whatever
/// stands behind it.
proof fn lemma_characters(c: char, d: char, x: Seq<u8>, y: Seq<u8>)
    requires
        c < d,
    ensures
        bytes_less(encode_scalar(c as u32) + x, encode_scalar(d as u32) + y),
        !bytes_less(encode_scalar(d as u32) + y, encode_scalar(c as u32) + x),
{
    let k = lemma_first_difference(c, d);
    let a = encode_scalar(c as u32) + x;
    let b = encode_scalar(d as u32) + y;
    assert forall|i: int| 0 <= i < k implies a[i] == b[i] by {
        assert(encode_scalar(c as u32)[i] == encode_scalar(d as u32)[i]);
    }
    lemma_first_byte(a, b, k);
    lemma_first_byte(b, a, k);
}

/// The first position at which two texts differ, or one of them ends, decides
/// which comes first.
proof fn lemma_first_character(a: Seq<char>, b: Seq<char>) -> (k: int)
    ensures
        0 <= k <= a.len(),
        k <= b.len(),
        a.take(k) == b.take(k),
        k == a.len() || k == b.len() || a[k] != b[k],
        text_less(a, b) == (k < b.len() && (k == a.len() || a[k] < b[k])),
    decreases a.len(),
{
    if a.len() == 0 || b.len() == 0 {
        assert(a.take(0) =~= b.take(0));
        if b.len() > 0 {
            char_is_scalar(b[0]);
            assert(encode_utf8(b).len() > 0);
        }
        0
    } else {
        let x = encode_utf8(a.drop_first());
        let y = encode_utf8(b.drop_first());
        if a[0] == b[0] {
            let k = lemma_first_character(a.drop_first(), b.drop_first());
            lemma_common_front(x, y, encode_scalar(a[0] as u32));
            assert(a.take(k + 1) =~= seq![a[0]] + a.drop_first().take(k));
            assert(b.take(k + 1) =~= seq![b[0]] + b.drop_first().take(k));
            k + 1
        } else {
            assert(a.take(0) =~= b.take(0));
            if a[0] < b[0] {
                lemma_characters(a[0], b[0], x, y);
            } else {
                lemma_characters(b[0], a[0], y, x);
            }
            0
        }
    }
}

/// Texts are in dictionary order: one comes before another exactly where it is a
/// proper beginning of it, or has the smaller character at the first position in
/// which the two differ.
pub proof fn law_texts_are_in_dictionary_order(a: Seq<char>, b: Seq<char>)
    ensures
        text_less(a, b) <==> exists|k: int|
            0 <= k <= a.len() && k < b.len() && #[trigger] a.take(k) == b.take(k) && (k == a.len()
                || a[k] < b[k]),
{
    let k = lemma_first_character(a, b);
    if exists|j: int|
        0 <= j <= a.len() && j < b.len() && #[trigger] a.take(j) == b.take(j) && (j == a.len()
            || a[j] < b[j]) {
        let j = choose|j: int|
            0 <= j <= a.len() && j < b.len() && #[trigger] a.take(j) == b.take(j) && (j == a.len()
                || a[j] < b[j]);
        if j < k {
            assert(a.take(k)[j] == b.take(k)[j]);
        } else if k < j {
            assert(a.take(j)[k] == b.take(j)[k]);
        }
    }
    if text_less(a, b) {
        assert(a.take(k) == b.take(k));
    }
}

/// Of two texts exactly one comes first, unless they are the same.
pub proof fn law_texts_compare_one_way(a: Seq<char>, b: Seq<char>)
    ensures
        a == b ==> !text_less(a, b) && !text_less(b, a),
        a != b ==> text_less(a, b) != text_less(b, a),
{
    crate::text::lemma_text_order(a, b, a);
}

// ---- numbers ----

/// Decimal numerals: one digit for a number below ten, one digit more behind the
/// numeral of a tenth of it for a larger one, and a minus in front of the numeral
/// of a negative one's opposite.
pub proof fn law_decimal_numerals(n: int, d: int)
    requires
        0 < n,
        0 <= d < 10,
    ensures
        decimal(d) == seq![
            seq!['0', '1', '2', '3', '4', '5', '6', '7', '8', '9'][d],
        ],
        decimal(10 * n + d) == decimal(n) + decimal(d),
        decimal(-n) == seq!['-'] + decimal(n),
{
    assert((10 * n + d) / 10 == n);
    assert((10 * n + d) % 10 == d);
    assert(digits((10 * n + d) as nat) =~= digits(n as nat) + digits(d as nat));
    assert(digit_char(d) == seq!['0', '1', '2', '3', '4', '5', '6', '7', '8', '9'][d]);
}

/// Different integers have different numerals.
pub proof fn law_numerals_differ(a: int, b: int)
    ensures
        decimal(a) == decimal(b) ==> a == b,
{
    lemma_decimal_reads_back(a);
    lemma_decimal_reads_back(b);
}

/// A numeral of a given width is the decimal numeral behind as many zeros as it
/// takes.
pub proof fn law_zero_padded_numerals(n: nat, width: nat)
    ensures
        ({
            let s = zero_padded(n, width);
            let shown = decimal(n as int);
            &&& s.len() == if shown.len() < width {
                width
            } else {
                shown.len()
            }
            &&& s.skip(s.len() - shown.len()) == shown
            &&& forall|i: int| 0 <= i < s.len() - shown.len() ==> #[trigger] s[i] == '0'
        }),
{
    let s = zero_padded(n, width);
    assert(s.skip(s.len() - digits(n).len()) =~= digits(n));
}

/// Hexadecimal numerals of a given width: the last digit stands for the
/// remainder by sixteen, the others for the quotient.
pub proof fn law_hexadecimal_numerals(n: nat, width: nat)
    ensures
        hex_digits(n, 0) == Seq::<char>::empty(),
        hex_digits(n, width).len() == width,
        hex_digits(n, width + 1) == hex_digits(n / 16, width).push(
            seq![
                '0', '1', '2', '3', '4', '5', '6', '7', '8', '9', 'a', 'b', 'c', 'd', 'e', 'f',
            ][(n % 16) as int],
        ),
    decreases width,
{
    if width > 0 {
        law_hexadecimal_numerals(n / 16, (width - 1) as nat);
    }
}

/// The value of a digit in base ten, and of one in base sixteen.
proof fn lemma_digit_values(c: char)
    ensures
        ({
            let ten = seq!['0', '1', '2', '3', '4', '5', '6', '7', '8', '9'];
            let lower = seq!['a', 'b', 'c', 'd', 'e', 'f'];
            let upper = seq!['A', 'B', 'C', 'D', 'E', 'F'];
            &&& forall|d: int| 0 <= d < 10 ==> (#[trigger] ten[d] == c ==> digit_value(c, 10)
                == Some(d) && digit_value(c, 16) == Some(d))
            &&& forall|d: int| 0 <= d < 6 ==> (#[trigger] lower[d] == c ==> digit_value(c, 16)
                == Some(d + 10) && digit_value(c, 10) is None)
            &&& forall|d: int| 0 <= d < 6 ==> (#[trigger] upper[d] == c ==> digit_value(c, 16)
                == Some(d + 10) && digit_value(c, 10) is None)
            &&& !ten.contains(c) ==> digit_value(c, 10) is None
            &&& !ten.contains(c) && !lower.contains(c) && !upper.contains(c) ==> digit_value(c, 16)
                is None
        }),
{
    let ten = seq!['0', '1', '2', '3', '4', '5', '6', '7', '8', '9'];
    let lower = seq!['a', 'b', 'c', 'd', 'e', 'f'];
    let upper = seq!['A', 'B', 'C', 'D', 'E', 'F'];
    if '0' <= c && c <= '9' {
        assert(ten[c as int - '0' as int] == c);
    }
    if 'a' <= c && c <= 'f' {
        assert(lower[c as int - 'a' as int] == c);
    }
    if 'A' <= c && c <= 'F' {
        assert(upper[c as int - 'A' as int] == c);
    }
}

/// One digit more makes the number ten times as large, plus the digit.
proof fn lemma_one_digit_more(s: Seq<char>, c: char, base: int)
    ensures
        digits_value(s.push(c), base) == match (digits_value(s, base), digit_value(c, base)) {
            (Some(high), Some(low)) => Some(high * base + low),
            _ => None::<int>,
        },
{
    assert(s.push(c).drop_last() =~= s);
}

/// A run with a character in it that is no digit spells nothing.
proof fn lemma_no_digit(s: Seq<char>, i: int, base: int)
    requires
        0 <= i < s.len(),
        digit_value(s[i], base) is None,
    ensures
        digits_value(s, base) is None,
    decreases s.len(),
{
    if i < s.len() - 1 {
        assert(s.drop_last()[i] == s[i]);
        lemma_no_digit(s.drop_last(), i, base);
    }
}

/// A run of digits spells no negative number.
proof fn lemma_not_negative(s: Seq<char>)
    ensures
        digits_value(s, 16) matches Some(n) ==> n >= 0,
    decreases s.len(),
{
    if s.len() > 0 {
        lemma_not_negative(s.drop_last());
    }
}

/// Reading an integer gives back the one whose numeral it is, with or without a
/// plus in front. A number outside the 64-bit range is refused.
pub proof fn law_integers_read_back(n: int)
    ensures
        i64_value(decimal(n)) == if i64::MIN <= n <= i64::MAX {
            Some(n as i64)
        } else {
            None::<i64>
        },
        n >= 0 ==> i64_value(seq!['+'] + decimal(n)) == i64_value(decimal(n)),
{
    lemma_decimal_reads_back(n);
    assert((seq!['+'] + decimal(n)).skip(1) =~= decimal(n));
    if n >= 0 {
        lemma_numeral_front(n as nat);
    }
}

/// A numeral starts with a digit.
proof fn lemma_numeral_front(n: nat)
    ensures
        digits(n).len() > 0,
        '0' <= digits(n)[0] <= '9',
    decreases n,
{
    if n >= 10 {
        lemma_numeral_front(n / 10);
    }
}

/// One digit more behind what spells an integer spells ten times as much and the
/// digit, away from zero; leading zeros do no harm. What does not fit in 64 bits
/// is refused.
pub proof fn law_one_digit_more(s: Seq<char>, n: i64, d: int)
    requires
        i64_value(s) == Some(n),
        0 <= d < 10,
    ensures
        ({
            let longer = s.push(seq!['0', '1', '2', '3', '4', '5', '6', '7', '8', '9'][d]);
            let m = if s[0] == '-' {
                10 * n - d
            } else {
                10 * n + d
            };
            i64_value(longer) == if i64::MIN <= m <= i64::MAX {
                Some(m as i64)
            } else {
                None::<i64>
            }
        }),
{
    let c = seq!['0', '1', '2', '3', '4', '5', '6', '7', '8', '9'][d];
    let longer = s.push(c);
    lemma_digit_values(c);
    assert(s.len() > 0);
    assert(longer[0] == s[0]);
    lemma_one_digit_more(s.skip(1), c, 10);
    lemma_one_digit_more(s, c, 10);
    assert(longer.skip(1) =~= s.skip(1).push(c));
}

/// What is read as an integer is a sign or none, then digits, at least one.
pub proof fn law_only_numerals_are_integers(s: Seq<char>)
    ensures
        i64_value(s) is Some ==> {
            let first = if s[0] == '-' || s[0] == '+' {
                1int
            } else {
                0
            };
            &&& s.len() > first
            &&& forall|i: int|
                first <= i < s.len() ==> seq![
                    '0', '1', '2', '3', '4', '5', '6', '7', '8', '9',
                ].contains(#[trigger] s[i])
        },
        s.len() == 1 ==> i64_value(s) == if seq![
            '0', '1', '2', '3', '4', '5', '6', '7', '8', '9',
        ].contains(s[0]) {
            Some(seq!['0', '1', '2', '3', '4', '5', '6', '7', '8', '9'].index_of(s[0]) as i64)
        } else {
            None::<i64>
        },
{
    let ten = seq!['0', '1', '2', '3', '4', '5', '6', '7', '8', '9'];
    if i64_value(s) is Some {
        let first = if s[0] == '-' || s[0] == '+' {
            1int
        } else {
            0
        };
        let run = s.skip(first);
        assert(s.skip(0) =~= s);
        assert forall|i: int| first <= i < s.len() implies ten.contains(#[trigger] s[i]) by {
            lemma_digit_values(s[i]);
            assert(run[i - first] == s[i]);
            if !ten.contains(s[i]) {
                lemma_no_digit(run, i - first, 10);
            }
        }
    }
    if s.len() == 1 {
        lemma_digit_values(s[0]);
        let none = Seq::<char>::empty();
        lemma_one_digit_more(none, s[0], 10);
        assert(none.push(s[0]) =~= s);
        assert(s.skip(1) =~= none);
        if ten.contains(s[0]) {
            let d = ten.index_of(s[0]);
            assert(ten[d] == s[0]);
        }
    }
}

/// One hexadecimal digit more, of either case, spells sixteen times as much and
/// the digit; a single digit spells its value; any other character spells
/// nothing.
pub proof fn law_hexadecimal_digits(s: Seq<char>, n: u32, d: int)
    requires
        hex_value(s) == Some(n),
        0 <= d < 16,
    ensures
        ({
            let lower = seq![
                '0', '1', '2', '3', '4', '5', '6', '7', '8', '9', 'a', 'b', 'c', 'd', 'e', 'f',
            ][d];
            let upper = seq![
                '0', '1', '2', '3', '4', '5', '6', '7', '8', '9', 'A', 'B', 'C', 'D', 'E', 'F',
            ][d];
            let m = 16 * n + d;
            let value = if m <= u32::MAX {
                Some(m as u32)
            } else {
                None::<u32>
            };
            &&& hex_value(s.push(lower)) == value
            &&& hex_value(s.push(upper)) == value
            &&& hex_value(seq![lower]) == Some(d as u32)
            &&& hex_value(seq![upper]) == Some(d as u32)
            &&& forall|c: char|
                !seq![
                    '0', '1', '2', '3', '4', '5', '6', '7', '8', '9', 'a', 'b', 'c', 'd', 'e', 'f',
                    'A', 'B', 'C', 'D', 'E', 'F',
                ].contains(c) ==> #[trigger] hex_value(s.push(c)) is None
        }),
{
    let ten = seq!['0', '1', '2', '3', '4', '5', '6', '7', '8', '9'];
    let lows = seq!['a', 'b', 'c', 'd', 'e', 'f'];
    let highs = seq!['A', 'B', 'C', 'D', 'E', 'F'];
    let all = seq![
        '0', '1', '2', '3', '4', '5', '6', '7', '8', '9', 'a', 'b', 'c', 'd', 'e', 'f', 'A', 'B',
        'C', 'D', 'E', 'F',
    ];
    let lower = seq![
        '0', '1', '2', '3', '4', '5', '6', '7', '8', '9', 'a', 'b', 'c', 'd', 'e', 'f',
    ][d];
    let upper = seq![
        '0', '1', '2', '3', '4', '5', '6', '7', '8', '9', 'A', 'B', 'C', 'D', 'E', 'F',
    ][d];
    if d < 10 {
        assert(ten[d] == lower);
        assert(ten[d] == upper);
    } else {
        assert(lows[d - 10] == lower);
        assert(highs[d - 10] == upper);
    }
    lemma_digit_values(lower);
    lemma_digit_values(upper);
    assert(s.len() > 0);
    lemma_not_negative(s);
    lemma_not_negative(s.skip(1));
    assert(s.push(lower)[0] == s[0]);
    assert(s.push(upper)[0] == s[0]);
    let none = Seq::<char>::empty();
    lemma_one_digit_more(none, lower, 16);
    lemma_one_digit_more(none, upper, 16);
    assert(none.push(lower) =~= seq![lower]);
    assert(none.push(upper) =~= seq![upper]);
    assert(digits_value(none, 16) == Some(0int));
    lemma_one_digit_more(s, lower, 16);
    lemma_one_digit_more(s, upper, 16);
    lemma_one_digit_more(s.skip(1), lower, 16);
    lemma_one_digit_more(s.skip(1), upper, 16);
    assert(s.push(lower).skip(1) =~= s.skip(1).push(lower));
    assert(s.push(upper).skip(1) =~= s.skip(1).push(upper));
    assert forall|c: char| !all.contains(c) implies #[trigger] hex_value(s.push(c)) is None by {
        assert(!ten.contains(c)) by {
            if ten.contains(c) {
                let i = ten.index_of(c);
                assert(all[i] == c);
            }
        }
        assert(!lows.contains(c)) by {
            if lows.contains(c) {
                let i = lows.index_of(c);
                assert(all[10 + i] == c);
            }
        }
        assert(!highs.contains(c)) by {
            if highs.contains(c) {
                let i = highs.index_of(c);
                assert(all[16 + i] == c);
            }
        }
        assert(s.push(c)[0] == s[0]);
        lemma_digit_values(c);
        lemma_one_digit_more(s, c, 16);
        lemma_one_digit_more(s.skip(1), c, 16);
        assert(s.push(c).skip(1) =~= s.skip(1).push(c));
    }
}

// ---- characters ----

/// The letters are the 26 of the alphabet in both cases; a word is made of them,
/// of the ten digits and of underscores.
pub proof fn law_letters_and_words(c: char)
    ensures
        is_letter(c) <==> "ABCDEFGHIJKLMNOPQRSTUVWXYZabcdefghijklmnopqrstuvwxyz"@.contains(c),
        is_word(c) <==> is_letter(c) || "0123456789_"@.contains(c),
{
    let letters = "ABCDEFGHIJKLMNOPQRSTUVWXYZabcdefghijklmnopqrstuvwxyz"@;
    let others = "0123456789_"@;
    reveal_strlit("ABCDEFGHIJKLMNOPQRSTUVWXYZabcdefghijklmnopqrstuvwxyz");
    reveal_strlit("0123456789_");
    if 'A' <= c && c <= 'Z' {
        assert(letters[c as int - 'A' as int] == c);
    }
    if 'a' <= c && c <= 'z' {
        assert(letters[26 + (c as int - 'a' as int)] == c);
    }
    if '0' <= c && c <= '9' {
        assert(others[c as int - '0' as int] == c);
    }
    if c == '_' {
        assert(others[10] == c);
    }
}

/// Lower case: each capital letter becomes the small one of the same place in
/// the alphabet, and every other character stays, each at its place.
pub proof fn law_lower_case(s: Seq<char>, i: int)
    requires
        0 <= i < s.len(),
    ensures
        ({
            let capital = "ABCDEFGHIJKLMNOPQRSTUVWXYZ"@;
            let small = "abcdefghijklmnopqrstuvwxyz"@;
            &&& lower_text(s).len() == s.len()
            &&& !capital.contains(s[i]) ==> lower_text(s)[i] == s[i]
            &&& forall|k: int|
                0 <= k < 26 && #[trigger] capital[k] == s[i] ==> lower_text(s)[i] == small[k]
        }),
{
    let capital = "ABCDEFGHIJKLMNOPQRSTUVWXYZ"@;
    reveal_strlit("ABCDEFGHIJKLMNOPQRSTUVWXYZ");
    reveal_strlit("abcdefghijklmnopqrstuvwxyz");
    let c = s[i];
    if 'A' <= c && c <= 'Z' {
        assert(capital[c as int - 'A' as int] == c);
    }
    assert(lower_text(s)[i] == lower_char(c));
}

/// White space is the 25 characters that Unicode gives the property.
pub proof fn law_white_space(c: char)
    ensures
        is_space(c) <==> seq![
            '\t', '\n', '\u{b}', '\u{c}', '\r', ' ', '\u{85}', '\u{a0}', '\u{1680}', '\u{2000}',
            '\u{2001}', '\u{2002}', '\u{2003}', '\u{2004}', '\u{2005}', '\u{2006}', '\u{2007}',
            '\u{2008}', '\u{2009}', '\u{200a}', '\u{2028}', '\u{2029}', '\u{202f}', '\u{205f}',
            '\u{3000}',
        ].contains(c),
{
    let all = seq![
        '\t', '\n', '\u{b}', '\u{c}', '\r', ' ', '\u{85}', '\u{a0}', '\u{1680}', '\u{2000}',
        '\u{2001}', '\u{2002}', '\u{2003}', '\u{2004}', '\u{2005}', '\u{2006}', '\u{2007}',
        '\u{2008}', '\u{2009}', '\u{200a}', '\u{2028}', '\u{2029}', '\u{202f}', '\u{205f}',
        '\u{3000}',
    ];
    let code = c as int;
    if 9 <= code <= 13 {
        assert(all[code - 9] == c);
    } else if 0x2000 <= code <= 0x200a {
        assert(all[code - 0x2000 + 9] == c);
    } else if is_space(c) {
        assert(all[5] == c || all[6] == c || all[7] == c || all[8] == c || all[20] == c || all[21]
            == c || all[22] == c || all[23] == c || all[24] == c);
    }
}

// ---- pieces of texts ----

/// What trimming takes off at the front.
proof fn lemma_trim_front(s: Seq<char>) -> (k: int)
    ensures
        0 <= k <= s.len(),
        trim_front(s) == s.skip(k),
        forall|i: int| 0 <= i < k ==> is_space(#[trigger] s[i]),
        k < s.len() ==> !is_space(s[k]),
    decreases s.len(),
{
    if s.len() > 0 && is_space(s[0]) {
        let k = lemma_trim_front(s.skip(1));
        assert(s.skip(1).skip(k) =~= s.skip(k + 1));
        assert forall|i: int| 0 <= i < k + 1 implies is_space(#[trigger] s[i]) by {
            if i > 0 {
                assert(s.skip(1)[i - 1] == s[i]);
            }
        }
        k + 1
    } else {
        assert(s.skip(0) =~= s);
        0
    }
}

/// What trimming takes off at the back.
proof fn lemma_trim_back(s: Seq<char>) -> (k: int)
    ensures
        0 <= k <= s.len(),
        trim_back(s) == s.take(k),
        forall|i: int| k <= i < s.len() ==> is_space(#[trigger] s[i]),
        k > 0 ==> !is_space(s[k - 1]),
    decreases s.len(),
{
    if s.len() > 0 && is_space(s.last()) {
        let k = lemma_trim_back(s.drop_last());
        assert(s.drop_last().take(k) =~= s.take(k));
        assert forall|i: int| k <= i < s.len() implies is_space(#[trigger] s[i]) by {
            if i < s.len() - 1 {
                assert(s.drop_last()[i] == s[i]);
            }
        }
        k
    } else {
        assert(s.take(s.len() as int) =~= s);
        s.len() as int
    }
}

/// Trimming takes white space off both ends, all of it and nothing else: what
/// stays is a part of the text, with only white space around it, and neither
/// starts nor ends with white space.
pub proof fn law_trimming(s: Seq<char>) -> (bounds: (int, int))
    ensures
        0 <= bounds.0 <= bounds.1 <= s.len(),
        trimmed(s) == s.subrange(bounds.0, bounds.1),
        forall|i: int| 0 <= i < bounds.0 ==> is_space(#[trigger] s[i]),
        bounds.0 < bounds.1 ==> forall|i: int|
            bounds.1 <= i < s.len() ==> is_space(#[trigger] s[i]),
        bounds.0 == bounds.1 ==> forall|i: int| 0 <= i < s.len() ==> is_space(#[trigger] s[i]),
        bounds.0 < bounds.1 ==> !is_space(s[bounds.0]) && !is_space(s[bounds.1 - 1]),
{
    let from = lemma_trim_front(s);
    let rest = s.skip(from);
    let len = lemma_trim_back(rest);
    let to = from + len;
    assert(rest.take(len) =~= s.subrange(from, to));
    assert forall|i: int| to <= i < s.len() implies is_space(#[trigger] s[i]) by {
        assert(rest[i - from] == s[i]);
    }
    if len > 0 {
        assert(rest[len - 1] == s[to - 1]);
    }
    (from, to)
}

/// A list of texts joined: the first, then the separator and the others joined;
/// one alone is itself, and none is the empty text.
pub proof fn law_joining(first: Seq<char>, others: Seq<Seq<char>>, sep: Seq<char>)
    ensures
        joined(Seq::empty(), sep) == Seq::<char>::empty(),
        joined(seq![first], sep) == first,
        others.len() > 0 ==> joined(seq![first] + others, sep) == first + sep + joined(others, sep),
    decreases others.len(),
{
    if others.len() > 0 {
        let all = seq![first] + others;
        assert(all.drop_last() =~= seq![first] + others.drop_last());
        assert(all.last() == others.last());
        if others.len() == 1 {
            assert(all.drop_last() =~= seq![first]);
        } else {
            law_joining(first, others.drop_last(), sep);
            assert(joined(all, sep) =~= first + sep + joined(others, sep));
        }
    }
}

/// Joining a list that has one text more at its end.
proof fn lemma_join_last(front: Seq<Seq<char>>, last: Seq<char>, sep: Seq<char>)
    requires
        front.len() > 0,
    ensures
        joined(front.push(last), sep) == joined(front, sep) + sep + last,
{
    assert(front.push(last).drop_last() =~= front);
}

/// Splitting is undone by joining with the separator, and no piece holds it:
/// the pieces are what stands between the separators, all of it and in order.
pub proof fn law_splitting(s: Seq<char>, sep: char)
    ensures
        split_at(s, sep).len() > 0,
        joined(split_at(s, sep), seq![sep]) == s,
        forall|i: int|
            0 <= i < split_at(s, sep).len() ==> !(#[trigger] split_at(s, sep)[i]).contains(sep),
    decreases s.len(),
{
    let pieces = split_at(s, sep);
    if s.len() == 0 {
        assert(pieces =~= seq![Seq::<char>::empty()]);
        assert(s =~= Seq::<char>::empty());
    } else {
        let front = split_at(s.drop_last(), sep);
        law_splitting(s.drop_last(), sep);
        assert(s =~= s.drop_last() + seq![s.last()]);
        if s.last() == sep {
            lemma_join_last(front, Seq::empty(), seq![sep]);
            assert(s =~= s.drop_last() + seq![sep] + Seq::<char>::empty());
            assert forall|i: int| 0 <= i < pieces.len() implies !(#[trigger] pieces[i]).contains(
                sep,
            ) by {
                if i < front.len() {
                    assert(pieces[i] == front[i]);
                }
            }
        } else {
            let head = front.drop_last();
            let tail = front.last();
            assert(front =~= head.push(tail));
            assert(pieces == head.push(tail.push(s.last())));
            if head.len() > 0 {
                lemma_join_last(head, tail, seq![sep]);
                lemma_join_last(head, tail.push(s.last()), seq![sep]);
                assert(joined(pieces, seq![sep]) =~= s);
            } else {
                assert(front =~= seq![tail]);
                assert(pieces =~= seq![tail.push(s.last())]);
                assert(joined(pieces, seq![sep]) =~= s);
            }
            assert forall|i: int| 0 <= i < pieces.len() implies !(#[trigger] pieces[i]).contains(
                sep,
            ) by {
                if i < head.len() {
                    assert(pieces[i] == front[i]);
                } else {
                    let longer = tail.push(s.last());
                    assert(!front[head.len() as int].contains(sep));
                    if longer.contains(sep) {
                        let j = choose|j: int| 0 <= j < longer.len() && longer[j] == sep;
                        assert(tail[j] == sep);
                    }
                }
            }
        }
    }
}

/// What stands behind a separator, up to the next, is one piece.
proof fn lemma_split_behind(s: Seq<char>, piece: Seq<char>, sep: char)
    requires
        !piece.contains(sep),
    ensures
        split_at(s.push(sep) + piece, sep) == split_at(s, sep).push(piece),
    decreases piece.len(),
{
    let all = s.push(sep) + piece;
    if piece.len() == 0 {
        assert(all =~= s.push(sep));
        assert(all.drop_last() =~= s);
        assert(piece =~= Seq::<char>::empty());
    } else {
        let front = piece.drop_last();
        assert(!front.contains(sep)) by {
            if front.contains(sep) {
                let i = front.index_of(sep);
                assert(piece[i] == sep);
            }
        }
        assert(piece[piece.len() - 1] == piece.last());
        lemma_split_behind(s, front, sep);
        assert(all.drop_last() =~= s.push(sep) + front);
        assert(all.last() == piece.last());
        assert(split_at(s, sep).push(front).drop_last() =~= split_at(s, sep));
        assert(front.push(piece.last()) =~= piece);
    }
}

/// A text without the separator is one piece.
proof fn lemma_split_one(piece: Seq<char>, sep: char)
    requires
        !piece.contains(sep),
    ensures
        split_at(piece, sep) == seq![piece],
    decreases piece.len(),
{
    if piece.len() == 0 {
        assert(piece =~= Seq::<char>::empty());
    } else {
        let front = piece.drop_last();
        assert(!front.contains(sep)) by {
            if front.contains(sep) {
                let i = front.index_of(sep);
                assert(piece[i] == sep);
            }
        }
        assert(piece[piece.len() - 1] == piece.last());
        lemma_split_one(front, sep);
        assert(seq![front].drop_last() =~= Seq::<Seq<char>>::empty());
        assert(front.push(piece.last()) =~= piece);
        assert(split_at(piece, sep) =~= seq![piece]);
    }
}

/// Joining is undone by splitting, where no piece holds the separator.
pub proof fn law_splitting_undoes_joining(pieces: Seq<Seq<char>>, sep: char)
    requires
        pieces.len() > 0,
        forall|i: int| 0 <= i < pieces.len() ==> !(#[trigger] pieces[i]).contains(sep),
    ensures
        split_at(joined(pieces, seq![sep]), sep) == pieces,
    decreases pieces.len(),
{
    if pieces.len() == 1 {
        lemma_split_one(pieces[0], sep);
        assert(pieces =~= seq![pieces[0]]);
    } else {
        let front = pieces.drop_last();
        assert forall|i: int| 0 <= i < front.len() implies !(#[trigger] front[i]).contains(sep) by {
            assert(front[i] == pieces[i]);
        }
        law_splitting_undoes_joining(front, sep);
        let s = joined(front, seq![sep]);
        let last = pieces.last();
        assert(pieces[pieces.len() - 1] == last);
        lemma_split_behind(s, last, sep);
        assert(s + seq![sep] + last =~= s.push(sep) + last);
        assert(front.push(last) =~= pieces);
    }
}

/// Padding fills up with spaces behind the text, to the width and no further.
pub proof fn law_padding(s: Seq<char>, width: int)
    ensures
        ({
            let p = padded(s, width);
            &&& p.len() == if s.len() < width {
                width
            } else {
                s.len() as int
            }
            &&& p.take(s.len() as int) == s
            &&& forall|i: int| s.len() <= i < p.len() ==> #[trigger] p[i] == ' '
        }),
{
    let p = padded(s, width);
    assert(p.take(s.len() as int) =~= s);
}

/// A run of one character.
pub proof fn law_repeating(c: char, count: nat, i: int)
    ensures
        repeated(c, count).len() == count,
        0 <= i < count ==> repeated(c, count)[i] == c,
{
}

} // verus!
