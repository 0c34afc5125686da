//! Character classes, case folding, and number formatting used throughout the
//! library. All specifications are stated over `Seq<char>` views; the few
//! places that handle raw socket bytes go through `chars_of`.

use vstd::prelude::*;

verus! {

/// Lowercase ASCII letter.
pub open spec fn is_lower_alpha(c: char) -> bool {
    'a' <= c && c <= 'z'
}

/// Uppercase ASCII letter.
pub open spec fn is_upper_alpha(c: char) -> bool {
    'A' <= c && c <= 'Z'
}

/// ASCII digit.
pub open spec fn is_digit_char(c: char) -> bool {
    '0' <= c && c <= '9'
}

/// Character allowed in a DNS label as this library stores it: lowercase
/// letter, digit, or hyphen.
pub open spec fn is_label_char(c: char) -> bool {
    is_lower_alpha(c) || is_digit_char(c) || c == '-'
}

/// Character allowed in a DNS label before case folding: letter of either
/// case, digit, or hyphen.
pub open spec fn is_label_char_ci(c: char) -> bool {
    is_lower_alpha(c) || is_upper_alpha(c) || is_digit_char(c) || c == '-'
}

/// ASCII case folding of one character.
pub open spec fn lower_char(c: char) -> char {
    if is_upper_alpha(c) {
        ((c as u32) + 32) as char
    } else {
        c
    }
}

/// ASCII case folding of a character sequence.
pub open spec fn lower_chars(s: Seq<char>) -> Seq<char> {
    s.map_values(|c: char| lower_char(c))
}

/// The characters corresponding to a sequence of ASCII bytes, one per byte.
pub open spec fn chars_of(s: Seq<u8>) -> Seq<char> {
    s.map_values(|b: u8| (b as u32) as char)
}

/// Every byte is ASCII.
pub open spec fn all_ascii(s: Seq<u8>) -> bool {
    forall|i: int| 0 <= i < s.len() ==> s[i] < 128
}

/// ASCII case folding of one character, in executable form.
pub fn lower_char_exec(c: char) -> (r: char)
    ensures
        r == lower_char(c),
{
    match c {
        'A' => 'a',
        'B' => 'b',
        'C' => 'c',
        'D' => 'd',
        'E' => 'e',
        'F' => 'f',
        'G' => 'g',
        'H' => 'h',
        'I' => 'i',
        'J' => 'j',
        'K' => 'k',
        'L' => 'l',
        'M' => 'm',
        'N' => 'n',
        'O' => 'o',
        'P' => 'p',
        'Q' => 'q',
        'R' => 'r',
        'S' => 's',
        'T' => 't',
        'U' => 'u',
        'V' => 'v',
        'W' => 'w',
        'X' => 'x',
        'Y' => 'y',
        'Z' => 'z',
        _ => c,
    }
}

/// String equality stated over the views.
pub fn str_eq(a: &str, b: &str) -> (r: bool)
    ensures
        r == (a@ == b@),
{
    let x = a.to_owned();
    let y = b.to_owned();
    x == y
}

/// The character for one decimal digit value.
pub open spec fn dec_char(d: int) -> char {
    ((48 + d) as u32) as char
}

/// Decimal notation of a number, most significant digit first, no leading
/// zeros (a single `'0'` for zero).
pub open spec fn dec_chars(n: int) -> Seq<char>
    decreases n,
{
    if n < 10 {
        seq![dec_char(n)]
    } else {
        dec_chars(n / 10) + seq![dec_char(n % 10)]
    }
}

/// The character for one hexadecimal digit value, lowercase.
pub open spec fn hex_char(d: int) -> char {
    if d < 10 {
        ((48 + d) as u32) as char
    } else {
        ((87 + d) as u32) as char
    }
}

/// The character for one hexadecimal digit value, uppercase.
pub open spec fn hex_char_upper(d: int) -> char {
    if d < 10 {
        ((48 + d) as u32) as char
    } else {
        ((55 + d) as u32) as char
    }
}

/// Hexadecimal notation of a number, lowercase, most significant digit first,
/// no leading zeros (a single `'0'` for zero).
pub open spec fn hex_chars(n: int) -> Seq<char>
    decreases n,
{
    if n < 16 {
        seq![hex_char(n)]
    } else {
        hex_chars(n / 16) + seq![hex_char(n % 16)]
    }
}

/// Appends the decimal notation of `n` to `out`.
pub fn push_dec_u64(out: &mut Vec<u8>, n: u64)
    ensures
        final(out)@ == old(out)@ + dec_bytes(n as int),
    decreases n,
{
    if n < 10 {
        out.push(48 + n as u8);
        assert(out@ =~= old(out)@ + dec_bytes(n as int));
    } else {
        push_dec_u64(out, n / 10);
        out.push(48 + (n % 10) as u8);
        assert(out@ =~= old(out)@ + dec_bytes(n as int));
    }
}

/// The byte for one decimal digit value.
pub open spec fn dec_byte(d: int) -> u8 {
    (48 + d) as u8
}

/// Decimal notation of a number as ASCII bytes.
pub open spec fn dec_bytes(n: int) -> Seq<u8>
    decreases n,
{
    if n < 10 {
        seq![dec_byte(n)]
    } else {
        dec_bytes(n / 10) + seq![dec_byte(n % 10)]
    }
}

/// The byte for one hexadecimal digit value, lowercase.
pub open spec fn hex_byte(d: int) -> u8 {
    if d < 10 {
        (48 + d) as u8
    } else {
        (87 + d) as u8
    }
}

/// Lowercase hexadecimal encoding of a byte sequence: two digits per byte,
/// high nibble first.
pub open spec fn hex_pair_bytes(s: Seq<u8>) -> Seq<u8> {
    Seq::new(
        2 * s.len(),
        |i: int| if i % 2 == 0 {
            hex_byte((s[i / 2] >> 4) as int)
        } else {
            hex_byte((s[i / 2] & 0xf) as int)
        },
    )
}

/// Hexadecimal pair encoding yields ASCII bytes that are lowercase hex
/// digits, hence valid label characters.
pub proof fn lemma_hex_pair_props(s: Seq<u8>)
    ensures
        all_ascii(hex_pair_bytes(s)),
        forall|i: int|
            0 <= i < hex_pair_bytes(s).len() ==> is_label_char(
                chars_of(hex_pair_bytes(s))[i],
            ) && chars_of(hex_pair_bytes(s))[i] != '-',
{
    let h = hex_pair_bytes(s);
    assert forall|i: int| 0 <= i < h.len() implies h[i] < 128 by {
        let b: u8 = s[i / 2];
        assert((b >> 4) < 16 && (b & 0xf) < 16) by (bit_vector);
    }
    assert forall|i: int| 0 <= i < h.len() implies is_label_char(chars_of(h)[i]) && chars_of(
        h,
    )[i] != '-' by {
        let b: u8 = s[i / 2];
        assert((b >> 4) < 16 && (b & 0xf) < 16) by (bit_vector);
    }
}

/// Lowercase hexadecimal notation of a number as ASCII bytes, most
/// significant digit first, no leading zeros (a single `'0'` for zero).
pub open spec fn hex_min_bytes(n: int) -> Seq<u8>
    decreases n,
{
    if n < 16 {
        seq![hex_byte(n)]
    } else {
        hex_min_bytes(n / 16) + seq![hex_byte(n % 16)]
    }
}

/// Appends the lowercase hexadecimal notation of `n` to `out`.
pub fn push_hex_u128(out: &mut Vec<u8>, n: u128)
    ensures
        final(out)@ == old(out)@ + hex_min_bytes(n as int),
    decreases n,
{
    if n < 16 {
        let d = n as u8;
        out.push(if d < 10 {
            48 + d
        } else {
            87 + d
        });
        assert(out@ =~= old(out)@ + hex_min_bytes(n as int));
    } else {
        push_hex_u128(out, n / 16);
        let d = (n % 16) as u8;
        out.push(if d < 10 {
            48 + d
        } else {
            87 + d
        });
        assert(out@ =~= old(out)@ + hex_min_bytes(n as int));
    }
}

/// Hexadecimal notation is made of ASCII bytes whose characters are lowercase
/// hex digits, hence valid label characters, and is never empty.
pub proof fn lemma_hex_min_props(n: int)
    requires
        n >= 0,
    ensures
        all_ascii(hex_min_bytes(n)),
        hex_min_bytes(n).len() >= 1,
        forall|i: int|
            0 <= i < hex_min_bytes(n).len() ==> is_label_char(
                chars_of(hex_min_bytes(n))[i],
            ) && chars_of(hex_min_bytes(n))[i] != '-',
    decreases n,
{
    if n >= 16 {
        lemma_hex_min_props(n / 16);
        let w = hex_min_bytes(n);
        let p = hex_min_bytes(n / 16);
        assert forall|i: int| 0 <= i < w.len() implies w[i] < 128 && is_label_char(
            chars_of(w)[i],
        ) && chars_of(w)[i] != '-' by {
            if i < p.len() {
                assert(w[i] == p[i]);
                assert(chars_of(w)[i] == chars_of(p)[i]);
            } else {
                assert(w[i] == hex_byte(n % 16));
            }
        }
    }
}

/// Decimal notation is made of ASCII bytes whose characters are digits, hence
/// valid label characters, and is never empty.
pub proof fn lemma_dec_props(n: int)
    requires
        n >= 0,
    ensures
        all_ascii(dec_bytes(n)),
        dec_bytes(n).len() >= 1,
        forall|i: int|
            0 <= i < dec_bytes(n).len() ==> is_digit_char(chars_of(dec_bytes(n))[i]),
    decreases n,
{
    if n >= 10 {
        lemma_dec_props(n / 10);
        let w = dec_bytes(n);
        let p = dec_bytes(n / 10);
        assert forall|i: int| 0 <= i < w.len() implies w[i] < 128 && is_digit_char(
            chars_of(w)[i],
        ) by {
            if i < p.len() {
                assert(w[i] == p[i]);
                assert(chars_of(w)[i] == chars_of(p)[i]);
            } else {
                assert(w[i] == dec_byte(n % 10));
            }
        }
    }
}

/// Powers of ten.
pub open spec fn pow10(k: nat) -> int
    decreases k,
{
    if k == 0 {
        1
    } else {
        10 * pow10((k - 1) as nat)
    }
}

/// A number below `pow10(k)` has at most `k` decimal digits.
pub proof fn lemma_dec_len_bound(n: int, k: nat)
    requires
        0 <= n,
        1 <= k,
        n < pow10(k),
    ensures
        dec_bytes(n).len() <= k,
    decreases k,
{
    if n >= 10 {
        assert(pow10(k) == 10 * pow10((k - 1) as nat));
        if k == 1 {
            assert(pow10(0) == 1);
            assert(false);
        } else {
            lemma_dec_len_bound(n / 10, (k - 1) as nat);
        }
    }
}

/// Decimal notation of a number, as a string.
pub fn dec_u64_string(n: u64) -> (r: String)
    ensures
        r@ == dec_chars(n as int),
        r@.len() >= 1,
        forall|i: int| 0 <= i < r@.len() ==> is_digit_char(#[trigger] r@[i]),
{
    let mut out: Vec<u8> = Vec::new();
    push_dec_u64(&mut out, n);
    proof {
        lemma_dec_props(n as int);
        lemma_dec_bytes_chars(n as int);
    }
    ascii_string(&out)
}

/// The decimal bytes of a number spell its decimal characters.
pub proof fn lemma_dec_bytes_chars(n: int)
    requires
        n >= 0,
    ensures
        chars_of(dec_bytes(n)) == dec_chars(n),
        all_ascii(dec_bytes(n)),
    decreases n,
{
    if n < 10 {
        assert(chars_of(dec_bytes(n)) =~= dec_chars(n));
    } else {
        lemma_dec_bytes_chars(n / 10);
        assert(chars_of(dec_bytes(n)) =~= chars_of(dec_bytes(n / 10)) + chars_of(
            seq![dec_byte(n % 10)],
        ));
        assert(chars_of(seq![dec_byte(n % 10)]) =~= seq![dec_char(n % 10)]);
    }
}


/// ASCII bytes are valid UTF-8 and decode to one character per byte.
pub proof fn lemma_ascii_utf8(bytes: Seq<u8>)
    requires
        all_ascii(bytes),
    ensures
        vstd::utf8::valid_utf8(bytes),
        vstd::utf8::decode_utf8(bytes) == chars_of(bytes),
    decreases bytes.len(),
{
    if bytes.len() > 0 {
        let b: u8 = bytes[0];
        assert(b < 128);
        assert((b & 0x7f) == b) by (bit_vector)
            requires
                b < 128,
        ;
        assert(vstd::utf8::is_leading_byte_width_1(b));
        assert(vstd::utf8::length_of_first_scalar(bytes) == 1);
        assert(vstd::utf8::valid_first_scalar(bytes));
        assert(vstd::utf8::decode_first_scalar(bytes) == b as u32);
        assert(vstd::utf8::pop_first_scalar(bytes) =~= bytes.drop_first());
        assert(all_ascii(bytes.drop_first()));
        lemma_ascii_utf8(bytes.drop_first());
        assert(vstd::utf8::valid_utf8(bytes));
        assert(vstd::utf8::decode_utf8(bytes) =~= chars_of(bytes)) by {
            assert(vstd::utf8::decode_utf8(bytes) == seq![(b as u32) as char]
                + vstd::utf8::decode_utf8(bytes.drop_first()));
            assert(chars_of(bytes.drop_first()) =~= chars_of(bytes).drop_first());
        }
    } else {
        assert(vstd::utf8::decode_utf8(bytes) =~= chars_of(bytes));
    }
}

/// Builds the string spelt by a sequence of ASCII bytes.
pub fn ascii_string(bytes: &Vec<u8>) -> (r: String)
    requires
        all_ascii(bytes@),
    ensures
        r@ == chars_of(bytes@),
{
    proof {
        lemma_ascii_utf8(bytes@);
    }
    match crate::ext::utf8_string(bytes) {
        Some(s) => s,
        None => {
            proof {
                assert(false);
            }
            String::new()
        },
    }
}

} // verus!
