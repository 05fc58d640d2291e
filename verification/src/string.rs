use vstd::prelude::*;
use vstd::utf8::encode_utf8;
use vstd::utf8::is_ascii_chars;

verus! {

/// The character standing for one digit value below sixteen.
pub open spec fn digit_char(d: nat) -> char {
    if d == 0 {
        '0'
    } else if d == 1 {
        '1'
    } else if d == 2 {
        '2'
    } else if d == 3 {
        '3'
    } else if d == 4 {
        '4'
    } else if d == 5 {
        '5'
    } else if d == 6 {
        '6'
    } else if d == 7 {
        '7'
    } else if d == 8 {
        '8'
    } else if d == 9 {
        '9'
    } else if d == 10 {
        'a'
    } else if d == 11 {
        'b'
    } else if d == 12 {
        'c'
    } else if d == 13 {
        'd'
    } else if d == 14 {
        'e'
    } else {
        'f'
    }
}

/// The digits of `n` in the given base, most significant first, with no
/// leading zeros (a single `'0'` for zero itself).
pub open spec fn digits(n: nat, base: nat) -> Seq<char>
    recommends
        2 <= base <= 16,
    decreases n,
    via digits_decreases
{
    if n < base || base <= 1 {
        seq![digit_char(n)]
    } else {
        digits(n / base, base) + seq![digit_char(n % base)]
    }
}

#[via_fn]
proof fn digits_decreases(n: nat, base: nat) {
    if n >= base && base > 1 {
        vstd::arithmetic::div_mod::lemma_div_decreases(n as int, base as int);
    }
}

/// The binary digit string of `n`, as `{:b}` formatting writes it.
pub open spec fn bin_of(n: nat) -> Seq<char> {
    digits(n, 2)
}

/// The lower-case hexadecimal digit string of `n`, as `{:x}` formatting
/// writes it.
pub open spec fn hex_of(n: nat) -> Seq<char> {
    digits(n, 16)
}

/// `k` zero characters.
pub open spec fn zeroes(k: nat) -> Seq<char> {
    Seq::new(k, |i| '0')
}

/// `s` left-padded with zeros up to `width` characters; a string already
/// that wide comes back unchanged.
pub open spec fn pad_left(s: Seq<char>, width: nat) -> Seq<char> {
    if s.len() >= width {
        s
    } else {
        zeroes((width - s.len()) as nat) + s
    }
}

/// The byte length of a character sequence under UTF-8 encoding, as
/// `str::len` reports it.
pub open spec fn enc_len(s: Seq<char>) -> nat {
    (encode_utf8(s).len() as usize) as nat
}

/// The byte length of a string, as `str::len` reports it.
pub open spec fn byte_len(s: String) -> nat {
    enc_len(s@)
}

/// `s` left-padded with zeros up to `num` bytes, measuring `s` in bytes as
/// the padding routine does.
pub open spec fn padded_with(s: String, num: nat) -> Seq<char> {
    if byte_len(s) >= num {
        s@
    } else {
        zeroes((num - byte_len(s)) as nat) + s@
    }
}

/// UTF-8 encoding distributes over concatenation.
pub proof fn lemma_encode_utf8_concat(a: Seq<char>, b: Seq<char>)
    ensures
        encode_utf8(a + b) == encode_utf8(a) + encode_utf8(b),
    decreases a.len(),
{
    if a.len() == 0 {
        assert(a + b =~= b);
        assert(encode_utf8(a) + encode_utf8(b) =~= encode_utf8(b));
    } else {
        assert((a + b).drop_first() =~= a.drop_first() + b);
        assert((a + b)[0] == a[0]);
        lemma_encode_utf8_concat(a.drop_first(), b);
        assert(encode_utf8(a + b) =~= encode_utf8(a) + encode_utf8(b));
    }
}

/// Ascii character sequences keep their length under UTF-8 encoding.
pub proof fn lemma_ascii_byte_len(s: String)
    requires
        is_ascii_chars(s@),
        s@.len() < 0x8000_0000,
    ensures
        byte_len(s) == s@.len(),
{
    broadcast use vstd::utf8::is_ascii_chars_encode_utf8;

}

/// Concatenating two ascii sequences yields an ascii sequence.
pub proof fn lemma_ascii_concat(a: Seq<char>, b: Seq<char>)
    requires
        is_ascii_chars(a),
        is_ascii_chars(b),
    ensures
        is_ascii_chars(a + b),
{
    assert forall|i: int| 0 <= i < (a + b).len() implies '\0' <= #[trigger] (a + b)[i]
        <= '\u{7f}' by {
        if i < a.len() {
            assert((a + b)[i] == a[i]);
        } else {
            assert((a + b)[i] == b[i - a.len()]);
        }
    }
}

/// A value below `base` to the `k` has at most `k` digits.
pub proof fn lemma_digits_len(n: nat, base: nat, k: nat)
    requires
        2 <= base,
        1 <= k,
        n < vstd::arithmetic::power::pow(base as int, k),
    ensures
        digits(n, base).len() <= k,
    decreases k,
{
    reveal_with_fuel(vstd::arithmetic::power::pow, 2);
    if n < base {
    } else {
        let p1 = vstd::arithmetic::power::pow(base as int, (k - 1) as nat);
        assert(vstd::arithmetic::power::pow(base as int, k) == base * p1);
        if k == 1 {
            assert(p1 == 1);
            assert(false);
        } else {
            vstd::arithmetic::div_mod::lemma_multiply_divide_lt(n as int, base as int, p1);
            lemma_digits_len(n / base, base, (k - 1) as nat);
        }
    }
}

/// Digit strings hold ascii characters only.
pub proof fn lemma_digits_ascii(n: nat, base: nat)
    ensures
        is_ascii_chars(digits(n, base)),
    decreases n,
{
    assert forall|d: nat| '\0' <= #[trigger] digit_char(d) <= '\u{7f}' by {}
    if n < base || base <= 1 {
    } else {
        vstd::arithmetic::div_mod::lemma_div_decreases(n as int, base as int);
        lemma_digits_ascii(n / base, base);
        lemma_ascii_concat(digits(n / base, base), seq![digit_char(n % base)]);
    }
}

/// A byte has at most eight binary digits.
pub proof fn lemma_bin_of_u8_len(n: u8)
    ensures
        1 <= bin_of(n as nat).len() <= 8,
{
    reveal_with_fuel(vstd::arithmetic::power::pow, 9);
    assert(vstd::arithmetic::power::pow(2, 8) == 256);
    lemma_digits_len(n as nat, 2, 8);
}

/// A byte has one or two hexadecimal digits.
pub proof fn lemma_hex_of_u8_len(n: u8)
    ensures
        1 <= hex_of(n as nat).len() <= 2,
{
    reveal_with_fuel(vstd::arithmetic::power::pow, 3);
    assert(vstd::arithmetic::power::pow(16, 2) == 256);
    lemma_digits_len(n as nat, 16, 2);
}

/// A 32-bit value has at most eight hexadecimal digits.
pub proof fn lemma_hex_of_u32_len(n: u32)
    ensures
        1 <= hex_of(n as nat).len() <= 8,
{
    reveal_with_fuel(vstd::arithmetic::power::pow, 9);
    assert(vstd::arithmetic::power::pow(16, 8) == 0x1_0000_0000);
    lemma_digits_len(n as nat, 16, 8);
}

/// The one-character string for a digit value below sixteen.
fn digit_str(d: u8) -> (r: &'static str)
    requires
        d < 16,
    ensures
        r@ == seq![digit_char(d as nat)],
        is_ascii_chars(r@),
{
    let r: &'static str = if d == 0 {
        "0"
    } else if d == 1 {
        "1"
    } else if d == 2 {
        "2"
    } else if d == 3 {
        "3"
    } else if d == 4 {
        "4"
    } else if d == 5 {
        "5"
    } else if d == 6 {
        "6"
    } else if d == 7 {
        "7"
    } else if d == 8 {
        "8"
    } else if d == 9 {
        "9"
    } else if d == 10 {
        "a"
    } else if d == 11 {
        "b"
    } else if d == 12 {
        "c"
    } else if d == 13 {
        "d"
    } else if d == 14 {
        "e"
    } else {
        "f"
    };
    proof {
        reveal_strlit("0");
        reveal_strlit("1");
        reveal_strlit("2");
        reveal_strlit("3");
        reveal_strlit("4");
        reveal_strlit("5");
        reveal_strlit("6");
        reveal_strlit("7");
        reveal_strlit("8");
        reveal_strlit("9");
        reveal_strlit("a");
        reveal_strlit("b");
        reveal_strlit("c");
        reveal_strlit("d");
        reveal_strlit("e");
        reveal_strlit("f");
        assert(r@ =~= seq![digit_char(d as nat)]);
    }
    r
}

/// The binary digit string of a byte, without leading zeros.
pub fn to_binary_string(n: u8) -> (r: String)
    ensures
        r@ == bin_of(n as nat),
        is_ascii_chars(r@),
    decreases n,
{
    if n < 2 {
        let mut s = String::new();
        s.append(digit_str(n));
        proof {
            assert(s@ =~= bin_of(n as nat));
        }
        s
    } else {
        let mut s = to_binary_string(n / 2);
        let ghost prefix = s@;
        s.append(digit_str(n % 2));
        proof {
            assert(s@ =~= bin_of(n as nat));
            lemma_ascii_concat(prefix, seq![digit_char((n % 2) as nat)]);
        }
        s
    }
}

/// The lower-case hexadecimal digit string of a code point value, without
/// leading zeros.
pub fn to_hexadecimal_string(n: u32) -> (r: String)
    ensures
        r@ == hex_of(n as nat),
        is_ascii_chars(r@),
    decreases n,
{
    if n < 16 {
        let mut s = String::new();
        s.append(digit_str(n as u8));
        proof {
            assert(s@ =~= hex_of(n as nat));
        }
        s
    } else {
        let mut s = to_hexadecimal_string(n / 16);
        let ghost prefix = s@;
        s.append(digit_str((n % 16) as u8));
        proof {
            assert(s@ =~= hex_of(n as nat));
            lemma_ascii_concat(prefix, seq![digit_char((n % 16) as nat)]);
        }
        s
    }
}

/// The binary digit string of a byte, zero-padded on the left to `num`
/// digits.
pub fn binary_padded(n: u8, num: usize) -> (r: String)
    ensures
        r@ == pad_left(bin_of(n as nat), num as nat),
        is_ascii_chars(r@),
{
    let r = Padding::with_padding(n, to_binary_string, num);
    proof {
        let s = choose|s: String|
            call_ensures(to_binary_string, (n,), s) && r@ == padded_with(s, num as nat);
        lemma_bin_of_u8_len(n);
        lemma_ascii_byte_len(s);
        assert(r@ =~= pad_left(bin_of(n as nat), num as nat));
        if s@.len() < num {
            assert(is_ascii_chars(zeroes((num - s@.len()) as nat)));
            lemma_ascii_concat(zeroes((num - s@.len()) as nat), s@);
        }
    }
    r
}

/// The hexadecimal digit string of a value, zero-padded on the left to
/// `num` digits.
pub fn hex_padded(n: u32, num: usize) -> (r: String)
    ensures
        r@ == pad_left(hex_of(n as nat), num as nat),
        is_ascii_chars(r@),
{
    let r = Padding::with_padding(n, to_hexadecimal_string, num);
    proof {
        let s = choose|s: String|
            call_ensures(to_hexadecimal_string, (n,), s) && r@ == padded_with(s, num as nat);
        lemma_hex_of_u32_len(n);
        lemma_ascii_byte_len(s);
        assert(r@ =~= pad_left(hex_of(n as nat), num as nat));
        if s@.len() < num {
            assert(is_ascii_chars(zeroes((num - s@.len()) as nat)));
            lemma_ascii_concat(zeroes((num - s@.len()) as nat), s@);
        }
    }
    r
}

/// Left-pads what a stringifier produces with zeros, up to a requested
/// width in bytes.
pub trait Padding: Sized {
    /// Renders `self` through `stringifier` and zero-pads the result on the
    /// left so that it is at least `num` bytes wide.
    fn with_padding<F: Fn(Self) -> String>(self, stringifier: F, num: usize) -> (r: String)
        requires
            call_requires(stringifier, (self,)),
        ensures
            exists|s: String|
                call_ensures(stringifier, (self,), s) && r@ == padded_with(s, num as nat),
    ;
}

impl<T> Padding for T {
    fn with_padding<F: Fn(T) -> String>(self, stringifier: F, num: usize) -> (r: String) {
        let ghost arg = self;
        let s = stringifier(self);
        let len = s.as_str().len();
        if len < num {
            let d = num - len;
            let mut z = String::new();
            let mut k: usize = 0;
            while k < d
                invariant
                    k <= d,
                    z@ == zeroes(k as nat),
                decreases d - k,
            {
                z.append("0");
                k += 1;
                proof {
                    reveal_strlit("0");
                    assert(z@ =~= zeroes(k as nat));
                }
            }
            z.append(s.as_str());
            proof {
                assert(z@ =~= padded_with(s, num as nat));
                assert(call_ensures(stringifier, (arg,), s) && z@ == padded_with(
                    s,
                    num as nat,
                ));
            }
            z
        } else {
            proof {
                assert(call_ensures(stringifier, (arg,), s) && s@ == padded_with(
                    s,
                    num as nat,
                ));
            }
            s
        }
    }
}

} // verus!
