//! Building text one character at a time: digits, numerals in base ten and
//! sixteen, and the two calls into `std` that turn numbers into characters
//! and characters into strings.

use vstd::prelude::*;

verus! {

/// Whether `v` is a Unicode scalar value: a code point that is no surrogate.
pub open spec fn is_scalar_value(v: int) -> bool {
    0 <= v <= 0x10FFFF && !(0xD800 <= v <= 0xDFFF)
}

/// A result whose error is a reason in words, with the reason taken by its
/// characters.
pub open spec fn reason_view<T>(r: Result<T, String>) -> Result<T, Seq<char>> {
    match r {
        Ok(v) => Ok(v),
        Err(reason) => Err(reason@),
    }
}

/// The character that writes the digit `d`: `'0'` to `'9'` for zero to nine,
/// `'A'` to `'F'` for ten to fifteen.
pub open spec fn digit_char(d: int) -> char
    recommends
        0 <= d < 16,
{
    if d < 10 {
        ('0' as int + d) as char
    } else {
        ('A' as int + (d - 10)) as char
    }
}

/// `n` in base sixteen with upper-case digits, most significant digit first,
/// padded on the left with zeros to at least `width` digits. There is always
/// at least one digit.
pub open spec fn hex_numeral(n: nat, width: nat) -> Seq<char>
    decreases n, width,
{
    if n < 16 && width <= 1 {
        seq![digit_char(n as int)]
    } else {
        let narrower = if width == 0 {
            0
        } else {
            (width - 1) as nat
        };
        hex_numeral(n / 16, narrower).push(digit_char((n % 16) as int))
    }
}

/// Whether a character is a digit of base sixteen in upper case.
pub open spec fn is_upper_hex_digit(c: char) -> bool {
    ('0' <= c <= '9') || ('A' <= c <= 'F')
}

/// A numeral of base sixteen has at least `width` digits and at least one,
/// and all of them are upper-case digits of base sixteen.
pub proof fn lemma_hex_numeral_shape(n: nat, width: nat)
    ensures
        hex_numeral(n, width).len() >= 1,
        hex_numeral(n, width).len() >= width,
        forall|i: int|
            0 <= i < hex_numeral(n, width).len() ==> is_upper_hex_digit(
                #[trigger] hex_numeral(n, width)[i],
            ),
    decreases n, width,
{
    if !(n < 16 && width <= 1) {
        let narrower = if width == 0 {
            0
        } else {
            (width - 1) as nat
        };
        lemma_hex_numeral_shape(n / 16, narrower);
    }
}

/// `n` in base ten, most significant digit first, without padding.
pub open spec fn decimal_numeral(n: nat) -> Seq<char>
    decreases n,
{
    if n < 10 {
        seq![digit_char(n as int)]
    } else {
        decimal_numeral(n / 10).push(digit_char((n % 10) as int))
    }
}

/// Appends one character to a string.
///
/// Trusted: calls `String::push`, which `std` documents as appending the
/// given `char` to the end of the string.
#[verifier::external_body]
pub(crate) fn push_char(text: &mut String, c: char)
    ensures
        final(text)@ == old(text)@.push(c),
{
    text.push(c)
}

/// The character with scalar value `v`, if there is one.
///
/// Trusted: calls `char::from_u32`, which `std` documents as returning `None`
/// exactly when `v` is not a valid value for a `char`, that is, when it is a
/// surrogate or lies above `0x10FFFF`.
#[verifier::external_body]
pub(crate) fn char_from_u32(v: u32) -> (c: Option<char>)
    ensures
        c == if is_scalar_value(v as int) {
            Some(v as char)
        } else {
            None::<char>
        },
{
    char::from_u32(v)
}

/// The character for a digit value below sixteen.
pub fn digit_to_char(d: u8) -> (c: char)
    requires
        d < 16,
    ensures
        c == digit_char(d as int),
{
    if d < 10 {
        (0x30u8 + d) as char
    } else {
        (0x41u8 + (d - 10)) as char
    }
}

/// Appends `n` in base ten.
pub fn push_decimal(text: &mut String, n: u8)
    ensures
        final(text)@ == old(text)@ + decimal_numeral(n as nat),
{
    proof {
        reveal_with_fuel(decimal_numeral, 3);
    }
    if n >= 100 {
        push_char(text, digit_to_char(n / 100));
    }
    if n >= 10 {
        push_char(text, digit_to_char((n / 10) % 10));
    }
    push_char(text, digit_to_char(n % 10));
    assert(text@ =~= old(text)@ + decimal_numeral(n as nat));
}

/// Appends `n` in base sixteen, upper case, with at least `width` digits.
pub fn push_hex(text: &mut String, n: u32, width: usize)
    ensures
        final(text)@ == old(text)@ + hex_numeral(n as nat, width as nat),
{
    // The digits come out least significant first; they are kept aside and
    // appended in reverse.
    let mut low_first: Vec<char> = Vec::new();
    let mut rest: u32 = n;
    let mut pad: usize = width;
    while !(rest < 16 && pad <= 1)
        invariant
            hex_numeral(n as nat, width as nat) == hex_numeral(rest as nat, pad as nat)
                + low_first@.reverse(),
        decreases rest + pad,
    {
        let d = digit_to_char((rest % 16) as u8);
        proof {
            let narrower = if pad == 0 {
                0nat
            } else {
                (pad - 1) as nat
            };
            let shorter = hex_numeral((rest / 16) as nat, narrower);
            assert(shorter.push(d) + low_first@.reverse() =~= shorter + low_first@.push(
                d,
            ).reverse());
        }
        low_first.push(d);
        rest = rest / 16;
        if pad > 0 {
            pad = pad - 1;
        }
    }
    low_first.push(digit_to_char(rest as u8));
    assert(hex_numeral(n as nat, width as nat) =~= low_first@.reverse()) by {
        let before = low_first@.drop_last();
        assert(seq![low_first@.last()] + before.reverse() =~= low_first@.reverse());
    }
    let mut i: usize = low_first.len();
    while i > 0
        invariant
            i <= low_first.len(),
            text@ == old(text)@ + low_first@.reverse().subrange(0, low_first.len() - i),
        decreases i,
    {
        i = i - 1;
        push_char(text, low_first[i]);
        assert(text@ =~= old(text)@ + low_first@.reverse().subrange(0, low_first.len() - i));
    }
    assert(low_first@.reverse().subrange(0, low_first.len() as int) =~= low_first@.reverse());
}

/// The numbers of `bytes` in base ten, separated by a comma and a space.
pub open spec fn byte_list_items(bytes: Seq<u8>) -> Seq<char>
    decreases bytes.len(),
{
    if bytes.len() == 0 {
        Seq::empty()
    } else if bytes.len() == 1 {
        decimal_numeral(bytes[0] as nat)
    } else {
        byte_list_items(bytes.drop_last()) + ", "@ + decimal_numeral(bytes.last() as nat)
    }
}

/// A list of bytes as it is shown: the numbers in base ten between square
/// brackets, such as `[240, 159]`.
pub open spec fn byte_list(bytes: Seq<u8>) -> Seq<char> {
    "["@ + byte_list_items(bytes) + "]"@
}

/// Appends the shown form of a list of bytes.
pub fn push_byte_list(text: &mut String, bytes: &[u8])
    ensures
        final(text)@ == old(text)@ + byte_list(bytes@),
{
    text.append("[");
    let mut i: usize = 0;
    while i < bytes.len()
        invariant
            i <= bytes.len(),
            text@ == old(text)@ + "["@ + byte_list_items(bytes@.subrange(0, i as int)),
        decreases bytes.len() - i,
    {
        let ghost before = text@;
        let ghost read = bytes@.subrange(0, i + 1);
        proof {
            assert(read.drop_last() =~= bytes@.subrange(0, i as int));
        }
        if i > 0 {
            text.append(", ");
        }
        push_decimal(text, bytes[i]);
        proof {
            if i == 0 {
                assert(bytes@.subrange(0, 0) =~= Seq::<u8>::empty());
                assert(text@ =~= old(text)@ + "["@ + byte_list_items(read));
            } else {
                assert(text@ =~= old(text)@ + "["@ + byte_list_items(read));
            }
        }
        i = i + 1;
    }
    text.append("]");
    proof {
        assert(bytes@.subrange(0, bytes.len() as int) =~= bytes@);
        assert(text@ =~= old(text)@ + byte_list(bytes@));
    }
}

} // verus!
