//! Building text: decimal and hexadecimal numerals and padded columns.
use vstd::prelude::*;

verus! {

/// `String::push` appends one character at the end of the string.
pub assume_specification[ String::push ](s: &mut String, c: char)
    ensures
        final(s)@ == old(s)@.push(c),
;

/// The numeral of `d`, for `d` below sixteen: `0` to `9`, then `a` to `f`.
pub open spec fn digit(d: nat) -> char {
    if d < 10 {
        (48 + d) as char
    } else {
        (87 + d) as char
    }
}

/// `n` in base ten, without leading zeros.
pub open spec fn decimal(n: nat) -> Seq<char>
    decreases n,
{
    if n < 10 {
        seq![digit(n)]
    } else {
        decimal(n / 10).push(digit(n % 10))
    }
}

/// The last `width` digits of `n` in base sixteen, lower case, with leading zeros.
pub open spec fn hex(n: nat, width: nat) -> Seq<char>
    decreases width,
{
    if width == 0 {
        seq![]
    } else {
        hex(n / 16, (width - 1) as nat).push(digit(n % 16))
    }
}

/// `text`, followed by as many spaces as it falls short of `width` characters.
pub open spec fn column(text: Seq<char>, width: nat) -> Seq<char> {
    if text.len() < width {
        text + Seq::new((width - text.len()) as nat, |i: int| ' ')
    } else {
        text
    }
}

/// Appends the numeral of a single digit.
fn push_digit(out: &mut String, d: u8)
    requires
        d < 16,
    ensures
        final(out)@ == old(out)@.push(digit(d as nat)),
{
    let code: u8 = if d < 10 {
        48 + d
    } else {
        87 + d
    };
    out.push(code as char);
}

/// Appends `n` in base ten.
pub fn push_decimal(out: &mut String, n: u128)
    ensures
        final(out)@ == old(out)@ + decimal(n as nat),
    decreases n,
{
    if n >= 10 {
        push_decimal(out, n / 10);
    }
    push_digit(out, (n % 10) as u8);
}

/// Appends the last `width` digits of `n` in base sixteen.
pub fn push_hex(out: &mut String, n: u64, width: u64)
    ensures
        final(out)@ == old(out)@ + hex(n as nat, width as nat),
    decreases width,
{
    if width > 0 {
        push_hex(out, n / 16, width - 1);
        push_digit(out, (n % 16) as u8);
    }
}

/// Appends `text` as a column that is at least `width` characters wide.
pub fn push_column(out: &mut String, text: &str, width: usize)
    ensures
        final(out)@ == old(out)@ + column(text@, width as nat),
{
    out.append(text);
    let len: usize = text.unicode_len();
    let mut filled: usize = len;
    while filled < width
        invariant
            len == text@.len(),
            len <= filled,
            filled <= width || filled == len,
            out@ == old(out)@ + text@ + Seq::new((filled - len) as nat, |i: int| ' '),
        decreases width - filled,
    {
        out.push(' ');
        filled = filled + 1;
    }
}

/// Appends `n` in base ten as a column that is at least `width` characters wide.
pub fn push_number_column(out: &mut String, n: u64, width: usize)
    ensures
        final(out)@ == old(out)@ + column(decimal(n as nat), width as nat),
{
    let mut numeral = String::new();
    push_decimal(&mut numeral, n as u128);
    push_column(out, numeral.as_str(), width);
}

/// A numeral of a given width determines every number that fits it.
pub proof fn lemma_hex_injective(a: nat, b: nat, width: nat)
    requires
        hex(a, width) == hex(b, width),
        a < vstd::arithmetic::power::pow(16, width),
        b < vstd::arithmetic::power::pow(16, width),
    ensures
        a == b,
    decreases width,
{
    reveal(vstd::arithmetic::power::pow);
    if width > 0 {
        let a1 = hex(a / 16, (width - 1) as nat);
        let b1 = hex(b / 16, (width - 1) as nat);
        assert(a1 =~= hex(a, width).drop_last());
        assert(b1 =~= hex(b, width).drop_last());
        assert(hex(a, width).last() == digit(a % 16));
        assert(hex(b, width).last() == digit(b % 16));
        let p = vstd::arithmetic::power::pow(16, (width - 1) as nat);
        assert(vstd::arithmetic::power::pow(16, width) == 16 * p);
        lemma_hex_injective(a / 16, b / 16, (width - 1) as nat);
    }
}

/// The characters of lower-case hexadecimal numerals.
pub open spec fn is_hex_digit(c: char) -> bool {
    ('0' <= c && c <= '9') || ('a' <= c && c <= 'f')
}

/// A hexadecimal numeral is as long as asked and holds nothing but digits.
pub proof fn lemma_hex_digits(n: nat, width: nat)
    ensures
        hex(n, width).len() == width,
        forall|i: int| 0 <= i < width ==> is_hex_digit(#[trigger] hex(n, width)[i]),
    decreases width,
{
    if width > 0 {
        lemma_hex_digits(n / 16, (width - 1) as nat);
        assert forall|i: int| 0 <= i < width implies is_hex_digit(#[trigger] hex(n, width)[i]) by {
            if i < width - 1 {
                assert(hex(n, width)[i] == hex(n / 16, (width - 1) as nat)[i]);
            }
        }
    }
}

} // verus!
