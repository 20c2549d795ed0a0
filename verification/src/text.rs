use vstd::prelude::*;

verus! {

/// Whether `c` has the Unicode property `White_Space`, the whitespace that
/// `str::trim` removes.
pub open spec fn is_unicode_whitespace(c: char) -> bool {
    let v = c as u32;
    ||| 0x09 <= v <= 0x0D
    ||| v == 0x20
    ||| v == 0x85
    ||| v == 0xA0
    ||| v == 0x1680
    ||| 0x2000 <= v <= 0x200A
    ||| v == 0x2028
    ||| v == 0x2029
    ||| v == 0x202F
    ||| v == 0x205F
    ||| v == 0x3000
}

/// `s` without its leading whitespace.
pub open spec fn trim_start(s: Seq<char>) -> Seq<char>
    decreases s.len(),
{
    if s.len() > 0 && is_unicode_whitespace(s[0]) {
        trim_start(s.drop_first())
    } else {
        s
    }
}

/// `s` without its trailing whitespace.
pub open spec fn trim_end(s: Seq<char>) -> Seq<char>
    decreases s.len(),
{
    if s.len() > 0 && is_unicode_whitespace(s.last()) {
        trim_end(s.drop_last())
    } else {
        s
    }
}

/// `s` without its leading and trailing whitespace.
pub open spec fn trim(s: Seq<char>) -> Seq<char> {
    trim_end(trim_start(s))
}

/// Calls `str::trim`, which removes leading and trailing whitespace, where
/// whitespace is what has the Unicode property `White_Space`.
#[verifier::external_body]
pub(crate) fn trim_str(s: &str) -> (r: &str)
    ensures
        r@ == trim(s@),
{
    s.trim()
}

/// Calls `String::push`, which appends one char to the end of the string.
#[verifier::external_body]
pub(crate) fn push_char(s: &mut String, c: char)
    ensures
        final(s)@ == old(s)@.push(c),
{
    s.push(c);
}

/// The uppercase hexadecimal digit for `d < 16`.
pub open spec fn hex_digit(d: u8) -> char {
    if d < 10 {
        ((0x30 + d) as u32) as char
    } else {
        ((0x41 + d - 10) as u32) as char
    }
}

/// The decimal digit for `d < 10`.
pub open spec fn decimal_digit(d: u8) -> char {
    ((0x30 + d) as u32) as char
}

/// `n` written in decimal, without leading zeros.
pub open spec fn decimal(n: nat) -> Seq<char>
    decreases n,
{
    if n < 10 {
        seq![decimal_digit(n as u8)]
    } else {
        decimal(n / 10).push(decimal_digit((n % 10) as u8))
    }
}

/// The items of `s` in decimal, each after a `", "`.
pub open spec fn decimal_list_tail(s: Seq<u8>) -> Seq<char>
    decreases s.len(),
{
    if s.len() == 0 {
        seq![]
    } else {
        decimal_list_tail(s.drop_last()) + seq![',', ' '] + decimal(s.last() as nat)
    }
}

/// A list of bytes as `Debug` writes it: `[1, 2, 3]`.
pub open spec fn debug_bytes(s: Seq<u8>) -> Seq<char> {
    if s.len() == 0 {
        seq!['[', ']']
    } else {
        seq!['['] + decimal(s[0] as nat) + decimal_list_tail(s.drop_first()) + seq![']']
    }
}

/// Appends the uppercase hexadecimal digit of `d`.
pub fn push_hex_digit(s: &mut String, d: u8)
    requires
        d < 16,
    ensures
        final(s)@ == old(s)@.push(hex_digit(d)),
{
    if d < 10 {
        push_char(s, (0x30 + d) as char);
    } else {
        push_char(s, (0x41 + d - 10) as char);
    }
}

/// Appends the decimal digit of `d`.
fn push_decimal_digit(s: &mut String, d: u8)
    requires
        d < 10,
    ensures
        final(s)@ == old(s)@.push(decimal_digit(d)),
{
    push_char(s, (0x30 + d) as char);
}

/// Appends `n` in decimal.
pub fn push_decimal(s: &mut String, n: usize)
    ensures
        final(s)@ == old(s)@ + decimal(n as nat),
    decreases n,
{
    if n >= 10 {
        push_decimal(s, n / 10);
    }
    push_decimal_digit(s, (n % 10) as u8);
    assert(s@ =~= old(s)@ + decimal(n as nat));
}

/// Appends the bytes of `v` as `Debug` writes a list of bytes.
pub fn push_debug_bytes(s: &mut String, v: &[u8])
    ensures
        final(s)@ == old(s)@ + debug_bytes(v@),
{
    push_char(s, '[');
    if v.len() > 0 {
        push_decimal(s, v[0] as usize);
        let mut i: usize = 1;
        while i < v.len()
            invariant
                1 <= i <= v.len(),
                s@ == old(s)@ + seq!['['] + decimal(v@[0] as nat) + decimal_list_tail(
                    v@.subrange(1, i as int),
                ),
            decreases v.len() - i,
        {
            push_char(s, ',');
            push_char(s, ' ');
            push_decimal(s, v[i] as usize);
            assert(v@.subrange(1, i + 1).drop_last() =~= v@.subrange(1, i as int));
            i = i + 1;
            assert(s@ =~= old(s)@ + seq!['['] + decimal(v@[0] as nat) + decimal_list_tail(
                v@.subrange(1, i as int),
            ));
        }
        assert(v@.subrange(1, v.len() as int) =~= v@.drop_first());
    }
    push_char(s, ']');
    assert(s@ =~= old(s)@ + debug_bytes(v@));
}

} // verus!

verus! {

/// The uppercase hexadecimal digit of a nibble is an ASCII hexadecimal digit
/// whose value is the nibble.
pub proof fn lemma_hex_digit(d: u8)
    requires
        d < 16,
    ensures
        (hex_digit(d) as u32) < 0x80,
        crate::util::spec_is_hex(hex_digit(d) as u8),
        crate::util::digit_value(hex_digit(d) as u8) == d,
        !is_unicode_whitespace(hex_digit(d)),
{
}

} // verus!
