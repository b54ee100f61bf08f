//! Character-level utilities shared by the scanner, the renderer and the
//! aggregator: decimal digits, the decimal representation of a number, and
//! conversions between `&str`, `Vec<char>` and `String`.

use vstd::prelude::*;

verus! {

/// Whether `c` is a decimal digit.
pub open spec fn is_digit(c: char) -> bool {
    '0' <= c && c <= '9'
}

/// The numeric value of a decimal digit.
pub open spec fn digit_val(c: char) -> nat
    recommends
        is_digit(c),
{
    (c as nat - '0' as nat) as nat
}

/// The decimal digit for a value below ten.
pub open spec fn digit_char(v: nat) -> char
    recommends
        v < 10,
{
    ((v + '0' as nat) as u32) as char
}

/// The decimal representation of `n`, most significant digit first,
/// without leading zeros.
pub open spec fn dec_rep(n: nat) -> Seq<char>
    decreases n,
{
    if n < 10 {
        seq![digit_char(n)]
    } else {
        dec_rep(n / 10) + seq![digit_char(n % 10)]
    }
}

/// The value of a digit sequence read as a decimal number.
pub open spec fn dec_val(s: Seq<char>) -> nat
    decreases s.len(),
{
    if s.len() == 0 {
        0
    } else {
        dec_val(s.drop_last()) * 10 + digit_val(s.last())
    }
}

/// Whether every character of `s` is a decimal digit.
pub open spec fn all_digits(s: Seq<char>) -> bool {
    forall|i: int| 0 <= i < s.len() ==> is_digit(#[trigger] s[i])
}

/// `dec_rep(n)` is a non-empty sequence of decimal digits.
pub proof fn lemma_dec_rep_digits(n: nat)
    ensures
        dec_rep(n).len() >= 1,
        all_digits(dec_rep(n)),
    decreases n,
{
    if n < 10 {
        assert(is_digit(digit_char(n)));
    } else {
        lemma_dec_rep_digits(n / 10);
        assert(is_digit(digit_char(n % 10))) by {
            assert(0 <= n % 10 < 10);
        }
        assert forall|i: int| 0 <= i < dec_rep(n).len() implies is_digit(#[trigger] dec_rep(n)[i]) by {
            if i < dec_rep(n / 10).len() {
                assert(dec_rep(n)[i] == dec_rep(n / 10)[i]);
            } else {
                assert(dec_rep(n)[i] == digit_char(n % 10));
            }
        }
    }
}

/// Reading the decimal representation back gives the number itself.
pub proof fn lemma_dec_val_of_rep(n: nat)
    ensures
        dec_val(dec_rep(n)) == n,
    decreases n,
{
    if n < 10 {
        assert(dec_rep(n) == seq![digit_char(n)]);
        assert(dec_rep(n).drop_last() =~= Seq::<char>::empty());
        assert(digit_char(n) as nat == n + '0' as nat);
        assert(digit_val(digit_char(n)) == n);
        assert(dec_val(dec_rep(n)) == dec_val(Seq::<char>::empty()) * 10 + digit_val(digit_char(n)));
    } else {
        lemma_dec_val_of_rep(n / 10);
        assert(dec_rep(n).drop_last() =~= dec_rep(n / 10));
        assert(dec_rep(n).last() == digit_char(n % 10));
        assert(digit_char(n % 10) as nat == n % 10 + '0' as nat);
        assert(digit_val(digit_char(n % 10)) == n % 10);
        assert(dec_val(dec_rep(n)) == dec_val(dec_rep(n / 10)) * 10 + digit_val(digit_char(n % 10)));
        assert(n / 10 * 10 + n % 10 == n);
    }
}

/// Appends the decimal representation of `n` to `out`.
pub fn push_dec(out: &mut Vec<char>, n: u32)
    ensures
        final(out)@ == old(out)@ + dec_rep(n as nat),
    decreases n,
{
    if n < 10 {
        let c: char = digit_to_char((n % 10) as u8);
        out.push(c);
        assert(out@ =~= old(out)@ + dec_rep(n as nat));
    } else {
        push_dec(out, n / 10);
        let c: char = digit_to_char((n % 10) as u8);
        out.push(c);
        assert(out@ =~= old(out)@ + dec_rep(n as nat));
    }
}

/// The character for one decimal digit value.
fn digit_to_char(v: u8) -> (c: char)
    requires
        v < 10,
    ensures
        c == digit_char(v as nat),
{
    let code: u32 = v as u32 + 48;
    assert(code == v as nat + '0' as nat);
    char_from_code(code)
}

/// A `char` from a code point known to be a digit's.
fn char_from_code(code: u32) -> (c: char)
    requires
        48 <= code <= 57,
    ensures
        c as u32 == code,
{
    let c: char = match code {
        48 => '0',
        49 => '1',
        50 => '2',
        51 => '3',
        52 => '4',
        53 => '5',
        54 => '6',
        55 => '7',
        56 => '8',
        _ => '9',
    };
    c
}

/// Whether `c` is a lowercase letter.
pub open spec fn is_lower(c: char) -> bool {
    'a' <= c && c <= 'z'
}

/// A lowercase letter mapped to its uppercase form; anything else is kept.
pub open spec fn upper_char(c: char) -> char {
    if is_lower(c) {
        ((c as u32 - 32) as char)
    } else {
        c
    }
}

/// Every character of `s` mapped through `upper_char`.
pub open spec fn upper_seq(s: Seq<char>) -> Seq<char> {
    Seq::new(s.len(), |i: int| upper_char(s[i]))
}

/// Whether `c` is a lowercase letter.
pub fn is_lower_exec(c: char) -> (r: bool)
    ensures
        r == is_lower(c),
{
    let u: u32 = c as u32;
    97 <= u && u <= 122
}

/// The uppercase form of a lowercase letter; anything else is kept.
pub fn upper_char_exec(c: char) -> (r: char)
    ensures
        r == upper_char(c),
{
    match c {
        'a' => 'A',
        'b' => 'B',
        'c' => 'C',
        'd' => 'D',
        'e' => 'E',
        'f' => 'F',
        'g' => 'G',
        'h' => 'H',
        'i' => 'I',
        'j' => 'J',
        'k' => 'K',
        'l' => 'L',
        'm' => 'M',
        'n' => 'N',
        'o' => 'O',
        'p' => 'P',
        'q' => 'Q',
        'r' => 'R',
        's' => 'S',
        't' => 'T',
        'u' => 'U',
        'v' => 'V',
        'w' => 'W',
        'x' => 'X',
        'y' => 'Y',
        'z' => 'Z',
        other => other,
    }
}

/// Appends the uppercase form of every character of `src` to `out`.
pub fn push_upper(out: &mut Vec<char>, src: &Vec<char>)
    ensures
        final(out)@ == old(out)@ + upper_seq(src@),
{
    let mut i: usize = 0;
    proof {
        assert(out@ =~= out@ + upper_seq(src@.take(0int)));
    }
    while i < src.len()
        invariant
            i <= src@.len(),
            out@ == old(out)@ + upper_seq(src@.take(i as int)),
        decreases src@.len() - i,
    {
        let c = upper_char_exec(src[i]);
        out.push(c);
        proof {
            assert(out@ =~= old(out)@ + upper_seq(src@.take(i as int + 1)));
        }
        i = i + 1;
    }
    proof {
        assert(src@.take(src@.len() as int) =~= src@);
        assert(upper_seq(src@.take(src@.len() as int)) =~= upper_seq(src@));
    }
}

/// The decimal representation of `n` as an owned string.
pub fn u32_string(n: u32) -> (r: String)
    ensures
        r@ == dec_rep(n as nat),
{
    let mut v: Vec<char> = Vec::new();
    push_dec(&mut v, n);
    assert(v@ =~= dec_rep(n as nat));
    string_from_chars(&v)
}

/// The characters of a string slice, in order.
pub fn chars_vec(s: &str) -> (r: Vec<char>)
    ensures
        r@ == s@,
{
    let n: usize = s.unicode_len();
    let mut r: Vec<char> = Vec::new();
    let mut i: usize = 0;
    while i < n
        invariant
            n == s@.len(),
            i <= n,
            r@ == s@.take(i as int),
        decreases n - i,
    {
        let c = s.get_char(i);
        r.push(c);
        assert(r@ =~= s@.take(i as int + 1));
        i = i + 1;
    }
    assert(r@ =~= s@);
    r
}

/// Whether `c` is a decimal digit.
pub fn is_digit_exec(c: char) -> (r: bool)
    ensures
        r == is_digit(c),
{
    let u: u32 = c as u32;
    48 <= u && u <= 57
}

/// Appends all characters of `src` to `out`.
pub fn push_chars(out: &mut Vec<char>, src: &Vec<char>)
    ensures
        final(out)@ == old(out)@ + src@,
{
    let mut i: usize = 0;
    while i < src.len()
        invariant
            i <= src@.len(),
            out@ == old(out)@ + src@.take(i as int),
        decreases src@.len() - i,
    {
        out.push(src[i]);
        assert(out@ =~= old(out)@ + src@.take(i as int + 1));
        i = i + 1;
    }
    assert(out@ =~= old(out)@ + src@);
}

/// Collects characters into an owned `String`.
///
/// Relies on `core::iter::Iterator::collect` through `String`'s
/// `FromIterator<char>` impl: the resulting string holds exactly the
/// characters of the iterator, in order.
#[verifier::external_body]
pub fn string_from_chars(v: &Vec<char>) -> (r: String)
    ensures
        r@ == v@,
{
    v.iter().collect()
}

} // verus!
