//! Character-level helpers shared by the instruction table and the
//! assembler: exact string comparison, case-insensitive comparison against a
//! lower-case mnemonic, and parsing of decimal and hexadecimal tokens.

use vstd::prelude::*;

verus! {

/// ASCII lower-casing of one character; everything outside 'A'..'Z' is kept.
pub open spec fn lower_char(c: char) -> char {
    match c {
        'A' => 'a',
        'B' => 'b',
        'C' => 'c',
        'D' => 'd',
        'E' => 'e',
        'F' => 'f',
        'G' => 'g',
        'H' => 'h',
        'I' => 'i',
        'J' => 'j',
        'K' => 'k',
        'L' => 'l',
        'M' => 'm',
        'N' => 'n',
        'O' => 'o',
        'P' => 'p',
        'Q' => 'q',
        'R' => 'r',
        'S' => 's',
        'T' => 't',
        'U' => 'u',
        'V' => 'v',
        'W' => 'w',
        'X' => 'x',
        'Y' => 'y',
        'Z' => 'z',
        _ => c,
    }
}

/// ASCII lower-casing of a whole character sequence.
pub open spec fn lower_chars(s: Seq<char>) -> Seq<char> {
    Seq::new(s.len(), |i: int| lower_char(s[i]))
}

pub fn lower_char_x(c: char) -> (r: char)
    ensures
        r == lower_char(c),
{
    match c {
        'A' => 'a',
        'B' => 'b',
        'C' => 'c',
        'D' => 'd',
        'E' => 'e',
        'F' => 'f',
        'G' => 'g',
        'H' => 'h',
        'I' => 'i',
        'J' => 'j',
        'K' => 'k',
        'L' => 'l',
        'M' => 'm',
        'N' => 'n',
        'O' => 'o',
        'P' => 'p',
        'Q' => 'q',
        'R' => 'r',
        'S' => 's',
        'T' => 't',
        'U' => 'u',
        'V' => 'v',
        'W' => 'w',
        'X' => 'x',
        'Y' => 'y',
        'Z' => 'z',
        _ => c,
    }
}

/// Character-for-character equality of two string slices.
pub fn str_eq(a: &str, b: &str) -> (r: bool)
    ensures
        r == (a@ == b@),
{
    let n = a.unicode_len();
    if n != b.unicode_len() {
        return false;
    }
    let mut i: usize = 0;
    while i < n
        invariant
            i <= n,
            n == a@.len(),
            n == b@.len(),
            forall|j: int| 0 <= j < i ==> a@[j] == b@[j],
        decreases n - i,
    {
        if a.get_char(i) != b.get_char(i) {
            return false;
        }
        i += 1;
    }
    proof {
        assert(a@ =~= b@);
    }
    true
}

/// Does `a`, lower-cased, spell exactly `b`?  (`b` is given already in lower
/// case.)
pub fn eq_lower(a: &str, b: &str) -> (r: bool)
    ensures
        r == (lower_chars(a@) == b@),
{
    let n = a.unicode_len();
    if n != b.unicode_len() {
        proof {
            assert(lower_chars(a@).len() == a@.len());
        }
        return false;
    }
    let mut i: usize = 0;
    while i < n
        invariant
            i <= n,
            n == a@.len(),
            n == b@.len(),
            forall|j: int| 0 <= j < i ==> lower_char(a@[j]) == b@[j],
        decreases n - i,
    {
        if lower_char_x(a.get_char(i)) != b.get_char(i) {
            proof {
                assert(lower_chars(a@)[i as int] != b@[i as int]);
            }
            return false;
        }
        i += 1;
    }
    proof {
        assert(lower_chars(a@) =~= b@);
    }
    true
}

/// The value of one digit character, or -1 when `c` is no digit of the
/// radix.  Hexadecimal digits are accepted in either case.
pub open spec fn digit_val(c: char, radix: u32) -> int {
    if '0' <= c && c <= '9' {
        c as u32 - '0' as u32
    } else if radix == 16 && 'a' <= c && c <= 'f' {
        10 + (c as u32 - 'a' as u32)
    } else if radix == 16 && 'A' <= c && c <= 'F' {
        10 + (c as u32 - 'A' as u32)
    } else {
        -1
    }
}

pub open spec fn is_digit(c: char, radix: u32) -> bool {
    digit_val(c, radix) >= 0
}

pub open spec fn all_digits(s: Seq<char>, radix: u32) -> bool {
    forall|i: int| 0 <= i < s.len() ==> is_digit(#[trigger] s[i], radix)
}

/// The number spelled by a digit string, most significant digit first.
pub open spec fn digits_val(s: Seq<char>, radix: u32) -> int
    decreases s.len(),
{
    if s.len() == 0 {
        0
    } else {
        digits_val(s.drop_last(), radix) * radix + digit_val(s.last(), radix)
    }
}

/// What parsing a whole token yields: the token must be nonempty, consist of
/// digits of the radix alone, and denote a value that fits in 32 bits.
pub open spec fn parse_u32(s: Seq<char>, radix: u32) -> Option<u32> {
    if s.len() > 0 && all_digits(s, radix) && digits_val(s, radix) <= u32::MAX {
        Some(digits_val(s, radix) as u32)
    } else {
        None
    }
}

/// Does the token open with the hexadecimal marker `0x`?
pub open spec fn starts_0x(s: Seq<char>) -> bool {
    s.len() >= 2 && s[0] == '0' && s[1] == 'x'
}

/// Does the token open with the decimal marker `#`?
pub open spec fn starts_hash(s: Seq<char>) -> bool {
    s.len() >= 1 && s[0] == '#'
}

proof fn lemma_digits_val_nonneg(s: Seq<char>, radix: u32)
    requires
        all_digits(s, radix),
        radix >= 2,
    ensures
        digits_val(s, radix) >= 0,
    decreases s.len(),
{
    if s.len() > 0 {
        assert(all_digits(s.drop_last(), radix));
        lemma_digits_val_nonneg(s.drop_last(), radix);
    }
}

/// Once a prefix of a digit string is too large for 32 bits, the whole
/// string is too: appending digits never shrinks the value.
proof fn lemma_digits_val_grows(s: Seq<char>, radix: u32, i: int)
    requires
        all_digits(s, radix),
        radix >= 2,
        0 <= i <= s.len(),
    ensures
        digits_val(s.take(i), radix) <= digits_val(s, radix),
    decreases s.len() - i,
{
    if i == s.len() {
        assert(s.take(i) =~= s);
    } else {
        lemma_digits_val_grows(s, radix, i + 1);
        let t = s.take(i + 1);
        assert(t.drop_last() =~= s.take(i));
        assert(t.last() == s[i]);
        assert(all_digits(s.take(i), radix));
        lemma_digits_val_nonneg(s.take(i), radix);
        let v = digits_val(s.take(i), radix);
        assert(digits_val(t, radix) == v * radix + digit_val(s[i], radix));
        assert(v * radix >= v) by (nonlinear_arith)
            requires
                v >= 0,
                radix >= 2,
        ;
    }
}

fn digit_of(c: char, radix: u32) -> (r: Option<u32>)
    requires
        radix == 10 || radix == 16,
    ensures
        r is Some <==> is_digit(c, radix),
        r is Some ==> r->0 == digit_val(c, radix) && r->0 < radix,
{
    if '0' <= c && c <= '9' {
        Some(c as u32 - '0' as u32)
    } else if radix == 16 && 'a' <= c && c <= 'f' {
        Some(10 + (c as u32 - 'a' as u32))
    } else if radix == 16 && 'A' <= c && c <= 'F' {
        Some(10 + (c as u32 - 'A' as u32))
    } else {
        None
    }
}

/// Parse the part of `s` from character position `from` on as a number in
/// the given radix, exactly as `parse_u32` states it.
pub fn parse_u32_str(s: &str, from: usize, radix: u32) -> (r: Option<u32>)
    requires
        from <= s@.len(),
        radix == 10 || radix == 16,
    ensures
        r == parse_u32(s@.skip(from as int), radix),
{
    let ghost t = s@.skip(from as int);
    let n = s.unicode_len();
    if from == n {
        return None;
    }
    let mut acc: u32 = 0;
    let mut i: usize = from;
    while i < n
        invariant
            from <= i <= n,
            n == s@.len(),
            from < n,
            radix == 10 || radix == 16,
            t == s@.skip(from as int),
            all_digits(t.take(i - from), radix),
            acc == digits_val(t.take(i - from), radix),
        decreases n - i,
    {
        let c = s.get_char(i);
        proof {
            assert(t[i - from] == c);
        }
        match digit_of(c, radix) {
            None => {
                proof {
                    assert(!is_digit(t[i - from], radix));
                }
                return None;
            },
            Some(d) => {
                let wide: u64 = acc as u64 * radix as u64 + d as u64;
                proof {
                    let t1 = t.take(i - from + 1);
                    assert(t1.drop_last() =~= t.take(i - from));
                    assert(t1.last() == t[i - from]);
                    assert(digits_val(t1, radix) == acc * radix + d);
                }
                if wide > 0xFFFF_FFFF {
                    proof {
                        if all_digits(t, radix) {
                            lemma_digits_val_grows(t, radix, i - from + 1);
                            assert(digits_val(t, radix) > u32::MAX);
                        }
                    }
                    return None;
                }
                acc = wide as u32;
                i += 1;
            },
        }
    }
    proof {
        assert(t.take(n - from) =~= t);
        lemma_digits_val_nonneg(t, radix);
    }
    Some(acc)
}

/// Read a token that may carry a radix marker: `0x` introduces a
/// hexadecimal number and `#` a decimal one.  The first component tells
/// whether a marker was present at all; the second is the parse result.
pub fn parse_prefixed(arg: &str) -> (r: (bool, Option<u32>))
    ensures
        starts_0x(arg@) ==> r == (true, parse_u32(arg@.skip(2), 16)),
        !starts_0x(arg@) && starts_hash(arg@) ==> r == (true, parse_u32(arg@.skip(1), 10)),
        !starts_0x(arg@) && !starts_hash(arg@) ==> r == (false, None::<u32>),
{
    let n = arg.unicode_len();
    if n >= 2 && arg.get_char(0) == '0' && arg.get_char(1) == 'x' {
        (true, parse_u32_str(arg, 2, 16))
    } else if n >= 1 && arg.get_char(0) == '#' {
        (true, parse_u32_str(arg, 1, 10))
    } else {
        (false, None)
    }
}

} // verus!
