//! Hex color strings.
//!
//! A color is written `"#RRGGBB"` or `"#RGB"` (each shorthand digit doubled),
//! with any number of leading `#` characters accepted and ignored. A string
//! of any other length is answered with white, the documented fallback. A
//! string of a supported length holding a non-hex character is a
//! [`ParseError`].

use vstd::prelude::*;

verus! {

/// An RGB color triple with 8-bit channels.
#[derive(Clone, Copy, PartialEq, Eq, Structural, Debug)]
pub struct Rgb {
    pub r: u8,
    pub g: u8,
    pub b: u8,
}

/// The error for a color string of a supported length that holds a character
/// outside `0-9a-fA-F`. The caller is expected to substitute black and carry
/// on rendering.
#[derive(Clone, Copy, PartialEq, Eq, Structural, Debug)]
pub struct ParseError;

/// Whether `c` is an ASCII hexadecimal digit (`0-9`, `a-f`, `A-F`).
pub open spec fn is_hex_digit(c: char) -> bool {
    (48 <= c as int && c as int <= 57)  // '0' ..= '9'
    || (97 <= c as int && c as int <= 102)  // 'a' ..= 'f'
    || (65 <= c as int && c as int <= 70)  // 'A' ..= 'F'
}

/// The numeric value of the hexadecimal digit `c`.
pub open spec fn hex_val(c: char) -> int {
    if 48 <= c as int && c as int <= 57 {
        c as int - 48
    } else if 97 <= c as int && c as int <= 102 {
        c as int - 87
    } else {
        c as int - 55
    }
}

/// `s` with every leading `#` removed.
pub open spec fn strip_hashes(s: Seq<char>) -> Seq<char>
    decreases s.len(),
{
    if s.len() > 0 && s[0] == '#' {
        strip_hashes(s.drop_first())
    } else {
        s
    }
}

/// The value of the two-digit hexadecimal number at position `i` of `s`.
pub open spec fn hex_pair(s: Seq<char>, i: int) -> int {
    16 * hex_val(s[i]) + hex_val(s[i + 1])
}

/// What parsing a hex color string yields: the exact channel values for the
/// six- and three-digit forms, white for any other length, and a
/// [`ParseError`] when a string of a supported length holds a non-hex
/// character.
pub open spec fn parse_hex_color(s: Seq<char>) -> Result<Rgb, ParseError> {
    let t = strip_hashes(s);
    if t.len() == 6 {
        if forall|i: int| 0 <= i < 6 ==> is_hex_digit(#[trigger] t[i]) {
            Ok(Rgb { r: hex_pair(t, 0) as u8, g: hex_pair(t, 2) as u8, b: hex_pair(t, 4) as u8 })
        } else {
            Err(ParseError)
        }
    } else if t.len() == 3 {
        if forall|i: int| 0 <= i < 3 ==> is_hex_digit(#[trigger] t[i]) {
            Ok(
                Rgb {
                    r: (17 * hex_val(t[0])) as u8,
                    g: (17 * hex_val(t[1])) as u8,
                    b: (17 * hex_val(t[2])) as u8,
                },
            )
        } else {
            Err(ParseError)
        }
    } else {
        Ok(Rgb { r: 255, g: 255, b: 255 })
    }
}

/// A six-hex-digit color string parses to exactly the channel values its
/// digit pairs write: each channel is sixteen times its first digit plus its
/// second.
pub proof fn lemma_parse_six_digits(s: Seq<char>)
    requires
        s.len() == 6,
        forall|i: int| 0 <= i < 6 ==> is_hex_digit(#[trigger] s[i]),
    ensures
        parse_hex_color(s) == Ok::<Rgb, ParseError>(
            Rgb {
                r: (16 * hex_val(s[0]) + hex_val(s[1])) as u8,
                g: (16 * hex_val(s[2]) + hex_val(s[3])) as u8,
                b: (16 * hex_val(s[4]) + hex_val(s[5])) as u8,
            },
        ),
{
    assert(!is_hex_digit('#'));
    assert(strip_hashes(s) == s);
}

/// A three-hex-digit color string parses to exactly the channel values its
/// doubled digits write: each channel is seventeen times its digit.
pub proof fn lemma_parse_three_digits(s: Seq<char>)
    requires
        s.len() == 3,
        forall|i: int| 0 <= i < 3 ==> is_hex_digit(#[trigger] s[i]),
    ensures
        parse_hex_color(s) == Ok::<Rgb, ParseError>(
            Rgb {
                r: (17 * hex_val(s[0])) as u8,
                g: (17 * hex_val(s[1])) as u8,
                b: (17 * hex_val(s[2])) as u8,
            },
        ),
{
    assert(!is_hex_digit('#'));
    assert(strip_hashes(s) == s);
}

/// A leading `#` changes nothing about how a color string parses.
pub proof fn lemma_parse_hash_prefix(s: Seq<char>)
    ensures
        parse_hex_color(seq!['#'].add(s)) == parse_hex_color(s),
{
    let t = seq!['#'].add(s);
    assert(t.len() == s.len() + 1);
    assert(t[0] == '#');
    assert(t.drop_first() =~= s);
    assert(strip_hashes(t) == strip_hashes(s));
}

/// The characters of `s`, as a vector.
pub(crate) fn chars_of(s: &str) -> (v: Vec<char>)
    ensures
        v@ == s@,
{
    broadcast use vstd::string::axiom_spec_iter;

    let mut v: Vec<char> = Vec::new();
    for c in it: s.chars()
        invariant
            v@ == it.seq().take(it.index()),
    {
        v.push(c);
    }
    proof {
        assert(v@ =~= s@);
    }
    v
}

/// The numeric value of `c` as a hexadecimal digit, or `None` when `c` is
/// not one.
fn hex_digit_val(c: char) -> (r: Option<u8>)
    ensures
        r is Some <==> is_hex_digit(c),
        r is Some ==> r->0 == hex_val(c),
{
    let n = c as u32;
    if 48 <= n && n <= 57 {
        Some((n - 48) as u8)
    } else if 97 <= n && n <= 102 {
        Some((n - 87) as u8)
    } else if 65 <= n && n <= 70 {
        Some((n - 55) as u8)
    } else {
        None
    }
}

/// Converts a hexadecimal color code to an RGB color.
///
/// Leading `#` characters are ignored. A six-digit code gives one channel
/// per digit pair; a three-digit code doubles each digit. Any other length
/// yields white. A code of a supported length with a character that is not a
/// hexadecimal digit yields a [`ParseError`].
pub fn hex_to_rgb(hex: &str) -> (r: Result<Rgb, ParseError>)
    ensures
        r == parse_hex_color(hex@),
{
    let cs = chars_of(hex);
    let n = cs.len();
    proof {
        assert(cs@.subrange(0, n as int) =~= cs@);
    }
    let mut i: usize = 0;
    while i < n && cs[i] == '#'
        invariant
            n == cs@.len(),
            0 <= i <= n,
            cs@ == hex@,
            strip_hashes(hex@) == strip_hashes(cs@.subrange(i as int, n as int)),
        decreases n - i,
    {
        proof {
            assert(cs@.subrange(i as int, n as int).drop_first() =~= cs@.subrange(
                i as int + 1,
                n as int,
            ));
        }
        i = i + 1;
    }
    proof {
        assert(strip_hashes(hex@) =~= cs@.subrange(i as int, n as int));
    }
    let ghost t = strip_hashes(hex@);
    if n - i == 6 {
        let d0 = hex_digit_val(cs[i]);
        let d1 = hex_digit_val(cs[i + 1]);
        let d2 = hex_digit_val(cs[i + 2]);
        let d3 = hex_digit_val(cs[i + 3]);
        let d4 = hex_digit_val(cs[i + 4]);
        let d5 = hex_digit_val(cs[i + 5]);
        match (d0, d1, d2, d3, d4, d5) {
            (Some(v0), Some(v1), Some(v2), Some(v3), Some(v4), Some(v5)) => {
                proof {
                    assert(forall|k: int| 0 <= k < 6 ==> is_hex_digit(#[trigger] t[k])) by {
                        assert(t[0] == cs@[i as int]);
                        assert(t[1] == cs@[i as int + 1]);
                        assert(t[2] == cs@[i as int + 2]);
                        assert(t[3] == cs@[i as int + 3]);
                        assert(t[4] == cs@[i as int + 4]);
                        assert(t[5] == cs@[i as int + 5]);
                    }
                }
                Ok(Rgb { r: 16 * v0 + v1, g: 16 * v2 + v3, b: 16 * v4 + v5 })
            },
            _ => Err(ParseError),
        }
    } else if n - i == 3 {
        let d0 = hex_digit_val(cs[i]);
        let d1 = hex_digit_val(cs[i + 1]);
        let d2 = hex_digit_val(cs[i + 2]);
        match (d0, d1, d2) {
            (Some(v0), Some(v1), Some(v2)) => {
                proof {
                    assert(forall|k: int| 0 <= k < 3 ==> is_hex_digit(#[trigger] t[k])) by {
                        assert(t[0] == cs@[i as int]);
                        assert(t[1] == cs@[i as int + 1]);
                        assert(t[2] == cs@[i as int + 2]);
                    }
                }
                Ok(Rgb { r: 17 * v0, g: 17 * v1, b: 17 * v2 })
            },
            _ => Err(ParseError),
        }
    } else {
        Ok(Rgb { r: 255, g: 255, b: 255 })
    }
}

} // verus!
