//! UTF-16 decoding for the length-prefixed strings of ACS files.
//!
//! The decoder is specified by [`utf16_decode`], which maps a sequence of
//! UTF-16 code units to characters, and refuses unpaired surrogates.

use vstd::prelude::*;

verus! {

/// Is `u` a high (leading) surrogate code unit?
pub open spec fn is_high_surrogate(u: u16) -> bool {
    0xD800 <= u < 0xDC00
}

/// Is `u` a low (trailing) surrogate code unit?
pub open spec fn is_low_surrogate(u: u16) -> bool {
    0xDC00 <= u < 0xE000
}

/// The Unicode scalar value encoded by a surrogate pair.
pub open spec fn pair_scalar(hi: u16, lo: u16) -> int {
    0x10000 + (hi - 0xD800) * 0x400 + (lo - 0xDC00)
}

/// Decode UTF-16 code units into characters. `None` when the units are not
/// well-formed UTF-16: a high surrogate not followed by a low one, or a
/// stray low surrogate.
pub open spec fn utf16_decode(u: Seq<u16>) -> Option<Seq<char>>
    decreases u.len(),
{
    if u.len() == 0 {
        Some(Seq::empty())
    } else if !is_high_surrogate(u[0]) && !is_low_surrogate(u[0]) {
        match utf16_decode(u.skip(1)) {
            None => None,
            Some(cs) => Some(seq![u[0] as char] + cs),
        }
    } else if is_high_surrogate(u[0]) && u.len() >= 2 && is_low_surrogate(u[1]) {
        match utf16_decode(u.skip(2)) {
            None => None,
            Some(cs) => Some(seq![pair_scalar(u[0], u[1]) as char] + cs),
        }
    } else {
        None
    }
}

/// Relies on char::from_u32 of std: it returns the character with the given
/// code point for every value that is not a surrogate and does not exceed
/// 0x10FFFF, and nothing otherwise.
#[verifier::external_body]
fn char_from_u32(v: u32) -> (r: Option<char>)
    ensures
        (v < 0xD800 || (0xE000 <= v && v <= 0x10FFFF)) ==> r == Some(v as char),
        !(v < 0xD800 || (0xE000 <= v && v <= 0x10FFFF)) ==> r is None,
{
    char::from_u32(v)
}

/// Relies on String::push of std: it appends exactly the given character.
#[verifier::external_body]
fn push_char(s: &mut String, c: char)
    ensures
        final(s)@ == old(s)@.push(c),
{
    s.push(c);
}

/// Decode a buffer of UTF-16 code units into a string, or report that the
/// buffer is not well-formed UTF-16.
pub fn utf16_to_string(units: &Vec<u16>) -> (r: Option<String>)
    ensures
        (match r {
            Some(s) => utf16_decode(units@) == Some(s@),
            None => utf16_decode(units@) is None,
        }),
{
    let mut out = String::new();
    let mut i: usize = 0;
    proof {
        assert(units@.skip(0) =~= units@);
        if let Some(cs) = utf16_decode(units@) {
            assert(out@ + cs =~= cs);
        }
    }
    while i < units.len()
        invariant
            i <= units.len(),
            (match utf16_decode(units@.skip(i as int)) {
                None => utf16_decode(units@) is None,
                Some(cs) => utf16_decode(units@) == Some(out@ + cs),
            }),
        decreases units.len() - i,
    {
        let ghost rest: Seq<u16> = units@.skip(i as int);
        let u: u16 = units[i];
        assert(rest[0] == u);
        if u < 0xD800 || u >= 0xE000 {
            let c: char = match char_from_u32(u as u32) {
                Some(c) => c,
                None => {
                    proof {
                        assert(false);
                    }
                    return None;
                },
            };
            proof {
                assert(rest.skip(1) =~= units@.skip(i + 1));
                assert(c == u as char);
            }
            let ghost pre: Seq<char> = out@;
            push_char(&mut out, c);
            proof {
                if let Some(cs) = utf16_decode(units@.skip(i + 1)) {
                    assert(utf16_decode(rest) == Some(seq![c] + cs));
                    assert(pre + (seq![c] + cs) =~= (pre.push(c)) + cs);
                }
            }
            i = i + 1;
        } else if u < 0xDC00 {
            // high surrogate: a low surrogate must follow
            if i + 1 >= units.len() {
                return None;
            }
            let lo: u16 = units[i + 1];
            assert(rest[1] == lo);
            if !(0xDC00 <= lo && lo < 0xE000) {
                return None;
            }
            let scalar: u32 = 0x10000 + (u as u32 - 0xD800) * 0x400 + (lo as u32 - 0xDC00);
            assert(scalar == pair_scalar(u, lo));
            let c: char = match char_from_u32(scalar) {
                Some(c) => c,
                None => {
                    proof {
                        assert(false);
                    }
                    return None;
                },
            };
            proof {
                assert(rest.skip(2) =~= units@.skip(i + 2));
                assert(c == pair_scalar(u, lo) as char);
            }
            let ghost pre: Seq<char> = out@;
            push_char(&mut out, c);
            proof {
                if let Some(cs) = utf16_decode(units@.skip(i + 2)) {
                    assert(utf16_decode(rest) == Some(seq![c] + cs));
                    assert(pre + (seq![c] + cs) =~= (pre.push(c)) + cs);
                }
            }
            i = i + 2;
        } else {
            // stray low surrogate
            return None;
        }
    }
    proof {
        assert(units@.skip(i as int) =~= Seq::<u16>::empty());
        assert(utf16_decode(units@) == Some(out@ + Seq::<char>::empty()));
        assert(out@ + Seq::<char>::empty() =~= out@);
    }
    Some(out)
}

} // verus!
