//! Reading back what the library encodes: standard base64 decoding, as a
//! specification, and the proof that it undoes the encoding.

use crate::trusted::{base64_char, base64_standard};
use vstd::prelude::*;

verus! {

/// The 6-bit value of a character of the standard base64 alphabet.
pub open spec fn base64_value(c: char) -> Option<int> {
    if 'A' <= c && c <= 'Z' {
        Some((c as int) - ('A' as int))
    } else if 'a' <= c && c <= 'z' {
        Some((c as int) - ('a' as int) + 26)
    } else if '0' <= c && c <= '9' {
        Some((c as int) - ('0' as int) + 52)
    } else if c == '+' {
        Some(62)
    } else if c == '/' {
        Some(63)
    } else {
        None
    }
}

/// Strict decoding of padded standard base64 text: groups of four characters, `=`
/// padding only in the last group, and unused bits of a padded group zero.
pub open spec fn base64_decoded(s: Seq<char>) -> Option<Seq<u8>>
    decreases s.len(),
{
    if s.len() == 0 {
        Some(Seq::empty())
    } else if s.len() < 4 {
        None
    } else {
        match (base64_value(s[0]), base64_value(s[1])) {
            (Some(v0), Some(v1)) => {
                let a = (v0 * 4 + v1 / 16) as u8;
                if s.len() == 4 && s[2] == '=' && s[3] == '=' {
                    if v1 % 16 == 0 {
                        Some(seq![a])
                    } else {
                        None
                    }
                } else {
                    match base64_value(s[2]) {
                        Some(v2) => {
                            let b = ((v1 % 16) * 16 + v2 / 4) as u8;
                            if s.len() == 4 && s[3] == '=' {
                                if v2 % 4 == 0 {
                                    Some(seq![a, b])
                                } else {
                                    None
                                }
                            } else {
                                match base64_value(s[3]) {
                                    Some(v3) => {
                                        let c = ((v2 % 4) * 64 + v3) as u8;
                                        match base64_decoded(s.skip(4)) {
                                            Some(rest) => Some(seq![a, b, c] + rest),
                                            None => None,
                                        }
                                    },
                                    None => None,
                                }
                            }
                        },
                        None => None,
                    }
                }
            },
            _ => None,
        }
    }
}

/// Each 6-bit value's character reads back as that value, and is never `=`.
pub proof fn lemma_base64_char_value(v: int)
    requires
        0 <= v < 64,
    ensures
        base64_value(base64_char(v)) == Some(v),
        base64_char(v) != '=',
{
    if v < 26 {
        assert((('A' as int) + v) as char as int == ('A' as int) + v);
    } else if v < 52 {
        assert((('a' as int) + v - 26) as char as int == ('a' as int) + v - 26);
    } else if v < 62 {
        assert((('0' as int) + v - 52) as char as int == ('0' as int) + v - 52);
    }
}

/// Decoding undoes standard base64 encoding.
pub proof fn lemma_base64_round_trip(d: Seq<u8>)
    ensures
        base64_decoded(base64_standard(d)) == Some(d),
    decreases d.len(),
{
    let e = base64_standard(d);
    if d.len() == 0 {
    } else if d.len() == 1 {
        let a = d[0] as int;
        lemma_base64_char_value(a / 4);
        lemma_base64_char_value((a % 4) * 16);
        assert(e.len() == 4);
        assert(((a / 4) * 4 + ((a % 4) * 16) / 16) == a);
        assert(seq![a as u8] =~= d);
    } else if d.len() == 2 {
        let a = d[0] as int;
        let b = d[1] as int;
        lemma_base64_char_value(a / 4);
        lemma_base64_char_value((a % 4) * 16 + b / 16);
        lemma_base64_char_value((b % 16) * 4);
        assert(((a / 4) * 4 + ((a % 4) * 16 + b / 16) / 16) == a);
        assert(((((a % 4) * 16 + b / 16) % 16) * 16 + ((b % 16) * 4) / 4) == b);
        assert(seq![a as u8, b as u8] =~= d);
    } else {
        let a = d[0] as int;
        let b = d[1] as int;
        let c = d[2] as int;
        let v0 = a / 4;
        let v1 = (a % 4) * 16 + b / 16;
        let v2 = (b % 16) * 4 + c / 64;
        let v3 = c % 64;
        lemma_base64_char_value(v0);
        lemma_base64_char_value(v1);
        lemma_base64_char_value(v2);
        lemma_base64_char_value(v3);
        assert(v0 * 4 + v1 / 16 == a);
        assert((v1 % 16) * 16 + v2 / 4 == b);
        assert((v2 % 4) * 64 + v3 == c);
        lemma_base64_round_trip(d.skip(3));
        let head = seq![base64_char(v0), base64_char(v1), base64_char(v2), base64_char(v3)];
        assert(e == head + base64_standard(d.skip(3)));
        assert(e.skip(4) =~= base64_standard(d.skip(3)));
        assert(e[0] == head[0] && e[1] == head[1] && e[2] == head[2] && e[3] == head[3]);
        assert(e.len() >= 4);
        if e.len() == 4 {
            assert(base64_standard(d.skip(3)).len() == 0);
        }
        assert(seq![a as u8, b as u8, c as u8] + d.skip(3) =~= d);
    }
}

} // verus!
