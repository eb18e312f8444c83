//! The escape decoder for formatting tokens: the token `none` stands for the
//! empty string, and the two-character sequences `\n`, `\r` and `\t` stand
//! for their control characters.

use crate::convert::chars_to_string;
use crate::text::eq_str;
use crate::text::str_to_chars;
use vstd::prelude::*;

verus! {

/// The control character that the escape letter `c` stands for.
pub open spec fn escape_char(c: char) -> char {
    if c == 'n' {
        '\n'
    } else if c == 'r' {
        '\r'
    } else {
        '\t'
    }
}

/// True when `s` begins with one of the recognized escape pairs.
pub open spec fn starts_with_escape(s: Seq<char>) -> bool {
    s.len() >= 2 && s[0] == '\\' && (s[1] == 'n' || s[1] == 'r' || s[1] == 't')
}

/// One left-to-right, non-overlapping pass replacing each recognized escape
/// pair by its control character; everything else passes through unchanged.
pub open spec fn decode_pairs(s: Seq<char>) -> Seq<char>
    decreases s.len(),
{
    if s.len() == 0 {
        Seq::empty()
    } else if starts_with_escape(s) {
        seq![escape_char(s[1])] + decode_pairs(s.skip(2))
    } else {
        seq![s[0]] + decode_pairs(s.drop_first())
    }
}

/// The decoded form of an escape token: `none` opts out entirely, anything
/// else has its escape pairs replaced.
pub open spec fn unescape_spec(s: Seq<char>) -> Seq<char> {
    if s == "none"@ {
        Seq::empty()
    } else {
        decode_pairs(s)
    }
}

/// Decodes an escape token held as characters, as [`unescape_spec`] describes.
pub fn decode_escape_chars(v: &Vec<char>) -> (r: Vec<char>)
    ensures
        r@ == unescape_spec(v@),
{
    if eq_str(v, "none") {
        let r: Vec<char> = Vec::new();
        return r;
    }
    let n = v.len();
    let mut r: Vec<char> = Vec::new();
    let mut i: usize = 0;
    proof {
        assert(v@.skip(0) =~= v@);
        assert(r@ + decode_pairs(v@) =~= decode_pairs(v@));
    }
    while i < n
        invariant
            i <= n,
            n == v@.len(),
            decode_pairs(v@) == r@ + decode_pairs(v@.skip(i as int)),
        decreases n - i,
    {
        let ghost s = v@.skip(i as int);
        let ghost old_r = r@;
        if v[i] == '\\' && i + 1 < n && (v[i + 1] == 'n' || v[i + 1] == 'r' || v[i + 1] == 't') {
            let c = if v[i + 1] == 'n' {
                '\n'
            } else if v[i + 1] == 'r' {
                '\r'
            } else {
                '\t'
            };
            proof {
                assert(s[0] == v@[i as int]);
                assert(s[1] == v@[i + 1]);
                assert(starts_with_escape(s));
                assert(c == escape_char(s[1]));
                assert(s.skip(2) =~= v@.skip(i + 2));
                assert(old_r + (seq![c] + decode_pairs(s.skip(2))) =~= (old_r + seq![c])
                    + decode_pairs(s.skip(2)));
            }
            r.push(c);
            proof {
                assert(r@ =~= old_r + seq![c]);
            }
            i += 2;
        } else {
            proof {
                assert(s[0] == v@[i as int]);
                if s.len() >= 2 {
                    assert(s[1] == v@[i + 1]);
                }
                assert(!starts_with_escape(s));
                assert(s.drop_first() =~= v@.skip(i as int + 1));
                assert(old_r + (seq![s[0]] + decode_pairs(s.drop_first())) =~= (old_r + seq![s[0]])
                    + decode_pairs(s.drop_first()));
            }
            let c = v[i];
            r.push(c);
            proof {
                assert(r@ =~= old_r + seq![c]);
            }
            i += 1;
        }
    }
    proof {
        assert(v@.skip(i as int).len() == 0);
        assert(decode_pairs(v@.skip(i as int)) =~= Seq::<char>::empty());
        assert(r@ + Seq::<char>::empty() =~= r@);
    }
    r
}

/// Decodes an escape token, as [`unescape_spec`] describes: `none` gives the
/// empty string; otherwise each `\n`, `\r`, `\t` pair becomes its control
/// character, left to right, non-overlapping.
pub fn parse_escape(s: &str) -> (r: String)
    ensures
        r@ == unescape_spec(s@),
{
    let v = str_to_chars(s);
    let d = decode_escape_chars(&v);
    chars_to_string(&d)
}

} // verus!
