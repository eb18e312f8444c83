//! Character-sequence utilities: whitespace, trimming, searching and
//! whitespace-separated splitting, together with their specifications.

use vstd::prelude::*;

verus! {

/// The characters with the Unicode `White_Space` property, the set that
/// configuration lines are trimmed and split by.
pub open spec fn is_ws(c: char) -> bool {
    ||| c == ' '
    ||| c == '\t'
    ||| c == '\n'
    ||| c == '\r'
    ||| c == '\u{0B}'
    ||| c == '\u{0C}'
    ||| c == '\u{85}'
    ||| c == '\u{A0}'
    ||| c == '\u{1680}'
    ||| (0x2000 <= c as u32 && c as u32 <= 0x200A)
    ||| c == '\u{2028}'
    ||| c == '\u{2029}'
    ||| c == '\u{202F}'
    ||| c == '\u{205F}'
    ||| c == '\u{3000}'
}

/// Decides [`is_ws`].
pub fn is_ws_char(c: char) -> (b: bool)
    ensures
        b == is_ws(c),
{
    c == ' ' || c == '\t' || c == '\n' || c == '\r' || c == '\u{0B}' || c == '\u{0C}'
        || c == '\u{85}' || c == '\u{A0}' || c == '\u{1680}'
        || (0x2000 <= c as u32 && c as u32 <= 0x200A) || c == '\u{2028}' || c == '\u{2029}'
        || c == '\u{202F}' || c == '\u{205F}' || c == '\u{3000}'
}

/// The characters of `s`, as a vector.
pub fn str_to_chars(s: &str) -> (v: Vec<char>)
    ensures
        v@ == s@,
{
    let n = s.unicode_len();
    let mut v: Vec<char> = Vec::new();
    let mut i: usize = 0;
    while i < n
        invariant
            n == s@.len(),
            i <= n,
            v@.len() == i,
            forall|j: int| 0 <= j < i ==> v@[j] == s@[j],
        decreases n - i,
    {
        v.push(s.get_char(i));
        i += 1;
    }
    proof {
        assert(v@ =~= s@);
    }
    v
}

/// True exactly when the characters of `v` are the characters of `s`.
pub fn eq_str(v: &Vec<char>, s: &str) -> (b: bool)
    ensures
        b == (v@ == s@),
{
    let n = s.unicode_len();
    if v.len() != n {
        return false;
    }
    let mut i: usize = 0;
    while i < n
        invariant
            n == s@.len(),
            v@.len() == n,
            i <= n,
            forall|j: int| 0 <= j < i ==> v@[j] == s@[j],
        decreases n - i,
    {
        if v[i] != s.get_char(i) {
            return false;
        }
        i += 1;
    }
    proof {
        assert(v@ =~= s@);
    }
    true
}

/// True exactly when `a` and `b` hold the same characters.
pub fn eq_chars(a: &Vec<char>, b: &Vec<char>) -> (r: bool)
    ensures
        r == (a@ == b@),
{
    let n = a.len();
    if b.len() != n {
        return false;
    }
    let mut i: usize = 0;
    while i < n
        invariant
            n == a@.len(),
            b@.len() == n,
            i <= n,
            forall|j: int| 0 <= j < i ==> a@[j] == b@[j],
        decreases n - i,
    {
        if a[i] != b[i] {
            return false;
        }
        i += 1;
    }
    proof {
        assert(a@ =~= b@);
    }
    true
}

/// A copy of the characters of `v`.
pub fn clone_chars(v: &Vec<char>) -> (r: Vec<char>)
    ensures
        r@ == v@,
{
    let mut r: Vec<char> = Vec::new();
    let n = v.len();
    let mut i: usize = 0;
    while i < n
        invariant
            i <= n,
            n == v@.len(),
            r@.len() == i,
            forall|j: int| 0 <= j < i ==> r@[j] == v@[j],
        decreases n - i,
    {
        r.push(v[i]);
        i += 1;
    }
    proof {
        assert(r@ =~= v@);
    }
    r
}

/// Appends the characters of `s` to `dst`.
pub fn append_str(dst: &mut Vec<char>, s: &str)
    ensures
        final(dst)@ == old(dst)@ + s@,
{
    let n = s.unicode_len();
    let mut i: usize = 0;
    while i < n
        invariant
            n == s@.len(),
            i <= n,
            dst@.len() == old(dst)@.len() + i,
            forall|j: int| 0 <= j < old(dst)@.len() ==> dst@[j] == old(dst)@[j],
            forall|j: int| 0 <= j < i ==> dst@[old(dst)@.len() + j] == s@[j],
        decreases n - i,
    {
        dst.push(s.get_char(i));
        i += 1;
    }
    proof {
        assert(dst@ =~= old(dst)@ + s@);
    }
}

/// Appends the characters of `src` to `dst`.
pub fn append_chars(dst: &mut Vec<char>, src: &Vec<char>)
    ensures
        final(dst)@ == old(dst)@ + src@,
{
    let n = src.len();
    let mut i: usize = 0;
    while i < n
        invariant
            n == src@.len(),
            i <= n,
            dst@.len() == old(dst)@.len() + i,
            forall|j: int| 0 <= j < old(dst)@.len() ==> dst@[j] == old(dst)@[j],
            forall|j: int| 0 <= j < i ==> dst@[old(dst)@.len() + j] == src@[j],
        decreases n - i,
    {
        dst.push(src[i]);
        i += 1;
    }
    proof {
        assert(dst@ =~= old(dst)@ + src@);
    }
}

/// The characters of `v` between `a` (inclusive) and `b` (exclusive).
pub fn subrange_chars(v: &Vec<char>, a: usize, b: usize) -> (r: Vec<char>)
    requires
        a <= b <= v@.len(),
    ensures
        r@ == v@.subrange(a as int, b as int),
{
    let mut r: Vec<char> = Vec::new();
    let mut i: usize = a;
    while i < b
        invariant
            a <= i <= b <= v@.len(),
            r@.len() == i - a,
            forall|j: int| 0 <= j < i - a ==> r@[j] == v@[a + j],
        decreases b - i,
    {
        r.push(v[i]);
        i += 1;
    }
    proof {
        assert(r@ =~= v@.subrange(a as int, b as int));
    }
    r
}

/// `s` with leading whitespace removed.
pub open spec fn trim_front_spec(s: Seq<char>) -> Seq<char>
    decreases s.len(),
{
    if s.len() > 0 && is_ws(s[0]) {
        trim_front_spec(s.drop_first())
    } else {
        s
    }
}

/// `s` with trailing whitespace removed.
pub open spec fn trim_back_spec(s: Seq<char>) -> Seq<char>
    decreases s.len(),
{
    if s.len() > 0 && is_ws(s[s.len() - 1]) {
        trim_back_spec(s.drop_last())
    } else {
        s
    }
}

/// `s` with surrounding whitespace removed.
pub open spec fn trim_spec(s: Seq<char>) -> Seq<char> {
    trim_back_spec(trim_front_spec(s))
}

/// Removes surrounding whitespace, as [`trim_spec`] describes.
pub fn trim_chars(v: &Vec<char>) -> (r: Vec<char>)
    ensures
        r@ == trim_spec(v@),
{
    let n = v.len();
    let mut a: usize = 0;
    proof {
        assert(v@.skip(0) =~= v@);
    }
    while a < n && is_ws_char(v[a])
        invariant
            a <= n,
            n == v@.len(),
            trim_front_spec(v@) == trim_front_spec(v@.skip(a as int)),
        decreases n - a,
    {
        proof {
            assert(v@.skip(a as int).drop_first() =~= v@.skip(a as int + 1));
        }
        a += 1;
    }
    proof {
        if a < n {
            assert(trim_front_spec(v@.skip(a as int)) == v@.skip(a as int));
        } else {
            assert(v@.skip(a as int).len() == 0);
            assert(trim_front_spec(v@.skip(a as int)) == v@.skip(a as int));
        }
    }
    let mut b: usize = n;
    while b > a && is_ws_char(v[b - 1])
        invariant
            a <= b <= n,
            n == v@.len(),
            trim_front_spec(v@) == v@.skip(a as int),
            trim_spec(v@) == trim_back_spec(v@.subrange(a as int, b as int)),
        decreases b,
    {
        proof {
            let s = v@.subrange(a as int, b as int);
            assert(s[s.len() - 1] == v@[b - 1]);
            assert(s.drop_last() =~= v@.subrange(a as int, b as int - 1));
        }
        b -= 1;
    }
    proof {
        assert(v@.subrange(a as int, n as int) =~= v@.skip(a as int));
        let s = v@.subrange(a as int, b as int);
        if b > a {
            assert(s[s.len() - 1] == v@[b - 1]);
            assert(trim_back_spec(s) == s);
        } else {
            assert(s.len() == 0);
            assert(trim_back_spec(s) == s);
        }
    }
    subrange_chars(v, a, b)
}

/// The first index of `c` in `s`, or `s.len()` when `c` does not occur.
pub open spec fn first_ix(s: Seq<char>, c: char) -> int
    decreases s.len(),
{
    if s.len() == 0 {
        0
    } else if s[0] == c {
        0
    } else {
        1 + first_ix(s.drop_first(), c)
    }
}

/// What [`first_ix`] returns: the least index holding `c`, or the length.
pub proof fn lemma_first_ix(s: Seq<char>, c: char)
    ensures
        0 <= first_ix(s, c) <= s.len(),
        first_ix(s, c) < s.len() ==> s[first_ix(s, c)] == c,
        forall|j: int| 0 <= j < first_ix(s, c) ==> s[j] != c,
    decreases s.len(),
{
    if s.len() > 0 && s[0] != c {
        lemma_first_ix(s.drop_first(), c);
        assert forall|j: int| 0 <= j < first_ix(s, c) implies s[j] != c by {
            if j > 0 {
                assert(s.drop_first()[j - 1] == s[j]);
            }
        }
    }
}

/// The first index of `c` in `v`, or `v.len()` when `c` does not occur.
pub fn find_char(v: &Vec<char>, c: char) -> (r: usize)
    ensures
        r == first_ix(v@, c),
{
    let n = v.len();
    let mut i: usize = 0;
    proof {
        assert(v@.skip(0) =~= v@);
    }
    while i < n && v[i] != c
        invariant
            i <= n,
            n == v@.len(),
            first_ix(v@, c) == i + first_ix(v@.skip(i as int), c),
        decreases n - i,
    {
        proof {
            assert(v@.skip(i as int)[0] == v@[i as int]);
            assert(v@.skip(i as int).drop_first() =~= v@.skip(i as int + 1));
        }
        i += 1;
    }
    proof {
        let s = v@.skip(i as int);
        if i < n {
            assert(s[0] == v@[i as int]);
            assert(first_ix(s, c) == 0);
        } else {
            assert(s.len() == 0);
            assert(first_ix(s, c) == 0);
        }
    }
    i
}

/// The length of the maximal whitespace-free prefix of `s`.
pub open spec fn token_len(s: Seq<char>) -> int
    decreases s.len(),
{
    if s.len() == 0 || is_ws(s[0]) {
        0
    } else {
        1 + token_len(s.drop_first())
    }
}

/// [`token_len`] stays within the sequence.
pub proof fn lemma_token_len_bounds(s: Seq<char>)
    ensures
        0 <= token_len(s) <= s.len(),
    decreases s.len(),
{
    if s.len() > 0 && !is_ws(s[0]) {
        lemma_token_len_bounds(s.drop_first());
    }
}

/// [`token_len`] is the position of the first whitespace character.
pub proof fn lemma_token_len_is(s: Seq<char>, k: int)
    requires
        0 <= k <= s.len(),
        forall|j: int| 0 <= j < k ==> !is_ws(s[j]),
        k < s.len() ==> is_ws(s[k]),
    ensures
        token_len(s) == k,
    decreases k,
{
    if k == 0 {
        assert(s.len() == 0 || is_ws(s[0]));
    } else {
        assert(!is_ws(s[0]));
        lemma_token_len_is(s.drop_first(), k - 1);
    }
}

#[via_fn]
proof fn split_ws_spec_dec(s: Seq<char>) {
    lemma_token_len_bounds(s);
    if s.len() > 0 && !is_ws(s[0]) {
        lemma_token_len_bounds(s.drop_first());
        assert(token_len(s) == 1 + token_len(s.drop_first()));
    }
}

/// The whitespace-separated tokens of `s`, in order.
pub open spec fn split_ws_spec(s: Seq<char>) -> Seq<Seq<char>>
    decreases s.len(),
    via split_ws_spec_dec
{
    if s.len() == 0 {
        Seq::empty()
    } else if is_ws(s[0]) {
        split_ws_spec(s.drop_first())
    } else {
        seq![s.take(token_len(s))] + split_ws_spec(s.skip(token_len(s)))
    }
}

/// Splits on whitespace, as [`split_ws_spec`] describes.
pub fn split_ws_chars(v: &Vec<char>) -> (r: Vec<Vec<char>>)
    ensures
        r.deep_view() == split_ws_spec(v@),
{
    let n = v.len();
    let mut r: Vec<Vec<char>> = Vec::new();
    let mut i: usize = 0;
    proof {
        assert(v@.skip(0) =~= v@);
        assert(r.deep_view() =~= Seq::<Seq<char>>::empty());
        assert(Seq::<Seq<char>>::empty() + split_ws_spec(v@) =~= split_ws_spec(v@));
    }
    while i < n
        invariant
            i <= n,
            n == v@.len(),
            split_ws_spec(v@) == r.deep_view() + split_ws_spec(v@.skip(i as int)),
        decreases n - i,
    {
        if is_ws_char(v[i]) {
            proof {
                assert(v@.skip(i as int)[0] == v@[i as int]);
                assert(v@.skip(i as int).drop_first() =~= v@.skip(i as int + 1));
            }
            i += 1;
        } else {
            let start = i;
            let mut tok: Vec<char> = Vec::new();
            while i < n && !is_ws_char(v[i])
                invariant
                    start <= i <= n,
                    n == v@.len(),
                    tok@.len() == i - start,
                    forall|j: int| 0 <= j < i - start ==> tok@[j] == v@[start + j],
                    forall|j: int| start <= j < i ==> !is_ws(v@[j]),
                decreases n - i,
            {
                tok.push(v[i]);
                i += 1;
            }
            proof {
                let s = v@.skip(start as int);
                let k = i - start as int;
                assert forall|j: int| 0 <= j < k implies !is_ws(s[j]) by {
                    assert(s[j] == v@[start + j]);
                }
                if k < s.len() {
                    assert(s[k] == v@[i as int]);
                }
                lemma_token_len_is(s, k);
                assert(!is_ws(s[0]));
                assert(split_ws_spec(s) == seq![s.take(k)] + split_ws_spec(s.skip(k)));
                assert(tok@ =~= s.take(k));
                assert(s.skip(k) =~= v@.skip(i as int));
            }
            let ghost old_r = r.deep_view();
            let ghost old_rv = r@;
            let ghost tok_view = tok@;
            let ghost tok_dv = tok.deep_view();
            proof {
                assert(tok_dv =~= tok_view);
            }
            r.push(tok);
            proof {
                assert forall|j: int| 0 <= j < r.deep_view().len() implies r.deep_view()[j]
                    == (old_r + seq![tok_view])[j] by {
                    if j < old_r.len() {
                        assert(r@[j] == old_rv[j]);
                    } else {
                        assert(r.deep_view()[j] == tok_dv);
                    }
                }
                assert(r.deep_view() =~= old_r + seq![tok_view]);
                assert(old_r + (seq![tok_view] + split_ws_spec(v@.skip(i as int))) =~= (old_r
                    + seq![tok_view]) + split_ws_spec(v@.skip(i as int)));
            }
        }
    }
    proof {
        assert(v@.skip(i as int).len() == 0);
        assert(split_ws_spec(v@.skip(i as int)) =~= Seq::<Seq<char>>::empty());
        assert(r.deep_view() + Seq::<Seq<char>>::empty() =~= r.deep_view());
    }
    r
}

} // verus!
