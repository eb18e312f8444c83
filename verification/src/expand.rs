//! The range expansion engine: iterating an inclusive codepoint span,
//! counting invalid values as warnings, admitting the rest through the
//! filter, and rendering the emitted text.

use crate::convert::is_valid_scalar;
use crate::convert::scalar_to_char;
use crate::decimal::dec_chars;
use crate::decimal::dec_rep;
use crate::filter::spec_admits;
use crate::filter::CharFilter;
use crate::text::append_chars;
use crate::text::append_str;
use vstd::prelude::*;
use vstd::utf8::is_scalar;

verus! {

/// The admitted characters of the inclusive span `[first, last]` under the
/// optional filter `f`, in ascending codepoint order: the valid scalar
/// values that `f` admits.
pub open spec fn admitted_seq(first: int, last: int, f: Option<Set<u32>>) -> Seq<char>
    decreases last - first + 1,
{
    if first > last {
        Seq::empty()
    } else if is_scalar(last as u32) && spec_admits(f, last as u32) {
        admitted_seq(first, last - 1, f) + seq![(last as u32) as char]
    } else {
        admitted_seq(first, last - 1, f)
    }
}

/// How many values of the inclusive span `[first, last]` are not Unicode
/// scalar values: each one earns a warning.
pub open spec fn invalid_count(first: int, last: int) -> nat
    decreases last - first + 1,
{
    if first > last {
        0
    } else if is_scalar(last as u32) {
        invalid_count(first, last - 1)
    } else {
        invalid_count(first, last - 1) + 1
    }
}

/// What one range directive admits and warns about.
pub struct RangeExpansion {
    /// The admitted characters, in ascending codepoint order.
    pub admitted: Vec<char>,
    /// How many values of the span were not valid scalar values.
    pub warnings: u64,
}

/// Expands the inclusive span `[first, last]` against `filter`, as
/// [`admitted_seq`] and [`invalid_count`] describe. A span with
/// `first > last` expands to nothing, with no warnings.
pub fn expand_range(first: u32, last: u32, filter: &CharFilter) -> (r: RangeExpansion)
    ensures
        r.admitted@ == admitted_seq(first as int, last as int, filter.model()),
        r.warnings == invalid_count(first as int, last as int),
{
    let mut admitted: Vec<char> = Vec::new();
    let mut warnings: u64 = 0;
    let mut cp: u64 = first as u64;
    while cp <= last as u64
        invariant
            first as u64 <= cp,
            first > last ==> cp == first as u64,
            first <= last ==> cp <= last as u64 + 1,
            admitted@ == admitted_seq(first as int, cp as int - 1, filter.model()),
            warnings == invalid_count(first as int, cp as int - 1),
            warnings <= cp - first as u64,
        decreases last as int + 1 - cp as int,
    {
        let u = cp as u32;
        let ghost prev = admitted@;
        if is_valid_scalar(u) {
            if filter.admits(u) {
                let c = scalar_to_char(u);
                admitted.push(c);
                proof {
                    assert(admitted@ =~= prev + seq![(cp as u32) as char]);
                }
            }
        } else {
            warnings = warnings + 1;
        }
        proof {
            assert(cp as int - 1 == (cp + 1) as int - 1 - 1);
        }
        cp = cp + 1;
    }
    proof {
        if first > last {
            assert(admitted_seq(first as int, first as int - 1, filter.model())
                == admitted_seq(first as int, last as int, filter.model()));
            assert(invalid_count(first as int, first as int - 1) == invalid_count(
                first as int,
                last as int,
            ));
        } else {
            assert(cp == last as u64 + 1);
        }
    }
    RangeExpansion { admitted, warnings }
}

/// The optional header block above an emitted range: the literal range
/// token with the admitted count, the warning count when any, and the name.
pub open spec fn header_spec(
    lhs: Seq<char>,
    admitted: nat,
    warns: nat,
    name: Seq<char>,
    enabled: bool,
) -> Seq<char> {
    if !enabled {
        Seq::empty()
    } else {
        "# Range: "@ + lhs + " ("@ + dec_rep(admitted) + " chars)\n"@ + (if warns >= 1 {
            "# Warnings: "@ + dec_rep(warns) + "\n"@
        } else {
            Seq::empty()
        }) + "# Name: "@ + name + "\n"@
    }
}

/// The full text an emitted range appends to its output file: the optional
/// header, then prefix, admitted characters and suffix.
pub open spec fn range_output_spec(
    lhs: Seq<char>,
    name: Seq<char>,
    admitted: Seq<char>,
    warns: nat,
    prefix: Seq<char>,
    suffix: Seq<char>,
    headers: bool,
) -> Seq<char> {
    header_spec(lhs, admitted.len(), warns, name, headers) + prefix + admitted + suffix
}

/// Renders the text of one emitted range, as [`range_output_spec`] describes.
pub fn render_range_output(
    lhs: &Vec<char>,
    name: &Vec<char>,
    admitted: &Vec<char>,
    warnings: u64,
    prefix: &Vec<char>,
    suffix: &Vec<char>,
    headers: bool,
) -> (out: Vec<char>)
    ensures
        out@ == range_output_spec(
            lhs@,
            name@,
            admitted@,
            warnings as nat,
            prefix@,
            suffix@,
            headers,
        ),
{
    let mut out: Vec<char> = Vec::new();
    if headers {
        append_str(&mut out, "# Range: ");
        append_chars(&mut out, lhs);
        append_str(&mut out, " (");
        let n = dec_chars(admitted.len() as u64);
        append_chars(&mut out, &n);
        append_str(&mut out, " chars)\n");
        if warnings >= 1 {
            append_str(&mut out, "# Warnings: ");
            let w = dec_chars(warnings);
            append_chars(&mut out, &w);
            append_str(&mut out, "\n");
        }
        append_str(&mut out, "# Name: ");
        append_chars(&mut out, name);
        append_str(&mut out, "\n");
    }
    append_chars(&mut out, prefix);
    append_chars(&mut out, admitted);
    append_chars(&mut out, suffix);
    proof {
        assert(out@ =~= range_output_spec(
            lhs@,
            name@,
            admitted@,
            warnings as nat,
            prefix@,
            suffix@,
            headers,
        ));
    }
    out
}

/// With no active filter every valid scalar value of the span is admitted:
/// the admitted count and the warning count together exhaust the span.
pub proof fn lemma_no_filter_partition(first: int, last: int)
    requires
        first <= last,
    ensures
        admitted_seq(first, last, Option::<Set<u32>>::None).len() + invalid_count(first, last)
            == last - first + 1,
    decreases last - first + 1,
{
    if first <= last - 1 {
        lemma_no_filter_partition(first, last - 1);
    } else {
        assert(admitted_seq(first, last - 1, Option::<Set<u32>>::None).len() == 0);
        assert(invalid_count(first, last - 1) == 0);
    }
}

/// The admitted characters of a span are exactly the valid codepoints of
/// the span that the filter admits, in strictly ascending codepoint order.
pub proof fn lemma_admitted_characterization(first: int, last: int, f: Option<Set<u32>>)
    requires
        0 <= first,
        last <= u32::MAX,
    ensures
        forall|k: int|
            0 <= k < admitted_seq(first, last, f).len() ==> {
                let u = #[trigger] admitted_seq(first, last, f)[k] as u32;
                first <= u <= last && is_scalar(u) && spec_admits(f, u)
            },
        forall|u: u32|
            first <= u <= last && is_scalar(u) && spec_admits(f, u) ==> exists|k: int|
                0 <= k < admitted_seq(first, last, f).len() && #[trigger] admitted_seq(
                    first,
                    last,
                    f,
                )[k] as u32 == u,
        forall|k1: int, k2: int|
            0 <= k1 < k2 < admitted_seq(first, last, f).len() ==> ((#[trigger] admitted_seq(
                first,
                last,
                f,
            )[k1] as u32) < (#[trigger] admitted_seq(first, last, f)[k2] as u32)),
    decreases last - first + 1,
{
    let s = admitted_seq(first, last, f);
    if first > last {
    } else {
        lemma_admitted_characterization(first, last - 1, f);
        let s0 = admitted_seq(first, last - 1, f);
        if is_scalar(last as u32) && spec_admits(f, last as u32) {
            assert(s == s0 + seq![(last as u32) as char]);
            assert((last as u32) as char as u32 == last as u32);
            assert(s[s.len() - 1] as u32 == last as u32);
            assert forall|k: int| 0 <= k < s.len() - 1 implies s[k] == s0[k] by {}
            assert forall|u: u32|
                first <= u <= last && is_scalar(u) && spec_admits(f, u) implies exists|k: int|
                0 <= k < s.len() && s[k] as u32 == u by {
                if u as int <= last - 1 {
                    let k = choose|k: int| 0 <= k < s0.len() && s0[k] as u32 == u;
                    assert(s[k] as u32 == u);
                } else {
                    assert(s[s.len() - 1] as u32 == u);
                }
            }
        } else {
            assert(s == s0);
            assert forall|u: u32|
                first <= u <= last && is_scalar(u) && spec_admits(f, u) implies exists|k: int|
                0 <= k < s.len() && s[k] as u32 == u by {
                assert(u as int != last);
                let k = choose|k: int| 0 <= k < s0.len() && s0[k] as u32 == u;
                assert(s[k] as u32 == u);
            }
        }
    }
}

} // verus!
