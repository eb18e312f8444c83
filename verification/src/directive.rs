//! Parsing of configuration lines into directives.
//!
//! A line is trimmed, then split at its first `:` into a trimmed left-hand
//! side and a trimmed right-hand side. A left-hand side beginning with `U+`
//! is a range directive; every other left-hand side must be one of the fixed
//! control directives. Blank lines and lines starting with `#` are skipped.

use crate::text::eq_str;
use crate::text::find_char;
use crate::text::first_ix;
use crate::text::lemma_first_ix;
use crate::text::split_ws_chars;
use crate::text::split_ws_spec;
use crate::text::str_to_chars;
use crate::text::subrange_chars;
use crate::text::trim_chars;
use crate::text::trim_spec;
use vstd::prelude::*;

verus! {

/// The fatal configuration errors: every one aborts a run.
#[derive(Clone, Copy, PartialEq, Eq, Structural, Debug)]
pub enum ConfigError {
    /// A non-blank, non-comment line without a `:` separator.
    MissingSeparator,
    /// A control directive outside the fixed vocabulary.
    UnknownCommand,
    /// A `range_headers` or `overall_stats` argument other than `all`/`none`.
    BadToggleValue,
    /// A range left-hand side without exactly `U+<hex> ... U+<hex>`.
    BadRangeSyntax,
    /// A range bound that is empty, not hexadecimal, or too large.
    BadCodepoint,
    /// A range directive produced output while no output file was selected.
    NoActiveOutputFile,
    /// `filter_dump` with no active filter.
    NoFilterToDump,
    /// `filter_dump` onto a path registered as an output file.
    DumpTargetIsOutput,
}

/// One parsed configuration directive.
pub enum Directive {
    /// Select (opening it if new) the output file for range directives.
    OutputFilePath(Vec<char>),
    /// Set the text prepended to every emitted range payload (escape token).
    RangePrefix(Vec<char>),
    /// Set the text appended to every emitted range payload (escape token).
    RangeSuffix(Vec<char>),
    /// Enable or disable the per-range header block.
    RangeHeaders(bool),
    /// Enable or disable the per-file trailing statistics line.
    OverallStats(bool),
    /// Drop the character filter: every codepoint is admissible again.
    FilterClear,
    /// Build up the filter from the files matching these glob patterns.
    FilterAddFiles(Vec<Vec<char>>),
    /// Write the filter's characters to this path.
    FilterDump(Vec<char>),
    /// Emit the codepoints from `first` to `last` inclusive; `lhs` is the
    /// literal range token text and `name` the free text after the `:`.
    Range { first: u32, last: u32, lhs: Vec<char>, name: Vec<char> },
}

/// True when `c` is a hexadecimal digit.
pub open spec fn is_hex_digit(c: char) -> bool {
    let u = c as u32;
    (48 <= u && u <= 57) || (65 <= u && u <= 70) || (97 <= u && u <= 102)
}

/// The value of a hexadecimal digit.
pub open spec fn hex_digit_val(c: char) -> nat {
    let u = c as u32;
    if 48 <= u && u <= 57 {
        (u - 48) as nat
    } else if 65 <= u && u <= 70 {
        (u - 55) as nat
    } else {
        (u - 87) as nat
    }
}

/// The value of a sequence of hexadecimal digits, most significant first.
pub open spec fn hex_val(s: Seq<char>) -> nat
    decreases s.len(),
{
    if s.len() == 0 {
        0
    } else {
        hex_val(s.drop_last()) * 16 + hex_digit_val(s.last())
    }
}

/// True when every character of `s` is a hexadecimal digit.
pub open spec fn all_hex(s: Seq<char>) -> bool {
    forall|i: int| 0 <= i < s.len() ==> is_hex_digit(s[i])
}

/// A well-formed codepoint token body: nonempty hexadecimal digits whose
/// value fits a `u32`.
pub open spec fn hex_ok(s: Seq<char>) -> bool {
    s.len() > 0 && all_hex(s) && hex_val(s) <= u32::MAX
}

/// A prefix of a digit sequence never exceeds the whole.
proof fn lemma_hex_prefix(s: Seq<char>, k: int)
    requires
        0 <= k <= s.len(),
    ensures
        hex_val(s.take(k)) <= hex_val(s),
    decreases s.len(),
{
    if k < s.len() {
        assert(s.drop_last().take(k) =~= s.take(k));
        lemma_hex_prefix(s.drop_last(), k);
    } else {
        assert(s.take(k) =~= s);
    }
}

fn hex_digit(c: char) -> (r: Option<u64>)
    ensures
        r is Some <==> is_hex_digit(c),
        r matches Some(d) ==> d == hex_digit_val(c) && d < 16,
{
    let u = c as u32;
    if 48 <= u && u <= 57 {
        Some((u - 48) as u64)
    } else if 65 <= u && u <= 70 {
        Some((u - 55) as u64)
    } else if 97 <= u && u <= 102 {
        Some((u - 87) as u64)
    } else {
        None
    }
}

/// Parses a codepoint token body: accepted exactly when [`hex_ok`] holds.
pub fn parse_hex(v: &Vec<char>) -> (r: Result<u32, ConfigError>)
    ensures
        hex_ok(v@) ==> (r matches Ok(x) && x == hex_val(v@)),
        !hex_ok(v@) ==> r == Result::<u32, ConfigError>::Err(ConfigError::BadCodepoint),
{
    let n = v.len();
    if n == 0 {
        return Err(ConfigError::BadCodepoint);
    }
    let mut acc: u64 = 0;
    let mut i: usize = 0;
    proof {
        assert(v@.take(0) =~= Seq::<char>::empty());
    }
    while i < n
        invariant
            i <= n,
            n == v@.len(),
            forall|j: int| 0 <= j < i ==> is_hex_digit(v@[j]),
            acc == hex_val(v@.take(i as int)),
            acc <= u32::MAX,
        decreases n - i,
    {
        let c = v[i];
        let d = match hex_digit(c) {
            Some(d) => d,
            None => {
                proof {
                    assert(!all_hex(v@));
                }
                return Err(ConfigError::BadCodepoint);
            },
        };
        acc = acc * 16 + d;
        proof {
            let t = v@.take(i as int + 1);
            assert(t.drop_last() =~= v@.take(i as int));
            assert(t.last() == v@[i as int]);
        }
        if acc > 0xFFFF_FFFFu64 {
            proof {
                lemma_hex_prefix(v@, i as int + 1);
            }
            return Err(ConfigError::BadCodepoint);
        }
        i += 1;
    }
    proof {
        assert(v@.take(n as int) =~= v@);
    }
    Ok(acc as u32)
}

/// True when a trimmed left-hand side names a range directive.
pub open spec fn is_range_lhs(lhs: Seq<char>) -> bool {
    lhs.len() >= 2 && lhs[0] == 'U' && lhs[1] == '+'
}

/// True when a token has the `U+<body>` shape.
pub open spec fn is_u_token(t: Seq<char>) -> bool {
    t.len() >= 2 && t[0] == 'U' && t[1] == '+'
}

/// What parsing the left-hand side `lhs` and name `rhs` of a range directive
/// returns: `U+<hex> ... U+<hex>` in exactly three tokens, or an error.
pub open spec fn range_parse_post(
    lhs: Seq<char>,
    rhs: Seq<char>,
    r: Result<Option<Directive>, ConfigError>,
) -> bool {
    let toks = split_ws_spec(lhs);
    if toks.len() != 3 || toks[1] != "..."@ || !is_u_token(toks[0]) || !is_u_token(toks[2]) {
        r == Result::<Option<Directive>, ConfigError>::Err(ConfigError::BadRangeSyntax)
    } else if !hex_ok(toks[0].skip(2)) || !hex_ok(toks[2].skip(2)) {
        r == Result::<Option<Directive>, ConfigError>::Err(ConfigError::BadCodepoint)
    } else {
        r matches Ok(Some(Directive::Range { first, last, lhs: l, name })) && first == hex_val(
            toks[0].skip(2),
        ) && last == hex_val(toks[2].skip(2)) && l@ == lhs && name@ == rhs
    }
}

/// What parsing one whole configuration line returns: `Ok(None)` for a
/// skipped line, a directive, or the error the line's shape earns.
pub open spec fn parse_line_post(
    line: Seq<char>,
    r: Result<Option<Directive>, ConfigError>,
) -> bool {
    let t = trim_spec(line);
    if t.len() == 0 || t[0] == '#' {
        r == Result::<Option<Directive>, ConfigError>::Ok(Option::<Directive>::None)
    } else if first_ix(t, ':') == t.len() {
        r == Result::<Option<Directive>, ConfigError>::Err(ConfigError::MissingSeparator)
    } else {
        let lhs = trim_spec(t.take(first_ix(t, ':')));
        let rhs = trim_spec(t.skip(first_ix(t, ':') + 1));
        if is_range_lhs(lhs) {
            range_parse_post(lhs, rhs, r)
        } else if lhs == "output_file_path"@ {
            r matches Ok(Some(Directive::OutputFilePath(p))) && p@ == rhs
        } else if lhs == "range_prefix"@ {
            r matches Ok(Some(Directive::RangePrefix(x))) && x@ == rhs
        } else if lhs == "range_suffix"@ {
            r matches Ok(Some(Directive::RangeSuffix(x))) && x@ == rhs
        } else if lhs == "range_headers"@ {
            if rhs == "all"@ {
                r matches Ok(Some(Directive::RangeHeaders(b))) && b == true
            } else if rhs == "none"@ {
                r matches Ok(Some(Directive::RangeHeaders(b))) && b == false
            } else {
                r == Result::<Option<Directive>, ConfigError>::Err(ConfigError::BadToggleValue)
            }
        } else if lhs == "overall_stats"@ {
            if rhs == "all"@ {
                r matches Ok(Some(Directive::OverallStats(b))) && b == true
            } else if rhs == "none"@ {
                r matches Ok(Some(Directive::OverallStats(b))) && b == false
            } else {
                r == Result::<Option<Directive>, ConfigError>::Err(ConfigError::BadToggleValue)
            }
        } else if lhs == "filter_clear"@ {
            r matches Ok(Some(Directive::FilterClear))
        } else if lhs == "filter_add_files"@ {
            r matches Ok(Some(Directive::FilterAddFiles(ps))) && ps.deep_view() == split_ws_spec(
                rhs,
            )
        } else if lhs == "filter_dump"@ {
            r matches Ok(Some(Directive::FilterDump(p))) && p@ == rhs
        } else {
            r == Result::<Option<Directive>, ConfigError>::Err(ConfigError::UnknownCommand)
        }
    }
}

fn parse_range(lhs: Vec<char>, rhs: Vec<char>) -> (r: Result<Option<Directive>, ConfigError>)
    ensures
        range_parse_post(lhs@, rhs@, r),
{
    let toks = split_ws_chars(&lhs);
    proof {
        assert forall|k: int| 0 <= k < toks@.len() implies toks@[k]@ =~= toks.deep_view()[k] by {
        }
    }
    if toks.len() != 3 {
        return Err(ConfigError::BadRangeSyntax);
    }
    if !eq_str(&toks[1], "...") {
        return Err(ConfigError::BadRangeSyntax);
    }
    let t0 = &toks[0];
    let t2 = &toks[2];
    if !(t0.len() >= 2 && t0[0] == 'U' && t0[1] == '+') {
        return Err(ConfigError::BadRangeSyntax);
    }
    if !(t2.len() >= 2 && t2[0] == 'U' && t2[1] == '+') {
        return Err(ConfigError::BadRangeSyntax);
    }
    let h1 = subrange_chars(t0, 2, t0.len());
    let h2 = subrange_chars(t2, 2, t2.len());
    proof {
        assert(h1@ =~= toks.deep_view()[0].skip(2));
        assert(h2@ =~= toks.deep_view()[2].skip(2));
    }
    let first = match parse_hex(&h1) {
        Ok(x) => x,
        Err(e) => {
            return Err(e);
        },
    };
    let last = match parse_hex(&h2) {
        Ok(x) => x,
        Err(e) => {
            return Err(e);
        },
    };
    Ok(Some(Directive::Range { first, last, lhs, name: rhs }))
}

/// Parses one configuration line, as [`parse_line_post`] describes.
pub fn parse_line(line: &str) -> (r: Result<Option<Directive>, ConfigError>)
    ensures
        parse_line_post(line@, r),
{
    let raw = str_to_chars(line);
    let t = trim_chars(&raw);
    if t.len() == 0 {
        return Ok(None);
    }
    if t[0] == '#' {
        return Ok(None);
    }
    let ix = find_char(&t, ':');
    proof {
        lemma_first_ix(t@, ':');
    }
    if ix == t.len() {
        return Err(ConfigError::MissingSeparator);
    }
    let lhs_raw = subrange_chars(&t, 0, ix);
    let rhs_raw = subrange_chars(&t, ix + 1, t.len());
    proof {
        assert(lhs_raw@ =~= t@.take(ix as int));
        assert(rhs_raw@ =~= t@.skip(ix as int + 1));
    }
    let lhs = trim_chars(&lhs_raw);
    let rhs = trim_chars(&rhs_raw);
    if lhs.len() >= 2 {
        let c0 = lhs[0];
        let c1 = lhs[1];
        if c0 == 'U' && c1 == '+' {
            return parse_range(lhs, rhs);
        }
    }
    if eq_str(&lhs, "output_file_path") {
        Ok(Some(Directive::OutputFilePath(rhs)))
    } else if eq_str(&lhs, "range_prefix") {
        Ok(Some(Directive::RangePrefix(rhs)))
    } else if eq_str(&lhs, "range_suffix") {
        Ok(Some(Directive::RangeSuffix(rhs)))
    } else if eq_str(&lhs, "range_headers") {
        if eq_str(&rhs, "all") {
            Ok(Some(Directive::RangeHeaders(true)))
        } else if eq_str(&rhs, "none") {
            Ok(Some(Directive::RangeHeaders(false)))
        } else {
            Err(ConfigError::BadToggleValue)
        }
    } else if eq_str(&lhs, "overall_stats") {
        if eq_str(&rhs, "all") {
            Ok(Some(Directive::OverallStats(true)))
        } else if eq_str(&rhs, "none") {
            Ok(Some(Directive::OverallStats(false)))
        } else {
            Err(ConfigError::BadToggleValue)
        }
    } else if eq_str(&lhs, "filter_clear") {
        Ok(Some(Directive::FilterClear))
    } else if eq_str(&lhs, "filter_add_files") {
        Ok(Some(Directive::FilterAddFiles(split_ws_chars(&rhs))))
    } else if eq_str(&lhs, "filter_dump") {
        Ok(Some(Directive::FilterDump(rhs)))
    } else {
        Err(ConfigError::UnknownCommand)
    }
}

} // verus!
