//! The directive interpreter: the run-wide state, one transition per
//! directive, and the end-of-run statistics trailers.
//!
//! The interpreter performs no I/O itself. [`apply`] mutates the state and
//! returns an [`Action`] telling the embedding program what to do outside;
//! the program feeds the text of filter source files back through
//! [`absorb_filter_text`].

use crate::directive::ConfigError;
use crate::directive::Directive;
use crate::decimal::dec_chars;
use crate::decimal::dec_rep;
use crate::escape::decode_escape_chars;
use crate::escape::unescape_spec;
use crate::expand::admitted_seq;
use crate::expand::expand_range;
use crate::expand::invalid_count;
use crate::expand::range_output_spec;
use crate::expand::render_range_output;
use crate::filter::activated_set;
use crate::filter::chars_code_set;
use crate::filter::lemma_dump_round_trip;
use crate::filter::CharFilter;
use crate::text::append_str;
use crate::text::append_chars;
use crate::text::clone_chars;
use crate::text::eq_chars;
use crate::text::str_to_chars;
use vstd::prelude::*;

verus! {

/// One registered output file and its statistics.
pub struct OutputFileState {
    /// The path the file was registered under.
    pub path: Vec<char>,
    /// How many admitted characters were written to the file.
    pub chars_written: usize,
    /// How many non-empty ranges were written to the file.
    pub ranges_written: usize,
}

/// The run-wide interpreter state.
pub struct RunState {
    /// The registered output files, in order of first registration.
    pub files: Vec<OutputFileState>,
    /// The index of the file range directives write to, once one is named.
    pub active: Option<usize>,
    /// Text prepended to every emitted range payload.
    pub range_prefix: Vec<char>,
    /// Text appended to every emitted range payload.
    pub range_suffix: Vec<char>,
    /// Whether per-range header blocks are emitted.
    pub headers_enabled: bool,
    /// Whether per-file trailing statistics lines are emitted.
    pub stats_enabled: bool,
    /// The optional character filter.
    pub filter: CharFilter,
    /// The warnings accumulated over the whole run.
    pub total_warnings: usize,
}

/// The mathematical value of one registered output file.
#[verifier::ext_equal]
pub ghost struct FileModel {
    pub path: Seq<char>,
    pub chars_written: nat,
    pub ranges_written: nat,
}

/// The mathematical value of the interpreter state.
#[verifier::ext_equal]
pub ghost struct StateModel {
    pub files: Seq<FileModel>,
    pub active: Option<int>,
    pub prefix: Seq<char>,
    pub suffix: Seq<char>,
    pub headers: bool,
    pub stats: bool,
    pub filter: Option<Set<u32>>,
    pub warnings: nat,
}

/// Addition capped at the largest representable counter value.
pub open spec fn sat_cap(n: nat) -> nat {
    if n > usize::MAX as nat {
        usize::MAX as nat
    } else {
        n
    }
}

/// The first index whose file is registered under `p`, or `files.len()`.
pub open spec fn path_index(files: Seq<FileModel>, p: Seq<char>) -> int
    decreases files.len(),
{
    if files.len() == 0 {
        0
    } else if files[0].path == p {
        0
    } else {
        1 + path_index(files.drop_first(), p)
    }
}

/// What [`path_index`] returns: the least index registered under `p`.
pub proof fn lemma_path_index(files: Seq<FileModel>, p: Seq<char>)
    ensures
        0 <= path_index(files, p) <= files.len(),
        path_index(files, p) < files.len() ==> files[path_index(files, p)].path == p,
        forall|j: int| 0 <= j < path_index(files, p) ==> files[j].path != p,
    decreases files.len(),
{
    if files.len() > 0 && files[0].path != p {
        lemma_path_index(files.drop_first(), p);
        assert forall|j: int| 0 <= j < path_index(files, p) implies files[j].path != p by {
            if j > 0 {
                assert(files.drop_first()[j - 1] == files[j]);
            }
        }
    }
}

impl RunState {
    /// The state as a mathematical value.
    pub open spec fn model(&self) -> StateModel {
        StateModel {
            files: Seq::new(
                self.files@.len(),
                |i: int|
                    FileModel {
                        path: self.files@[i].path@,
                        chars_written: self.files@[i].chars_written as nat,
                        ranges_written: self.files@[i].ranges_written as nat,
                    },
            ),
            active: match self.active {
                Option::None => Option::None,
                Option::Some(i) => Option::Some(i as int),
            },
            prefix: self.range_prefix@,
            suffix: self.range_suffix@,
            headers: self.headers_enabled,
            stats: self.stats_enabled,
            filter: self.filter.model(),
            warnings: self.total_warnings as nat,
        }
    }

    /// Well-formed: a selected file exists, paths are registered once, and
    /// the filter is well-formed.
    pub open spec fn wf(&self) -> bool {
        &&& match self.active {
            Option::None => true,
            Option::Some(i) => i < self.files@.len(),
        }
        &&& forall|i: int, j: int|
            0 <= i < j < self.files@.len() ==> self.files@[i].path@ != self.files@[j].path@
        &&& self.filter.wf()
    }

    /// The state a run begins in: no files, no filter, empty prefix, a
    /// suffix of two newlines, headers and statistics enabled, no warnings.
    pub fn new() -> (r: Self)
        ensures
            r.wf(),
            r.model() == init_model(),
    {
        let mut suffix: Vec<char> = Vec::new();
        append_str(&mut suffix, "\n\n");
        let r = RunState {
            files: Vec::new(),
            active: None,
            range_prefix: Vec::new(),
            range_suffix: suffix,
            headers_enabled: true,
            stats_enabled: true,
            filter: CharFilter::Absent,
            total_warnings: 0,
        };
        proof {
            assert(Seq::<char>::empty() + "\n\n"@ =~= "\n\n"@);
            assert(r.model() =~~= init_model());
        }
        r
    }
}

/// The mathematical value of the starting state.
pub open spec fn init_model() -> StateModel {
    StateModel {
        files: Seq::empty(),
        active: Option::None,
        prefix: Seq::empty(),
        suffix: "\n\n"@,
        headers: true,
        stats: true,
        filter: Option::None,
        warnings: 0,
    }
}

/// The state after one directive. Directives that fail leave the state
/// unchanged; a range directive that admits nothing only adds its warnings.
pub open spec fn spec_apply_state(s: StateModel, d: Directive) -> StateModel {
    match d {
        Directive::OutputFilePath(p) => {
            let ix = path_index(s.files, p@);
            if ix < s.files.len() {
                StateModel { active: Option::Some(ix), ..s }
            } else {
                StateModel {
                    files: s.files.push(
                        FileModel { path: p@, chars_written: 0, ranges_written: 0 },
                    ),
                    active: Option::Some(ix),
                    ..s
                }
            }
        },
        Directive::RangePrefix(x) => StateModel { prefix: unescape_spec(x@), ..s },
        Directive::RangeSuffix(x) => StateModel { suffix: unescape_spec(x@), ..s },
        Directive::RangeHeaders(b) => StateModel { headers: b, ..s },
        Directive::OverallStats(b) => StateModel { stats: b, ..s },
        Directive::FilterClear => StateModel { filter: Option::None, ..s },
        Directive::FilterAddFiles(_) => StateModel {
            filter: Option::Some(activated_set(s.filter)),
            ..s
        },
        Directive::FilterDump(_) => s,
        Directive::Range { first, last, lhs: _, name: _ } => {
            let adm = admitted_seq(first as int, last as int, s.filter);
            let w = invalid_count(first as int, last as int);
            if adm.len() == 0 {
                StateModel { warnings: sat_cap(s.warnings + w), ..s }
            } else {
                match s.active {
                    Option::None => s,
                    Option::Some(i) => StateModel {
                        files: s.files.update(
                            i,
                            FileModel {
                                path: s.files[i].path,
                                chars_written: sat_cap(s.files[i].chars_written + adm.len()),
                                ranges_written: sat_cap(s.files[i].ranges_written + 1),
                            },
                        ),
                        warnings: sat_cap(s.warnings + w),
                        ..s
                    },
                }
            }
        },
    }
}

/// The error one directive earns, if any.
pub open spec fn spec_apply_err(s: StateModel, d: Directive) -> Option<ConfigError> {
    match d {
        Directive::FilterDump(p) => {
            if s.filter is None {
                Option::Some(ConfigError::NoFilterToDump)
            } else if path_index(s.files, p@) < s.files.len() {
                Option::Some(ConfigError::DumpTargetIsOutput)
            } else {
                Option::None
            }
        },
        Directive::Range { first, last, lhs: _, name: _ } => {
            if admitted_seq(first as int, last as int, s.filter).len() > 0 && s.active is None {
                Option::Some(ConfigError::NoActiveOutputFile)
            } else {
                Option::None
            }
        },
        _ => Option::None,
    }
}

/// What one directive asks of the outside world.
pub enum Action {
    /// Nothing: the directive only changed the interpreter state.
    Internal,
    /// Create (with truncation) the output file at `path`, which was not
    /// registered before; repeated registrations reuse the entry silently.
    CreateFile { path: Vec<char> },
    /// Flush every registered output file to stable storage, then expand
    /// each glob pattern in order and feed the text of every matched file
    /// to [`absorb_filter_text`], in order.
    BuildFilter { patterns: Vec<Vec<char>> },
    /// Write `text` as the whole contents of the file at `path`.
    WriteFilterDump { path: Vec<char>, text: Vec<char> },
    /// Append `text` to the already-created output file at `path`.
    AppendOutput { path: Vec<char>, text: Vec<char> },
}

/// What action a successful directive yields: a range directive that emits
/// appends exactly the rendered range text to the selected file; no other
/// directive ever appends to an output file.
pub open spec fn apply_action_ok(s: StateModel, d: Directive, a: Action) -> bool {
    match d {
        Directive::OutputFilePath(p) => {
            if path_index(s.files, p@) < s.files.len() {
                a is Internal
            } else {
                a matches Action::CreateFile { path } && path@ == p@
            }
        },
        Directive::FilterAddFiles(ps) => {
            a matches Action::BuildFilter { patterns } && patterns.deep_view() == ps.deep_view()
        },
        Directive::FilterDump(p) => {
            a matches Action::WriteFilterDump { path, text } && path@ == p@ && chars_code_set(
                text@,
            ) == activated_set(s.filter) && (forall|k1: int, k2: int|
                0 <= k1 < k2 < text@.len() ==> ((text@[k1] as u32) < (text@[k2] as u32)))
        },
        Directive::Range { first, last, lhs, name } => {
            let adm = admitted_seq(first as int, last as int, s.filter);
            if adm.len() == 0 {
                a is Internal
            } else {
                a matches Action::AppendOutput { path, text } && path@ == s.files[s.active->0].path
                    && text@ == range_output_spec(
                    lhs@,
                    name@,
                    adm,
                    invalid_count(first as int, last as int),
                    s.prefix,
                    s.suffix,
                    s.headers,
                )
            }
        },
        _ => a is Internal,
    }
}

fn sat_add_usize(a: usize, b: usize) -> (r: usize)
    ensures
        r == sat_cap((a + b) as nat),
{
    if b > usize::MAX - a {
        usize::MAX
    } else {
        a + b
    }
}

fn sat_add_u64(a: usize, b: u64) -> (r: usize)
    ensures
        r == sat_cap((a + b) as nat),
{
    if b > (usize::MAX - a) as u64 {
        usize::MAX
    } else {
        a + (b as usize)
    }
}

/// The first registered index for `p`, or the number of files.
fn find_path(files: &Vec<OutputFileState>, p: &Vec<char>) -> (r: usize)
    ensures
        ({
            let m = Seq::new(
                files@.len(),
                |i: int|
                    FileModel {
                        path: files@[i].path@,
                        chars_written: files@[i].chars_written as nat,
                        ranges_written: files@[i].ranges_written as nat,
                    },
            );
            r == path_index(m, p@)
        }),
{
    let ghost m = Seq::new(
        files@.len(),
        |i: int|
            FileModel {
                path: files@[i].path@,
                chars_written: files@[i].chars_written as nat,
                ranges_written: files@[i].ranges_written as nat,
            },
    );
    proof {
        lemma_path_index(m, p@);
    }
    let n = files.len();
    let mut i: usize = 0;
    while i < n
        invariant
            i <= n,
            n == files@.len(),
            m == Seq::new(
                files@.len(),
                |i: int|
                    FileModel {
                        path: files@[i].path@,
                        chars_written: files@[i].chars_written as nat,
                        ranges_written: files@[i].ranges_written as nat,
                    },
            ),
            0 <= path_index(m, p@) <= m.len(),
            path_index(m, p@) < m.len() ==> m[path_index(m, p@)].path == p@,
            forall|j: int| 0 <= j < path_index(m, p@) ==> m[j].path != p@,
            forall|j: int| 0 <= j < i ==> m[j].path != p@,
        decreases n - i,
    {
        if eq_chars(&files[i].path, p) {
            proof {
                assert(m[i as int].path == p@);
            }
            return i;
        }
        i += 1;
    }
    proof {
        assert(path_index(m, p@) == n as int);
    }
    i
}

/// Applies one directive: mutates the state as [`spec_apply_state`]
/// describes, fails exactly as [`spec_apply_err`] describes, and on success
/// returns the action [`apply_action_ok`] describes.
pub fn apply(state: &mut RunState, d: Directive) -> (r: Result<Action, ConfigError>)
    requires
        old(state).wf(),
    ensures
        final(state).wf(),
        ({
            let s0 = old(state).model();
            let s1 = final(state).model();
            match spec_apply_err(s0, d) {
                Option::Some(e) => r == Result::<Action, ConfigError>::Err(e) && s1 == s0,
                Option::None => (r matches Ok(a) && apply_action_ok(s0, d, a)) && s1
                    == spec_apply_state(s0, d),
            }
        }),
{
    let ghost s0 = old(state).model();
    match d {
        Directive::OutputFilePath(p) => {
            let ix = find_path(&state.files, &p);
            proof {
                lemma_path_index(s0.files, p@);
            }
            if ix < state.files.len() {
                state.active = Some(ix);
                proof {
                    assert(state.model() =~~= spec_apply_state(s0, Directive::OutputFilePath(p)));
                }
                Ok(Action::Internal)
            } else {
                let path_copy = clone_chars(&p);
                state.files.push(OutputFileState { path: p, chars_written: 0, ranges_written: 0 });
                state.active = Some(ix);
                proof {
                    assert(state.model().files =~~= s0.files.push(
                        FileModel { path: path_copy@, chars_written: 0, ranges_written: 0 },
                    ));
                    assert(state.model() =~~= spec_apply_state(
                        s0,
                        Directive::OutputFilePath(path_copy),
                    ));
                    assert forall|i: int, j: int|
                        0 <= i < j < state.files@.len() implies state.files@[i].path@
                        != state.files@[j].path@ by {
                        if j == state.files@.len() - 1 {
                            assert(s0.files[i].path != path_copy@);
                        }
                    }
                }
                Ok(Action::CreateFile { path: path_copy })
            }
        },
        Directive::RangePrefix(x) => {
            state.range_prefix = decode_escape_chars(&x);
            proof {
                assert(state.model() =~~= spec_apply_state(s0, Directive::RangePrefix(x)));
            }
            Ok(Action::Internal)
        },
        Directive::RangeSuffix(x) => {
            state.range_suffix = decode_escape_chars(&x);
            proof {
                assert(state.model() =~~= spec_apply_state(s0, Directive::RangeSuffix(x)));
            }
            Ok(Action::Internal)
        },
        Directive::RangeHeaders(b) => {
            state.headers_enabled = b;
            proof {
                assert(state.model() =~~= spec_apply_state(s0, Directive::RangeHeaders(b)));
            }
            Ok(Action::Internal)
        },
        Directive::OverallStats(b) => {
            state.stats_enabled = b;
            proof {
                assert(state.model() =~~= spec_apply_state(s0, Directive::OverallStats(b)));
            }
            Ok(Action::Internal)
        },
        Directive::FilterClear => {
            state.filter = CharFilter::Absent;
            proof {
                assert(state.model() =~~= spec_apply_state(s0, Directive::FilterClear));
            }
            Ok(Action::Internal)
        },
        Directive::FilterAddFiles(ps) => {
            state.filter.activate();
            proof {
                assert(state.model() =~~= spec_apply_state(s0, Directive::FilterAddFiles(ps)));
            }
            Ok(Action::BuildFilter { patterns: ps })
        },
        Directive::FilterDump(p) => {
            match &state.filter {
                CharFilter::Absent => Err(ConfigError::NoFilterToDump),
                CharFilter::Active(cs) => {
                    let ix = find_path(&state.files, &p);
                    proof {
                        lemma_path_index(s0.files, p@);
                    }
                    if ix < state.files.len() {
                        Err(ConfigError::DumpTargetIsOutput)
                    } else {
                        let text = cs.dump_chars();
                        proof {
                            lemma_dump_round_trip(cs.codes@, text@);
                            assert forall|k1: int, k2: int|
                                0 <= k1 < k2 < text@.len() implies ((text@[k1] as u32) < (
                            text@[k2] as u32)) by {
                                assert(text@[k1] as u32 == cs.codes@[k1]);
                                assert(text@[k2] as u32 == cs.codes@[k2]);
                            }
                        }
                        Ok(Action::WriteFilterDump { path: p, text })
                    }
                },
            }
        },
        Directive::Range { first, last, lhs, name } => {
            let exp = expand_range(first, last, &state.filter);
            let w = exp.warnings;
            if exp.admitted.len() == 0 {
                state.total_warnings = sat_add_u64(state.total_warnings, w);
                proof {
                    assert(state.model() =~~= spec_apply_state(
                        s0,
                        Directive::Range { first, last, lhs, name },
                    ));
                }
                Ok(Action::Internal)
            } else {
                match state.active {
                    None => Err(ConfigError::NoActiveOutputFile),
                    Some(i) => {
                        let text = render_range_output(
                            &lhs,
                            &name,
                            &exp.admitted,
                            w,
                            &state.range_prefix,
                            &state.range_suffix,
                            state.headers_enabled,
                        );
                        let path_copy = clone_chars(&state.files[i].path);
                        let cw = state.files[i].chars_written;
                        let rw = state.files[i].ranges_written;
                        let nc = sat_add_usize(cw, exp.admitted.len());
                        let nr = sat_add_usize(rw, 1);
                        state.files[i].chars_written = nc;
                        state.files[i].ranges_written = nr;
                        state.total_warnings = sat_add_u64(state.total_warnings, w);
                        proof {
                            assert(state.model().files =~~= s0.files.update(
                                i as int,
                                FileModel {
                                    path: s0.files[i as int].path,
                                    chars_written: sat_cap(
                                        s0.files[i as int].chars_written + exp.admitted@.len(),
                                    ),
                                    ranges_written: sat_cap(
                                        s0.files[i as int].ranges_written + 1,
                                    ),
                                },
                            ));
                            assert(state.model() =~~= spec_apply_state(
                                s0,
                                Directive::Range { first, last, lhs, name },
                            ));
                        }
                        Ok(Action::AppendOutput { path: path_copy, text })
                    },
                }
            }
        },
    }
}

/// Unions the codepoints of `text` into the filter, activating it first:
/// one call per file matched while building the filter.
pub fn absorb_filter_text(state: &mut RunState, text: &str)
    requires
        old(state).wf(),
    ensures
        final(state).wf(),
        final(state).model() == (StateModel {
            filter: Option::Some(
                activated_set(old(state).model().filter).union(chars_code_set(text@)),
            ),
            ..old(state).model()
        }),
{
    let chars = str_to_chars(text);
    state.filter.absorb_chars(&chars);
    proof {
        assert(state.model() =~~= StateModel {
            filter: Option::Some(
                activated_set(old(state).model().filter).union(chars_code_set(text@)),
            ),
            ..old(state).model()
        });
    }
}

/// The trailing statistics line of one output file.
pub open spec fn trailer_spec(ranges: nat, chars: nat) -> Seq<char> {
    "# Overall stats: "@ + dec_rep(ranges) + " ranges, "@ + dec_rep(chars) + " chars\n"@
}

/// The per-file statistics trailers to append at end of run: one line per
/// registered file, in registration order; none when statistics are off.
pub fn finish(state: &RunState) -> (out: Vec<(Vec<char>, Vec<char>)>)
    requires
        state.wf(),
    ensures
        !state.model().stats ==> out@.len() == 0,
        state.model().stats ==> out@.len() == state.model().files.len() && forall|i: int|
            0 <= i < out@.len() ==> (#[trigger] out@[i]).0@ == state.model().files[i].path
                && out@[i].1@ == trailer_spec(
                state.model().files[i].ranges_written,
                state.model().files[i].chars_written,
            ),
{
    let mut out: Vec<(Vec<char>, Vec<char>)> = Vec::new();
    if !state.stats_enabled {
        return out;
    }
    let n = state.files.len();
    let mut i: usize = 0;
    while i < n
        invariant
            i <= n,
            n == state.files@.len(),
            state.wf(),
            out@.len() == i,
            forall|j: int|
                0 <= j < i ==> (#[trigger] out@[j]).0@ == state.model().files[j].path
                    && out@[j].1@ == trailer_spec(
                    state.model().files[j].ranges_written,
                    state.model().files[j].chars_written,
                ),
        decreases n - i,
    {
        let path = clone_chars(&state.files[i].path);
        let mut text: Vec<char> = Vec::new();
        append_str(&mut text, "# Overall stats: ");
        let r = dec_chars(state.files[i].ranges_written as u64);
        append_chars(&mut text, &r);
        append_str(&mut text, " ranges, ");
        let c = dec_chars(state.files[i].chars_written as u64);
        append_chars(&mut text, &c);
        append_str(&mut text, " chars\n");
        proof {
            assert(text@ =~= trailer_spec(
                state.model().files[i as int].ranges_written,
                state.model().files[i as int].chars_written,
            ));
        }
        out.push((path, text));
        i += 1;
    }
    out
}

/// A configuration without range directives produces no output file
/// content: every other directive keeps every registered file's statistics,
/// and registers new files only with zero statistics. (By [`apply`]'s
/// contract, no such directive yields an `AppendOutput` action either.)
pub proof fn lemma_control_keeps_files(s: StateModel, d: Directive)
    requires
        !(d is Range),
    ensures
        spec_apply_state(s, d).files.len() >= s.files.len(),
        forall|i: int|
            0 <= i < s.files.len() ==> spec_apply_state(s, d).files[i] == s.files[i],
        forall|i: int|
            s.files.len() <= i < spec_apply_state(s, d).files.len() ==> (#[trigger] spec_apply_state(
                s,
                d,
            ).files[i]).chars_written == 0 && spec_apply_state(s, d).files[i].ranges_written == 0,
{
}

/// Clearing the filter then running any range directive behaves exactly as
/// in a configuration that never built a filter: the next state and the
/// possible error coincide.
pub proof fn lemma_clear_then_range(s: StateModel, d: Directive)
    requires
        d is Range,
    ensures
        spec_apply_state(spec_apply_state(s, Directive::FilterClear), d) == spec_apply_state(
            StateModel { filter: Option::None, ..s },
            d,
        ),
        spec_apply_err(spec_apply_state(s, Directive::FilterClear), d) == spec_apply_err(
            StateModel { filter: Option::None, ..s },
            d,
        ),
{
    assert(spec_apply_state(s, Directive::FilterClear) =~~= StateModel {
        filter: Option::None,
        ..s
    });
}

/// Building the filter from files leaves an active filter, even before any
/// file contents arrive and even when no pattern matches anything.
pub proof fn lemma_add_files_activates(s: StateModel, d: Directive)
    requires
        d is FilterAddFiles,
    ensures
        spec_apply_state(s, d).filter == Option::Some(activated_set(s.filter)),
        (spec_apply_state(s, d).filter is Some),
{
}

} // verus!
