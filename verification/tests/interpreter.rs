use uniranges::directive::parse_line;
use uniranges::directive::ConfigError;
use uniranges::directive::Directive;
use uniranges::state::absorb_filter_text;
use uniranges::state::apply;
use uniranges::state::finish;
use uniranges::state::Action;
use uniranges::state::RunState;

fn text_of(v: &Vec<char>) -> String {
    v.iter().collect()
}

fn run_line(state: &mut RunState, line: &str) -> Action {
    let d = parse_line(line)
        .expect("line should parse")
        .expect("line should hold a directive");
    apply(state, d).expect("directive should apply")
}

#[test]
fn scenario_basic_range() {
    let mut st = RunState::new();
    let act = run_line(&mut st, "output_file_path: out.txt");
    match act {
        Action::CreateFile { path } => assert_eq!(text_of(&path), "out.txt"),
        _ => panic!("expected a file creation"),
    }
    let act = run_line(&mut st, "U+0041 ... U+0043 : Latin A-C");
    match act {
        Action::AppendOutput { path, text } => {
            assert_eq!(text_of(&path), "out.txt");
            assert_eq!(
                text_of(&text),
                "# Range: U+0041 ... U+0043 (3 chars)\n# Name: Latin A-C\nABC\n\n"
            );
        }
        _ => panic!("expected appended output"),
    }
    assert_eq!(st.files.len(), 1);
    assert_eq!(st.files[0].ranges_written, 1);
    assert_eq!(st.files[0].chars_written, 3);
    assert_eq!(st.total_warnings, 0);
}

#[test]
fn scenario_filtered_range() {
    let mut st = RunState::new();
    run_line(&mut st, "output_file_path: out.txt");
    run_line(&mut st, "filter_add_files: none.txt");
    absorb_filter_text(&mut st, "B");
    let act = run_line(&mut st, "U+0041 ... U+0043 : Latin A-C");
    match act {
        Action::AppendOutput { text, .. } => {
            assert_eq!(
                text_of(&text),
                "# Range: U+0041 ... U+0043 (1 chars)\n# Name: Latin A-C\nB\n\n"
            );
        }
        _ => panic!("expected appended output"),
    }
    assert_eq!(st.files[0].chars_written, 1);
}

#[test]
fn scenario_headers_off() {
    let mut st = RunState::new();
    run_line(&mut st, "output_file_path: out.txt");
    run_line(&mut st, "range_headers: none");
    let act = run_line(&mut st, "U+0041 ... U+0043 : Latin A-C");
    match act {
        Action::AppendOutput { text, .. } => assert_eq!(text_of(&text), "ABC\n\n"),
        _ => panic!("expected appended output"),
    }
    assert_eq!(st.files[0].ranges_written, 1);
    assert_eq!(st.files[0].chars_written, 3);
}

#[test]
fn scenario_range_without_output_file() {
    let mut st = RunState::new();
    let d = parse_line("U+0041 ... U+0043 : Latin A-C")
        .unwrap()
        .unwrap();
    let r = apply(&mut st, d);
    assert_eq!(r.err(), Some(ConfigError::NoActiveOutputFile));
}

#[test]
fn no_range_directives_produce_no_output() {
    let mut st = RunState::new();
    for line in [
        "output_file_path: out.txt",
        "range_prefix: >>",
        "range_suffix: none",
        "range_headers: none",
        "filter_add_files: ",
        "filter_clear:",
        "# a comment",
        "   ",
    ] {
        let parsed = parse_line(line).unwrap();
        if let Some(d) = parsed {
            let act = apply(&mut st, d).unwrap();
            assert!(!matches!(act, Action::AppendOutput { .. }));
        }
    }
    assert_eq!(st.files[0].ranges_written, 0);
    assert_eq!(st.files[0].chars_written, 0);
}

#[test]
fn filter_clear_restores_unfiltered_expansion() {
    let mut st = RunState::new();
    run_line(&mut st, "output_file_path: out.txt");
    run_line(&mut st, "filter_add_files: whatever.txt");
    absorb_filter_text(&mut st, "A");
    run_line(&mut st, "filter_clear:");
    let act = run_line(&mut st, "U+0041 ... U+0043 : letters");
    let mut fresh = RunState::new();
    run_line(&mut fresh, "output_file_path: out.txt");
    let act2 = run_line(&mut fresh, "U+0041 ... U+0043 : letters");
    match (act, act2) {
        (Action::AppendOutput { text: a, .. }, Action::AppendOutput { text: b, .. }) => {
            assert_eq!(text_of(&a), text_of(&b));
            assert_eq!(text_of(&a), "# Range: U+0041 ... U+0043 (3 chars)\n# Name: letters\nABC\n\n");
        }
        _ => panic!("expected appended output twice"),
    }
}

#[test]
fn add_files_with_no_matches_leaves_active_empty_filter() {
    let mut st = RunState::new();
    run_line(&mut st, "output_file_path: out.txt");
    let act = run_line(&mut st, "filter_add_files: nothing-*.txt");
    match act {
        Action::BuildFilter { patterns } => {
            assert_eq!(patterns.len(), 1);
            assert_eq!(text_of(&patterns[0]), "nothing-*.txt");
        }
        _ => panic!("expected a filter build"),
    }
    // No file contents arrive: the filter is active but empty, so the
    // range admits nothing and the file's statistics stay untouched.
    let act = run_line(&mut st, "U+0041 ... U+0043 : letters");
    assert!(matches!(act, Action::Internal));
    assert_eq!(st.files[0].ranges_written, 0);
    assert_eq!(st.files[0].chars_written, 0);
}

#[test]
fn dump_round_trip_reproduces_the_filter() {
    let mut st = RunState::new();
    run_line(&mut st, "filter_add_files: src.txt");
    absorb_filter_text(&mut st, "CABBA");
    let act = run_line(&mut st, "filter_dump: dump.txt");
    let dumped = match act {
        Action::WriteFilterDump { path, text } => {
            assert_eq!(text_of(&path), "dump.txt");
            text_of(&text)
        }
        _ => panic!("expected a dump"),
    };
    assert_eq!(dumped, "ABC");
    let mut st2 = RunState::new();
    run_line(&mut st2, "filter_add_files: dump.txt");
    absorb_filter_text(&mut st2, &dumped);
    let act = run_line(&mut st2, "filter_dump: second.txt");
    match act {
        Action::WriteFilterDump { text, .. } => assert_eq!(text_of(&text), "ABC"),
        _ => panic!("expected a dump"),
    }
}

#[test]
fn dump_without_filter_fails() {
    let mut st = RunState::new();
    let d = parse_line("filter_dump: dump.txt").unwrap().unwrap();
    assert_eq!(apply(&mut st, d).err(), Some(ConfigError::NoFilterToDump));
}

#[test]
fn dump_onto_output_file_fails() {
    let mut st = RunState::new();
    run_line(&mut st, "output_file_path: out.txt");
    run_line(&mut st, "filter_add_files: src.txt");
    absorb_filter_text(&mut st, "A");
    let d = parse_line("filter_dump: out.txt").unwrap().unwrap();
    assert_eq!(apply(&mut st, d).err(), Some(ConfigError::DumpTargetIsOutput));
}

#[test]
fn invalid_codepoints_become_warnings() {
    let mut st = RunState::new();
    run_line(&mut st, "output_file_path: out.txt");
    let act = run_line(&mut st, "U+D7FF ... U+E000 : around the surrogates");
    match act {
        Action::AppendOutput { text, .. } => {
            let expected: String = format!(
                "# Range: U+D7FF ... U+E000 (2 chars)\n# Warnings: 2048\n# Name: around the surrogates\n{}{}\n\n",
                '\u{D7FF}', '\u{E000}'
            );
            assert_eq!(text_of(&text), expected);
        }
        _ => panic!("expected appended output"),
    }
    assert_eq!(st.total_warnings, 2048);
    assert_eq!(st.files[0].chars_written, 2);
}

#[test]
fn reversed_range_expands_to_nothing() {
    let mut st = RunState::new();
    run_line(&mut st, "output_file_path: out.txt");
    let act = run_line(&mut st, "U+0043 ... U+0041 : reversed");
    assert!(matches!(act, Action::Internal));
    assert_eq!(st.total_warnings, 0);
    assert_eq!(st.files[0].ranges_written, 0);
}

#[test]
fn fully_invalid_range_counts_warnings_without_output() {
    let mut st = RunState::new();
    // No output file is selected, and none is needed: nothing is admitted.
    let act = run_line(&mut st, "U+D800 ... U+D80F : surrogates only");
    assert!(matches!(act, Action::Internal));
    assert_eq!(st.total_warnings, 16);
}

#[test]
fn prefix_and_suffix_are_decoded_and_applied() {
    let mut st = RunState::new();
    run_line(&mut st, "output_file_path: out.txt");
    run_line(&mut st, "range_prefix: ->\\t");
    run_line(&mut st, "range_suffix: \\n");
    run_line(&mut st, "range_headers: none");
    let act = run_line(&mut st, "U+0041 ... U+0041 : one");
    match act {
        Action::AppendOutput { text, .. } => assert_eq!(text_of(&text), "->\tA\n"),
        _ => panic!("expected appended output"),
    }
}

#[test]
fn reopening_a_path_reuses_the_entry() {
    let mut st = RunState::new();
    run_line(&mut st, "output_file_path: out.txt");
    run_line(&mut st, "range_headers: none");
    run_line(&mut st, "U+0041 ... U+0043 : abc");
    let act = run_line(&mut st, "output_file_path: out.txt");
    assert!(matches!(act, Action::Internal));
    assert_eq!(st.files.len(), 1);
    assert_eq!(st.files[0].chars_written, 3);
}

#[test]
fn overall_stats_trailers() {
    let mut st = RunState::new();
    run_line(&mut st, "output_file_path: out.txt");
    run_line(&mut st, "U+0041 ... U+0043 : abc");
    let trailers = finish(&st);
    assert_eq!(trailers.len(), 1);
    assert_eq!(text_of(&trailers[0].0), "out.txt");
    assert_eq!(text_of(&trailers[0].1), "# Overall stats: 1 ranges, 3 chars\n");
}

#[test]
fn overall_stats_disabled_suppresses_trailers() {
    let mut st = RunState::new();
    run_line(&mut st, "output_file_path: out.txt");
    run_line(&mut st, "overall_stats: none");
    run_line(&mut st, "U+0041 ... U+0043 : abc");
    assert_eq!(finish(&st).len(), 0);
}

#[test]
fn toggles_accept_all_and_reject_others() {
    assert!(matches!(
        parse_line("range_headers: all"),
        Ok(Some(Directive::RangeHeaders(true)))
    ));
    assert!(matches!(
        parse_line("overall_stats: none"),
        Ok(Some(Directive::OverallStats(false)))
    ));
    assert_eq!(
        parse_line("range_headers: maybe").err(),
        Some(ConfigError::BadToggleValue)
    );
    assert_eq!(
        parse_line("overall_stats: yes").err(),
        Some(ConfigError::BadToggleValue)
    );
}

#[test]
fn multiple_output_files_in_one_run() {
    let mut st = RunState::new();
    run_line(&mut st, "output_file_path: a.txt");
    run_line(&mut st, "range_headers: none");
    run_line(&mut st, "U+0041 ... U+0041 : a");
    run_line(&mut st, "output_file_path: b.txt");
    run_line(&mut st, "U+0042 ... U+0043 : bc");
    let trailers = finish(&st);
    assert_eq!(trailers.len(), 2);
    assert_eq!(text_of(&trailers[0].0), "a.txt");
    assert_eq!(text_of(&trailers[0].1), "# Overall stats: 1 ranges, 1 chars\n");
    assert_eq!(text_of(&trailers[1].0), "b.txt");
    assert_eq!(text_of(&trailers[1].1), "# Overall stats: 1 ranges, 2 chars\n");
}
