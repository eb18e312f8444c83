use uniranges::directive::parse_line;
use uniranges::directive::ConfigError;
use uniranges::directive::Directive;
use uniranges::escape::parse_escape;

fn text_of(v: &Vec<char>) -> String {
    v.iter().collect()
}

#[test]
fn blank_and_comment_lines_are_skipped() {
    assert!(matches!(parse_line(""), Ok(None)));
    assert!(matches!(parse_line("   \t  "), Ok(None)));
    assert!(matches!(parse_line("# a comment"), Ok(None)));
    assert!(matches!(parse_line("   # indented comment"), Ok(None)));
}

#[test]
fn line_without_separator_is_malformed() {
    assert_eq!(parse_line("hello").err(), Some(ConfigError::MissingSeparator));
    assert_eq!(
        parse_line("output_file_path out.txt").err(),
        Some(ConfigError::MissingSeparator)
    );
}

#[test]
fn unknown_command_is_rejected() {
    assert_eq!(parse_line("bogus: x").err(), Some(ConfigError::UnknownCommand));
}

#[test]
fn sides_are_trimmed_and_rhs_may_hold_colons() {
    match parse_line("  output_file_path :  a:b.txt  ") {
        Ok(Some(Directive::OutputFilePath(p))) => assert_eq!(text_of(&p), "a:b.txt"),
        _ => panic!("expected an output file path"),
    }
}

#[test]
fn range_tokens_are_parsed_in_hex() {
    match parse_line("U+0041 ... U+10FFFF : all the rest") {
        Ok(Some(Directive::Range { first, last, lhs, name })) => {
            assert_eq!(first, 0x41);
            assert_eq!(last, 0x10FFFF);
            assert_eq!(text_of(&lhs), "U+0041 ... U+10FFFF");
            assert_eq!(text_of(&name), "all the rest");
        }
        _ => panic!("expected a range directive"),
    }
    match parse_line("U+00ff ... U+00FF : case insensitive hex") {
        Ok(Some(Directive::Range { first, last, .. })) => {
            assert_eq!(first, 0xFF);
            assert_eq!(last, 0xFF);
        }
        _ => panic!("expected a range directive"),
    }
}

#[test]
fn bad_range_shapes_are_rejected() {
    assert_eq!(
        parse_line("U+0041 .. U+0043 : two dots").err(),
        Some(ConfigError::BadRangeSyntax)
    );
    assert_eq!(
        parse_line("U+0041 ... : missing end").err(),
        Some(ConfigError::BadRangeSyntax)
    );
    assert_eq!(
        parse_line("U+0041 ... 0043 : missing prefix").err(),
        Some(ConfigError::BadRangeSyntax)
    );
    assert_eq!(
        parse_line("U+0041 ... U+0043 extra : four tokens").err(),
        Some(ConfigError::BadRangeSyntax)
    );
}

#[test]
fn bad_codepoints_are_rejected() {
    assert_eq!(parse_line("U+ ... U+0043 : empty").err(), Some(ConfigError::BadCodepoint));
    assert_eq!(
        parse_line("U+00GG ... U+0043 : not hex").err(),
        Some(ConfigError::BadCodepoint)
    );
    assert_eq!(
        parse_line("U+1FFFFFFFF ... U+0043 : too large").err(),
        Some(ConfigError::BadCodepoint)
    );
}

#[test]
fn empty_left_hand_side_is_unknown() {
    assert_eq!(parse_line(": something").err(), Some(ConfigError::UnknownCommand));
}

#[test]
fn range_prefix_must_be_uppercase_u_plus() {
    // A lowercase `u+` is not a range directive, so the dispatch falls
    // through to the control vocabulary and fails there.
    assert_eq!(
        parse_line("u+0041 ... U+0043 : lowercase").err(),
        Some(ConfigError::UnknownCommand)
    );
    // `U+` alone is a range token with an empty hexadecimal body.
    assert_eq!(
        parse_line("U+ ... U+0043 : empty body").err(),
        Some(ConfigError::BadCodepoint)
    );
}

#[test]
fn escape_decoding() {
    assert_eq!(parse_escape("none"), "");
    assert_eq!(parse_escape(""), "");
    assert_eq!(parse_escape("a\\nb"), "a\nb");
    assert_eq!(parse_escape("\\r\\t"), "\r\t");
    assert_eq!(parse_escape("\\q stays"), "\\q stays");
    assert_eq!(parse_escape("\\\\n"), "\\\n");
    assert_eq!(parse_escape("plain"), "plain");
}
