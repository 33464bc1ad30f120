use sqlformater::error::FormatError;
use sqlformater::formater::formater;
use sqlformater::formater::process_format;
use sqlformater::formater::IndentationCount;
use sqlformater::settings::Settings;
use sqlformater::tokens::Kw;
use sqlformater::tokens::Tok;

fn base_settings() -> Settings {
    Settings {
        database: "generic".to_string(),
        keywords_case: "uppercase".to_string(),
        tabulation_format: "\t".to_string(),
        linebreak_after_comma: true,
        linebreak_after_lparenthesis: true,
        linebreak_after_lbrace: true,
        linebreak_after_lbracket: false,
        linebreak_after_semicolon: true,
        linebreak_after_keywords: vec![],
        linebreak_before_keywords: vec![],
        indentation_parenthesis: true,
        indentation_braces: true,
        indentation_brackets: false,
        indentation_clauses: false,
    }
}

#[test]
fn comma_break_and_recasing() {
    let out = formater(base_settings(), "select a,b from t".to_string()).unwrap();
    assert_eq!(out, "SELECT a,\nb FROM t");
}

#[test]
fn clause_indentation_stair_step() {
    let mut settings = base_settings();
    settings.indentation_clauses = true;
    let out = formater(settings, "select a from t where a>1".to_string()).unwrap();
    assert_eq!(out, "SELECT a \nFROM t \nWHERE a>1");
}

#[test]
fn parenthesis_break_and_alignment() {
    let out = formater(base_settings(), "insert into t(a,b) values(1,2)".to_string()).unwrap();
    assert_eq!(out, "INSERT INTO t(\n\ta,\n\tb\n) VALUES(\n\t1,\n\t2\n)");
}

#[test]
fn idempotent_on_comma_break_output() {
    let once = formater(base_settings(), "select a,b from t".to_string()).unwrap();
    let twice = formater(base_settings(), once.clone()).unwrap();
    assert_eq!(once, twice);
}

#[test]
fn idempotent_on_clause_indentation_output() {
    let mut settings = base_settings();
    settings.indentation_clauses = true;
    let once = formater(settings.clone(), "select a from t where a>1".to_string()).unwrap();
    let twice = formater(settings, once.clone()).unwrap();
    assert_eq!(once, twice);
}

#[test]
fn wildcard_matches_every_keyword() {
    let mut with_wildcard = base_settings();
    with_wildcard.linebreak_after_keywords = vec!["*".to_string()];
    let mut with_explicit = base_settings();
    with_explicit.linebreak_after_keywords = vec!["SELECT".to_string(), "FROM".to_string()];
    let input = "select a from t";
    let a = formater(with_wildcard, input.to_string()).unwrap();
    let b = formater(with_explicit, input.to_string()).unwrap();
    assert_eq!(a, b);
    assert_eq!(a, "SELECT\na FROM\nt");
}

#[test]
fn bad_case_fails_whole_run() {
    let mut settings = base_settings();
    settings.keywords_case = "mixed".to_string();
    let r = formater(settings, "select a".to_string());
    assert_eq!(r, Err("Unsupported case : mixed".to_string()));
}

#[test]
fn bad_case_without_keyword_still_formats() {
    let mut settings = base_settings();
    settings.keywords_case = "mixed".to_string();
    let r = formater(settings, "a > 1".to_string());
    assert_eq!(r, Ok("a > 1".to_string()));
}

#[test]
fn lowercase_keywords_identifiers_untouched() {
    let mut settings = base_settings();
    settings.keywords_case = "lower".to_string();
    let out = formater(settings, "SELECT Ab FROM t".to_string()).unwrap();
    assert_eq!(out, "select Ab from t");
}

#[test]
fn break_before_keyword() {
    let mut settings = base_settings();
    settings.linebreak_before_keywords = vec!["FROM".to_string()];
    let out = formater(settings, "select a from t".to_string()).unwrap();
    assert_eq!(out, "SELECT a \nFROM t");
}

#[test]
fn break_before_suppressed_at_line_start() {
    let mut settings = base_settings();
    settings.linebreak_before_keywords = vec!["FROM".to_string()];
    settings.linebreak_after_keywords = vec!["SELECT".to_string()];
    // After "SELECT\n" the output ends in a newline, so the forced break
    // before FROM is not duplicated.
    let out = formater(settings, "select from t".to_string()).unwrap();
    assert_eq!(out, "SELECT\nFROM t");
}

#[test]
fn semicolon_break() {
    let tokens = vec![Tok::Word("x".to_string(), Kw::NoKw), Tok::SemiColon];
    let out = process_format(&base_settings(), &tokens).unwrap();
    assert_eq!(out, "x;\n");
}

#[test]
fn braces_break_and_indent() {
    let tokens = vec![
        Tok::LBrace,
        Tok::Word("x".to_string(), Kw::NoKw),
        Tok::RBrace,
    ];
    let out = process_format(&base_settings(), &tokens).unwrap();
    assert_eq!(out, "{\n\tx\n}");
}

#[test]
fn brackets_flags_off_by_default() {
    let tokens = vec![
        Tok::LBracket,
        Tok::Word("x".to_string(), Kw::NoKw),
        Tok::RBracket,
    ];
    let out = process_format(&base_settings(), &tokens).unwrap();
    assert_eq!(out, "[x]");
}

#[test]
fn whitespace_suppressed_after_newline_and_unit() {
    let tokens = vec![
        Tok::Word("x".to_string(), Kw::NoKw),
        Tok::Whitespace("\t".to_string()),
        Tok::Whitespace(" ".to_string()),
    ];
    let out = process_format(&base_settings(), &tokens).unwrap();
    assert_eq!(out, "x\t");
}

#[test]
fn end_of_input_emits_nothing() {
    let tokens = vec![Tok::EndOfInput];
    let out = process_format(&base_settings(), &tokens).unwrap();
    assert_eq!(out, "");
}

#[test]
fn process_format_error_names_the_value() {
    let mut settings = base_settings();
    settings.keywords_case = "title".to_string();
    let tokens = vec![Tok::Word("select".to_string(), Kw::Select)];
    match process_format(&settings, &tokens) {
        Ok(_) => panic!("an unrecognized case must fail"),
        Err(e) => assert_eq!(e.value, "title"),
    }
}

#[test]
fn format_error_message_text() {
    let e = FormatError {
        value: "mixed".to_string(),
    };
    assert_eq!(e.message(), "Unsupported case : mixed");
}

#[test]
fn indentation_count_tracks_depth() {
    let mut counter = IndentationCount::new("\t");
    assert_eq!(counter.get(), 0);
    counter.add();
    counter.add();
    assert_eq!(counter.get(), 2);
    assert_eq!(counter.get_string(None), "\t\t");
    assert_eq!(counter.get_string(Some(1)), "\t");
    assert_eq!(counter.get_string(Some(5)), "");
    counter.sub();
    assert_eq!(counter.get(), 1);
    counter.sub();
    counter.sub();
    assert_eq!(counter.get(), 0);
    assert_eq!(counter.get_string(None), "");
}

#[test]
fn spaces_as_indentation_unit() {
    let mut settings = base_settings();
    settings.tabulation_format = "  ".to_string();
    let out = formater(settings, "insert into t(a,b) values(1,2)".to_string()).unwrap();
    assert_eq!(out, "INSERT INTO t(\n  a,\n  b\n) VALUES(\n  1,\n  2\n)");
}

#[test]
fn empty_input_formats_to_empty_output() {
    let out = formater(base_settings(), String::new()).unwrap();
    assert_eq!(out, "");
}

#[test]
fn unknown_database_falls_back_to_generic_dialect() {
    let mut settings = base_settings();
    settings.database = "nosuchdialect".to_string();
    let out = formater(settings, "select a".to_string()).unwrap();
    assert_eq!(out, "SELECT a");
}

#[test]
fn empty_indentation_unit_keeps_spaces() {
    let mut settings = base_settings();
    // parse_tabulation_format("tab0") yields an empty unit; whitespace must
    // not be suppressed by an empty suffix.
    settings.tabulation_format = String::new();
    let out = formater(settings, "select a from t".to_string()).unwrap();
    assert_eq!(out, "SELECT a FROM t");
}

#[test]
fn tokenizer_error_is_surfaced() {
    let r = formater(base_settings(), "select 'unterminated".to_string());
    assert!(r.is_err());
}

#[test]
fn wildcard_in_break_before_set() {
    let mut with_wildcard = base_settings();
    with_wildcard.linebreak_before_keywords = vec!["*".to_string()];
    let mut with_explicit = base_settings();
    with_explicit.linebreak_before_keywords = vec!["SELECT".to_string(), "FROM".to_string()];
    let input = "select a from t";
    let a = formater(with_wildcard, input.to_string()).unwrap();
    let b = formater(with_explicit, input.to_string()).unwrap();
    assert_eq!(a, b);
    assert_eq!(a, "\nSELECT a \nFROM t");
}
