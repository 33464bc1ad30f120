use sqlformater::config::Config;
use sqlformater::settings::parse_tabulation_format;
use sqlformater::settings::SavedSettings;
use sqlformater::settings::Settings;

#[test]
fn settings_defaults() {
    let d = Settings::default();
    assert_eq!(d.database, "generic");
    assert_eq!(d.keywords_case, "uppercase");
    assert_eq!(d.tabulation_format, "tab1");
    assert!(d.linebreak_after_comma);
    assert!(d.linebreak_after_lparenthesis);
    assert!(d.linebreak_after_lbrace);
    assert!(!d.linebreak_after_lbracket);
    assert!(d.linebreak_after_semicolon);
    assert_eq!(
        d.linebreak_after_keywords,
        vec!["SELECT".to_string(), "FROM".to_string(), "WHERE".to_string()]
    );
    assert!(d.linebreak_before_keywords.is_empty());
    assert!(d.indentation_parenthesis);
    assert!(d.indentation_braces);
    assert!(!d.indentation_brackets);
    assert!(d.indentation_clauses);
}

#[test]
fn config_defaults() {
    let d = Config::default();
    assert_eq!(d.database, "generic");
    assert_eq!(d.keywords_case, "uppercase");
    assert!(d.linebreak_after_comma);
    assert!(d.linebreak_after_lparenthesis);
    assert!(d.linebreak_after_lbrace);
    assert!(!d.linebreak_after_lbracket);
    assert!(d.linebreak_after_semicolon);
    assert!(d.linebreak_after_keywords.is_empty());
    assert!(d.linebreak_before_keywords.is_empty());
    assert!(d.indentation_parenthesis);
    assert!(d.indentation_braces);
    assert!(!d.indentation_brackets);
}

#[test]
fn update_widens_with_uppercase_openers() {
    let mut settings = Settings::default();
    settings.linebreak_after_keywords = vec![];
    let (saved, changed) =
        SavedSettings::update(settings, "settings.json".to_string()).unwrap();
    assert!(changed);
    assert_eq!(saved.1, "settings.json");
    assert_eq!(
        saved.0.linebreak_after_keywords,
        vec!["SELECT".to_string(), "FROM".to_string(), "WHERE".to_string()]
    );
}

#[test]
fn update_widens_with_lowercase_openers() {
    let mut settings = Settings::default();
    settings.keywords_case = "lower".to_string();
    settings.linebreak_after_keywords = vec!["order by".to_string()];
    let (saved, changed) =
        SavedSettings::update(settings, "settings.json".to_string()).unwrap();
    assert!(changed);
    assert_eq!(
        saved.0.linebreak_after_keywords,
        vec![
            "order by".to_string(),
            "select".to_string(),
            "from".to_string(),
            "where".to_string()
        ]
    );
}

#[test]
fn update_reports_unchanged_when_already_widened() {
    let settings = Settings::default();
    let (saved, first) = SavedSettings::update(settings, "p".to_string()).unwrap();
    assert!(!first);
    let (saved2, second) = SavedSettings::update(saved.0, "p".to_string()).unwrap();
    assert!(!second);
    assert_eq!(
        saved2.0.linebreak_after_keywords,
        vec!["SELECT".to_string(), "FROM".to_string(), "WHERE".to_string()]
    );
}

#[test]
fn update_leaves_keywords_alone_without_clause_indentation() {
    let mut settings = Settings::default();
    settings.indentation_clauses = false;
    settings.linebreak_after_keywords = vec![];
    let (saved, changed) = SavedSettings::update(settings, "p".to_string()).unwrap();
    assert!(!changed);
    assert!(saved.0.linebreak_after_keywords.is_empty());
}

#[test]
fn update_rejects_unrecognized_case() {
    let mut settings = Settings::default();
    settings.keywords_case = "mixed".to_string();
    match SavedSettings::update(settings, "p".to_string()) {
        Ok(_) => panic!("an unrecognized case must be rejected"),
        Err(e) => assert_eq!(e.value, "mixed"),
    }
}

#[test]
fn update_rejects_unrecognized_case_without_clauses() {
    let mut settings = Settings::default();
    settings.indentation_clauses = false;
    settings.keywords_case = "MiXeD".to_string();
    assert!(SavedSettings::update(settings, "p".to_string()).is_err());
}

#[test]
fn tabulation_tabs() {
    assert_eq!(parse_tabulation_format("tab1".to_string()), "\t");
    assert_eq!(parse_tabulation_format("tab3".to_string()), "\t\t\t");
    assert_eq!(parse_tabulation_format("tab".to_string()), "\t");
    assert_eq!(parse_tabulation_format("tab0".to_string()), "");
}

#[test]
fn tabulation_spaces() {
    assert_eq!(parse_tabulation_format("space4".to_string()), "    ");
    assert_eq!(parse_tabulation_format("space".to_string()), " ");
}

#[test]
fn tabulation_accepts_a_plus_sign_like_parse() {
    assert_eq!(parse_tabulation_format("tab+2".to_string()), "\t\t");
}

#[test]
fn tabulation_unparsable_count_gives_one_unit() {
    assert_eq!(parse_tabulation_format("tabtab".to_string()), "\t");
    assert_eq!(parse_tabulation_format("tabx".to_string()), "\t");
}

#[test]
fn tabulation_unknown_format_falls_back_to_tab() {
    assert_eq!(parse_tabulation_format("bogus".to_string()), "\t");
    assert_eq!(parse_tabulation_format("".to_string()), "\t");
}
