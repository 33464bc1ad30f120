//! The rule set driving one formatting run, and its finalization.
//!
//! A `Settings` value is constructed by an external collaborator (a
//! configuration loader) and read-only for the engine's lifetime.  Before a
//! run, `SavedSettings::update` validates the keyword case and, when clause
//! indentation is on, widens the break-after set with the clause openers; and
//! `parse_tabulation_format` turns the symbolic tabulation name into the
//! literal indentation unit.

use crate::error::FormatError;
use crate::text::indent_text;
use crate::text::lower_of;
use crate::text::parse_usize;
use crate::text::parse_usize_spec;
use crate::text::remove_all;
use crate::text::remove_all_occurrences;
use crate::text::repeat_str;
use crate::text::seq_starts_with;
use crate::text::set_contains;
use crate::text::str_starts_with;
use crate::text::upper_of;
use vstd::prelude::*;
use vstd::string::StringExecFns;

verus! {

/// Every formatting option, fully owned; immutable once finalized.
#[derive(Clone)]
pub struct Settings {
    /// Database name (Oracle, PostgreSQL, MySQL, etc)
    pub database: String,
    /// Case of each SQL Keyword
    pub keywords_case: String,
    /// Customize the tabulations
    pub tabulation_format: String,
    /// Insert linebreak after each comma ','
    pub linebreak_after_comma: bool,
    /// Insert linebreak after each left parenthesis '('
    pub linebreak_after_lparenthesis: bool,
    /// Insert linebreak after each left brace '{'
    pub linebreak_after_lbrace: bool,
    /// Insert linebreak after each left bracket '['
    pub linebreak_after_lbracket: bool,
    /// Insert linebreak after each semicolon
    pub linebreak_after_semicolon: bool,
    /// Insert linebreak after specified SQL Keywords
    pub linebreak_after_keywords: Vec<String>,
    /// Insert linebreak before specified SQL Keywords
    pub linebreak_before_keywords: Vec<String>,
    /// Insert indentations between the parenthesis
    pub indentation_parenthesis: bool,
    /// Insert indentations between the braces
    pub indentation_braces: bool,
    /// Insert indentations between the brackets
    pub indentation_brackets: bool,
    /// Insert indentations between clauses
    pub indentation_clauses: bool,
}

/// The mathematical value of a rule set.
#[verifier::ext_equal]
pub ghost struct SettingsV {
    pub database: Seq<char>,
    pub keywords_case: Seq<char>,
    pub tabulation_format: Seq<char>,
    pub linebreak_after_comma: bool,
    pub linebreak_after_lparenthesis: bool,
    pub linebreak_after_lbrace: bool,
    pub linebreak_after_lbracket: bool,
    pub linebreak_after_semicolon: bool,
    pub linebreak_after_keywords: Seq<Seq<char>>,
    pub linebreak_before_keywords: Seq<Seq<char>>,
    pub indentation_parenthesis: bool,
    pub indentation_braces: bool,
    pub indentation_brackets: bool,
    pub indentation_clauses: bool,
}

impl View for Settings {
    type V = SettingsV;

    open spec fn view(&self) -> SettingsV {
        SettingsV {
            database: self.database@,
            keywords_case: self.keywords_case@,
            tabulation_format: self.tabulation_format@,
            linebreak_after_comma: self.linebreak_after_comma,
            linebreak_after_lparenthesis: self.linebreak_after_lparenthesis,
            linebreak_after_lbrace: self.linebreak_after_lbrace,
            linebreak_after_lbracket: self.linebreak_after_lbracket,
            linebreak_after_semicolon: self.linebreak_after_semicolon,
            linebreak_after_keywords: self.linebreak_after_keywords.deep_view(),
            linebreak_before_keywords: self.linebreak_before_keywords.deep_view(),
            indentation_parenthesis: self.indentation_parenthesis,
            indentation_braces: self.indentation_braces,
            indentation_brackets: self.indentation_brackets,
            indentation_clauses: self.indentation_clauses,
        }
    }
}

/// The recognized spellings of the lowercase option.
pub open spec fn case_is_lower(case: Seq<char>) -> bool {
    case == "lowercase"@ || case == "lower"@
}

/// The recognized spellings of the uppercase option.
pub open spec fn case_is_upper(case: Seq<char>) -> bool {
    case == "uppercase"@ || case == "upper"@
}

/// `keywords_case` holds one of the recognized values.
pub open spec fn case_ok(case: Seq<char>) -> bool {
    case_is_lower(case) || case_is_upper(case)
}

/// The casing applied to a keyword under a recognized `keywords_case`.
pub open spec fn recase(case: Seq<char>, w: Seq<char>) -> Seq<char> {
    if case_is_lower(case) {
        lower_of(w)
    } else {
        upper_of(w)
    }
}

/// Does `case` spell the lowercase option?
pub fn case_name_is_lower(case: &String) -> (r: bool)
    ensures
        r == case_is_lower(case@),
{
    case.eq(&String::from_str("lowercase")) || case.eq(&String::from_str("lower"))
}

/// Does `case` spell the uppercase option?
pub fn case_name_is_upper(case: &String) -> (r: bool)
    ensures
        r == case_is_upper(case@),
{
    case.eq(&String::from_str("uppercase")) || case.eq(&String::from_str("upper"))
}

/// The default rule set.
pub open spec fn default_settings() -> SettingsV {
    SettingsV {
        database: "generic"@,
        keywords_case: "uppercase"@,
        tabulation_format: "tab1"@,
        linebreak_after_comma: true,
        linebreak_after_lparenthesis: true,
        linebreak_after_lbrace: true,
        linebreak_after_lbracket: false,
        linebreak_after_semicolon: true,
        linebreak_after_keywords: seq!["SELECT"@, "FROM"@, "WHERE"@],
        linebreak_before_keywords: Seq::empty(),
        indentation_parenthesis: true,
        indentation_braces: true,
        indentation_brackets: false,
        indentation_clauses: true,
    }
}

impl Default for Settings {
    /// The default rule set: uppercase keywords, one tab per level, breaks
    /// after comma, semicolon, parenthesis and brace, clause indentation on,
    /// and the clause openers in the break-after set.
    fn default() -> (d: Settings)
        ensures
            d@ == default_settings(),
    {
        let mut hash_after: Vec<String> = Vec::new();
        hash_after.push(String::from_str("SELECT"));
        hash_after.push(String::from_str("FROM"));
        hash_after.push(String::from_str("WHERE"));
        proof {
            assert(hash_after.deep_view() =~= seq!["SELECT"@, "FROM"@, "WHERE"@]);
        }
        let d = Settings {
            database: String::from_str("generic"),
            keywords_case: String::from_str("uppercase"),
            tabulation_format: String::from_str("tab1"),
            linebreak_after_comma: true,
            linebreak_after_lparenthesis: true,
            linebreak_after_lbrace: true,
            linebreak_after_lbracket: false,
            linebreak_after_semicolon: true,
            linebreak_after_keywords: hash_after,
            linebreak_before_keywords: Vec::new(),
            indentation_parenthesis: true,
            indentation_braces: true,
            indentation_brackets: false,
            indentation_clauses: true,
        };
        proof {
            assert(d.linebreak_before_keywords.deep_view() =~= Seq::<Seq<char>>::empty());
            assert(d@ =~= default_settings());
        }
        d
    }
}

/// A finalized rule set together with the path it was loaded from or saved
/// to.
pub struct SavedSettings(pub Settings, pub String);

/// `set` with `w` appended unless already present.
pub open spec fn add_if_missing(set: Seq<Seq<char>>, w: Seq<char>) -> Seq<Seq<char>> {
    if set.contains(w) {
        set
    } else {
        set.push(w)
    }
}

/// The break-after keyword set widened with the clause openers, spelled in
/// the given case.
pub open spec fn widened_keywords(set: Seq<Seq<char>>, case: Seq<char>) -> Seq<Seq<char>> {
    if case_is_lower(case) {
        add_if_missing(add_if_missing(add_if_missing(set, "select"@), "from"@), "where"@)
    } else {
        add_if_missing(add_if_missing(add_if_missing(set, "SELECT"@), "FROM"@), "WHERE"@)
    }
}

/// The rule set after finalization: when clause indentation is on, the
/// break-after set is widened with the clause openers; nothing else changes.
pub open spec fn finalized(s: SettingsV) -> SettingsV {
    if s.indentation_clauses {
        SettingsV {
            linebreak_after_keywords: widened_keywords(
                s.linebreak_after_keywords,
                s.keywords_case,
            ),
            ..s
        }
    } else {
        s
    }
}

impl SavedSettings {
    /// Finalize a rule set: reject an unrecognized `keywords_case`; when
    /// clause indentation is on, widen the break-after keyword set with the
    /// clause openers in the matching case.  The second result says whether
    /// the keyword set grew, so the caller can persist the widened rule set.
    pub fn update(settings: Settings, path: String) -> (r: Result<(SavedSettings, bool), FormatError>)
        ensures
            match r {
                Ok(p) => case_ok(settings@.keywords_case) && p.0.0@ == finalized(settings@)
                    && p.0.1@ == path@ && p.1 == (finalized(settings@).linebreak_after_keywords
                    != settings@.linebreak_after_keywords),
                Err(e) => !case_ok(settings@.keywords_case) && e.value@
                    == settings@.keywords_case,
            },
    {
        let ghost sv = settings@;
        let is_lower = case_name_is_lower(&settings.keywords_case);
        let is_upper = case_name_is_upper(&settings.keywords_case);
        if !is_lower && !is_upper {
            return Err(FormatError { value: settings.keywords_case.clone() });
        }
        if !settings.indentation_clauses {
            assert(finalized(settings@) == settings@);
            return Ok((SavedSettings(settings, path), false));
        }
        let Settings {
            database,
            keywords_case,
            tabulation_format,
            linebreak_after_comma,
            linebreak_after_lparenthesis,
            linebreak_after_lbrace,
            linebreak_after_lbracket,
            linebreak_after_semicolon,
            linebreak_after_keywords: mut kwset,
            linebreak_before_keywords,
            indentation_parenthesis,
            indentation_braces,
            indentation_brackets,
            indentation_clauses,
        } = settings;
        let ghost set0 = kwset.deep_view();
        let c1: bool;
        let c2: bool;
        let c3: bool;
        if is_lower {
            c1 = insert_missing(&mut kwset, "select");
            c2 = insert_missing(&mut kwset, "from");
            c3 = insert_missing(&mut kwset, "where");
        } else {
            c1 = insert_missing(&mut kwset, "SELECT");
            c2 = insert_missing(&mut kwset, "FROM");
            c3 = insert_missing(&mut kwset, "WHERE");
        }
        let changed = c1 || c2 || c3;
        proof {
            assert(kwset.deep_view() == widened_keywords(set0, sv.keywords_case));
            if !c1 && !c2 && !c3 {
                assert(kwset.deep_view() == set0);
            } else {
                assert(kwset.deep_view().len() > set0.len());
            }
        }
        let updated = Settings {
            database,
            keywords_case,
            tabulation_format,
            linebreak_after_comma,
            linebreak_after_lparenthesis,
            linebreak_after_lbrace,
            linebreak_after_lbracket,
            linebreak_after_semicolon,
            linebreak_after_keywords: kwset,
            linebreak_before_keywords,
            indentation_parenthesis,
            indentation_braces,
            indentation_brackets,
            indentation_clauses,
        };
        proof {
            assert(updated@ =~= finalized(sv));
        }
        Ok((SavedSettings(updated, path), changed))
    }
}

/// Append `w` to the keyword set unless it is already a member; reports
/// whether it was appended.
fn insert_missing(set: &mut Vec<String>, w: &str) -> (r: bool)
    ensures
        final(set).deep_view() == add_if_missing(old(set).deep_view(), w@),
        r == !old(set).deep_view().contains(w@),
        r ==> final(set).deep_view() =~= old(set).deep_view().push(w@),
        !r ==> final(set).deep_view() == old(set).deep_view(),
{
    let word = String::from_str(w);
    if set_contains(set, &word) {
        false
    } else {
        let ghost before = set.deep_view();
        set.push(word);
        proof {
            assert(set.deep_view() =~= before.push(w@));
        }
        true
    }
}

/// The indentation unit named by a tabulation format: `tab<N>` gives `N`
/// tabs, `space<N>` gives `N` spaces, a bare or unparsable count gives the
/// pattern once, and anything else falls back to one tab.
pub open spec fn parsed_tabulation(s: Seq<char>) -> Seq<char> {
    if seq_starts_with(s, "tab"@) {
        tab_repeat("\t"@, remove_all(s, "tab"@))
    } else if seq_starts_with(s, "space"@) {
        tab_repeat(" "@, remove_all(s, "space"@))
    } else {
        "\t"@
    }
}

/// `pattern` repeated by the parsed count, or once when the count does not
/// parse.
pub open spec fn tab_repeat(pattern: Seq<char>, num: Seq<char>) -> Seq<char> {
    match parse_usize_spec(num) {
        Some(n) => indent_text(pattern, n),
        None => pattern,
    }
}

/// Turn a symbolic tabulation format into the literal indentation unit.
pub fn parse_tabulation_format(tabulation_format: String) -> (r: String)
    ensures
        r@ == parsed_tabulation(tabulation_format@),
{
    proof {
        reveal_strlit("tab");
        reveal_strlit("space");
    }
    if str_starts_with(tabulation_format.as_str(), "tab") {
        let digits = remove_all_occurrences(tabulation_format.as_str(), "tab");
        repeat_pattern("\t", &digits)
    } else if str_starts_with(tabulation_format.as_str(), "space") {
        let digits = remove_all_occurrences(tabulation_format.as_str(), "space");
        repeat_pattern(" ", &digits)
    } else {
        String::from_str("\t")
    }
}

/// `pattern` repeated `num` times when `num` parses, else once.
fn repeat_pattern(pattern: &str, num: &String) -> (r: String)
    ensures
        r@ == tab_repeat(pattern@, num@),
{
    match parse_usize(num.as_str()) {
        Some(n) => repeat_str(pattern, n),
        None => String::from_str(pattern),
    }
}

} // verus!
