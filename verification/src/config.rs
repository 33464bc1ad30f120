//! The persisted configuration record: an earlier, narrower revision of the
//! rule set, kept for callers that still read `config.json`.  It has no
//! tabulation format and no clause indentation; keyword lists are plain
//! ordered lists.  Loading and storing the record is the caller's business.

use vstd::prelude::*;
use vstd::string::StringExecFns;

verus! {

/// The stored configuration record.
#[derive(Clone)]
pub struct Config {
    /// Database name (Oracle, PostgreSQL, MySQL, etc)
    pub database: String,
    /// Case of each SQL Keyword
    pub keywords_case: String,
    /// Insert linebreak after each comma ','
    pub linebreak_after_comma: bool,
    /// Insert linebreak after each left parenthesis '('
    pub linebreak_after_lparenthesis: bool,
    /// Insert linebreak after each left brace '{'
    pub linebreak_after_lbrace: bool,
    /// Insert linebreak after each left bracket '['
    pub linebreak_after_lbracket: bool,
    /// Insert linebreak after each semicolon
    pub linebreak_after_semicolon: bool,
    /// Insert linebreak after specified SQL Keywords
    pub linebreak_after_keywords: Vec<String>,
    /// Insert linebreak before specified SQL Keywords
    pub linebreak_before_keywords: Vec<String>,
    /// Insert indentations between the parenthesis
    pub indentation_parenthesis: bool,
    /// Insert indentations between the braces
    pub indentation_braces: bool,
    /// Insert indentations between the brackets
    pub indentation_brackets: bool,
}

impl Default for Config {
    /// The default record: uppercase keywords, breaks after comma, semicolon,
    /// parenthesis and brace, no keyword-specific breaks.
    fn default() -> (d: Config)
        ensures
            d.database@ == "generic"@,
            d.keywords_case@ == "uppercase"@,
            d.linebreak_after_comma,
            d.linebreak_after_lparenthesis,
            d.linebreak_after_lbrace,
            !d.linebreak_after_lbracket,
            d.linebreak_after_semicolon,
            d.linebreak_after_keywords.deep_view() == Seq::<Seq<char>>::empty(),
            d.linebreak_before_keywords.deep_view() == Seq::<Seq<char>>::empty(),
            d.indentation_parenthesis,
            d.indentation_braces,
            !d.indentation_brackets,
    {
        let d = Config {
            database: String::from_str("generic"),
            keywords_case: String::from_str("uppercase"),
            linebreak_after_comma: true,
            linebreak_after_lparenthesis: true,
            linebreak_after_lbrace: true,
            linebreak_after_lbracket: false,
            linebreak_after_semicolon: true,
            linebreak_after_keywords: Vec::new(),
            linebreak_before_keywords: Vec::new(),
            indentation_parenthesis: true,
            indentation_braces: true,
            indentation_brackets: false,
        };
        proof {
            assert(d.linebreak_after_keywords.deep_view() =~= Seq::<Seq<char>>::empty());
            assert(d.linebreak_before_keywords.deep_view() =~= Seq::<Seq<char>>::empty());
        }
        d
    }
}

} // verus!
