//! The formatting engine: a single forward pass over a token sequence,
//! driven by the rule set, tracking nested indentation depth and whether the
//! output currently ends in a newline.
//!
//! The whole per-token dispatch is mirrored by spec functions (`token_step`,
//! `run_steps`, `spec_format`); `process_format` is proved to return exactly
//! `spec_format` of its inputs.

use crate::error::FormatError;
use crate::settings::case_is_lower;
use crate::settings::case_name_is_lower;
use crate::settings::case_name_is_upper;
use crate::settings::case_ok;
use crate::settings::recase;
use crate::settings::Settings;
use crate::settings::SettingsV;
use crate::text::indent_text;
use crate::text::seq_ends_with;
use crate::text::set_contains;
use crate::text::str_ends_with;
use crate::text::to_lower;
use crate::text::to_upper;
use crate::tokens::sql_tokens;
use crate::tokens::tok_views;
use crate::tokens::tokenize;
use crate::tokens::Kw;
use crate::tokens::Tok;
use crate::tokens::TokV;
use vstd::prelude::*;
use vstd::string::StringExecFns;

verus! {

/// `n - k`, floored at zero.
pub open spec fn sat_sub(n: nat, k: nat) -> nat {
    if n <= k {
        0
    } else {
        (n - k) as nat
    }
}

/// The engine's running state: current indentation depth and the output
/// accumulated so far.
#[verifier::ext_equal]
pub ghost struct FmtState {
    pub depth: nat,
    pub out: Seq<char>,
}

/// The state a run begins in: depth zero, empty output.
pub open spec fn init_state() -> FmtState {
    FmtState { depth: 0, out: Seq::empty() }
}

/// The sole lookback the engine uses: does the output end in a newline?
pub open spec fn at_nl(out: Seq<char>) -> bool {
    out.len() > 0 && out.last() == '\n'
}

/// A newline when `b` holds, nothing otherwise.
pub open spec fn nl_if(b: bool) -> Seq<char> {
    if b {
        seq!['\n']
    } else {
        Seq::empty()
    }
}

/// Membership of a recased keyword in a break set: an explicit entry matches
/// by exact string equality, and the wildcard `*` matches every keyword.
pub open spec fn kw_in(set: Seq<Seq<char>>, w: Seq<char>) -> bool {
    set.contains(w) || set.contains("*"@)
}

/// What a word emits before its own text, and how the depth moves:
/// under clause indentation a SELECT is prefixed by the current indentation
/// and increases the depth; FROM and WHERE are emitted one level shallower
/// (on a fresh line when not already at one) without moving the depth; any
/// other word at a line start is prefixed by the current indentation.
pub open spec fn word_prefix_text(s: SettingsV, st: FmtState, kw: Kw) -> Seq<char> {
    if s.indentation_clauses && kw == Kw::Select {
        indent_text(s.tabulation_format, st.depth)
    } else if s.indentation_clauses && (kw == Kw::From || kw == Kw::Where) {
        if at_nl(st.out) {
            indent_text(s.tabulation_format, sat_sub(st.depth, 1))
        } else {
            seq!['\n'] + indent_text(s.tabulation_format, sat_sub(st.depth, 1))
        }
    } else if at_nl(st.out) {
        indent_text(s.tabulation_format, st.depth)
    } else {
        Seq::empty()
    }
}

pub open spec fn word_prefix_depth(s: SettingsV, depth: nat, kw: Kw) -> nat {
    if s.indentation_clauses && kw == Kw::Select {
        depth + 1
    } else {
        depth
    }
}

/// The newline forced before a recased keyword, suppressed when the output
/// already ends in a newline.
pub open spec fn word_break_before(s: SettingsV, out0: Seq<char>, cased: Seq<char>) -> Seq<char> {
    nl_if(!at_nl(out0) && kw_in(s.linebreak_before_keywords, cased))
}

/// The newline forced after a recased keyword, suppressed when the output
/// ended in a newline when the word was reached.
pub open spec fn word_break_after(s: SettingsV, out0: Seq<char>, cased: Seq<char>) -> Seq<char> {
    nl_if(!at_nl(out0) && kw_in(s.linebreak_after_keywords, cased))
}

/// One word: non-keywords pass through unchanged; keywords are recased per
/// `keywords_case` — an unrecognized case aborts the whole run — and get the
/// forced line breaks of the break sets.
pub open spec fn word_step(s: SettingsV, st: FmtState, text: Seq<char>, kw: Kw) -> Result<
    FmtState,
    Seq<char>,
> {
    if kw == Kw::NoKw {
        Ok(
            FmtState {
                depth: word_prefix_depth(s, st.depth, kw),
                out: st.out + word_prefix_text(s, st, kw) + text,
            },
        )
    } else if !case_ok(s.keywords_case) {
        Err(s.keywords_case)
    } else {
        Ok(
            FmtState {
                depth: word_prefix_depth(s, st.depth, kw),
                out: st.out + word_prefix_text(s, st, kw) + word_break_before(
                    s,
                    st.out,
                    recase(s.keywords_case, text),
                ) + recase(s.keywords_case, text) + word_break_after(
                    s,
                    st.out,
                    recase(s.keywords_case, text),
                ),
            },
        )
    }
}

/// An opening bracket: the literal character, an optional newline, and a
/// depth increase when the matching indentation flag is set (after emission,
/// so the bracket itself is never indented by its own increment).
pub open spec fn open_bracket_step(st: FmtState, c: char, brk: bool, ind: bool) -> FmtState {
    FmtState {
        depth: if ind {
            st.depth + 1
        } else {
            st.depth
        },
        out: st.out + seq![c] + nl_if(brk),
    }
}

/// A closing bracket: an optional newline first; when the indentation flag is
/// set, the indentation one level shallower than the current depth, then the
/// depth decreases (floored at zero); finally the literal character.  The
/// close thus aligns with the depth at which its opener was emitted.
pub open spec fn close_bracket_step(
    unit: Seq<char>,
    st: FmtState,
    c: char,
    brk: bool,
    ind: bool,
) -> FmtState {
    if ind {
        FmtState {
            depth: sat_sub(st.depth, 1),
            out: st.out + nl_if(brk) + indent_text(unit, sat_sub(st.depth, 1)) + seq![c],
        }
    } else {
        FmtState { depth: st.depth, out: st.out + nl_if(brk) + seq![c] }
    }
}

/// Whitespace passes through verbatim, but is suppressed entirely when the
/// output already ends in a newline or in one (non-empty) indentation unit —
/// the rule is against stray blanks at the start of an indented line, so an
/// empty unit suppresses nothing.
pub open spec fn whitespace_text(s: SettingsV, out0: Seq<char>, w: Seq<char>) -> Seq<char> {
    if at_nl(out0) || (s.tabulation_format.len() > 0 && seq_ends_with(out0, s.tabulation_format)) {
        Seq::empty()
    } else {
        w
    }
}

/// Any other token is emitted unchanged, prefixed by the current indentation
/// at a line start.
pub open spec fn other_prefix(s: SettingsV, st: FmtState) -> Seq<char> {
    if at_nl(st.out) {
        indent_text(s.tabulation_format, st.depth)
    } else {
        Seq::empty()
    }
}

/// The per-token dispatch.  The error payload is the unrecognized
/// `keywords_case` value.
pub open spec fn token_step(s: SettingsV, st: FmtState, t: TokV) -> Result<FmtState, Seq<char>> {
    match t {
        TokV::Word(text, kw) => word_step(s, st, text, kw),
        TokV::Comma => Ok(
            FmtState {
                depth: st.depth,
                out: st.out + seq![','] + nl_if(s.linebreak_after_comma),
            },
        ),
        TokV::SemiColon => Ok(
            FmtState {
                depth: st.depth,
                out: st.out + seq![';'] + nl_if(s.linebreak_after_semicolon),
            },
        ),
        TokV::LParen => Ok(
            open_bracket_step(st, '(', s.linebreak_after_lparenthesis, s.indentation_parenthesis),
        ),
        TokV::LBrace => Ok(open_bracket_step(st, '{', s.linebreak_after_lbrace, s.indentation_braces)),
        TokV::LBracket => Ok(
            open_bracket_step(st, '[', s.linebreak_after_lbracket, s.indentation_brackets),
        ),
        TokV::RParen => Ok(
            close_bracket_step(
                s.tabulation_format,
                st,
                ')',
                s.linebreak_after_lparenthesis,
                s.indentation_parenthesis,
            ),
        ),
        TokV::RBrace => Ok(
            close_bracket_step(
                s.tabulation_format,
                st,
                '}',
                s.linebreak_after_lbrace,
                s.indentation_braces,
            ),
        ),
        TokV::RBracket => Ok(
            close_bracket_step(
                s.tabulation_format,
                st,
                ']',
                s.linebreak_after_lbracket,
                s.indentation_brackets,
            ),
        ),
        TokV::Whitespace(w) => Ok(
            FmtState { depth: st.depth, out: st.out + whitespace_text(s, st.out, w) },
        ),
        TokV::EndOfInput => Ok(st),
        TokV::Other(text) => Ok(
            FmtState { depth: st.depth, out: st.out + other_prefix(s, st) + text },
        ),
    }
}

/// Run the dispatch over a whole token sequence from a given state.
pub open spec fn run_steps(s: SettingsV, st: FmtState, ts: Seq<TokV>) -> Result<
    FmtState,
    Seq<char>,
>
    decreases ts.len(),
{
    if ts.len() == 0 {
        Ok(st)
    } else {
        match token_step(s, st, ts.first()) {
            Ok(st2) => run_steps(s, st2, ts.drop_first()),
            Err(e) => Err(e),
        }
    }
}

/// What one formatting run returns: the full output text, or the
/// unrecognized `keywords_case` value.  There is no partial output: a failed
/// run discards everything built so far.
pub open spec fn spec_format(s: SettingsV, ts: Seq<TokV>) -> Result<Seq<char>, Seq<char>> {
    match run_steps(s, init_state(), ts) {
        Ok(st) => Ok(st.out),
        Err(e) => Err(e),
    }
}

/// Running a concatenation runs the two halves in order.
pub proof fn lemma_run_steps_app(s: SettingsV, st: FmtState, a: Seq<TokV>, b: Seq<TokV>)
    ensures
        run_steps(s, st, a + b) == (match run_steps(s, st, a) {
            Ok(m) => run_steps(s, m, b),
            Err(e) => Err(e),
        }),
    decreases a.len(),
{
    if a.len() == 0 {
        assert(a + b =~= b);
    } else {
        assert((a + b).first() == a.first());
        assert((a + b).drop_first() =~= a.drop_first() + b);
        match token_step(s, st, a.first()) {
            Ok(m) => {
                lemma_run_steps_app(s, m, a.drop_first(), b);
            },
            Err(e) => {},
        }
    }
}

/// Running a single token is one dispatch step.
pub proof fn lemma_run_steps_one(s: SettingsV, st: FmtState, t: TokV)
    ensures
        (token_step(s, st, t) matches Ok(m) ==> run_steps(s, st, seq![t]) == Ok::<
            FmtState,
            Seq<char>,
        >(m)),
        (token_step(s, st, t) matches Err(e) ==> run_steps(s, st, seq![t]) == Err::<
            FmtState,
            Seq<char>,
        >(e)),
{
    assert(seq![t].len() == 1);
    assert(seq![t].first() == t);
    assert(seq![t].drop_first() =~= Seq::<TokV>::empty());
    match token_step(s, st, t) {
        Ok(m) => {
            assert(run_steps(s, m, seq![t].drop_first()) == Ok::<FmtState, Seq<char>>(m));
        },
        Err(e) => {
            assert(run_steps(s, st, seq![t]) == Err::<FmtState, Seq<char>>(e));
        },
    }
}

/// Ending in a one-character newline literal is ending in a newline.
pub proof fn lemma_at_nl_iff(out: Seq<char>)
    ensures
        seq_ends_with(out, "\n"@) <==> at_nl(out),
{
    reveal_strlit("\n");
    if out.len() > 0 {
        assert(out.skip(out.len() - 1) =~= seq![out.last()]);
        if out.last() == '\n' {
            assert(out.skip(out.len() - 1) =~= "\n"@);
        }
        if seq_ends_with(out, "\n"@) {
            assert(out.last() == "\n"@[0]);
        }
    }
}

/// The engine's mutable indentation state: a saturating depth counter paired
/// with the indentation unit it renders.
#[derive(Clone)]
pub struct IndentationCount(usize, String);

impl IndentationCount {
    /// The current depth.
    pub closed spec fn depth(&self) -> nat {
        self.0 as nat
    }

    /// The indentation unit rendered per level.
    pub closed spec fn unit(&self) -> Seq<char> {
        self.1@
    }

    /// A fresh counter at depth zero with the given unit.
    pub fn new(value: &str) -> (r: IndentationCount)
        ensures
            r.depth() == 0,
            r.unit() == value@,
    {
        IndentationCount(0, String::from_str(value))
    }

    /// One level deeper.
    pub fn add(&mut self)
        requires
            old(self).depth() < usize::MAX,
        ensures
            final(self).depth() == old(self).depth() + 1,
            final(self).unit() == old(self).unit(),
    {
        self.0 = self.0 + 1;
    }

    /// One level shallower, floored at zero.
    pub fn sub(&mut self)
        ensures
            final(self).depth() == sat_sub(old(self).depth(), 1),
            final(self).unit() == old(self).unit(),
    {
        self.0 = self.0.saturating_sub(1);
    }

    /// The current depth as a number.
    pub fn get(&self) -> (r: usize)
        ensures
            r == self.depth(),
    {
        self.0
    }

    /// The indentation text at the current depth, or `skip` levels shallower
    /// (floored at zero).
    pub fn get_string(&self, skip: Option<usize>) -> (r: String)
        ensures
            r@ == (match skip {
                Some(number) => indent_text(self.unit(), sat_sub(self.depth(), number as nat)),
                None => indent_text(self.unit(), self.depth()),
            }),
    {
        match skip {
            Some(number) => crate::text::repeat_str(self.1.as_str(), self.0.saturating_sub(number)),
            None => crate::text::repeat_str(self.1.as_str(), self.0),
        }
    }
}

/// Emit one word token: the clause or line-start prefix, then the identifier
/// unchanged or the recased keyword between its forced breaks; exactly one
/// `word_step` of the model.
fn word_token(
    settings: &Settings,
    indentation: &mut IndentationCount,
    output: &mut String,
    text: &String,
    kw: Kw,
    at_ls: bool,
) -> (r: Result<(), FormatError>)
    requires
        old(indentation).unit() == settings@.tabulation_format,
        old(indentation).depth() < usize::MAX,
        at_ls == at_nl(old(output)@),
    ensures
        final(indentation).unit() == settings@.tabulation_format,
        final(indentation).depth() <= old(indentation).depth() + 1,
        match r {
            Ok(_) => word_step(
                settings@,
                FmtState { depth: old(indentation).depth(), out: old(output)@ },
                text@,
                kw,
            ) == Ok::<FmtState, Seq<char>>(
                FmtState { depth: final(indentation).depth(), out: final(output)@ },
            ),
            Err(e) => word_step(
                settings@,
                FmtState { depth: old(indentation).depth(), out: old(output)@ },
                text@,
                kw,
            ) == Err::<FmtState, Seq<char>>(e.value@),
        },
{
    let ghost s = settings@;
    let ghost st = FmtState { depth: indentation.depth(), out: output@ };
    if settings.indentation_clauses && kw == Kw::Select {
        let pre = indentation.get_string(None);
        output.append(pre.as_str());
        indentation.add();
    } else if settings.indentation_clauses && (kw == Kw::From || kw == Kw::Where) {
        if !at_ls {
            output.append("\n");
        }
        let pre = indentation.get_string(Some(1));
        output.append(pre.as_str());
    } else if at_ls {
        let pre = indentation.get_string(None);
        output.append(pre.as_str());
    }
    proof {
        reveal_strlit("\n");
        assert(output@ =~= st.out + word_prefix_text(s, st, kw));
        assert(indentation.depth() == word_prefix_depth(s, st.depth, kw));
    }
    if kw == Kw::NoKw {
        output.append(text.as_str());
        proof {
            assert(output@ =~= st.out + word_prefix_text(s, st, kw) + text@);
        }
        return Ok(());
    }
    let is_lower = case_name_is_lower(&settings.keywords_case);
    let is_upper = case_name_is_upper(&settings.keywords_case);
    if !is_lower && !is_upper {
        return Err(FormatError { value: settings.keywords_case.clone() });
    }
    let value = if is_lower {
        to_lower(text.as_str())
    } else {
        to_upper(text.as_str())
    };
    proof {
        assert(value@ == recase(s.keywords_case, text@));
    }
    let star = String::from_str("*");
    if !at_ls && (set_contains(&settings.linebreak_before_keywords, &value) || set_contains(
        &settings.linebreak_before_keywords,
        &star,
    )) {
        output.append("\n");
    }
    proof {
        assert(output@ =~= st.out + word_prefix_text(s, st, kw) + word_break_before(
            s,
            st.out,
            value@,
        ));
    }
    output.append(value.as_str());
    if !at_ls && (set_contains(&settings.linebreak_after_keywords, &value) || set_contains(
        &settings.linebreak_after_keywords,
        &star,
    )) {
        output.append("\n");
    }
    proof {
        assert(output@ =~= st.out + word_prefix_text(s, st, kw) + word_break_before(s, st.out, value@)
            + value@ + word_break_after(s, st.out, value@));
    }
    Ok(())
}

/// Emit one opening bracket: the literal character, an optional newline, and
/// a depth increase when `ind` is set.
fn open_bracket_token(
    indentation: &mut IndentationCount,
    output: &mut String,
    lit: &str,
    brk: bool,
    ind: bool,
)
    requires
        lit@.len() == 1,
        old(indentation).depth() < usize::MAX,
    ensures
        final(indentation).unit() == old(indentation).unit(),
        (ind ==> final(indentation).depth() == old(indentation).depth() + 1),
        (!ind ==> final(indentation).depth() == old(indentation).depth()),
        final(output)@ == old(output)@ + seq![lit@[0]] + nl_if(brk),
{
    let ghost out0 = output@;
    output.append(lit);
    if brk {
        output.append("\n");
    }
    if ind {
        indentation.add();
    }
    proof {
        reveal_strlit("\n");
        assert(lit@ =~= seq![lit@[0]]);
        assert(output@ =~= out0 + seq![lit@[0]] + nl_if(brk));
    }
}

/// Emit one closing bracket: an optional newline, then — when `ind` is set —
/// the indentation one level shallower and a depth decrease, then the
/// literal character.
fn close_bracket_token(
    indentation: &mut IndentationCount,
    output: &mut String,
    lit: &str,
    brk: bool,
    ind: bool,
)
    requires
        lit@.len() == 1,
    ensures
        final(indentation).unit() == old(indentation).unit(),
        (ind ==> final(indentation).depth() == sat_sub(old(indentation).depth(), 1)),
        (!ind ==> final(indentation).depth() == old(indentation).depth()),
        final(output)@ == old(output)@ + nl_if(brk) + (if ind {
            indent_text(old(indentation).unit(), sat_sub(old(indentation).depth(), 1))
        } else {
            Seq::<char>::empty()
        }) + seq![lit@[0]],
{
    let ghost out0 = output@;
    let ghost unit = indentation.unit();
    let ghost depth0 = indentation.depth();
    if brk {
        output.append("\n");
    }
    if ind {
        let pre = indentation.get_string(Some(1));
        output.append(pre.as_str());
        indentation.sub();
    }
    output.append(lit);
    proof {
        reveal_strlit("\n");
        assert(lit@ =~= seq![lit@[0]]);
        if ind {
            assert(output@ =~= out0 + nl_if(brk) + indent_text(unit, sat_sub(depth0, 1)) + seq![
                lit@[0],
            ]);
        } else {
            assert(output@ =~= out0 + nl_if(brk) + Seq::<char>::empty() + seq![lit@[0]]);
        }
    }
}

/// Dispatch one token: perform exactly one `token_step` of the model on the
/// running output and indentation state.
#[verifier::rlimit(100)]
fn step_token(
    settings: &Settings,
    indentation: &mut IndentationCount,
    output: &mut String,
    tok: &Tok,
    at_ls: bool,
) -> (r: Result<(), FormatError>)
    requires
        old(indentation).unit() == settings@.tabulation_format,
        old(indentation).depth() < usize::MAX,
        at_ls == at_nl(old(output)@),
    ensures
        final(indentation).unit() == settings@.tabulation_format,
        final(indentation).depth() <= old(indentation).depth() + 1,
        match r {
            Ok(_) => token_step(
                settings@,
                FmtState { depth: old(indentation).depth(), out: old(output)@ },
                tok@,
            ) == Ok::<FmtState, Seq<char>>(
                FmtState { depth: final(indentation).depth(), out: final(output)@ },
            ),
            Err(e) => token_step(
                settings@,
                FmtState { depth: old(indentation).depth(), out: old(output)@ },
                tok@,
            ) == Err::<FmtState, Seq<char>>(e.value@),
        },
{
    let ghost s = settings@;
    let ghost st = FmtState { depth: indentation.depth(), out: output@ };
    let ghost t = tok@;
    match tok {
        Tok::Word(text, kw) => {
            match word_token(settings, indentation, output, text, *kw, at_ls) {
                Ok(_) => {
                    proof {
                        assert(token_step(s, st, t) == Ok::<FmtState, Seq<char>>(
                            FmtState { depth: indentation.depth(), out: output@ },
                        ));
                    }
                },
                Err(e) => {
                    proof {
                        assert(token_step(s, st, t) == Err::<FmtState, Seq<char>>(e.value@));
                    }
                    return Err(e);
                },
            }
        },
        Tok::EndOfInput => {
            proof {
                assert(token_step(s, st, t) == Ok::<FmtState, Seq<char>>(
                    FmtState { depth: indentation.depth(), out: output@ },
                ));
            }
        },
        Tok::Comma => {
            output.append(",");
            if settings.linebreak_after_comma {
                output.append("\n");
            }
            proof {
                reveal_strlit(",");
                reveal_strlit("\n");
                assert(","@ =~= seq![',']);
                assert(output@ =~= st.out + seq![','] + nl_if(s.linebreak_after_comma));
                assert(token_step(s, st, t) == Ok::<FmtState, Seq<char>>(
                    FmtState { depth: indentation.depth(), out: output@ },
                ));
            }
        },
        Tok::SemiColon => {
            output.append(";");
            if settings.linebreak_after_semicolon {
                output.append("\n");
            }
            proof {
                reveal_strlit(";");
                reveal_strlit("\n");
                assert(";"@ =~= seq![';']);
                assert(output@ =~= st.out + seq![';'] + nl_if(s.linebreak_after_semicolon));
                assert(token_step(s, st, t) == Ok::<FmtState, Seq<char>>(
                    FmtState { depth: indentation.depth(), out: output@ },
                ));
            }
        },
        Tok::LParen => {
            proof {
                reveal_strlit("(");
            }
            open_bracket_token(
                indentation,
                output,
                "(",
                settings.linebreak_after_lparenthesis,
                settings.indentation_parenthesis,
            );
            proof {
                assert("("@[0] == '(');
                assert(token_step(s, st, t) == Ok::<FmtState, Seq<char>>(
                    FmtState { depth: indentation.depth(), out: output@ },
                )) by {
                    assert(output@ =~= st.out + seq!['('] + nl_if(s.linebreak_after_lparenthesis));
                }
            }
        },
        Tok::LBrace => {
            proof {
                reveal_strlit("{");
            }
            open_bracket_token(
                indentation,
                output,
                "{",
                settings.linebreak_after_lbrace,
                settings.indentation_braces,
            );
            proof {
                assert("{"@[0] == '{');
                assert(token_step(s, st, t) == Ok::<FmtState, Seq<char>>(
                    FmtState { depth: indentation.depth(), out: output@ },
                )) by {
                    assert(output@ =~= st.out + seq!['{'] + nl_if(s.linebreak_after_lbrace));
                }
            }
        },
        Tok::LBracket => {
            proof {
                reveal_strlit("[");
            }
            open_bracket_token(
                indentation,
                output,
                "[",
                settings.linebreak_after_lbracket,
                settings.indentation_brackets,
            );
            proof {
                assert("["@[0] == '[');
                assert(token_step(s, st, t) == Ok::<FmtState, Seq<char>>(
                    FmtState { depth: indentation.depth(), out: output@ },
                )) by {
                    assert(output@ =~= st.out + seq!['['] + nl_if(s.linebreak_after_lbracket));
                }
            }
        },
        Tok::RParen => {
            proof {
                reveal_strlit(")");
            }
            close_bracket_token(
                indentation,
                output,
                ")",
                settings.linebreak_after_lparenthesis,
                settings.indentation_parenthesis,
            );
            proof {
                assert(")"@[0] == ')');
                assert(token_step(s, st, t) == Ok::<FmtState, Seq<char>>(
                    FmtState { depth: indentation.depth(), out: output@ },
                )) by {
                    if s.indentation_parenthesis {
                        assert(output@ =~= st.out + nl_if(s.linebreak_after_lparenthesis) + indent_text(
                            s.tabulation_format,
                            sat_sub(st.depth, 1),
                        ) + seq![')']);
                    } else {
                        assert(output@ =~= st.out + nl_if(s.linebreak_after_lparenthesis) + seq![')']);
                    }
                }
            }
        },
        Tok::RBrace => {
            proof {
                reveal_strlit("}");
            }
            close_bracket_token(
                indentation,
                output,
                "}",
                settings.linebreak_after_lbrace,
                settings.indentation_braces,
            );
            proof {
                assert("}"@[0] == '}');
                assert(token_step(s, st, t) == Ok::<FmtState, Seq<char>>(
                    FmtState { depth: indentation.depth(), out: output@ },
                )) by {
                    if s.indentation_braces {
                        assert(output@ =~= st.out + nl_if(s.linebreak_after_lbrace) + indent_text(
                            s.tabulation_format,
                            sat_sub(st.depth, 1),
                        ) + seq!['}']);
                    } else {
                        assert(output@ =~= st.out + nl_if(s.linebreak_after_lbrace) + seq!['}']);
                    }
                }
            }
        },
        Tok::RBracket => {
            proof {
                reveal_strlit("]");
            }
            close_bracket_token(
                indentation,
                output,
                "]",
                settings.linebreak_after_lbracket,
                settings.indentation_brackets,
            );
            proof {
                assert("]"@[0] == ']');
                assert(token_step(s, st, t) == Ok::<FmtState, Seq<char>>(
                    FmtState { depth: indentation.depth(), out: output@ },
                )) by {
                    if s.indentation_brackets {
                        assert(output@ =~= st.out + nl_if(s.linebreak_after_lbracket) + indent_text(
                            s.tabulation_format,
                            sat_sub(st.depth, 1),
                        ) + seq![']']);
                    } else {
                        assert(output@ =~= st.out + nl_if(s.linebreak_after_lbracket) + seq![']']);
                    }
                }
            }
        },
        Tok::Whitespace(w) => {
            let suppress = at_ls || (!settings.tabulation_format.as_str().is_empty()
                && str_ends_with(output.as_str(), settings.tabulation_format.as_str()));
            if !suppress {
                output.append(w.as_str());
            }
            proof {
                assert(output@ =~= st.out + whitespace_text(s, st.out, w@));
                assert(token_step(s, st, t) == Ok::<FmtState, Seq<char>>(
                    FmtState { depth: indentation.depth(), out: output@ },
                ));
            }
        },
        Tok::Other(text) => {
            if at_ls {
                let pre = indentation.get_string(None);
                output.append(pre.as_str());
            }
            output.append(text.as_str());
            proof {
                assert(output@ =~= st.out + other_prefix(s, st) + text@);
                assert(token_step(s, st, t) == Ok::<FmtState, Seq<char>>(
                    FmtState { depth: indentation.depth(), out: output@ },
                ));
            }
        },
    }
    Ok(())
}

/// Format a token sequence under a rule set: the single forward pass.
/// Returns exactly what the mathematical model `spec_format` gives: the full
/// formatted text, or the unrecognized `keywords_case` value with no output.
#[verifier::rlimit(100)]
pub fn process_format(settings: &Settings, tokens: &Vec<Tok>) -> (r: Result<String, FormatError>)
    ensures
        match r {
            Ok(out) => spec_format(settings@, tok_views(tokens@)) == Ok::<Seq<char>, Seq<char>>(
                out@,
            ),
            Err(e) => spec_format(settings@, tok_views(tokens@)) == Err::<Seq<char>, Seq<char>>(
                e.value@,
            ),
        },
{
    let ghost s = settings@;
    let ghost views = tok_views(tokens@);
    let mut indentation = IndentationCount::new(settings.tabulation_format.as_str());
    let mut output = String::new();
    let mut index: usize = 0;
    proof {
        assert(views.take(0) =~= Seq::<TokV>::empty());
    }
    while index < tokens.len()
        invariant
            index <= tokens.len(),
            s == settings@,
            views == tok_views(tokens@),
            views.len() == tokens.len(),
            indentation.unit() == s.tabulation_format,
            indentation.depth() <= index,
            run_steps(s, init_state(), views.take(index as int)) == Ok::<FmtState, Seq<char>>(
                FmtState { depth: indentation.depth(), out: output@ },
            ),
        decreases tokens.len() - index,
    {
        let ghost st = FmtState { depth: indentation.depth(), out: output@ };
        let ghost t = views[index as int];
        let at_ls = str_ends_with(output.as_str(), "\n");
        proof {
            lemma_at_nl_iff(output@);
            assert(t == tokens@[index as int]@);
        }
        match step_token(settings, &mut indentation, &mut output, &tokens[index], at_ls) {
            Ok(_) => {},
            Err(e) => {
                proof {
                    assert(token_step(s, st, t) == Err::<FmtState, Seq<char>>(e.value@));
                    assert(views =~= views.take(index as int) + (seq![t] + views.skip(
                        index as int + 1,
                    )));
                    lemma_run_steps_app(
                        s,
                        init_state(),
                        views.take(index as int),
                        seq![t] + views.skip(index as int + 1),
                    );
                    assert((seq![t] + views.skip(index as int + 1)).first() == t);
                    assert(run_steps(s, init_state(), views) == Err::<FmtState, Seq<char>>(
                        e.value@,
                    ));
                }
                return Err(e);
            },
        }
        proof {
            assert(views.take(index as int + 1) =~= views.take(index as int) + seq![t]);
            lemma_run_steps_app(s, init_state(), views.take(index as int), seq![t]);
            lemma_run_steps_one(s, st, t);
        }
        index = index + 1;
    }
    proof {
        assert(views.take(tokens.len() as int) =~= views);
    }
    Ok(output)
}

/// Tokenize a script under the rule set's dialect and format the tokens.
/// A success is exactly the formatting of the script's own tokens under the
/// named dialect; a failure is the tokenizer's error text, surfaced
/// unchanged, or the engine's message naming the unrecognized
/// `keywords_case` — and in either case no output is produced.
pub fn formater(settings: Settings, script: String) -> (r: Result<String, String>)
    ensures
        (r matches Ok(out) ==> sql_tokens(settings@.database, script@) matches Ok(ts)
            && spec_format(settings@, ts) == Ok::<Seq<char>, Seq<char>>(out@)),
        (r matches Err(e) ==> (sql_tokens(settings@.database, script@) matches Err(te) && e@
            == te) || (sql_tokens(settings@.database, script@) matches Ok(ts) && spec_format(
            settings@,
            ts,
        ) matches Err(c) && e@ == "Unsupported case : "@ + c)),
{
    let toks = match tokenize(settings.database.as_str(), script.as_str()) {
        Ok(v) => v,
        Err(e) => {
            return Err(e);
        },
    };
    match process_format(&settings, &toks) {
        Ok(out) => Ok(out),
        Err(e) => Err(e.message()),
    }
}

} // verus!
