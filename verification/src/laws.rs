//! Properties of the formatting engine, stated and proved against the
//! mathematical model in `formater`.

use crate::formater::close_bracket_step;
use crate::formater::init_state;
use crate::formater::nl_if;
use crate::formater::open_bracket_step;
use crate::formater::run_steps;
use crate::formater::sat_sub;
use crate::formater::spec_format;
use crate::formater::token_step;
use crate::formater::word_break_after;
use crate::formater::word_break_before;
use crate::formater::word_prefix_depth;
use crate::formater::word_prefix_text;
use crate::formater::word_step;
use crate::formater::FmtState;
use crate::settings::case_is_lower;
use crate::settings::case_is_upper;
use crate::settings::case_ok;
use crate::settings::recase;
use crate::settings::SettingsV;
use crate::text::indent_text;
use crate::text::lower_of;
use crate::text::upper_of;
use crate::tokens::Kw;
use crate::tokens::TokV;
use vstd::prelude::*;

verus! {

/// The two recognized case options exclude each other.
pub proof fn lemma_case_options_disjoint(case: Seq<char>)
    ensures
        !(case_is_lower(case) && case_is_upper(case)),
{
    reveal_strlit("lowercase");
    reveal_strlit("lower");
    reveal_strlit("uppercase");
    reveal_strlit("upper");
    assert("lowercase"@[0] == 'l' && "uppercase"@[0] == 'u');
    assert("lower"@[0] == 'l' && "upper"@[0] == 'u');
    assert("lowercase"@.len() == 9 && "upper"@.len() == 5);
    assert("lower"@.len() == 5 && "uppercase"@.len() == 9);
}

/// Case totality, keyword half: under a recognized `keywords_case`, a
/// keyword-tagged word is always emitted as exactly the recased text —
/// `lower_of` under the lowercase option, `upper_of` under the uppercase
/// option — between its computed prefix and forced breaks, and never fails.
pub proof fn lemma_case_totality(s: SettingsV, st: FmtState, text: Seq<char>, kw: Kw)
    requires
        kw != Kw::NoKw,
        case_ok(s.keywords_case),
    ensures
        word_step(s, st, text, kw) == Ok::<FmtState, Seq<char>>(
            FmtState {
                depth: word_prefix_depth(s, st.depth, kw),
                out: st.out + word_prefix_text(s, st, kw) + word_break_before(
                    s,
                    st.out,
                    recase(s.keywords_case, text),
                ) + recase(s.keywords_case, text) + word_break_after(
                    s,
                    st.out,
                    recase(s.keywords_case, text),
                ),
            },
        ),
        case_is_lower(s.keywords_case) ==> recase(s.keywords_case, text) == lower_of(text),
        case_is_upper(s.keywords_case) ==> recase(s.keywords_case, text) == upper_of(text),
{
    lemma_case_options_disjoint(s.keywords_case);
}

/// Case totality, identifier half: a word that is not a keyword passes
/// through byte-identical, whatever `keywords_case` holds; only the line
/// start may prefix it with indentation.
pub proof fn lemma_identifier_unchanged(s: SettingsV, st: FmtState, text: Seq<char>)
    ensures
        word_step(s, st, text, Kw::NoKw) == Ok::<FmtState, Seq<char>>(
            FmtState {
                depth: st.depth,
                out: st.out + word_prefix_text(s, st, Kw::NoKw) + text,
            },
        ),
{
}

/// A word token tagged as a keyword.
pub open spec fn is_keyword_tok(t: TokV) -> bool {
    match t {
        TokV::Word(text, kw) => kw != Kw::NoKw,
        _ => false,
    }
}

/// Some keyword occurs in the sequence.
pub open spec fn has_keyword(ts: Seq<TokV>) -> bool {
    exists|i: int| 0 <= i < ts.len() && is_keyword_tok(ts[i])
}

/// When a run succeeds and when it fails: the only failure is an
/// unrecognized `keywords_case`, detected at the first keyword; a run with a
/// recognized case, or without any keyword, always succeeds, and a failure
/// always carries the offending case value.
pub proof fn lemma_run_ok_iff(s: SettingsV, st: FmtState, ts: Seq<TokV>)
    ensures
        run_steps(s, st, ts) is Ok <==> (case_ok(s.keywords_case) || !has_keyword(ts)),
        run_steps(s, st, ts) is Err ==> run_steps(s, st, ts) == Err::<FmtState, Seq<char>>(
            s.keywords_case,
        ),
    decreases ts.len(),
{
    if ts.len() == 0 {
        assert(!has_keyword(ts));
    } else {
        let t = ts.first();
        if is_keyword_tok(t) && !case_ok(s.keywords_case) {
            assert(token_step(s, st, t) == Err::<FmtState, Seq<char>>(s.keywords_case));
            assert(has_keyword(ts)) by {
                assert(is_keyword_tok(ts[0]));
            }
        } else {
            assert(token_step(s, st, t) is Ok) by {
                match t {
                    TokV::Word(text, kw) => {
                        assert(kw == Kw::NoKw || case_ok(s.keywords_case));
                    },
                    _ => {},
                }
            }
            let m = match token_step(s, st, t) {
                Ok(m) => m,
                Err(_) => st,
            };
            lemma_run_ok_iff(s, m, ts.drop_first());
            assert(has_keyword(ts) <==> (is_keyword_tok(t) || has_keyword(ts.drop_first()))) by {
                if has_keyword(ts) {
                    let i = choose|i: int| 0 <= i < ts.len() && is_keyword_tok(ts[i]);
                    if i > 0 {
                        assert(ts.drop_first()[i - 1] == ts[i]);
                        assert(has_keyword(ts.drop_first()));
                    }
                }
                if has_keyword(ts.drop_first()) {
                    let i = choose|i: int|
                        0 <= i < ts.drop_first().len() && is_keyword_tok(ts.drop_first()[i]);
                    assert(ts[i + 1] == ts.drop_first()[i]);
                    assert(is_keyword_tok(ts[i + 1]));
                }
                if is_keyword_tok(t) {
                    assert(is_keyword_tok(ts[0]));
                }
            }
        }
    }
}

/// Fatal on a bad case option: a rule set whose `keywords_case` is not
/// recognized fails any run that reaches a keyword, and the failed run
/// carries no output at all, only the offending value.
pub proof fn lemma_bad_case_never_emits(s: SettingsV, ts: Seq<TokV>)
    requires
        !case_ok(s.keywords_case),
        has_keyword(ts),
    ensures
        spec_format(s, ts) == Err::<Seq<char>, Seq<char>>(s.keywords_case),
{
    lemma_run_ok_iff(s, init_state(), ts);
}

/// `s2` agrees with `s1` on every field but the break-after keyword set.
pub open spec fn same_but_after_keywords(s1: SettingsV, s2: SettingsV) -> bool {
    s2 == (SettingsV { linebreak_after_keywords: s2.linebreak_after_keywords, ..s1 })
}

/// Wildcard equivalence (generalized): a rule set whose break-after set
/// holds the wildcard `*` formats a token sequence exactly as one whose
/// break-after set explicitly holds the recased text of every keyword that
/// occurs in the sequence, all other options equal.
pub proof fn lemma_wildcard_equivalence(s1: SettingsV, s2: SettingsV, st: FmtState, ts: Seq<TokV>)
    requires
        same_but_after_keywords(s1, s2),
        s1.linebreak_after_keywords.contains("*"@),
        forall|i: int| 0 <= i < ts.len() ==> (#[trigger] ts[i] matches TokV::Word(text, kw) ==> (kw
            != Kw::NoKw ==> s2.linebreak_after_keywords.contains(recase(s2.keywords_case, text)))),
    ensures
        run_steps(s1, st, ts) == run_steps(s2, st, ts),
    decreases ts.len(),
{
    if ts.len() > 0 {
        let t = ts.first();
        assert(token_step(s1, st, t) == token_step(s2, st, t)) by {
            match t {
                TokV::Word(text, kw) => {
                    if kw != Kw::NoKw && case_ok(s1.keywords_case) {
                        let cased = recase(s1.keywords_case, text);
                        assert(ts[0] matches TokV::Word(text2, kw2) && text2 == text);
                        assert(s2.linebreak_after_keywords.contains(cased));
                        assert(word_break_after(s1, st.out, cased) == word_break_after(
                            s2,
                            st.out,
                            cased,
                        ));
                    }
                },
                _ => {},
            }
        }
        match token_step(s1, st, t) {
            Ok(m) => {
                assert(forall|i: int| 0 <= i < ts.drop_first().len()
                    ==> #[trigger] ts.drop_first()[i] == ts[i + 1]);
                lemma_wildcard_equivalence(s1, s2, m, ts.drop_first());
            },
            Err(_) => {},
        }
    }
}

/// Wildcard equivalence at the level of whole runs.
pub proof fn lemma_wildcard_equivalence_format(s1: SettingsV, s2: SettingsV, ts: Seq<TokV>)
    requires
        same_but_after_keywords(s1, s2),
        s1.linebreak_after_keywords.contains("*"@),
        forall|i: int| 0 <= i < ts.len() ==> (#[trigger] ts[i] matches TokV::Word(text, kw) ==> (kw
            != Kw::NoKw ==> s2.linebreak_after_keywords.contains(recase(s2.keywords_case, text)))),
    ensures
        spec_format(s1, ts) == spec_format(s2, ts),
{
    lemma_wildcard_equivalence(s1, s2, init_state(), ts);
}

/// `s2` agrees with `s1` on every field but the break-before keyword set.
pub open spec fn same_but_before_keywords(s1: SettingsV, s2: SettingsV) -> bool {
    s2 == (SettingsV { linebreak_before_keywords: s2.linebreak_before_keywords, ..s1 })
}

/// The break-before analogue of the wildcard equivalence: both sets are
/// matched by the same rule, so the wildcard in the break-before set is
/// likewise interchangeable with the explicit set of occurring recased
/// keywords.
pub proof fn lemma_wildcard_equivalence_before(
    s1: SettingsV,
    s2: SettingsV,
    st: FmtState,
    ts: Seq<TokV>,
)
    requires
        same_but_before_keywords(s1, s2),
        s1.linebreak_before_keywords.contains("*"@),
        forall|i: int| 0 <= i < ts.len() ==> (#[trigger] ts[i] matches TokV::Word(text, kw) ==> (kw
            != Kw::NoKw ==> s2.linebreak_before_keywords.contains(recase(s2.keywords_case, text)))),
    ensures
        run_steps(s1, st, ts) == run_steps(s2, st, ts),
    decreases ts.len(),
{
    if ts.len() > 0 {
        let t = ts.first();
        assert(token_step(s1, st, t) == token_step(s2, st, t)) by {
            match t {
                TokV::Word(text, kw) => {
                    if kw != Kw::NoKw && case_ok(s1.keywords_case) {
                        let cased = recase(s1.keywords_case, text);
                        assert(ts[0] matches TokV::Word(text2, kw2) && text2 == text);
                        assert(s2.linebreak_before_keywords.contains(cased));
                        assert(word_break_before(s1, st.out, cased) == word_break_before(
                            s2,
                            st.out,
                            cased,
                        ));
                    }
                },
                _ => {},
            }
        }
        match token_step(s1, st, t) {
            Ok(m) => {
                assert(forall|i: int| 0 <= i < ts.drop_first().len()
                    ==> #[trigger] ts.drop_first()[i] == ts[i + 1]);
                lemma_wildcard_equivalence_before(s1, s2, m, ts.drop_first());
            },
            Err(_) => {},
        }
    }
}

/// The three bracket families, each with its own break and indent flags.
pub ghost enum BracketKind {
    Paren,
    Brace,
    Bracket,
}

pub open spec fn open_tok(k: BracketKind) -> TokV {
    match k {
        BracketKind::Paren => TokV::LParen,
        BracketKind::Brace => TokV::LBrace,
        BracketKind::Bracket => TokV::LBracket,
    }
}

pub open spec fn close_tok(k: BracketKind) -> TokV {
    match k {
        BracketKind::Paren => TokV::RParen,
        BracketKind::Brace => TokV::RBrace,
        BracketKind::Bracket => TokV::RBracket,
    }
}

pub open spec fn open_char(k: BracketKind) -> char {
    match k {
        BracketKind::Paren => '(',
        BracketKind::Brace => '{',
        BracketKind::Bracket => '[',
    }
}

pub open spec fn close_char(k: BracketKind) -> char {
    match k {
        BracketKind::Paren => ')',
        BracketKind::Brace => '}',
        BracketKind::Bracket => ']',
    }
}

pub open spec fn break_flag(s: SettingsV, k: BracketKind) -> bool {
    match k {
        BracketKind::Paren => s.linebreak_after_lparenthesis,
        BracketKind::Brace => s.linebreak_after_lbrace,
        BracketKind::Bracket => s.linebreak_after_lbracket,
    }
}

pub open spec fn indent_flag(s: SettingsV, k: BracketKind) -> bool {
    match k {
        BracketKind::Paren => s.indentation_parenthesis,
        BracketKind::Brace => s.indentation_braces,
        BracketKind::Bracket => s.indentation_brackets,
    }
}

/// How one token moves the indentation depth, apart from the floor at zero:
/// +1 for a SELECT under clause indentation and for an opening bracket whose
/// indent flag is set, -1 for such a closing bracket, 0 otherwise.
pub open spec fn tok_delta(s: SettingsV, t: TokV) -> int {
    match t {
        TokV::Word(text, kw) => if s.indentation_clauses && kw == Kw::Select {
            1
        } else {
            0
        },
        TokV::LParen => if s.indentation_parenthesis {
            1
        } else {
            0
        },
        TokV::RParen => if s.indentation_parenthesis {
            -1
        } else {
            0
        },
        TokV::LBrace => if s.indentation_braces {
            1
        } else {
            0
        },
        TokV::RBrace => if s.indentation_braces {
            -1
        } else {
            0
        },
        TokV::LBracket => if s.indentation_brackets {
            1
        } else {
            0
        },
        TokV::RBracket => if s.indentation_brackets {
            -1
        } else {
            0
        },
        _ => 0,
    }
}

/// The net depth movement of a whole sequence.
pub open spec fn delta_sum(s: SettingsV, ts: Seq<TokV>) -> int
    decreases ts.len(),
{
    if ts.len() == 0 {
        0
    } else {
        tok_delta(s, ts.first()) + delta_sum(s, ts.drop_first())
    }
}

/// Every prefix of the path starting at `depth` stays non-negative.
pub open spec fn stays_above_floor(s: SettingsV, depth: nat, ts: Seq<TokV>) -> bool {
    forall|j: int| 0 <= j <= ts.len() ==> depth + delta_sum(s, #[trigger] ts.take(j)) >= 0
}

/// Along a path that never dips below zero, the depth floor never clips:
/// the run succeeds (under a recognized case) and ends exactly at
/// `depth + delta_sum`.
pub proof fn lemma_run_depth(s: SettingsV, st: FmtState, ts: Seq<TokV>)
    requires
        case_ok(s.keywords_case),
        stays_above_floor(s, st.depth, ts),
    ensures
        run_steps(s, st, ts) is Ok,
        run_steps(s, st, ts)->Ok_0.depth == st.depth + delta_sum(s, ts),
    decreases ts.len(),
{
    lemma_run_ok_iff(s, st, ts);
    if ts.len() > 0 {
        let t = ts.first();
        assert(ts.take(1) =~= seq![t]);
        assert(seq![t].drop_first() =~= Seq::<TokV>::empty());
        assert(delta_sum(s, Seq::<TokV>::empty()) == 0);
        assert(seq![t].first() == t);
        assert(delta_sum(s, seq![t]) == tok_delta(s, t) + delta_sum(
            s,
            seq![t].drop_first(),
        ));
        assert(delta_sum(s, ts.take(1)) == tok_delta(s, t));
        assert(st.depth + tok_delta(s, t) >= 0);
        let m = token_step(s, st, t)->Ok_0;
        assert(m.depth == st.depth + tok_delta(s, t)) by {
            match t {
                TokV::RParen => {
                    if s.indentation_parenthesis {
                        assert(st.depth >= 1);
                        assert(m.depth == sat_sub(st.depth, 1));
                    }
                },
                TokV::RBrace => {
                    if s.indentation_braces {
                        assert(st.depth >= 1);
                        assert(m.depth == sat_sub(st.depth, 1));
                    }
                },
                TokV::RBracket => {
                    if s.indentation_brackets {
                        assert(st.depth >= 1);
                        assert(m.depth == sat_sub(st.depth, 1));
                    }
                },
                _ => {},
            }
        }
        assert(stays_above_floor(s, m.depth, ts.drop_first())) by {
            assert forall|j: int| 0 <= j <= ts.drop_first().len() implies m.depth + delta_sum(
                s,
                #[trigger] ts.drop_first().take(j),
            ) >= 0 by {
                assert(ts.take(j + 1).first() == t);
                assert(ts.take(j + 1).drop_first() =~= ts.drop_first().take(j));
                assert(st.depth + delta_sum(s, ts.take(j + 1)) >= 0);
            }
        }
        lemma_run_depth(s, m, ts.drop_first());
        assert(ts.take(ts.len() as int) =~= ts);
        assert(ts.take(ts.len() as int).first() == t);
        assert(ts.take(ts.len() as int).drop_first() =~= ts.drop_first());
    } else {
        assert(ts.take(0) =~= Seq::<TokV>::empty());
    }
}

/// Bracket alignment: for any bracket family whose indent flag is set, and
/// any inner sequence that is depth-neutral and never dips below its opening
/// level, the closing bracket is emitted with the indentation of the depth
/// at which its opener was processed — so it aligns with the line that
/// opened it, not with the indented contents — and the run's depth returns
/// to that same level.
pub proof fn lemma_bracket_alignment(s: SettingsV, st: FmtState, inner: Seq<TokV>, k: BracketKind)
    requires
        case_ok(s.keywords_case),
        indent_flag(s, k),
        delta_sum(s, inner) == 0,
        stays_above_floor(s, 0, inner),
    ensures
        run_steps(s, st, seq![open_tok(k)] + inner + seq![close_tok(k)]) is Ok,
        ({
            let mid = run_steps(s, token_step(s, st, open_tok(k))->Ok_0, inner)->Ok_0;
            let fin = run_steps(s, st, seq![open_tok(k)] + inner + seq![close_tok(k)])->Ok_0;
            fin.depth == st.depth && fin.out == mid.out + nl_if(break_flag(s, k)) + indent_text(
                s.tabulation_format,
                st.depth,
            ) + seq![close_char(k)]
        }),
{
    let open_t = open_tok(k);
    let close_t = close_tok(k);
    let st1 = token_step(s, st, open_t)->Ok_0;
    assert(token_step(s, st, open_t) == Ok::<FmtState, Seq<char>>(
        open_bracket_step(st, open_char(k), break_flag(s, k), indent_flag(s, k)),
    ));
    assert(st1.depth == st.depth + 1);
    assert(stays_above_floor(s, st1.depth, inner)) by {
        assert forall|j: int| 0 <= j <= inner.len() implies st1.depth + delta_sum(
            s,
            #[trigger] inner.take(j),
        ) >= 0 by {
            assert(0 + delta_sum(s, inner.take(j)) >= 0);
        }
    }
    lemma_run_depth(s, st1, inner);
    let mid = run_steps(s, st1, inner)->Ok_0;
    assert(mid.depth == st.depth + 1);
    assert(token_step(s, mid, close_t) == Ok::<FmtState, Seq<char>>(
        close_bracket_step(
            s.tabulation_format,
            mid,
            close_char(k),
            break_flag(s, k),
            indent_flag(s, k),
        ),
    ));
    let fin = token_step(s, mid, close_t)->Ok_0;
    assert(sat_sub(mid.depth, 1) == st.depth);
    assert(fin.depth == st.depth);
    crate::formater::lemma_run_steps_one(s, st, open_t);
    crate::formater::lemma_run_steps_app(s, st, seq![open_t], inner + seq![close_t]);
    crate::formater::lemma_run_steps_app(s, st1, inner, seq![close_t]);
    crate::formater::lemma_run_steps_one(s, mid, close_t);
    assert(seq![open_t] + (inner + seq![close_t]) =~= seq![open_t] + inner + seq![close_t]);
    assert(run_steps(s, st, seq![open_t] + inner + seq![close_t]) == Ok::<FmtState, Seq<char>>(
        fin,
    ));
}

} // verus!

