//! Text helpers shared by the rule-set loader and the formatting engine:
//! repeated indentation units, prefix/suffix tests, keyword-set membership,
//! digit parsing, and case conversion.

use vstd::prelude::*;
use vstd::string::StrSliceExecFns;
use vstd::string::StringExecFns;

verus! {

/// `unit` repeated `n` times.
pub open spec fn indent_text(unit: Seq<char>, n: nat) -> Seq<char>
    decreases n,
{
    if n == 0 {
        Seq::empty()
    } else {
        unit + indent_text(unit, (n - 1) as nat)
    }
}

pub proof fn lemma_indent_text_snoc(unit: Seq<char>, n: nat)
    requires
        n > 0,
    ensures
        indent_text(unit, n) == indent_text(unit, (n - 1) as nat) + unit,
    decreases n,
{
    if n == 1 {
        assert(indent_text(unit, 1) =~= indent_text(unit, 0) + unit);
    } else {
        lemma_indent_text_snoc(unit, (n - 1) as nat);
        assert(indent_text(unit, n) =~= indent_text(unit, (n - 1) as nat) + unit);
    }
}

/// Build `pattern` repeated `count` times.
pub fn repeat_str(pattern: &str, count: usize) -> (r: String)
    ensures
        r@ == indent_text(pattern@, count as nat),
{
    let mut r = String::new();
    let mut i: usize = 0;
    while i < count
        invariant
            i <= count,
            r@ == indent_text(pattern@, i as nat),
        decreases count - i,
    {
        r.append(pattern);
        i = i + 1;
        proof {
            lemma_indent_text_snoc(pattern@, i as nat);
        }
    }
    r
}

/// `suffix` is a suffix of `s`.
pub open spec fn seq_ends_with(s: Seq<char>, suffix: Seq<char>) -> bool {
    suffix.len() <= s.len() && s.skip(s.len() - suffix.len()) == suffix
}

/// `prefix` is a prefix of `s`.
pub open spec fn seq_starts_with(s: Seq<char>, prefix: Seq<char>) -> bool {
    prefix.len() <= s.len() && s.take(prefix.len() as int) == prefix
}

/// Relies on `str::ends_with`: returns true exactly when `suffix` matches a
/// suffix of `s`.
#[verifier::external_body]
pub fn str_ends_with(s: &str, suffix: &str) -> (r: bool)
    ensures
        r == seq_ends_with(s@, suffix@),
{
    s.ends_with(suffix)
}

/// What `str::to_lowercase` returns; its value depends on the input
/// characters alone.
pub uninterp spec fn lower_of(s: Seq<char>) -> Seq<char>;

/// What `str::to_uppercase` returns; its value depends on the input
/// characters alone.
pub uninterp spec fn upper_of(s: Seq<char>) -> Seq<char>;

/// Relies on `str::to_lowercase`: the lowercase equivalent of the text, a
/// pure function of the characters (no locale is consulted).
#[verifier::external_body]
pub fn to_lower(s: &str) -> (r: String)
    ensures
        r@ == lower_of(s@),
{
    s.to_lowercase()
}

/// Relies on `str::to_uppercase`: the uppercase equivalent of the text, a
/// pure function of the characters (no locale is consulted).
#[verifier::external_body]
pub fn to_upper(s: &str) -> (r: String)
    ensures
        r@ == upper_of(s@),
{
    s.to_uppercase()
}

/// Membership of `w` in a list of keyword strings.
pub fn set_contains(set: &Vec<String>, w: &String) -> (r: bool)
    ensures
        r == set.deep_view().contains(w@),
{
    let mut i: usize = 0;
    while i < set.len()
        invariant
            i <= set.len(),
            forall|j: int| 0 <= j < i ==> set.deep_view()[j] != w@,
        decreases set.len() - i,
    {
        if set[i].eq(w) {
            assert(set.deep_view()[i as int] == w@);
            return true;
        }
        assert(set.deep_view()[i as int] == set@[i as int]@);
        i = i + 1;
    }
    assert(forall|j: int| 0 <= j < set.deep_view().len() ==> set.deep_view()[j] != w@);
    false
}

/// `prefix` matches the start of `s`.
pub fn str_starts_with(s: &str, prefix: &str) -> (r: bool)
    ensures
        r == seq_starts_with(s@, prefix@),
{
    let n = prefix.unicode_len();
    let m = s.unicode_len();
    if n > m {
        return false;
    }
    let mut i: usize = 0;
    while i < n
        invariant
            i <= n,
            n == prefix@.len(),
            m == s@.len(),
            n <= m,
            forall|j: int| 0 <= j < i ==> s@[j] == prefix@[j],
        decreases n - i,
    {
        if s.get_char(i) != prefix.get_char(i) {
            assert(s@.take(n as int)[i as int] != prefix@[i as int]);
            return false;
        }
        i = i + 1;
    }
    assert(s@.take(n as int) =~= prefix@);
    true
}

/// `s` with every occurrence of `pat` removed, scanning left to right and
/// never overlapping matches; the semantics of `str::replace(pat, "")`.
pub open spec fn remove_all(s: Seq<char>, pat: Seq<char>) -> Seq<char>
    decreases s.len(),
{
    if pat.len() == 0 || s.len() < pat.len() {
        s
    } else if s.take(pat.len() as int) == pat {
        remove_all(s.skip(pat.len() as int), pat)
    } else {
        seq![s[0]] + remove_all(s.drop_first(), pat)
    }
}

/// Remove every occurrence of `pat` from `s`, left to right.
pub fn remove_all_occurrences(s: &str, pat: &str) -> (r: String)
    requires
        pat@.len() > 0,
    ensures
        r@ == remove_all(s@, pat@),
{
    let m = s.unicode_len();
    let p = pat.unicode_len();
    let mut r = String::new();
    let mut i: usize = 0;
    proof {
        assert(s@.skip(0) =~= s@);
        assert(Seq::<char>::empty() + remove_all(s@, pat@) =~= remove_all(s@, pat@));
    }
    while i < m
        invariant
            i <= m,
            m == s@.len(),
            p == pat@.len(),
            p > 0,
            remove_all(s@, pat@) == r@ + remove_all(s@.skip(i as int), pat@),
        decreases m - i,
    {
        let rest = s.substring_char(i, m);
        if p <= m - i && str_starts_with(rest, pat) {
            assert(s@.skip(i as int).take(p as int) =~= pat@);
            assert(s@.skip(i as int).skip(p as int) =~= s@.skip(i + p));
            i = i + p;
        } else {
            assert(s@.skip(i as int).len() >= p ==> !seq_starts_with(s@.skip(i as int), pat@)) by {
                if s@.skip(i as int).len() >= p {
                    assert(s@.skip(i as int).take(p as int) =~= rest@.take(p as int));
                }
            }
            let c = s.substring_char(i, i + 1);
            let ghost r_old = r@;
            r.append(c);
            proof {
                let tail = s@.skip(i as int);
                assert(tail.len() >= p ==> tail.take(p as int) != pat@);
                assert(remove_all(tail, pat@) == seq![tail[0]] + remove_all(tail.drop_first(), pat@));
                assert(tail.drop_first() =~= s@.skip(i + 1));
                assert(c@ =~= seq![tail[0]]);
                assert(r@ + remove_all(s@.skip(i + 1), pat@) =~= r_old + remove_all(tail, pat@));
            }
            i = i + 1;
        }
    }
    assert(s@.skip(m as int) =~= Seq::empty());
    assert(r@ + remove_all(s@.skip(m as int), pat@) =~= r@);
    r
}

/// An ASCII decimal digit.
pub open spec fn is_digit_char(c: char) -> bool {
    '0' as int <= c as int && c as int <= '9' as int
}

pub open spec fn digit_of(c: char) -> nat {
    (c as int - '0' as int) as nat
}

/// The base-ten value of a digit string.
pub open spec fn digits_value(s: Seq<char>) -> nat
    decreases s.len(),
{
    if s.len() == 0 {
        0
    } else {
        digits_value(s.drop_last()) * 10 + digit_of(s.last())
    }
}

pub open spec fn all_digits(s: Seq<char>) -> bool {
    forall|i: int| 0 <= i < s.len() ==> is_digit_char(s[i])
}

/// The digits of a numeral, with an optional leading `+` stripped.
pub open spec fn numeral_body(s: Seq<char>) -> Seq<char> {
    if s.len() > 0 && s[0] == '+' {
        s.drop_first()
    } else {
        s
    }
}

/// What `str::parse::<usize>` accepts: an optional leading `+`, then one or
/// more decimal digits whose value fits in `usize`.
pub open spec fn parse_usize_spec(s: Seq<char>) -> Option<nat> {
    if numeral_body(s).len() > 0 && all_digits(numeral_body(s)) && digits_value(numeral_body(s))
        <= usize::MAX {
        Some(digits_value(numeral_body(s)))
    } else {
        None
    }
}

proof fn lemma_digits_value_extend(s: Seq<char>, k: int)
    requires
        0 <= k < s.len(),
    ensures
        digits_value(s.take(k + 1)) == digits_value(s.take(k)) * 10 + digit_of(s[k]),
{
    assert(s.take(k + 1).drop_last() =~= s.take(k));
    assert(s.take(k + 1).last() == s[k]);
}

proof fn lemma_digits_value_take_le(s: Seq<char>, k: int)
    requires
        0 <= k <= s.len(),
    ensures
        digits_value(s.take(k)) <= digits_value(s),
    decreases s.len() - k,
{
    if k == s.len() {
        assert(s.take(k) =~= s);
    } else {
        lemma_digits_value_extend(s, k);
        lemma_digits_value_take_le(s, k + 1);
    }
}

/// Parse a base-ten `usize`, accepting exactly what `str::parse::<usize>`
/// accepts.
pub fn parse_usize(s: &str) -> (r: Option<usize>)
    ensures
        match r {
            Some(v) => parse_usize_spec(s@) == Some(v as nat),
            None => parse_usize_spec(s@) is None,
        },
{
    let m = s.unicode_len();
    let start: usize = if m > 0 && s.get_char(0) == '+' {
        1
    } else {
        0
    };
    let ghost body = numeral_body(s@);
    proof {
        assert(body =~= s@.skip(start as int));
    }
    if start == m {
        return None;
    }
    let mut acc: usize = 0;
    let mut i: usize = start;
    while i < m
        invariant
            start <= i <= m,
            m == s@.len(),
            start <= 1,
            body == numeral_body(s@),
            body == s@.skip(start as int),
            all_digits(body.take(i - start)),
            acc as nat == digits_value(body.take(i - start)),
        decreases m - i,
    {
        let c = s.get_char(i);
        let u = c as u32;
        proof {
            assert(body[i - start] == s@[i as int]);
            assert(c as int == u as int);
        }
        if !(48 <= u && u <= 57) {
            proof {
                assert(!is_digit_char(body[i - start]));
                assert(!all_digits(body));
                assert(!(numeral_body(s@).len() > 0 && all_digits(numeral_body(s@))
                    && digits_value(numeral_body(s@)) <= usize::MAX));
                assert(parse_usize_spec(s@) is None);
            }
            return None;
        }
        let d = (u - 48) as usize;
        proof {
            assert(digit_of(body[i - start]) == d as nat);
            lemma_digits_value_extend(body, i - start);
            lemma_digits_value_take_le(body, i - start + 1);
            assert(digits_value(body.take(i - start + 1)) == (acc as nat) * 10 + d as nat);
        }
        let acc10 = match acc.checked_mul(10) {
            Some(v) => v,
            None => {
                proof {
                    assert(digits_value(numeral_body(s@)) > usize::MAX);
                    assert(parse_usize_spec(s@) is None);
                }
                return None;
            },
        };
        let acc2 = match acc10.checked_add(d) {
            Some(v) => v,
            None => {
                proof {
                    assert(digits_value(numeral_body(s@)) > usize::MAX);
                    assert(parse_usize_spec(s@) is None);
                }
                return None;
            },
        };
        proof {
            lemma_digits_value_extend(body, i - start);
            assert(body.take(i - start + 1) =~= body.take(i - start).push(body[i - start]));
        }
        acc = acc2;
        i = i + 1;
    }
    proof {
        assert(body.take(i - start) =~= body);
    }
    Some(acc)
}

} // verus!
