//! The condition of a Sigma rule: its syntax, how it is read, and how it combines the
//! outcomes of the selections.
use vstd::prelude::*;
use crate::text::string_from_chars;
use crate::wildcard::{compile_glob, glob_match, glob_matches, glob_tokens};

verus! {

/// A condition, as written in a rule.
pub enum Condition {
    /// The selection of this name holds.
    Selection(String),
    /// The condition does not hold (`not`).
    Not(Box<Condition>),
    /// Both conditions hold (`and`).
    And(Box<Condition>, Box<Condition>),
    /// One of the conditions holds (`or`).
    Or(Box<Condition>, Box<Condition>),
    /// One of the selections whose name matches the pattern holds (`1 of pattern`).
    OneOf(String),
    /// There are selections whose name matches the pattern, and all of them hold
    /// (`all of pattern`).
    AllOf(String),
    /// One of the selections holds (`1 of them`).
    OneOfThem,
    /// There are selections, and all of them hold (`all of them`).
    AllOfThem,
}

/// The abstract form of a [`Condition`], with names as character sequences.
pub enum CondSpec {
    Selection(Seq<char>),
    Not(Box<CondSpec>),
    And(Box<CondSpec>, Box<CondSpec>),
    Or(Box<CondSpec>, Box<CondSpec>),
    OneOf(Seq<char>),
    AllOf(Seq<char>),
    OneOfThem,
    AllOfThem,
}

impl View for Condition {
    type V = CondSpec;

    open spec fn view(&self) -> CondSpec
        decreases self,
    {
        match self {
            Condition::Selection(n) => CondSpec::Selection(n@),
            Condition::Not(c) => CondSpec::Not(Box::new((**c).view())),
            Condition::And(a, b) => CondSpec::And(Box::new((**a).view()), Box::new((**b).view())),
            Condition::Or(a, b) => CondSpec::Or(Box::new((**a).view()), Box::new((**b).view())),
            Condition::OneOf(p) => CondSpec::OneOf(p@),
            Condition::AllOf(p) => CondSpec::AllOf(p@),
            Condition::OneOfThem => CondSpec::OneOfThem,
            Condition::AllOfThem => CondSpec::AllOfThem,
        }
    }
}

/// Whether the selection name `name` matches the pattern `p` (wildcards allowed, case kept).
pub open spec fn name_matches(p: Seq<char>, name: Seq<char>) -> bool {
    glob_match(glob_tokens(p, false), name)
}

/// Whether the condition holds, where `names[i]` is the name of a selection and
/// `results[i]` whether it holds.
pub open spec fn cond_holds(c: CondSpec, names: Seq<Seq<char>>, results: Seq<bool>) -> bool
    decreases c,
{
    match c {
        CondSpec::Selection(n) => exists|i: int| 0 <= i < names.len() && #[trigger] names[i] == n && results[i],
        CondSpec::Not(a) => !cond_holds(*a, names, results),
        CondSpec::And(a, b) => cond_holds(*a, names, results) && cond_holds(*b, names, results),
        CondSpec::Or(a, b) => cond_holds(*a, names, results) || cond_holds(*b, names, results),
        CondSpec::OneOf(p) => exists|i: int| 0 <= i < names.len() && name_matches(p, #[trigger] names[i]) && results[i],
        CondSpec::AllOf(p) => (exists|i: int| 0 <= i < names.len() && name_matches(p, #[trigger] names[i]))
            && forall|i: int| 0 <= i < names.len() && name_matches(p, #[trigger] names[i]) ==> results[i],
        CondSpec::OneOfThem => exists|i: int| 0 <= i < results.len() && #[trigger] results[i],
        CondSpec::AllOfThem => results.len() > 0 && forall|i: int| 0 <= i < results.len() ==> #[trigger] results[i],
    }
}

/// The names of the selections, as character sequences.
pub open spec fn name_views(names: Seq<String>) -> Seq<Seq<char>> {
    Seq::new(names.len(), |i: int| names[i]@)
}

/// Whether one of the selections named `n` holds.
fn eval_selection(n: &String, names: &Vec<String>, results: &Vec<bool>) -> (res: bool)
    requires
        names@.len() == results@.len(),
    ensures
        res == (exists|i: int| 0 <= i < names@.len() && #[trigger] name_views(names@)[i] == n@ && results@[i]),
{
    let mut i: usize = 0;
    while i < names.len()
        invariant
            0 <= i <= names@.len(),
            names@.len() == results@.len(),
            forall|j: int| 0 <= j < i ==> !(#[trigger] name_views(names@)[j] == n@ && results@[j]),
        decreases names@.len() - i,
    {
        if names[i] == *n && results[i] {
            assert(name_views(names@)[i as int] == n@);
            return true;
        }
        i = i + 1;
    }
    false
}

/// Evaluates the quantified forms `1 of pattern` (`all` false) and `all of pattern`.
fn eval_pattern(p: &String, all: bool, names: &Vec<String>, results: &Vec<bool>) -> (res: bool)
    requires
        names@.len() == results@.len(),
    ensures
        res == if all {
            (exists|i: int| 0 <= i < names@.len() && name_matches(p@, #[trigger] name_views(names@)[i]))
                && forall|i: int| 0 <= i < names@.len() && name_matches(p@, #[trigger] name_views(names@)[i]) ==> results@[i]
        } else {
            exists|i: int| 0 <= i < names@.len() && name_matches(p@, #[trigger] name_views(names@)[i]) && results@[i]
        },
{
    let pc = crate::text::chars_of(p.as_str());
    let toks = compile_glob(pc.as_slice(), false);
    let mut i: usize = 0;
    let mut any_name = false;
    let mut any_true = false;
    let mut all_true = true;
    while i < names.len()
        invariant
            0 <= i <= names@.len(),
            names@.len() == results@.len(),
            toks@ == glob_tokens(p@, false),
            any_name <==> exists|j: int| 0 <= j < i && name_matches(p@, #[trigger] name_views(names@)[j]),
            any_true <==> exists|j: int| 0 <= j < i && name_matches(p@, #[trigger] name_views(names@)[j]) && results@[j],
            all_true <==> forall|j: int| 0 <= j < i && name_matches(p@, #[trigger] name_views(names@)[j]) ==> results@[j],
        decreases names@.len() - i,
    {
        let nc = crate::text::chars_of(names[i].as_str());
        let m = glob_matches(toks.as_slice(), nc.as_slice());
        assert(name_views(names@)[i as int] == nc@);
        if m {
            any_name = true;
            if results[i] {
                any_true = true;
            } else {
                all_true = false;
            }
        }
        i = i + 1;
    }
    if all { any_name && all_true } else { any_true }
}

impl Condition {
    /// Whether the condition holds, where `names[i]` is the name of a selection and
    /// `results[i]` whether it holds (see [`cond_holds`]).
    #[verifier::loop_isolation(false)]
    pub fn eval(&self, names: &Vec<String>, results: &Vec<bool>) -> (res: bool)
        requires
            names@.len() == results@.len(),
        ensures
            res == cond_holds(self@, name_views(names@), results@),
        decreases self,
    {
        match self {
            Condition::Selection(n) => eval_selection(n, names, results),
            Condition::Not(a) => !a.eval(names, results),
            Condition::And(a, b) => a.eval(names, results) && b.eval(names, results),
            Condition::Or(a, b) => a.eval(names, results) || b.eval(names, results),
            Condition::OneOf(p) => eval_pattern(p, false, names, results),
            Condition::AllOf(p) => eval_pattern(p, true, names, results),
            Condition::OneOfThem => {
                let mut i: usize = 0;
                while i < results.len()
                    invariant
                        0 <= i <= results@.len(),
                        forall|j: int| 0 <= j < i ==> !#[trigger] results@[j],
                    decreases results@.len() - i,
                {
                    if results[i] {
                        assert(results@[i as int]);
                        return true;
                    }
                    i = i + 1;
                }
                false
            },
            Condition::AllOfThem => {
                let mut i: usize = 0;
                while i < results.len()
                    invariant
                        0 <= i <= results@.len(),
                        forall|j: int| 0 <= j < i ==> #[trigger] results@[j],
                    decreases results@.len() - i,
                {
                    if !results[i] {
                        assert(!results@[i as int]);
                        return false;
                    }
                    i = i + 1;
                }
                results.len() > 0
            },
        }
    }
}

} // verus!

verus! {

/// A token of a condition text.
pub enum CondToken {
    Open,
    Close,
    Word(Vec<char>),
}

/// The abstract form of a [`CondToken`].
pub enum TokSpec {
    Open,
    Close,
    Word(Seq<char>),
}

/// The abstract form of a token.
pub open spec fn tok_view(t: CondToken) -> TokSpec {
    match t {
        CondToken::Open => TokSpec::Open,
        CondToken::Close => TokSpec::Close,
        CondToken::Word(w) => TokSpec::Word(w@),
    }
}

/// The abstract form of a token sequence.
pub open spec fn toks_view(ts: Seq<CondToken>) -> Seq<TokSpec> {
    Seq::new(ts.len(), |i: int| tok_view(ts[i]))
}

/// White space between the words of a condition.
pub open spec fn is_space(c: char) -> bool {
    c == ' ' || c == '\t' || c == '\n' || c == '\r'
}

/// A character that ends a word of a condition.
pub open spec fn is_delim(c: char) -> bool {
    is_space(c) || c == '(' || c == ')'
}

/// The length of the word at the start of `s`.
pub open spec fn word_len(s: Seq<char>) -> nat
    decreases s.len(),
{
    if s.len() == 0 || is_delim(s[0]) {
        0
    } else {
        1 + word_len(s.skip(1))
    }
}

/// The tokens of the condition text `s`: parentheses, and words separated by white space
/// or parentheses.
pub open spec fn cond_tokens(s: Seq<char>) -> Seq<TokSpec>
    decreases s.len(),
{
    if s.len() == 0 {
        Seq::empty()
    } else if is_space(s[0]) {
        cond_tokens(s.skip(1))
    } else if s[0] == '(' {
        seq![TokSpec::Open] + cond_tokens(s.skip(1))
    } else if s[0] == ')' {
        seq![TokSpec::Close] + cond_tokens(s.skip(1))
    } else {
        let k = 1 + word_len(s.skip(1));
        if k <= s.len() {
            seq![TokSpec::Word(s.take(k as int))] + cond_tokens(s.skip(k as int))
        } else {
            Seq::empty()
        }
    }
}

/// A word is never longer than the text it starts.
pub proof fn lemma_word_len_bound(s: Seq<char>)
    ensures
        word_len(s) <= s.len(),
    decreases s.len(),
{
    if s.len() > 0 && !is_delim(s[0]) {
        lemma_word_len_bound(s.skip(1));
    }
}

fn is_space_char(c: char) -> (res: bool)
    ensures
        res == is_space(c),
{
    c == ' ' || c == '\t' || c == '\n' || c == '\r'
}

/// Splits the condition text `s` into tokens.
pub fn tokenize_condition(s: &[char]) -> (res: Vec<CondToken>)
    ensures
        toks_view(res@) == cond_tokens(s@),
{
    let mut res: Vec<CondToken> = Vec::new();
    let n = s.len();
    let mut i: usize = 0;
    assert(s@.skip(0) =~= s@);
    assert(toks_view(res@) =~= Seq::<TokSpec>::empty());
    while i < n
        invariant
            0 <= i <= n,
            n == s@.len(),
            toks_view(res@) + cond_tokens(s@.skip(i as int)) == cond_tokens(s@),
        decreases n - i,
    {
        let ghost rest = s@.skip(i as int);
        let ghost before = res@;
        let c = s[i];
        assert(rest[0] == c);
        assert(rest.skip(1) =~= s@.skip(i + 1));
        if is_space_char(c) {
            i = i + 1;
        } else if c == '(' || c == ')' {
            if c == '(' {
                res.push(CondToken::Open);
            } else {
                res.push(CondToken::Close);
            }
            assert(toks_view(res@) =~= toks_view(before) + seq![tok_view(res@[res@.len() - 1])]);
            i = i + 1;
            assert(toks_view(res@) + cond_tokens(s@.skip(i as int)) =~= cond_tokens(s@));
        } else {
            let mut j: usize = i + 1;
            while j < n && !(is_space_char(s[j]) || s[j] == '(' || s[j] == ')')
                invariant
                    i < j <= n,
                    n == s@.len(),
                    word_len(s@.skip(i + 1)) == (j - i - 1) + word_len(s@.skip(j as int)),
                decreases n - j,
            {
                assert(s@.skip(j as int)[0] == s@[j as int]);
                assert(s@.skip(j as int).skip(1) =~= s@.skip(j + 1));
                j = j + 1;
            }
            if j < n {
                assert(s@.skip(j as int)[0] == s@[j as int]);
            }
            assert(word_len(s@.skip(j as int)) == 0);
            proof {
                lemma_word_len_bound(rest.skip(1));
            }
            let mut w: Vec<char> = Vec::new();
            let mut q: usize = i;
            while q < j
                invariant
                    i <= q <= j,
                    j <= n,
                    n == s@.len(),
                    w@ == s@.subrange(i as int, q as int),
                decreases j - q,
            {
                w.push(s[q]);
                assert(s@.subrange(i as int, q + 1) =~= s@.subrange(i as int, q as int).push(s@[q as int]));
                q = q + 1;
            }
            assert(rest.take(j - i) =~= w@);
            assert(rest.skip(j - i) =~= s@.skip(j as int));
            res.push(CondToken::Word(w));
            assert(toks_view(res@) =~= toks_view(before) + seq![tok_view(res@[res@.len() - 1])]);
            i = j;
            assert(toks_view(res@) + cond_tokens(s@.skip(i as int)) =~= cond_tokens(s@));
        }
    }
    assert(s@.skip(i as int) =~= Seq::<char>::empty());
    assert(toks_view(res@) + Seq::<TokSpec>::empty() =~= toks_view(res@));
    res
}

} // verus!

verus! {

/// The token is the word `w`.
pub open spec fn is_word(t: TokSpec, w: Seq<char>) -> bool {
    match t {
        TokSpec::Word(x) => x == w,
        _ => false,
    }
}

pub open spec fn kw_or() -> Seq<char> { seq!['o', 'r'] }
pub open spec fn kw_and() -> Seq<char> { seq!['a', 'n', 'd'] }
pub open spec fn kw_not() -> Seq<char> { seq!['n', 'o', 't'] }
pub open spec fn kw_of() -> Seq<char> { seq!['o', 'f'] }
pub open spec fn kw_them() -> Seq<char> { seq!['t', 'h', 'e', 'm'] }
pub open spec fn kw_one() -> Seq<char> { seq!['1'] }
pub open spec fn kw_all() -> Seq<char> { seq!['a', 'l', 'l'] }

/// Words that cannot name a selection.
pub open spec fn is_reserved(w: Seq<char>) -> bool {
    w == kw_or() || w == kw_and() || w == kw_not() || w == kw_of() || w == kw_them()
}

/// `or_expr := and_expr ("or" and_expr)*`, read from position `pos`: the expression and the
/// position after it.
pub open spec fn parse_or(ts: Seq<TokSpec>, pos: int) -> Option<(CondSpec, int)>
    decreases ts.len() - pos, 5int,
{
    if !(0 <= pos <= ts.len()) {
        None
    } else {
        match parse_and(ts, pos) {
            Some((l, p1)) => if pos < p1 <= ts.len() { or_tail(ts, l, p1) } else { None },
            None => None,
        }
    }
}

/// The `("or" and_expr)*` part, with `left` read so far.
pub open spec fn or_tail(ts: Seq<TokSpec>, left: CondSpec, p: int) -> Option<(CondSpec, int)>
    decreases ts.len() - p, 4int,
{
    if !(0 <= p <= ts.len()) {
        None
    } else if p < ts.len() && is_word(ts[p], kw_or()) {
        match parse_and(ts, p + 1) {
            Some((r, p2)) => if p + 1 < p2 <= ts.len() {
                or_tail(ts, CondSpec::Or(Box::new(left), Box::new(r)), p2)
            } else {
                None
            },
            None => None,
        }
    } else {
        Some((left, p))
    }
}

/// `and_expr := unary ("and" unary)*`.
pub open spec fn parse_and(ts: Seq<TokSpec>, pos: int) -> Option<(CondSpec, int)>
    decreases ts.len() - pos, 3int,
{
    if !(0 <= pos <= ts.len()) {
        None
    } else {
        match parse_unary(ts, pos) {
            Some((l, p1)) => if pos < p1 <= ts.len() { and_tail(ts, l, p1) } else { None },
            None => None,
        }
    }
}

/// The `("and" unary)*` part, with `left` read so far.
pub open spec fn and_tail(ts: Seq<TokSpec>, left: CondSpec, p: int) -> Option<(CondSpec, int)>
    decreases ts.len() - p, 2int,
{
    if !(0 <= p <= ts.len()) {
        None
    } else if p < ts.len() && is_word(ts[p], kw_and()) {
        match parse_unary(ts, p + 1) {
            Some((r, p2)) => if p + 1 < p2 <= ts.len() {
                and_tail(ts, CondSpec::And(Box::new(left), Box::new(r)), p2)
            } else {
                None
            },
            None => None,
        }
    } else {
        Some((left, p))
    }
}

/// `unary := "not" unary | primary`.
pub open spec fn parse_unary(ts: Seq<TokSpec>, pos: int) -> Option<(CondSpec, int)>
    decreases ts.len() - pos, 1int,
{
    if !(0 <= pos < ts.len()) {
        None
    } else if is_word(ts[pos], kw_not()) {
        match parse_unary(ts, pos + 1) {
            Some((e, p1)) => Some((CondSpec::Not(Box::new(e)), p1)),
            None => None,
        }
    } else {
        parse_primary(ts, pos)
    }
}

/// `primary := "(" or_expr ")" | ("1" | "all") "of" (pattern | "them") | name`.
pub open spec fn parse_primary(ts: Seq<TokSpec>, pos: int) -> Option<(CondSpec, int)>
    decreases ts.len() - pos, 0int,
{
    if !(0 <= pos < ts.len()) {
        None
    } else {
        match ts[pos] {
            TokSpec::Open => match parse_or(ts, pos + 1) {
                Some((e, p1)) => if pos + 1 < p1 < ts.len() && ts[p1] is Close {
                    Some((e, p1 + 1))
                } else {
                    None
                },
                None => None,
            },
            TokSpec::Close => None,
            TokSpec::Word(w) => if (w == kw_one() || w == kw_all()) && pos + 2 < ts.len() && is_word(ts[pos + 1], kw_of()) {
                match ts[pos + 2] {
                    TokSpec::Word(x) => if x == kw_them() {
                        Some((if w == kw_one() { CondSpec::OneOfThem } else { CondSpec::AllOfThem }, pos + 3))
                    } else if is_reserved(x) {
                        None
                    } else {
                        Some((if w == kw_one() { CondSpec::OneOf(x) } else { CondSpec::AllOf(x) }, pos + 3))
                    },
                    _ => None,
                }
            } else if is_reserved(w) {
                None
            } else {
                Some((CondSpec::Selection(w), pos + 1))
            },
        }
    }
}

/// The condition that the whole token sequence spells, if it spells one.
pub open spec fn parse_condition_spec(ts: Seq<TokSpec>) -> Option<CondSpec> {
    match parse_or(ts, 0) {
        Some((e, p)) => if p == ts.len() { Some(e) } else { None },
        None => None,
    }
}

/// The condition that the text `s` spells, if it spells one.
pub open spec fn condition_of_text(s: Seq<char>) -> Option<CondSpec> {
    parse_condition_spec(cond_tokens(s))
}

} // verus!

verus! {

/// Whether the word `w` is the keyword `kw`.
fn word_eq(w: &Vec<char>, kw: &[char]) -> (res: bool)
    ensures
        res == (w@ == kw@),
{
    if w.len() != kw.len() {
        return false;
    }
    let mut i: usize = 0;
    while i < w.len()
        invariant
            0 <= i <= w@.len(),
            w@.len() == kw@.len(),
            forall|j: int| 0 <= j < i ==> w@[j] == kw@[j],
        decreases w@.len() - i,
    {
        if w[i] != kw[i] {
            return false;
        }
        i = i + 1;
    }
    assert(w@ =~= kw@);
    true
}

/// Whether token `p` is the word `kw`.
fn tok_is(ts: &Vec<CondToken>, p: usize, kw: &[char]) -> (res: bool)
    requires
        p < ts@.len(),
    ensures
        res == is_word(toks_view(ts@)[p as int], kw@),
{
    match &ts[p] {
        CondToken::Word(w) => word_eq(w, kw),
        _ => false,
    }
}

fn is_reserved_word(w: &Vec<char>) -> (res: bool)
    ensures
        res == is_reserved(w@),
{
    let r = word_eq(w, ['o', 'r'].as_slice()) || word_eq(w, ['a', 'n', 'd'].as_slice())
        || word_eq(w, ['n', 'o', 't'].as_slice()) || word_eq(w, ['o', 'f'].as_slice())
        || word_eq(w, ['t', 'h', 'e', 'm'].as_slice());
    r
}

fn p_or(ts: &Vec<CondToken>, pos: usize) -> (res: Option<(Condition, usize)>)
    requires
        pos <= ts@.len(),
    ensures
        match res {
            Some((c, p)) => parse_or(toks_view(ts@), pos as int) == Some((c@, p as int)),
            None => parse_or(toks_view(ts@), pos as int) is None,
        },
    decreases ts@.len() - pos, 5int,
{
    match p_and(ts, pos) {
        Some((l, p1)) => if pos < p1 && p1 <= ts.len() { p_or_tail(ts, l, p1) } else { None },
        None => None,
    }
}

fn p_or_tail(ts: &Vec<CondToken>, left: Condition, p: usize) -> (res: Option<(Condition, usize)>)
    requires
        p <= ts@.len(),
    ensures
        match res {
            Some((c, q)) => or_tail(toks_view(ts@), left@, p as int) == Some((c@, q as int)),
            None => or_tail(toks_view(ts@), left@, p as int) is None,
        },
    decreases ts@.len() - p, 4int,
{
    if p < ts.len() && tok_is(ts, p, ['o', 'r'].as_slice()) {
        match p_and(ts, p + 1) {
            Some((r, p2)) => if p + 1 < p2 && p2 <= ts.len() {
                p_or_tail(ts, Condition::Or(Box::new(left), Box::new(r)), p2)
            } else {
                None
            },
            None => None,
        }
    } else {
        Some((left, p))
    }
}

fn p_and(ts: &Vec<CondToken>, pos: usize) -> (res: Option<(Condition, usize)>)
    requires
        pos <= ts@.len(),
    ensures
        match res {
            Some((c, p)) => parse_and(toks_view(ts@), pos as int) == Some((c@, p as int)),
            None => parse_and(toks_view(ts@), pos as int) is None,
        },
    decreases ts@.len() - pos, 3int,
{
    match p_unary(ts, pos) {
        Some((l, p1)) => if pos < p1 && p1 <= ts.len() { p_and_tail(ts, l, p1) } else { None },
        None => None,
    }
}

fn p_and_tail(ts: &Vec<CondToken>, left: Condition, p: usize) -> (res: Option<(Condition, usize)>)
    requires
        p <= ts@.len(),
    ensures
        match res {
            Some((c, q)) => and_tail(toks_view(ts@), left@, p as int) == Some((c@, q as int)),
            None => and_tail(toks_view(ts@), left@, p as int) is None,
        },
    decreases ts@.len() - p, 2int,
{
    if p < ts.len() && tok_is(ts, p, ['a', 'n', 'd'].as_slice()) {
        match p_unary(ts, p + 1) {
            Some((r, p2)) => if p + 1 < p2 && p2 <= ts.len() {
                p_and_tail(ts, Condition::And(Box::new(left), Box::new(r)), p2)
            } else {
                None
            },
            None => None,
        }
    } else {
        Some((left, p))
    }
}

fn p_unary(ts: &Vec<CondToken>, pos: usize) -> (res: Option<(Condition, usize)>)
    requires
        pos <= ts@.len(),
    ensures
        match res {
            Some((c, p)) => parse_unary(toks_view(ts@), pos as int) == Some((c@, p as int)),
            None => parse_unary(toks_view(ts@), pos as int) is None,
        },
    decreases ts@.len() - pos, 1int,
{
    if pos >= ts.len() {
        None
    } else if tok_is(ts, pos, ['n', 'o', 't'].as_slice()) {
        match p_unary(ts, pos + 1) {
            Some((e, p1)) => Some((Condition::Not(Box::new(e)), p1)),
            None => None,
        }
    } else {
        p_primary(ts, pos)
    }
}

fn p_primary(ts: &Vec<CondToken>, pos: usize) -> (res: Option<(Condition, usize)>)
    requires
        pos <= ts@.len(),
    ensures
        match res {
            Some((c, p)) => parse_primary(toks_view(ts@), pos as int) == Some((c@, p as int)),
            None => parse_primary(toks_view(ts@), pos as int) is None,
        },
    decreases ts@.len() - pos, 0int,
{
    if pos >= ts.len() {
        return None;
    }
    let ghost tv = toks_view(ts@);
    assert(tv[pos as int] == tok_view(ts@[pos as int]));
    match &ts[pos] {
        CondToken::Open => match p_or(ts, pos + 1) {
            Some((e, p1)) => {
                if pos + 1 < p1 && p1 < ts.len() {
                    assert(tv[p1 as int] == tok_view(ts@[p1 as int]));
                    match &ts[p1] {
                        CondToken::Close => Some((e, p1 + 1)),
                        _ => None,
                    }
                } else {
                    None
                }
            },
            None => None,
        },
        CondToken::Close => None,
        CondToken::Word(w) => {
            let k1 = ['1'].as_slice();
            assert(k1@ =~= kw_one());
            let ka = ['a', 'l', 'l'].as_slice();
            assert(ka@ =~= kw_all());
            let one = word_eq(w, k1);
            let all = word_eq(w, ka);
            if (one || all) && ts.len() - pos > 2 && tok_is(ts, pos + 1, ['o', 'f'].as_slice()) {
                assert(tv[pos + 2] == tok_view(ts@[pos + 2]));
                match &ts[pos + 2] {
                    CondToken::Word(x) => {
                        if word_eq(x, ['t', 'h', 'e', 'm'].as_slice()) {
                            if one {
                                Some((Condition::OneOfThem, pos + 3))
                            } else {
                                Some((Condition::AllOfThem, pos + 3))
                            }
                        } else if is_reserved_word(x) {
                            None
                        } else {
                            let name = string_from_chars(x.as_slice());
                            if one {
                                Some((Condition::OneOf(name), pos + 3))
                            } else {
                                Some((Condition::AllOf(name), pos + 3))
                            }
                        }
                    },
                    _ => None,
                }
            } else if is_reserved_word(w) {
                None
            } else {
                let name = string_from_chars(w.as_slice());
                Some((Condition::Selection(name), pos + 1))
            }
        },
    }
}

/// Reads a condition from its token sequence (see [`parse_condition_spec`]).
pub fn parse_condition_tokens(ts: &Vec<CondToken>) -> (res: Option<Condition>)
    ensures
        match res {
            Some(c) => parse_condition_spec(toks_view(ts@)) == Some(c@),
            None => parse_condition_spec(toks_view(ts@)) is None,
        },
{
    match p_or(ts, 0) {
        Some((e, p)) => if p == ts.len() { Some(e) } else { None },
        None => None,
    }
}

/// Reads a condition from its text (see [`condition_of_text`]).
pub fn parse_condition(text: &str) -> (res: Option<Condition>)
    ensures
        match res {
            Some(c) => condition_of_text(text@) == Some(c@),
            None => condition_of_text(text@) is None,
        },
{
    let cs = crate::text::chars_of(text);
    let ts = tokenize_condition(cs.as_slice());
    parse_condition_tokens(&ts)
}

} // verus!
