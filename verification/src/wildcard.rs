//! Sigma string wildcards: `*` matches any run of characters, `?` any one character,
//! and a backslash escapes `*`, `?` and itself.
use vstd::prelude::*;

verus! {

/// One element of a compiled wildcard pattern.
#[derive(PartialEq, Eq, Structural, Clone, Copy)]
pub enum GlobToken {
    /// Exactly this character.
    Literal(char),
    /// Any run of characters, the empty one included (`*`).
    AnyRun,
    /// Any single character (`?`).
    AnyOne,
    /// Any one of the dash characters that Windows command lines accept in place of `-`.
    Dash,
}

/// The characters that a `windash` pattern accepts wherever it holds `-` or `/`.
pub open spec fn is_dash(c: char) -> bool {
    c == '-' || c == '/' || c == '\u{2013}' || c == '\u{2014}' || c == '\u{2015}'
}

/// The first token of the non-empty pattern text `p`, and how many characters it takes.
pub open spec fn glob_step(p: Seq<char>, windash: bool) -> (GlobToken, int) {
    if p[0] == '\\' && p.len() >= 2 && (p[1] == '*' || p[1] == '?' || p[1] == '\\') {
        (GlobToken::Literal(p[1]), 2)
    } else if p[0] == '*' {
        (GlobToken::AnyRun, 1)
    } else if p[0] == '?' {
        (GlobToken::AnyOne, 1)
    } else if windash && (p[0] == '-' || p[0] == '/') {
        (GlobToken::Dash, 1)
    } else {
        (GlobToken::Literal(p[0]), 1)
    }
}

/// The tokens that the pattern text `p` compiles to: a backslash before `*`, `?` or a
/// backslash makes that character literal, `*` and `?` are wildcards, and with `windash` an
/// unescaped `-` or `/` becomes a [`GlobToken::Dash`].
pub open spec fn glob_tokens(p: Seq<char>, windash: bool) -> Seq<GlobToken>
    decreases p.len(),
{
    if p.len() == 0 {
        Seq::empty()
    } else {
        seq![glob_step(p, windash).0] + glob_tokens(p.skip(glob_step(p, windash).1), windash)
    }
}

/// Whether the token sequence `t` matches the whole of `s`.
pub open spec fn glob_match(t: Seq<GlobToken>, s: Seq<char>) -> bool
    decreases t.len(), s.len(),
{
    if t.len() == 0 {
        s.len() == 0
    } else {
        match t[0] {
            GlobToken::AnyRun => glob_match(t.skip(1), s) || (s.len() > 0 && glob_match(t, s.skip(1))),
            GlobToken::AnyOne => s.len() > 0 && glob_match(t.skip(1), s.skip(1)),
            GlobToken::Dash => s.len() > 0 && is_dash(s[0]) && glob_match(t.skip(1), s.skip(1)),
            GlobToken::Literal(c) => s.len() > 0 && s[0] == c && glob_match(t.skip(1), s.skip(1)),
        }
    }
}

/// The first token of `p.skip(i)` and the number of characters it takes.
fn next_glob_token(p: &[char], i: usize, windash: bool) -> (res: (GlobToken, usize))
    requires
        i < p@.len(),
    ensures
        res.0 == glob_step(p@.skip(i as int), windash).0,
        res.1 as int == glob_step(p@.skip(i as int), windash).1,
        1 <= res.1 <= p@.len() - i,
{
    let ghost rest = p@.skip(i as int);
    let c = p[i];
    assert(rest[0] == c);
    if i + 1 < p.len() {
        assert(rest[1] == p@[i + 1]);
    }
    if c == '\\' && i + 1 < p.len() && (p[i + 1] == '*' || p[i + 1] == '?' || p[i + 1] == '\\') {
        (GlobToken::Literal(p[i + 1]), 2)
    } else if c == '*' {
        (GlobToken::AnyRun, 1)
    } else if c == '?' {
        (GlobToken::AnyOne, 1)
    } else if windash && (c == '-' || c == '/') {
        (GlobToken::Dash, 1)
    } else {
        (GlobToken::Literal(c), 1)
    }
}

/// Compiles the pattern text `p` into tokens.
pub fn compile_glob(p: &[char], windash: bool) -> (res: Vec<GlobToken>)
    ensures
        res@ == glob_tokens(p@, windash),
{
    let mut res: Vec<GlobToken> = Vec::new();
    let mut i: usize = 0;
    assert(p@.skip(0) =~= p@);
    while i < p.len()
        invariant
            0 <= i <= p.len(),
            res@ + glob_tokens(p@.skip(i as int), windash) == glob_tokens(p@, windash),
        decreases p.len() - i,
    {
        let ghost rest = p@.skip(i as int);
        let (tok, k) = next_glob_token(p, i, windash);
        assert(rest.skip(k as int) =~= p@.skip(i + k));
        assert(glob_tokens(rest, windash) == seq![tok] + glob_tokens(rest.skip(k as int), windash));
        res.push(tok);
        i = i + k;
        assert(res@ + glob_tokens(p@.skip(i as int), windash) =~= glob_tokens(p@, windash));
    }
    assert(p@.skip(i as int) =~= Seq::<char>::empty());
    assert(res@ + Seq::<GlobToken>::empty() =~= res@);
    res
}

/// Whether the character `c` is one of the dash characters.
fn dash_char(c: char) -> (res: bool)
    ensures
        res == is_dash(c),
{
    c == '-' || c == '/' || c == '\u{2013}' || c == '\u{2014}' || c == '\u{2015}'
}

/// One step of the match table: whether `t.skip(i)` matches `s.skip(j)`, given the answers
/// for the next token (`below`) and for the next character with the same token (`right`).
proof fn lemma_glob_step(t: Seq<GlobToken>, s: Seq<char>, i: int, j: int)
    requires
        0 <= i < t.len(),
        0 <= j <= s.len(),
    ensures
        glob_match(t.skip(i), s.skip(j)) == match t[i] {
            GlobToken::AnyRun => glob_match(t.skip(i + 1), s.skip(j)) || (j < s.len()
                && glob_match(t.skip(i), s.skip(j + 1))),
            GlobToken::AnyOne => j < s.len() && glob_match(t.skip(i + 1), s.skip(j + 1)),
            GlobToken::Dash => j < s.len() && is_dash(s[j]) && glob_match(
                t.skip(i + 1),
                s.skip(j + 1),
            ),
            GlobToken::Literal(c) => j < s.len() && s[j] == c && glob_match(
                t.skip(i + 1),
                s.skip(j + 1),
            ),
        },
{
    assert(t.skip(i).skip(1) =~= t.skip(i + 1));
    assert(t.skip(i)[0] == t[i]);
    if j < s.len() {
        assert(s.skip(j).skip(1) =~= s.skip(j + 1));
        assert(s.skip(j)[0] == s[j]);
    }
}

/// Whether the compiled pattern `t` matches the whole of `s`.
pub fn glob_matches(t: &[GlobToken], s: &[char]) -> (res: bool)
    ensures
        res == glob_match(t@, s@),
{
    let m = t.len();
    let n = s.len();
    // below[j] == glob_match(t.skip(i + 1), s.skip(j)) for the row under the current one.
    let mut below: Vec<bool> = Vec::new();
    let mut j: usize = 0;
    while j < n
        invariant
            0 <= j <= n,
            n == s.len(),
            m == t.len(),
            below@.len() == j,
            forall|k: int| 0 <= k < j ==> below@[k] == glob_match(t@.skip(m as int), s@.skip(k)),
        decreases n + 1 - j,
    {
        assert(t@.skip(m as int).len() == 0);
        below.push(false);
        j = j + 1;
    }
    assert(t@.skip(m as int).len() == 0);
    assert(s@.skip(n as int).len() == 0);
    below.push(true);
    let mut i: usize = m;
    while i > 0
        invariant
            0 <= i <= m,
            n == s.len(),
            m == t.len(),
            below@.len() == n + 1,
            forall|k: int| 0 <= k <= n ==> below@[k] == glob_match(t@.skip(i as int), s@.skip(k)),
        decreases i,
    {
        let ti = i - 1;
        let tok = t[ti];
        let mut row: Vec<bool> = Vec::new();
        let mut k: usize = 0;
        while k < n
            invariant
                0 <= k <= n,
                row@.len() == k,
                below@.len() == n + 1,
                n == s.len(),
                forall|q: int| 0 <= q < k ==> row@[q] == false,
            decreases n + 1 - k,
        {
            row.push(false);
            k = k + 1;
        }
        row.push(false);
        let mut jj: usize = n;
        proof {
            lemma_glob_step(t@, s@, ti as int, n as int);
        }
        let last = match tok {
            GlobToken::AnyRun => below[n],
            _ => false,
        };
        row.set(n, last);
        while jj > 0
            invariant
                0 <= jj <= n,
                ti < m,
                tok == t@[ti as int],
                n == s.len(),
                m == t.len(),
                row@.len() == n + 1,
                below@.len() == n + 1,
                forall|k: int| 0 <= k <= n ==> below@[k] == glob_match(t@.skip(ti + 1), s@.skip(k)),
                forall|k: int| jj <= k <= n ==> row@[k] == glob_match(t@.skip(ti as int), s@.skip(k)),
            decreases jj,
        {
            let jc = jj - 1;
            proof {
                lemma_glob_step(t@, s@, ti as int, jc as int);
            }
            let v = match tok {
                GlobToken::AnyRun => below[jc] || row[jc + 1],
                GlobToken::AnyOne => jc < n && below[jc + 1],
                GlobToken::Dash => jc < n && dash_char(s[jc]) && below[jc + 1],
                GlobToken::Literal(c) => jc < n && s[jc] == c && below[jc + 1],
            };
            row.set(jc, v);
            jj = jc;
        }
        below = row;
        i = ti;
    }
    assert(t@.skip(0) =~= t@);
    assert(s@.skip(0) =~= s@);
    below[0]
}

} // verus!
