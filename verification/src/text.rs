//! Character-level helpers shared by the matchers and parsers.
use vstd::prelude::*;

verus! {

/// The characters of `s`, in order.
pub fn chars_of(s: &str) -> (res: Vec<char>)
    ensures
        res@ == s@,
{
    let mut res: Vec<char> = Vec::new();
    for c in it: s.chars()
        invariant
            res@ == it.seq().take(it.index() as int),
    {
        res.push(c);
    }
    res
}

} // verus!

verus! {

/// Whether `c` is an ASCII decimal digit.
pub open spec fn is_digit(c: char) -> bool {
    '0' <= c && c <= '9'
}

/// The value of a decimal digit.
pub open spec fn digit_value(c: char) -> int {
    (c as int) - ('0' as int)
}

/// Every character of `d` is a decimal digit.
pub open spec fn all_digits(d: Seq<char>) -> bool {
    forall|i: int| 0 <= i < d.len() ==> is_digit(#[trigger] d[i])
}

/// The number that the digit string `d` denotes in base ten.
pub open spec fn decimal_value(d: Seq<char>) -> int
    decreases d.len(),
{
    if d.len() == 0 {
        0
    } else {
        decimal_value(d.drop_last()) * 10 + digit_value(d.last())
    }
}

/// A longer digit string never denotes a smaller number than its prefix.
pub proof fn lemma_decimal_prefix_le(d: Seq<char>, i: int)
    requires
        all_digits(d),
        0 <= i <= d.len(),
    ensures
        0 <= decimal_value(d.take(i)) <= decimal_value(d),
    decreases d.len() - i,
{
    if i == d.len() {
        assert(d.take(i) =~= d);
        lemma_decimal_nonneg(d);
    } else {
        lemma_decimal_prefix_le(d, i + 1);
        let t = d.take(i + 1);
        assert(t.drop_last() =~= d.take(i));
        assert(is_digit(d[i]));
        lemma_decimal_nonneg(d.take(i));
    }
}

/// A digit string denotes a non-negative number.
pub proof fn lemma_decimal_nonneg(d: Seq<char>)
    requires
        all_digits(d),
    ensures
        decimal_value(d) >= 0,
    decreases d.len(),
{
    if d.len() > 0 {
        assert(all_digits(d.drop_last()));
        lemma_decimal_nonneg(d.drop_last());
        assert(is_digit(d[d.len() - 1]));
    }
}

/// The value of the digit string `d`, or `None` when it does not fit in a `u64`.
pub fn parse_decimal(d: &[char]) -> (res: Option<u64>)
    requires
        all_digits(d@),
    ensures
        match res {
            Some(v) => v as int == decimal_value(d@),
            None => decimal_value(d@) > u64::MAX,
        },
{
    let mut acc: u64 = 0;
    let mut i: usize = 0;
    while i < d.len()
        invariant
            0 <= i <= d.len(),
            all_digits(d@),
            acc as int == decimal_value(d@.take(i as int)),
        decreases d.len() - i,
    {
        let c = d[i];
        assert(is_digit(d@[i as int]));
        let dv: u64 = (c as u32 - '0' as u32) as u64;
        assert(d@.take(i + 1).drop_last() =~= d@.take(i as int));
        proof {
            lemma_decimal_prefix_le(d@, i + 1);
        }
        match acc.checked_mul(10) {
            Some(m) => match m.checked_add(dv) {
                Some(n) => {
                    acc = n;
                },
                None => {
                    return None;
                },
            },
            None => {
                proof {
                    lemma_decimal_nonneg(d@.take(i as int));
                }
                return None;
            },
        }
        i = i + 1;
    }
    assert(d@.take(d.len() as int) =~= d@);
    Some(acc)
}

} // verus!

verus! {

/// The first `n` elements of `s`.
pub fn slice_prefix<T>(s: &[T], n: usize) -> (res: &[T])
    requires
        n <= s@.len(),
    ensures
        res@ == s@.take(n as int),
{
    let (a, _b) = s.split_at(n);
    a
}

} // verus!

verus! {

/// `std::iter::FromIterator::from_iter` for `String` over characters: the string made of
/// the characters of `cs`, in order. Proved nowhere; the contract restates std's documentation.
#[verifier::external_body]
pub(crate) fn string_from_chars(cs: &[char]) -> (res: String)
    ensures
        res@ == cs@,
{
    cs.iter().collect()
}

/// The first index of `c` in `s`, if `c` occurs in it.
pub open spec fn index_of(s: Seq<char>, c: char) -> Option<int>
    decreases s.len(),
{
    if s.len() == 0 {
        None
    } else if s[0] == c {
        Some(0)
    } else {
        match index_of(s.skip(1), c) {
            Some(k) => Some(k + 1),
            None => None,
        }
    }
}

/// Facts about [`index_of`]: the index holds `c` and nothing before it does.
pub proof fn lemma_index_of(s: Seq<char>, c: char)
    ensures
        match index_of(s, c) {
            Some(k) => 0 <= k < s.len() && s[k] == c && forall|j: int| 0 <= j < k ==> s[j] != c,
            None => forall|j: int| 0 <= j < s.len() ==> s[j] != c,
        },
    decreases s.len(),
{
    if s.len() > 0 {
        lemma_index_of(s.skip(1), c);
        if s[0] != c {
            assert forall|j: int| 1 <= j < s.len() implies s[j] == s.skip(1)[j - 1] by {}
        }
    }
}

/// The first index of `c` in `s`.
pub fn find_char(s: &[char], c: char) -> (res: Option<usize>)
    ensures
        match res {
            Some(k) => index_of(s@, c) == Some(k as int),
            None => index_of(s@, c) is None,
        },
{
    proof {
        lemma_index_of(s@, c);
    }
    let mut i: usize = 0;
    while i < s.len()
        invariant
            0 <= i <= s.len(),
            forall|j: int| 0 <= j < i ==> s@[j] != c,
            match index_of(s@, c) {
                Some(k) => 0 <= k < s@.len() && s@[k] == c && forall|j: int| 0 <= j < k ==> s@[j] != c,
                None => forall|j: int| 0 <= j < s@.len() ==> s@[j] != c,
            },
        decreases s.len() - i,
    {
        if s[i] == c {
            return Some(i);
        }
        i = i + 1;
    }
    None
}

} // verus!

verus! {

/// The pieces of `s` between the separator `sep`, in order (one piece when `sep` does not
/// occur).
pub open spec fn split_on(s: Seq<char>, sep: char) -> Seq<Seq<char>>
    decreases s.len(),
{
    match index_of(s, sep) {
        Some(k) => if 0 <= k < s.len() {
            seq![s.take(k)] + split_on(s.skip(k + 1), sep)
        } else {
            seq![s]
        },
        None => seq![s],
    }
}

/// The character sequences of a list of character vectors.
pub open spec fn char_vec_views(v: Seq<Vec<char>>) -> Seq<Seq<char>> {
    Seq::new(v.len(), |i: int| v[i]@)
}

/// Splits `s` at every `sep`.
pub fn split_chars(s: &[char], sep: char) -> (res: Vec<Vec<char>>)
    ensures
        char_vec_views(res@) == split_on(s@, sep),
{
    let mut res: Vec<Vec<char>> = Vec::new();
    let mut cur: Vec<char> = Vec::new();
    let n = s.len();
    let mut i: usize = 0;
    let mut start: usize = 0;
    assert(s@.skip(0) =~= s@);
    assert(char_vec_views(res@) + split_on(s@.skip(0), sep) =~= split_on(s@, sep));
    while i < n
        invariant
            start <= i <= n,
            n == s@.len(),
            cur@ == s@.subrange(start as int, i as int),
            forall|j: int| start <= j < i ==> s@[j] != sep,
            char_vec_views(res@) + split_on(s@.skip(start as int), sep) == split_on(s@, sep),
        decreases n - i,
    {
        if s[i] == sep {
            let ghost rest = s@.skip(start as int);
            let ghost before = res@;
            proof {
                lemma_index_of(rest, sep);
                assert forall|j: int| 0 <= j < i - start implies rest[j] != sep by {
                    assert(rest[j] == s@[start + j]);
                }
                assert(rest[i - start] == sep);
                if index_of(rest, sep) != Some(i - start) {
                    match index_of(rest, sep) {
                        Some(k) => {
                            if k < i - start {
                                assert(rest[k] == s@[start + k]);
                            }
                        },
                        None => {},
                    }
                }
                assert(index_of(rest, sep) == Some(i - start));
                assert(rest.take(i - start) =~= cur@);
                assert(rest.skip(i - start + 1) =~= s@.skip(i + 1));
                assert(split_on(rest, sep) =~= seq![cur@] + split_on(s@.skip(i + 1), sep));
            }
            res.push(cur);
            cur = Vec::new();
            start = i + 1;
            assert(char_vec_views(res@) =~= char_vec_views(before).push(res@[res@.len() - 1]@));
            assert(char_vec_views(res@) + split_on(s@.skip(start as int), sep) =~= split_on(s@, sep));
        } else {
            cur.push(s[i]);
            assert(s@.subrange(start as int, i + 1) =~= s@.subrange(start as int, i as int).push(s@[i as int]));
        }
        i = i + 1;
    }
    let ghost rest = s@.skip(start as int);
    let ghost before = res@;
    proof {
        lemma_index_of(rest, sep);
        assert forall|j: int| 0 <= j < rest.len() implies rest[j] != sep by {
            assert(rest[j] == s@[start + j]);
        }
        assert(index_of(rest, sep) is None);
        assert(rest =~= cur@);
    }
    res.push(cur);
    assert(char_vec_views(res@) =~= char_vec_views(before).push(res@[res@.len() - 1]@));
    assert(char_vec_views(res@) =~= split_on(s@, sep));
    res
}

} // verus!

verus! {

/// The decimal digits of `n`, most significant first, without leading zeros.
pub open spec fn digits_of(n: nat) -> Seq<char>
    decreases n,
{
    if n < 10 {
        seq![(48 + n) as char]
    } else {
        digits_of(n / 10).push((48 + n % 10) as char)
    }
}

/// The decimal text of `n`: its digits, after a `-` when it is negative.
pub open spec fn int_text(n: int) -> Seq<char> {
    if n < 0 {
        seq!['-'] + digits_of((-n) as nat)
    } else {
        digits_of(n as nat)
    }
}

/// Appends the decimal digits of `m` (see [`digits_of`]).
fn push_digits(out: &mut Vec<char>, m: u128)
    ensures
        final(out)@ == old(out)@ + digits_of(m as nat),
    decreases m,
{
    if m >= 10 {
        push_digits(out, m / 10);
    }
    let d = m % 10;
    let c = if d == 0 {
        '0'
    } else if d == 1 {
        '1'
    } else if d == 2 {
        '2'
    } else if d == 3 {
        '3'
    } else if d == 4 {
        '4'
    } else if d == 5 {
        '5'
    } else if d == 6 {
        '6'
    } else if d == 7 {
        '7'
    } else if d == 8 {
        '8'
    } else {
        '9'
    };
    assert(c == (48 + m % 10) as char);
    out.push(c);
}

/// The decimal text of `n` (see [`int_text`]).
pub fn decimal_text(n: i128) -> (res: String)
    ensures
        res@ == int_text(n as int),
{
    let mut out: Vec<char> = Vec::new();
    if n < 0 {
        out.push('-');
        let mag: u128 = if n == i128::MIN { 0x8000_0000_0000_0000_0000_0000_0000_0000 } else { (-n) as u128 };
        push_digits(&mut out, mag);
    } else {
        push_digits(&mut out, n as u128);
    }
    string_from_chars(out.as_slice())
}

} // verus!
