use vstd::prelude::*;

verus! {

/// Whether `c` has the Unicode `White_Space` property.
pub open spec fn whitespace_char(c: char) -> bool {
    ||| '\u{9}' <= c <= '\u{d}'
    ||| c == ' '
    ||| c == '\u{85}'
    ||| c == '\u{a0}'
    ||| c == '\u{1680}'
    ||| '\u{2000}' <= c <= '\u{200a}'
    ||| c == '\u{2028}'
    ||| c == '\u{2029}'
    ||| c == '\u{202f}'
    ||| c == '\u{205f}'
    ||| c == '\u{3000}'
}

pub uninterp spec fn alnum_char(c: char) -> bool;

/// Relies on `char::is_whitespace`: whether `c` has the Unicode
/// `White_Space` property.
#[verifier::external_body]
fn is_space(c: char) -> (r: bool)
    ensures
        r == whitespace_char(c),
{
    c.is_whitespace()
}

/// Relies on `char::is_alphanumeric`: whether `c` is a Unicode letter or
/// number.
#[verifier::external_body]
fn is_alnum(c: char) -> (r: bool)
    ensures
        r == alnum_char(c),
{
    c.is_alphanumeric()
}

/// Relies on `String`'s `FromIterator<&char>`: the string of the given
/// characters, in order.
#[verifier::external_body]
pub(crate) fn string_from(cs: &Vec<char>) -> (r: String)
    ensures
        r@ == cs@,
{
    cs.iter().collect()
}

/// Which characters a trim removes.
#[derive(Debug, Clone, Copy, PartialEq, Eq, Structural)]
pub enum Strip {
    Space,
    Char(char),
}

pub open spec fn strips(t: Strip, c: char) -> bool {
    match t {
        Strip::Space => whitespace_char(c),
        Strip::Char(x) => c == x,
    }
}

/// `s` without its leading characters that `t` removes.
pub open spec fn skip_lead(s: Seq<char>, t: Strip) -> Seq<char>
    decreases s.len(),
{
    if s.len() > 0 && strips(t, s[0]) {
        skip_lead(s.drop_first(), t)
    } else {
        s
    }
}

/// `s` without its trailing characters that `t` removes.
pub open spec fn skip_trail(s: Seq<char>, t: Strip) -> Seq<char>
    decreases s.len(),
{
    if s.len() > 0 && strips(t, s.last()) {
        skip_trail(s.drop_last(), t)
    } else {
        s
    }
}

/// `s` without the leading and trailing characters that `t` removes.
pub open spec fn trim_both(s: Seq<char>, t: Strip) -> Seq<char> {
    skip_trail(skip_lead(s, t), t)
}

/// Whether `s` begins with `pat`.
pub open spec fn begins_with(s: Seq<char>, pat: Seq<char>) -> bool {
    pat.len() <= s.len() && s.subrange(0, pat.len() as int) == pat
}

/// `s` with as many copies of a non-empty `pat` taken off its front as
/// there are.
pub open spec fn strip_prefixes(s: Seq<char>, pat: Seq<char>) -> Seq<char>
    decreases s.len(),
{
    if pat.len() > 0 && begins_with(s, pat) {
        strip_prefixes(s.subrange(pat.len() as int, s.len() as int), pat)
    } else {
        s
    }
}

/// Whether `pat` occurs in `s` at position `i`.
pub open spec fn found_at(s: Seq<char>, pat: Seq<char>, i: int) -> bool {
    0 <= i && i + pat.len() <= s.len() && s.subrange(i, i + pat.len()) == pat
}

/// Whether `i` is the first position at which `pat` occurs in `s`.
pub open spec fn first_found(s: Seq<char>, pat: Seq<char>, i: int) -> bool {
    found_at(s, pat, i) && forall|j: int| j < i ==> !#[trigger] found_at(s, pat, j)
}

/// What comes before the first occurrence of `pat` in `s`; all of `s` when
/// there is none.
pub open spec fn before_first(s: Seq<char>, pat: Seq<char>) -> Seq<char> {
    if exists|i: int| found_at(s, pat, i) {
        s.subrange(0, choose|i: int| first_found(s, pat, i))
    } else {
        s
    }
}

/// Whether `i` is the last position of `c` in `s`.
pub open spec fn last_at(s: Seq<char>, c: char, i: int) -> bool {
    0 <= i < s.len() && s[i] == c && forall|j: int| i < j < s.len() ==> #[trigger] s[j] != c
}

/// What follows the last `c` in `s`; all of `s` when there is none.
pub open spec fn after_last(s: Seq<char>, c: char) -> Seq<char> {
    if s.contains(c) {
        s.subrange((choose|i: int| last_at(s, c, i)) + 1, s.len() as int)
    } else {
        s
    }
}

/// Whether `k` ends the run of non-white-space characters that opens `u`.
pub open spec fn word_end(u: Seq<char>, k: int) -> bool {
    &&& 0 <= k <= u.len()
    &&& forall|j: int| 0 <= j < k ==> !whitespace_char(#[trigger] u[j])
    &&& (k == u.len() || whitespace_char(u[k]))
}

/// The first white-space separated word of `s`, if any.
pub open spec fn first_word(s: Seq<char>) -> Option<Seq<char>> {
    let u = skip_lead(s, Strip::Space);
    if u.len() == 0 {
        None
    } else {
        Some(u.subrange(0, choose|k: int| word_end(u, k)))
    }
}

/// Whether every character of `s` is a letter, a number or one of `extra`.
pub open spec fn name_chars(s: Seq<char>, extra: Seq<char>) -> bool {
    forall|i: int| 0 <= i < s.len() ==> alnum_char(#[trigger] s[i]) || extra.contains(s[i])
}

fn removes(t: Strip, c: char) -> (r: bool)
    ensures
        r == strips(t, c),
{
    match t {
        Strip::Space => is_space(c),
        Strip::Char(x) => c == x,
    }
}

/// The characters of `s` from `a` up to `b`.
pub fn slice_of(s: &Vec<char>, a: usize, b: usize) -> (r: Vec<char>)
    requires
        a <= b <= s.len(),
    ensures
        r@ == s@.subrange(a as int, b as int),
{
    let mut out: Vec<char> = Vec::with_capacity(b - a);
    let mut i: usize = a;
    while i < b
        invariant
            a <= i <= b <= s.len(),
            out@ == s@.subrange(a as int, i as int),
        decreases b - i,
    {
        out.push(s[i]);
        i += 1;
        assert(out@ =~= s@.subrange(a as int, i as int));
    }
    out
}

/// `s` without the leading and trailing characters that `t` removes.
pub fn trim_chars(s: &Vec<char>, t: Strip) -> (r: Vec<char>)
    ensures
        r@ == trim_both(s@, t),
{
    let n = s.len();
    let mut a: usize = 0;
    assert(s@.subrange(0, n as int) =~= s@);
    while a < n && removes(t, s[a])
        invariant
            n == s.len(),
            a <= n,
            skip_lead(s@, t) == skip_lead(s@.subrange(a as int, n as int), t),
        decreases n - a,
    {
        assert(s@.subrange(a as int, n as int).drop_first() =~= s@.subrange(a + 1, n as int));
        a += 1;
    }
    let mut b: usize = n;
    assert(s@.subrange(a as int, n as int) == s@.subrange(a as int, b as int));
    while b > a && removes(t, s[b - 1])
        invariant
            n == s.len(),
            a <= b <= n,
            skip_lead(s@, t) == s@.subrange(a as int, n as int),
            skip_trail(s@.subrange(a as int, n as int), t) == skip_trail(
                s@.subrange(a as int, b as int),
                t,
            ),
        decreases b - a,
    {
        assert(s@.subrange(a as int, b as int).drop_last() =~= s@.subrange(a as int, b - 1));
        b -= 1;
    }
    slice_of(s, a, b)
}

/// Whether `s` begins with `pat`.
pub fn starts_with(s: &Vec<char>, pat: &Vec<char>) -> (r: bool)
    ensures
        r == begins_with(s@, pat@),
{
    assert(s@.subrange(0, s.len() as int) =~= s@);
    starts_with_at(s, 0, pat)
}

/// Whether the characters of `s` from `a` on begin with `pat`.
fn starts_with_at(s: &Vec<char>, a: usize, pat: &Vec<char>) -> (r: bool)
    requires
        a <= s.len(),
    ensures
        r == begins_with(s@.subrange(a as int, s.len() as int), pat@),
{
    let m = pat.len();
    if m > s.len() - a {
        return false;
    }
    let mut j: usize = 0;
    while j < m
        invariant
            m == pat.len(),
            a + m <= s.len(),
            j <= m,
            forall|k: int| 0 <= k < j ==> s@[a + k] == #[trigger] pat@[k],
        decreases m - j,
    {
        if s[a + j] != pat[j] {
            assert(s@.subrange(a as int, s.len() as int).subrange(0, m as int)[j as int]
                != pat@[j as int]);
            return false;
        }
        j += 1;
    }
    assert(s@.subrange(a as int, s.len() as int).subrange(0, m as int) =~= pat@);
    true
}

/// `s` with every leading copy of a non-empty `pat` taken off.
pub fn strip_prefix_copies(s: &Vec<char>, pat: &Vec<char>) -> (r: Vec<char>)
    requires
        pat.len() > 0,
    ensures
        r@ == strip_prefixes(s@, pat@),
{
    let n = s.len();
    let m = pat.len();
    let mut a: usize = 0;
    assert(s@.subrange(0, n as int) =~= s@);
    while starts_with_at(s, a, pat)
        invariant
            n == s.len(),
            m == pat.len(),
            m > 0,
            a <= n,
            strip_prefixes(s@, pat@) == strip_prefixes(s@.subrange(a as int, n as int), pat@),
        decreases n - a,
    {
        assert(s@.subrange(a as int, n as int).subrange(m as int, n - a) =~= s@.subrange(
            a + m,
            n as int,
        ));
        a += m;
    }
    slice_of(s, a, n)
}

/// The position of the first occurrence of `pat` in `s`, if any.
pub fn find_first(s: &Vec<char>, pat: &Vec<char>) -> (r: Option<usize>)
    ensures
        r matches Some(p) ==> first_found(s@, pat@, p as int),
        r is None ==> forall|i: int| !#[trigger] found_at(s@, pat@, i),
{
    let n = s.len();
    let mut i: usize = 0;
    loop
        invariant
            n == s.len(),
            i <= n,
            forall|j: int| j < i ==> !#[trigger] found_at(s@, pat@, j),
        decreases n - i,
    {
        if starts_with_at(s, i, pat) {
            assert(s@.subrange(i as int, n as int).subrange(0, pat@.len() as int)
                =~= s@.subrange(i as int, i + pat@.len()));
            return Some(i);
        }
        assert(!found_at(s@, pat@, i as int)) by {
            if found_at(s@, pat@, i as int) {
                assert(s@.subrange(i as int, n as int).subrange(0, pat@.len() as int)
                    =~= s@.subrange(i as int, i + pat@.len()));
            }
        }
        if i == n {
            assert forall|j: int| !#[trigger] found_at(s@, pat@, j) by {
                if j > n {
                    assert(j + pat@.len() > s@.len());
                }
            }
            return None;
        }
        i += 1;
    }
}

/// What comes before the first occurrence of `pat` in `s` (all of `s` when
/// there is none), and whether there is one.
pub fn split_first(s: &Vec<char>, pat: &Vec<char>) -> (r: (Vec<char>, bool))
    ensures
        r.0@ == before_first(s@, pat@),
        r.1 == exists|i: int| found_at(s@, pat@, i),
{
    match find_first(s, pat) {
        Some(p) => {
            proof {
                let c = choose|i: int| first_found(s@, pat@, i);
                if c < p {
                    assert(!found_at(s@, pat@, c));
                }
                if p < c {
                    assert(!found_at(s@, pat@, p as int));
                }
            }
            (slice_of(s, 0, p), true)
        },
        None => {
            let whole = slice_of(s, 0, s.len());
            assert(whole@ =~= s@);
            (whole, false)
        },
    }
}

/// Whether `c` occurs in `s`.
pub fn has_char(s: &Vec<char>, c: char) -> (r: bool)
    ensures
        r == s@.contains(c),
{
    let mut i: usize = 0;
    while i < s.len()
        invariant
            i <= s.len(),
            forall|j: int| 0 <= j < i ==> s@[j] != c,
        decreases s.len() - i,
    {
        if s[i] == c {
            return true;
        }
        i += 1;
    }
    false
}

/// What follows the last `c` in `s`; all of `s` when there is none.
pub fn split_last(s: &Vec<char>, c: char) -> (r: Vec<char>)
    ensures
        r@ == after_last(s@, c),
{
    let n = s.len();
    let mut i: usize = n;
    while i > 0
        invariant
            n == s.len(),
            i <= n,
            forall|j: int| i <= j < n ==> #[trigger] s@[j] != c,
        decreases i,
    {
        if s[i - 1] == c {
            proof {
                let p = (i - 1) as int;
                assert(last_at(s@, c, p));
                let q = choose|k: int| last_at(s@, c, k);
                if q < p {
                    assert(s@[p] != c);
                }
                if p < q {
                    assert(s@[q] != c);
                }
            }
            return slice_of(s, i, n);
        }
        i -= 1;
    }
    let whole = slice_of(s, 0, n);
    assert(whole@ =~= s@);
    whole
}

/// The first white-space separated word of `s`, if any.
pub fn first_word_of(s: &Vec<char>) -> (r: Option<Vec<char>>)
    ensures
        r matches Some(w) ==> first_word(s@) == Some(w@),
        r is None ==> first_word(s@) is None,
{
    let n = s.len();
    let mut a: usize = 0;
    assert(s@.subrange(0, n as int) =~= s@);
    while a < n && is_space(s[a])
        invariant
            n == s.len(),
            a <= n,
            skip_lead(s@, Strip::Space) == skip_lead(s@.subrange(a as int, n as int), Strip::Space),
        decreases n - a,
    {
        assert(s@.subrange(a as int, n as int).drop_first() =~= s@.subrange(a + 1, n as int));
        a += 1;
    }
    if a == n {
        return None;
    }
    let ghost u = s@.subrange(a as int, n as int);
    let mut b: usize = a;
    while b < n && !is_space(s[b])
        invariant
            n == s.len(),
            a <= b <= n,
            u == s@.subrange(a as int, n as int),
            forall|j: int| 0 <= j < b - a ==> !whitespace_char(#[trigger] u[j]),
        decreases n - b,
    {
        b += 1;
    }
    proof {
        let k = (b - a) as int;
        assert(word_end(u, k));
        let c = choose|k2: int| word_end(u, k2);
        if c < k {
            assert(!whitespace_char(u[c]));
        }
        if k < c {
            assert(!whitespace_char(u[k]));
        }
        assert(u.subrange(0, k) =~= s@.subrange(a as int, b as int));
    }
    Some(slice_of(s, a, b))
}

/// Whether every character of `s` is a letter, a number or one of `extra`.
pub fn all_name_chars(s: &Vec<char>, extra: &Vec<char>) -> (r: bool)
    ensures
        r == name_chars(s@, extra@),
{
    let mut i: usize = 0;
    while i < s.len()
        invariant
            i <= s.len(),
            forall|j: int| 0 <= j < i ==> alnum_char(#[trigger] s@[j]) || extra@.contains(s@[j]),
        decreases s.len() - i,
    {
        if !is_alnum(s[i]) && !has_char(extra, s[i]) {
            return false;
        }
        i += 1;
    }
    true
}

} // verus!
