//! Character-level helpers shared by the parsers and formatters.

use vstd::prelude::*;

verus! {

broadcast use vstd::string::group_string_axioms;

/// `String::push` appends one character.
pub assume_specification[ String::push ](s: &mut String, ch: char)
    ensures
        final(s)@ == old(s)@.push(ch),
;

/// The characters of `s`, in order.
pub fn chars_of(s: &str) -> (out: Vec<char>)
    ensures
        out@ == s@,
{
    let mut out: Vec<char> = Vec::new();
    for c in it: s.chars()
        invariant
            out@ == it.seq().take(it.index()),
            it.seq() == s@,
    {
        out.push(c);
    }
    out
}

/// A string made of the given characters.
pub fn string_of(chars: &[char]) -> (out: String)
    ensures
        out@ == chars@,
{
    let mut out = String::new();
    for i in 0..chars.len()
        invariant
            out@ == chars@.take(i as int),
    {
        out.push(chars[i]);
        assert(chars@.take(i + 1) == chars@.take(i as int).push(chars@[i as int]));
    }
    assert(chars@.take(chars@.len() as int) == chars@);
    out
}

/// Appends every character of `tail` to `out`.
pub fn push_all(out: &mut String, tail: &[char])
    ensures
        final(out)@ == old(out)@ + tail@,
{
    for i in 0..tail.len()
        invariant
            out@ == old(out)@ + tail@.take(i as int),
    {
        out.push(tail[i]);
        assert(tail@.take(i + 1) == tail@.take(i as int).push(tail@[i as int]));
    }
    assert(tail@.take(tail@.len() as int) == tail@);
}

/// The characters that `char::is_whitespace` accepts: those with the
/// Unicode `White_Space` property.
pub open spec fn is_white_space(c: char) -> bool {
    ||| ('\u{9}' <= c && c <= '\u{d}')
    ||| c == ' '
    ||| c == '\u{85}'
    ||| c == '\u{a0}'
    ||| c == '\u{1680}'
    ||| ('\u{2000}' <= c && c <= '\u{200a}')
    ||| c == '\u{2028}'
    ||| c == '\u{2029}'
    ||| c == '\u{202f}'
    ||| c == '\u{205f}'
    ||| c == '\u{3000}'
}

/// Which characters a strip removes from both ends of a text.
#[derive(Clone, Copy, PartialEq, Eq, Structural, Debug)]
pub enum Strip {
    /// Unicode white space, as `str::trim` removes it.
    Whitespace,
    /// Double quotes, as `trim_matches('"')` removes them.
    Quotes,
    /// Equals signs and spaces: the markup around a section heading.
    Rules,
}

pub open spec fn strips(how: Strip, c: char) -> bool {
    match how {
        Strip::Whitespace => is_white_space(c),
        Strip::Quotes => c == '"',
        Strip::Rules => c == '=' || c == ' ',
    }
}

pub open spec fn strip_start(s: Seq<char>, how: Strip) -> Seq<char>
    decreases s.len(),
{
    if s.len() > 0 && strips(how, s[0]) {
        strip_start(s.drop_first(), how)
    } else {
        s
    }
}

pub open spec fn strip_end(s: Seq<char>, how: Strip) -> Seq<char>
    decreases s.len(),
{
    if s.len() > 0 && strips(how, s.last()) {
        strip_end(s.drop_last(), how)
    } else {
        s
    }
}

/// `s` without the leading and trailing characters that `how` removes.
pub open spec fn stripped(s: Seq<char>, how: Strip) -> Seq<char> {
    strip_end(strip_start(s, how), how)
}

/// `s` without leading and trailing white space.
pub open spec fn trimmed(s: Seq<char>) -> Seq<char> {
    stripped(s, Strip::Whitespace)
}

proof fn lemma_strip_start(s: Seq<char>, how: Strip) -> (a: int)
    ensures
        0 <= a <= s.len(),
        strip_start(s, how) == s.skip(a),
        forall|i: int| 0 <= i < a ==> strips(how, #[trigger] s[i]),
        a < s.len() ==> !strips(how, s[a]),
    decreases s.len(),
{
    if s.len() > 0 && strips(how, s[0]) {
        let a1 = lemma_strip_start(s.drop_first(), how);
        assert(s.drop_first().skip(a1) =~= s.skip(a1 + 1));
        assert forall|i: int| 0 <= i < a1 + 1 implies strips(how, #[trigger] s[i]) by {
            if i > 0 {
                assert(s[i] == s.drop_first()[i - 1]);
            }
        }
        a1 + 1
    } else {
        assert(s.skip(0) =~= s);
        0
    }
}

proof fn lemma_strip_end(s: Seq<char>, how: Strip) -> (b: int)
    ensures
        0 <= b <= s.len(),
        strip_end(s, how) == s.take(b),
        forall|i: int| b <= i < s.len() ==> strips(how, #[trigger] s[i]),
        b > 0 ==> !strips(how, s[b - 1]),
    decreases s.len(),
{
    if s.len() > 0 && strips(how, s.last()) {
        let b1 = lemma_strip_end(s.drop_last(), how);
        assert(s.drop_last().take(b1) =~= s.take(b1));
        assert forall|i: int| b1 <= i < s.len() implies strips(how, #[trigger] s[i]) by {
            if i < s.len() - 1 {
                assert(s[i] == s.drop_last()[i]);
            }
        }
        b1
    } else {
        assert(s.take(s.len() as int) =~= s);
        s.len() as int
    }
}

/// Stripping removes exactly the run of stripped characters at each end:
/// what is left is a middle stretch of the text, everything before and
/// after it is a character the strip removes, and the stretch, when not
/// empty, neither opens nor closes with one.
pub proof fn law_stripped(s: Seq<char>, how: Strip)
    ensures
        exists|a: int, b: int|
            0 <= a <= b <= s.len() && stripped(s, how) == s.subrange(a, b) && (forall|i: int|
                0 <= i < a ==> strips(how, #[trigger] s[i])) && (forall|i: int|
                b <= i < s.len() ==> strips(how, #[trigger] s[i])) && (a < b ==> !strips(how, s[a]) && !strips(
                how,
                s[b - 1],
            )),
{
    let a = lemma_strip_start(s, how);
    let t = s.skip(a);
    let b1 = lemma_strip_end(t, how);
    let b = a + b1;
    assert(t.take(b1) =~= s.subrange(a, b));
    assert forall|i: int| b <= i < s.len() implies strips(how, #[trigger] s[i]) by {
        assert(s[i] == t[i - a]);
    }
    if a < b {
        assert(s[a] == t[0]);
        assert(s[b - 1] == t[b1 - 1]);
    }
    assert(0 <= a <= b <= s.len() && stripped(s, how) == s.subrange(a, b));
}

pub fn is_stripped_char(how: Strip, c: char) -> (b: bool)
    ensures
        b == strips(how, c),
{
    match how {
        Strip::Whitespace => {
            ('\u{9}' <= c && c <= '\u{d}') || c == ' ' || c == '\u{85}' || c == '\u{a0}'
                || c == '\u{1680}' || ('\u{2000}' <= c && c <= '\u{200a}') || c == '\u{2028}'
                || c == '\u{2029}' || c == '\u{202f}' || c == '\u{205f}' || c == '\u{3000}'
        },
        Strip::Quotes => c == '"',
        Strip::Rules => c == '=' || c == ' ',
    }
}

/// The characters of `s` without the ends that `how` removes.
pub fn strip_chars(s: &[char], how: Strip) -> (out: Vec<char>)
    ensures
        out@ == stripped(s@, how),
{
    let n = s.len();
    let mut i: usize = 0;
    assert(s@.skip(0) =~= s@);
    while i < n && is_stripped_char(how, s[i])
        invariant
            i <= n,
            n == s@.len(),
            strip_start(s@, how) == strip_start(s@.skip(i as int), how),
        decreases n - i,
    {
        assert(s@.skip(i as int).drop_first() =~= s@.skip(i + 1));
        i = i + 1;
    }
    let ghost front = s@.skip(i as int);
    assert(strip_start(s@, how) == front);
    let mut j: usize = n;
    while j > i && is_stripped_char(how, s[j - 1])
        invariant
            i <= j <= n,
            n == s@.len(),
            front == s@.skip(i as int),
            strip_end(front, how) == strip_end(s@.subrange(i as int, j as int), how),
        decreases j,
    {
        assert(s@.subrange(i as int, j as int).drop_last() =~= s@.subrange(i as int, j - 1));
        j = j - 1;
    }
    let mut out: Vec<char> = Vec::new();
    let mut k: usize = i;
    while k < j
        invariant
            i <= k <= j <= n,
            n == s@.len(),
            out@ == s@.subrange(i as int, k as int),
        decreases j - k,
    {
        out.push(s[k]);
        assert(s@.subrange(i as int, k + 1) == s@.subrange(i as int, k as int).push(s@[k as int]));
        k = k + 1;
    }
    out
}

/// `str::trim`: `s` without leading and trailing white space.
pub fn trim(s: &str) -> (out: String)
    ensures
        out@ == trimmed(s@),
{
    let cs = chars_of(s);
    let t = strip_chars(cs.as_slice(), Strip::Whitespace);
    string_of(t.as_slice())
}

/// What `str::to_lowercase` returns for a text: Unicode's lowercase mapping.
pub uninterp spec fn lowercase(s: Seq<char>) -> Seq<char>;

/// Calls `str::to_lowercase`, whose result is the lowercase mapping of its
/// argument and nothing else; the mapping itself is not stated here.
#[verifier::external_body]
pub(crate) fn to_lowercase(s: &str) -> (out: String)
    ensures
        out@ == lowercase(s@),
{
    s.to_lowercase()
}

/// `p` occurs in `s` at position `i`.
pub open spec fn occurs_at(s: Seq<char>, p: Seq<char>, i: int) -> bool {
    0 <= i && i + p.len() <= s.len() && s.subrange(i, i + p.len()) == p
}

/// `p` occurs somewhere in `s` (what `str::contains` answers).
pub open spec fn contains_seq(s: Seq<char>, p: Seq<char>) -> bool {
    exists|i: int| occurs_at(s, p, i)
}

/// `s` begins with `p` (what `str::starts_with` answers).
pub open spec fn starts_with_seq(s: Seq<char>, p: Seq<char>) -> bool {
    occurs_at(s, p, 0)
}

/// The position of the first occurrence of `p` in `s` (what `str::find`
/// answers, counted in characters).
#[verifier::opaque]
pub open spec fn first_occurrence(s: Seq<char>, p: Seq<char>) -> Option<int> {
    if contains_seq(s, p) {
        Some(choose|i: int| occurs_at(s, p, i) && forall|j: int| 0 <= j < i ==> !occurs_at(s, p, j))
    } else {
        None
    }
}

/// Whether `p` occurs in `s` at position `i`.
pub fn matches_at(s: &[char], p: &[char], i: usize) -> (b: bool)
    ensures
        b == occurs_at(s@, p@, i as int),
{
    if i > s.len() || p.len() > s.len() - i {
        return false;
    }
    let n = s.len();
    let mut k: usize = 0;
    while k < p.len()
        invariant
            k <= p@.len(),
            n == s@.len(),
            i + p@.len() <= n,
            forall|m: int| 0 <= m < k ==> s@[i + m] == p@[m],
        decreases p.len() - k,
    {
        if s[i + k] != p[k] {
            assert(s@.subrange(i as int, i + p@.len())[k as int] != p@[k as int]);
            return false;
        }
        k = k + 1;
    }
    assert(s@.subrange(i as int, i + p@.len()) =~= p@);
    true
}

/// `str::find`: the first position at which `p` occurs in `s`.
pub fn find_chars(s: &[char], p: &[char]) -> (r: Option<usize>)
    ensures
        r matches Some(i) ==> first_occurrence(s@, p@) == Some(i as int),
        r matches Some(i) ==> occurs_at(s@, p@, i as int),
        r is None ==> first_occurrence(s@, p@) is None,
        r is None <==> !contains_seq(s@, p@),
{
    reveal(first_occurrence);
    if p.len() == 0 {
        assert(s@.subrange(0, 0) =~= p@);
        assert(occurs_at(s@, p@, 0));
        return Some(0);
    }
    let n = s.len();
    let mut i: usize = 0;
    while i < n
        invariant
            i <= n,
            n == s@.len(),
            p@.len() > 0,
            forall|j: int| 0 <= j < i ==> !occurs_at(s@, p@, j),
        decreases n - i,
    {
        if matches_at(s, p, i) {
            reveal(first_occurrence);
            let ghost w = choose|k: int|
                occurs_at(s@, p@, k) && forall|j: int| 0 <= j < k ==> !occurs_at(s@, p@, j);
            assert(occurs_at(s@, p@, i as int) && forall|j: int| 0 <= j < i ==> !occurs_at(s@, p@, j));
            assert(w == i) by {
                if w < i {
                } else if w > i {
                }
            }
            return Some(i);
        }
        i = i + 1;
    }
    assert forall|j: int| !occurs_at(s@, p@, j) by {
        if 0 <= j < i {
        }
    }
    None
}

/// `str::contains`.
pub fn contains_chars(s: &[char], p: &[char]) -> (b: bool)
    ensures
        b == contains_seq(s@, p@),
{
    find_chars(s, p).is_some()
}

/// Whether two character sequences are equal.
pub fn same_chars(a: &[char], b: &[char]) -> (eq: bool)
    ensures
        eq == (a@ == b@),
{
    if a.len() != b.len() {
        return false;
    }
    let n = a.len();
    let mut k: usize = 0;
    while k < n
        invariant
            k <= n,
            n == a@.len(),
            n == b@.len(),
            forall|m: int| 0 <= m < k ==> a@[m] == b@[m],
        decreases n - k,
    {
        if a[k] != b[k] {
            return false;
        }
        k = k + 1;
    }
    assert(a@ =~= b@);
    true
}

/// The position of the first element of `s` equal to `x` (what
/// `Iterator::position` answers for an equality test).
#[verifier::opaque]
pub open spec fn first_index_of<A>(s: Seq<A>, x: A) -> Option<int> {
    if s.contains(x) {
        Some(choose|i: int| 0 <= i < s.len() && s[i] == x && forall|j: int| 0 <= j < i ==> s[j] != x)
    } else {
        None
    }
}

pub proof fn lemma_first_index_found<A>(s: Seq<A>, x: A, i: int)
    requires
        0 <= i < s.len(),
        s[i] == x,
        forall|j: int| 0 <= j < i ==> s[j] != x,
    ensures
        first_index_of(s, x) == Some(i),
{
    reveal(first_index_of);
    assert(s.contains(x));
    let w = choose|w: int| 0 <= w < s.len() && s[w] == x && forall|j: int| 0 <= j < w ==> s[j] != x;
    assert(w == i) by {
        if w < i {
        } else if w > i {
        }
    }
}

pub proof fn lemma_first_index_absent<A>(s: Seq<A>, x: A)
    requires
        forall|j: int| 0 <= j < s.len() ==> s[j] != x,
    ensures
        first_index_of(s, x) is None,
{
    reveal(first_index_of);
}

pub proof fn lemma_first_index_facts<A>(s: Seq<A>, x: A)
    ensures
        first_index_of(s, x) matches Some(i) ==> 0 <= i < s.len() && s[i] == x && forall|j: int|
            0 <= j < i ==> s[j] != x,
        first_index_of(s, x) is None ==> forall|j: int| 0 <= j < s.len() ==> s[j] != x,
{
    reveal(first_index_of);
    if s.contains(x) {
        let w = choose|w: int| 0 <= w < s.len() && s[w] == x;
        assert(exists|i: int| 0 <= i < s.len() && s[i] == x && forall|j: int| 0 <= j < i ==> s[j] != x) by {
            lemma_least_index(s, x, w);
        }
    }
}

proof fn lemma_least_index<A>(s: Seq<A>, x: A, w: int)
    requires
        0 <= w < s.len(),
        s[w] == x,
    ensures
        exists|i: int| 0 <= i < s.len() && s[i] == x && forall|j: int| 0 <= j < i ==> s[j] != x,
    decreases w,
{
    if exists|j: int| 0 <= j < w && s[j] == x {
        let j = choose|j: int| 0 <= j < w && s[j] == x;
        lemma_least_index(s, x, j);
    } else {
        assert(forall|j: int| 0 <= j < w ==> s[j] != x);
    }
}

/// The least index below `n` that satisfies `p`.
#[verifier::opaque]
pub open spec fn first_satisfying(n: int, p: spec_fn(int) -> bool) -> Option<int> {
    if exists|i: int| 0 <= i < n && #[trigger] p(i) {
        Some(choose|i: int| 0 <= i < n && #[trigger] p(i) && forall|j: int| 0 <= j < i ==> !#[trigger] p(j))
    } else {
        None
    }
}

pub proof fn lemma_first_satisfying_found(n: int, p: spec_fn(int) -> bool, i: int)
    requires
        0 <= i < n,
        p(i),
        forall|j: int| 0 <= j < i ==> !#[trigger] p(j),
    ensures
        first_satisfying(n, p) == Some(i),
{
    reveal(first_satisfying);
    let w = choose|w: int| 0 <= w < n && #[trigger] p(w) && forall|j: int| 0 <= j < w ==> !#[trigger] p(j);
    assert(w == i) by {
        if w < i {
            assert(!p(w));
        } else if w > i {
            assert(!p(i));
        }
    }
}

pub proof fn lemma_first_satisfying_absent(n: int, p: spec_fn(int) -> bool)
    requires
        forall|j: int| 0 <= j < n ==> !#[trigger] p(j),
    ensures
        first_satisfying(n, p) is None,
{
    reveal(first_satisfying);
}

/// The decimal digit for `d` (below ten).
pub open spec fn digit_char(d: nat) -> char {
    ((48 + d) as u8) as char
}

/// A number written in decimal, as `Display` writes it.
pub open spec fn decimal_of(n: nat) -> Seq<char>
    decreases n,
{
    if n < 10 {
        seq![digit_char(n)]
    } else {
        decimal_of(n / 10) + seq![digit_char(n % 10)]
    }
}

/// Writes `n` in decimal.
pub fn decimal(n: u64) -> (out: String)
    ensures
        out@ == decimal_of(n as nat),
{
    let mut digits: Vec<char> = Vec::new();
    let mut m = n;
    // digits holds the last digits of n, most significant first
    while m >= 10
        invariant
            decimal_of(n as nat) == decimal_of(m as nat) + digits@,
        decreases m,
    {
        let d = (m % 10) as u8;
        let c = (48 + d) as char;
        let ghost old_digits = digits@;
        digits.insert(0, c);
        assert(decimal_of(m as nat) == decimal_of((m / 10) as nat) + seq![digit_char((m % 10) as nat)]);
        assert(digits@ =~= seq![c] + old_digits);
        assert(decimal_of(m as nat) + old_digits =~= decimal_of((m / 10) as nat) + digits@);
        m = m / 10;
    }
    let c = (48 + (m as u8)) as char;
    let mut out = String::new();
    out.push(c);
    push_all(&mut out, digits.as_slice());
    assert(decimal_of(m as nat) == seq![c]);
    out
}

} // verus!
