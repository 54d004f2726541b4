//! The star data model: where a derived quantity came from, and what a
//! spectral type string says about a star.

use vstd::prelude::*;

use crate::text::{chars_of, contains_seq, find_chars, first_occurrence, occurs_at, same_chars, string_of};

verus! {

/// Where a derived quantity came from, so that a measured value is never
/// mistaken for one worked out from a spectral type.
#[derive(Clone, Copy, PartialEq, Eq, Structural, Debug)]
pub enum Src {
    /// Published value (Wikidata).
    Measured,
    /// From the spectral type, via the main-sequence temperature scale.
    Spectral,
    /// From the B-V color index (Ballesteros' formula).
    Color,
    /// From radius and temperature (Stefan-Boltzmann).
    Radius,
    /// From absolute magnitude plus a bolometric correction.
    Magnitude,
    Unknown,
}

/// The caption shown for each source.
pub open spec fn src_label(s: Src) -> Seq<char> {
    match s {
        Src::Measured => "measured"@,
        Src::Spectral => "from spectral type"@,
        Src::Color => "from color index"@,
        Src::Radius => "from radius + Teff"@,
        Src::Magnitude => "from absolute magnitude"@,
        Src::Unknown => "unknown"@,
    }
}

impl Src {
    /// The caption shown for this source.
    pub fn label(&self) -> (text: &'static str)
        ensures
            text@ == src_label(*self),
    {
        match self {
            Src::Measured => "measured",
            Src::Spectral => "from spectral type",
            Src::Color => "from color index",
            Src::Radius => "from radius + Teff",
            Src::Magnitude => "from absolute magnitude",
            Src::Unknown => "unknown",
        }
    }

    /// Where a star's effective temperature comes from: a published value,
    /// else the spectral type, else the color index; with none of them the
    /// temperature stays unknown.
    pub fn for_temperature(measured: bool, from_spectral: bool, from_color: bool) -> (s: Src)
        ensures
            s == (if measured {
                Src::Measured
            } else if from_spectral {
                Src::Spectral
            } else if from_color {
                Src::Color
            } else {
                Src::Unknown
            }),
    {
        if measured {
            Src::Measured
        } else if from_spectral {
            Src::Spectral
        } else if from_color {
            Src::Color
        } else {
            Src::Unknown
        }
    }

    /// Where a star's luminosity comes from: a published value, else its
    /// radius together with a known temperature, else its absolute magnitude
    /// with a known temperature; with no temperature it stays unknown.
    pub fn for_luminosity(measured: bool, radius_known: bool, teff_known: bool) -> (s: Src)
        ensures
            s == (if measured {
                Src::Measured
            } else if radius_known && teff_known {
                Src::Radius
            } else if teff_known {
                Src::Magnitude
            } else {
                Src::Unknown
            }),
    {
        if measured {
            Src::Measured
        } else if radius_known && teff_known {
            Src::Radius
        } else if teff_known {
            Src::Magnitude
        } else {
            Src::Unknown
        }
    }
}

// ───────────────────────── spectral class letter ─────────────────────────

/// The letters that open a spectral class: O B A F G K M, Wolf-Rayet,
/// the brown dwarfs L T Y, and the carbon and S stars.
pub open spec fn is_class_letter(c: char) -> bool {
    c == 'O' || c == 'B' || c == 'A' || c == 'F' || c == 'G' || c == 'K' || c == 'M' || c == 'W'
        || c == 'L' || c == 'T' || c == 'Y' || c == 'S' || c == 'C' || c == 'R'
}

/// The first class letter in a spectral type, or '?' when there is none.
pub open spec fn class_of(s: Seq<char>) -> char
    decreases s.len(),
{
    if s.len() == 0 {
        '?'
    } else if is_class_letter(s[0]) {
        s[0]
    } else {
        class_of(s.drop_first())
    }
}

/// Spectral class letter of a spectral type (O B A F G K M …), or '?'
/// when the type holds none.
pub fn spectral_class(spectral: &str) -> (c: char)
    ensures
        c == class_of(spectral@),
{
    let cs = chars_of(spectral);
    let n = cs.len();
    let mut i: usize = 0;
    assert(cs@.skip(0) =~= cs@);
    while i < n
        invariant
            i <= n,
            n == cs@.len(),
            cs@ == spectral@,
            class_of(cs@) == class_of(cs@.skip(i as int)),
        decreases n - i,
    {
        let c = cs[i];
        if c == 'O' || c == 'B' || c == 'A' || c == 'F' || c == 'G' || c == 'K' || c == 'M'
            || c == 'W' || c == 'L' || c == 'T' || c == 'Y' || c == 'S' || c == 'C' || c == 'R' {
            proof {
                let t = cs@.skip(i as int);
                assert(t.len() > 0);
                assert(t[0] == c);
                assert(is_class_letter(c));
                assert(class_of(t) == c);
            }
            return c;
        }
        assert(cs@.skip(i as int).drop_first() =~= cs@.skip(i + 1));
        i = i + 1;
    }
    '?'
}

/// The spectral class of a type is its first character among the fourteen
/// class letters O B A F G K M W L T Y S C R, or '?' when it holds none.
pub proof fn law_spectral_class(s: Seq<char>)
    ensures
        forall|i: int|
            0 <= i < s.len() && seq!['O', 'B', 'A', 'F', 'G', 'K', 'M', 'W', 'L', 'T', 'Y', 'S', 'C', 'R'].contains(
                #[trigger] s[i],
            ) && (forall|j: int|
                0 <= j < i ==> !seq!['O', 'B', 'A', 'F', 'G', 'K', 'M', 'W', 'L', 'T', 'Y', 'S', 'C', 'R'].contains(
                    s[j],
                )) ==> class_of(s) == s[i],
        (forall|i: int|
            0 <= i < s.len() ==> !seq!['O', 'B', 'A', 'F', 'G', 'K', 'M', 'W', 'L', 'T', 'Y', 'S', 'C', 'R'].contains(
                #[trigger] s[i],
            )) ==> class_of(s) == '?',
    decreases s.len(),
{
    let letters = seq!['O', 'B', 'A', 'F', 'G', 'K', 'M', 'W', 'L', 'T', 'Y', 'S', 'C', 'R'];
    assert forall|c: char| letters.contains(c) <==> is_class_letter(c) by {
        if is_class_letter(c) {
            if c == 'O' { assert(letters[0] == c); }
            else if c == 'B' { assert(letters[1] == c); }
            else if c == 'A' { assert(letters[2] == c); }
            else if c == 'F' { assert(letters[3] == c); }
            else if c == 'G' { assert(letters[4] == c); }
            else if c == 'K' { assert(letters[5] == c); }
            else if c == 'M' { assert(letters[6] == c); }
            else if c == 'W' { assert(letters[7] == c); }
            else if c == 'L' { assert(letters[8] == c); }
            else if c == 'T' { assert(letters[9] == c); }
            else if c == 'Y' { assert(letters[10] == c); }
            else if c == 'S' { assert(letters[11] == c); }
            else if c == 'C' { assert(letters[12] == c); }
            else { assert(letters[13] == c); }
        }
    }
    if s.len() > 0 {
        let rest = s.drop_first();
        law_spectral_class(rest);
        assert forall|i: int|
            0 <= i < s.len() && letters.contains(#[trigger] s[i]) && (forall|j: int|
                0 <= j < i ==> !letters.contains(s[j])) implies class_of(s) == s[i] by {
            if i > 0 {
                assert(!letters.contains(s[0]));
                assert(rest[i - 1] == s[i]);
                assert forall|j: int| 0 <= j < i - 1 implies !letters.contains(#[trigger] rest[j]) by {
                    assert(rest[j] == s[j + 1]);
                }
            }
        }
        if forall|i: int| 0 <= i < s.len() ==> !letters.contains(#[trigger] s[i]) {
            assert(!letters.contains(s[0]));
            assert forall|i: int| 0 <= i < rest.len() implies !letters.contains(#[trigger] rest[i]) by {
                assert(rest[i] == s[i + 1]);
            }
        }
    }
}

// ─────────────────────── position on the O..M scale ───────────────────────

/// The main-sequence class letters, hottest first.
pub open spec fn main_class_index(c: char) -> Option<int> {
    if c == 'O' {
        Some(0)
    } else if c == 'B' {
        Some(1)
    } else if c == 'A' {
        Some(2)
    } else if c == 'F' {
        Some(3)
    } else if c == 'G' {
        Some(4)
    } else if c == 'K' {
        Some(5)
    } else if c == 'M' {
        Some(6)
    } else {
        None
    }
}

/// The position of the first main-sequence class letter in `s`.
pub open spec fn first_main_class(s: Seq<char>) -> Option<int>
    decreases s.len(),
{
    if s.len() == 0 {
        None
    } else if main_class_index(s[0]) is Some {
        Some(0)
    } else {
        match first_main_class(s.drop_first()) {
            Some(i) => Some(i + 1),
            None => None,
        }
    }
}

pub open spec fn is_subclass_char(c: char) -> bool {
    ('0' <= c && c <= '9') || c == '.'
}

/// The longest prefix of `s` made of digits and dots.
pub open spec fn subclass_prefix(s: Seq<char>) -> Seq<char>
    decreases s.len(),
{
    if s.len() > 0 && is_subclass_char(s[0]) {
        seq![s[0]] + subclass_prefix(s.drop_first())
    } else {
        Seq::empty()
    }
}

/// The class (0 for O … 6 for M) and the numeric subclass text that follow
/// the first main-sequence class letter of a spectral type.
pub open spec fn spectral_parts_of(s: Seq<char>) -> Option<(int, Seq<char>)> {
    match first_main_class(s) {
        Some(i) => Some((main_class_index(s[i]).unwrap(), subclass_prefix(s.skip(i + 1)))),
        None => None,
    }
}

proof fn lemma_first_main_class(s: Seq<char>)
    ensures
        first_main_class(s) matches Some(i) ==> 0 <= i < s.len() && main_class_index(s[i]) is Some
            && forall|j: int| 0 <= j < i ==> main_class_index(s[j]) is None,
        first_main_class(s) is None ==> forall|j: int| 0 <= j < s.len() ==> main_class_index(s[j]) is None,
    decreases s.len(),
{
    if s.len() > 0 {
        lemma_first_main_class(s.drop_first());
        assert forall|j: int| 1 <= j < s.len() implies s[j] == s.drop_first()[j - 1] by {}
    }
}

/// Where a spectral type sits on the O..M scale, as the class (O = 0,
/// B = 1, … M = 6) and the subclass text that follows the class letter
/// ("0.5" for "B0.5", empty for "K"); `None` when it names no
/// main-sequence class. Turning the subclass text into a number is left to
/// the caller.
pub fn spectral_parts(spectral: &str) -> (r: Option<(usize, String)>)
    ensures
        match spectral_parts_of(spectral@) {
            Some((k, sub)) => r matches Some((rk, rsub)) && rk == k && rsub@ == sub,
            None => r is None,
        },
{
    let cs = chars_of(spectral);
    let n = cs.len();
    proof {
        lemma_first_main_class(cs@);
    }
    let mut i: usize = 0;
    while i < n
        invariant
            i <= n,
            n == cs@.len(),
            cs@ == spectral@,
            forall|j: int| 0 <= j < i ==> main_class_index(cs@[j]) is None,
            first_main_class(cs@) matches Some(f) ==> i <= f,
        decreases n - i,
    {
        proof {
            lemma_first_main_class(cs@);
        }
        let c = cs[i];
        let k: usize = if c == 'O' {
            0
        } else if c == 'B' {
            1
        } else if c == 'A' {
            2
        } else if c == 'F' {
            3
        } else if c == 'G' {
            4
        } else if c == 'K' {
            5
        } else if c == 'M' {
            6
        } else {
            7
        };
        if k < 7 {
            proof {
                lemma_first_main_class(cs@);
            }
            assert(main_class_index(cs@[i as int]) == Some(k as int));
            assert(first_main_class(cs@) == Some(i as int)) by {
                if first_main_class(cs@) is None {
                    assert(main_class_index(cs@[i as int]) is None);
                } else {
                    let f = first_main_class(cs@).unwrap();
                    assert(main_class_index(cs@[f]) is Some);
                    if f > i {
                        assert(main_class_index(cs@[i as int]) is None);
                    }
                }
            }
            let ghost rest = cs@.skip(i + 1);
            let mut sub: Vec<char> = Vec::new();
            let mut j: usize = i + 1;
            assert(cs@.skip(j as int) =~= rest);
            while j < n && (('0' <= cs[j] && cs[j] <= '9') || cs[j] == '.')
                invariant
                    i < j <= n,
                    n == cs@.len(),
                    rest == cs@.skip(i + 1),
                    subclass_prefix(rest) == sub@ + subclass_prefix(cs@.skip(j as int)),
                decreases n - j,
            {
                assert(cs@.skip(j as int).drop_first() =~= cs@.skip(j + 1));
                sub.push(cs[j]);
                j = j + 1;
            }
            assert(subclass_prefix(cs@.skip(j as int)) == Seq::<char>::empty()) by {
                if j < n {
                    assert(cs@.skip(j as int)[0] == cs@[j as int]);
                }
            }
            assert(sub@ + Seq::<char>::empty() =~= sub@);
            return Some((k, string_of(sub.as_slice())));
        }
        i = i + 1;
    }
    None
}

// ─────────────────────────── luminosity class ───────────────────────────

/// The luminosity-class numerals tried in turn, longest first so that
/// "III" wins over "II" and "I".
#[verifier::opaque]
pub open spec fn lum_pattern(k: int) -> Seq<char> {
    if k == 0 {
        seq!['V', 'I', 'I', 'I']
    } else if k == 1 {
        seq!['V', 'I', 'I']
    } else if k == 2 {
        seq!['V', 'I']
    } else if k == 3 {
        seq!['I', 'I', 'I']
    } else if k == 4 {
        seq!['I', 'V']
    } else if k == 5 {
        seq!['I', 'a', 'b']
    } else if k == 6 {
        seq!['I', 'a']
    } else if k == 7 {
        seq!['I', 'b']
    } else if k == 8 {
        seq!['I', 'I']
    } else if k == 9 {
        seq!['V']
    } else {
        seq!['I']
    }
}

pub open spec fn lum_pattern_count() -> int {
    11
}

/// The luminosity class found by trying the numerals from the `k`-th on:
/// a numeral counts at its first occurrence unless another 'I' or 'V'
/// follows it there.
pub open spec fn lum_class_from(s: Seq<char>, k: int) -> Seq<char>
    decreases lum_pattern_count() - k,
{
    if k < 0 || k >= lum_pattern_count() {
        Seq::empty()
    } else {
        match first_occurrence(s, lum_pattern(k)) {
            Some(p) => {
                let after = p + lum_pattern(k).len();
                if after < s.len() && (s[after] == 'I' || s[after] == 'V') {
                    lum_class_from(s, k + 1)
                } else {
                    lum_pattern(k)
                }
            },
            None => lum_class_from(s, k + 1),
        }
    }
}

/// The luminosity class named in a spectral type ("B8Ia" → "Ia"), or the
/// empty text when it names none.
pub open spec fn luminosity_class_of(s: Seq<char>) -> Seq<char> {
    lum_class_from(s, 0)
}

fn lum_pattern_chars(k: usize) -> (p: Vec<char>)
    requires
        k < 11,
    ensures
        p@ == lum_pattern(k as int),
{
    reveal(lum_pattern);
    if k == 0 {
        vec!['V', 'I', 'I', 'I']
    } else if k == 1 {
        vec!['V', 'I', 'I']
    } else if k == 2 {
        vec!['V', 'I']
    } else if k == 3 {
        vec!['I', 'I', 'I']
    } else if k == 4 {
        vec!['I', 'V']
    } else if k == 5 {
        vec!['I', 'a', 'b']
    } else if k == 6 {
        vec!['I', 'a']
    } else if k == 7 {
        vec!['I', 'b']
    } else if k == 8 {
        vec!['I', 'I']
    } else if k == 9 {
        vec!['V']
    } else {
        vec!['I']
    }
}

/// Tries the `k`-th numeral: `Some` with the class when it decides.
fn lum_class_step(cs: &[char], k: usize) -> (r: Option<Vec<char>>)
    requires
        k < 11,
    ensures
        r matches Some(p) ==> lum_class_from(cs@, k as int) == p@,
        r is None ==> lum_class_from(cs@, k as int) == lum_class_from(cs@, k + 1),
{
    let pat = lum_pattern_chars(k);
    let n = cs.len();
    let found = find_chars(cs, pat.as_slice());
    match found {
        Some(p) => {
            assert(p + pat@.len() <= n);
            let after = p + pat.len();
            let blocked = after < cs.len() && (cs[after] == 'I' || cs[after] == 'V');
            if blocked {
                None
            } else {
                Some(pat)
            }
        },
        None => None,
    }
}

/// Luminosity class out of a spectral type string ("B8Ia" → "Ia").
pub fn luminosity_class(spectral: &str) -> (lc: String)
    ensures
        lc@ == luminosity_class_of(spectral@),
{
    let cs = chars_of(spectral);
    let mut k: usize = 0;
    while k < 11
        invariant
            k <= 11,
            cs@ == spectral@,
            luminosity_class_of(cs@) == lum_class_from(cs@, k as int),
        decreases 11 - k,
    {
        if let Some(pat) = lum_class_step(cs.as_slice(), k) {
            return string_of(pat.as_slice());
        }
        k = k + 1;
    }
    String::new()
}

/// A numeral stands in a spectral type when, at its first occurrence, no
/// further 'I' or 'V' follows it.
pub open spec fn numeral_stands(s: Seq<char>, p: Seq<char>) -> bool {
    exists|i: int|
        #![trigger occurs_at(s, p, i)]
        occurs_at(s, p, i) && (forall|j: int| 0 <= j < i ==> !occurs_at(s, p, j)) && !(i + p.len() < s.len() && (
        s[i + p.len()] == 'I' || s[i + p.len()] == 'V'))
}

proof fn lemma_first_occurrence(s: Seq<char>, p: Seq<char>)
    ensures
        match first_occurrence(s, p) {
            Some(i) => occurs_at(s, p, i) && forall|j: int| 0 <= j < i ==> !occurs_at(s, p, j),
            None => forall|i: int| !occurs_at(s, p, i),
        },
{
    reveal(first_occurrence);
    if contains_seq(s, p) {
        let w = choose|i: int| occurs_at(s, p, i);
        lemma_least_occurrence(s, p, w);
    }
}

proof fn lemma_least_occurrence(s: Seq<char>, p: Seq<char>, w: int)
    requires
        occurs_at(s, p, w),
    ensures
        exists|i: int| occurs_at(s, p, i) && forall|j: int| 0 <= j < i ==> !occurs_at(s, p, j),
    decreases w,
{
    if exists|j: int| 0 <= j < w && occurs_at(s, p, j) {
        let j = choose|j: int| 0 <= j < w && occurs_at(s, p, j);
        lemma_least_occurrence(s, p, j);
    } else {
        assert(occurs_at(s, p, w) && forall|j: int| 0 <= j < w ==> !occurs_at(s, p, j));
    }
}

proof fn lemma_lum_step(s: Seq<char>, k: int)
    requires
        0 <= k < 11,
    ensures
        lum_class_from(s, k) == (if numeral_stands(s, lum_pattern(k)) {
            lum_pattern(k)
        } else {
            lum_class_from(s, k + 1)
        }),
{
    let p = lum_pattern(k);
    lemma_first_occurrence(s, p);
    match first_occurrence(s, p) {
        Some(i) => {
            if numeral_stands(s, p) {
                let w = choose|w: int|
                    #![trigger occurs_at(s, p, w)]
                    occurs_at(s, p, w) && (forall|j: int| 0 <= j < w ==> !occurs_at(s, p, j)) && !(w + p.len()
                        < s.len() && (s[w + p.len()] == 'I' || s[w + p.len()] == 'V'));
                assert(w == i) by {
                    if w < i {
                        assert(!occurs_at(s, p, w));
                    } else if i < w {
                        assert(!occurs_at(s, p, i));
                    }
                }
            } else {
                assert(!(!(i + p.len() < s.len() && (s[i + p.len()] == 'I' || s[i + p.len()] == 'V'))));
            }
        },
        None => {
            if numeral_stands(s, p) {
                let w = choose|w: int|
                    #![trigger occurs_at(s, p, w)]
                    occurs_at(s, p, w) && (forall|j: int| 0 <= j < w ==> !occurs_at(s, p, j)) && !(w + p.len()
                        < s.len() && (s[w + p.len()] == 'I' || s[w + p.len()] == 'V'));
                assert(occurs_at(s, p, w));
            }
        },
    }
}

proof fn lemma_lum_skip(s: Seq<char>, j: int, k: int)
    requires
        0 <= j <= k < 11,
        forall|m: int| j <= m < k ==> !numeral_stands(s, #[trigger] lum_pattern(m)),
    ensures
        lum_class_from(s, j) == lum_class_from(s, k),
    decreases k - j,
{
    if j < k {
        lemma_lum_step(s, j);
        assert(!numeral_stands(s, lum_pattern(j)));
        lemma_lum_skip(s, j + 1, k);
    }
}

/// The luminosity-class numerals in the order they are tried: VIII, VII,
/// VI, III, IV, Iab, Ia, Ib, II, V, I.
pub open spec fn numerals_in_order() -> Seq<Seq<char>> {
    seq![
        seq!['V', 'I', 'I', 'I'], seq!['V', 'I', 'I'], seq!['V', 'I'], seq!['I', 'I', 'I'],
        seq!['I', 'V'], seq!['I', 'a', 'b'], seq!['I', 'a'], seq!['I', 'b'], seq!['I', 'I'],
        seq!['V'], seq!['I'],
    ]
}

/// The luminosity class is the first of the numerals VIII, VII, VI, III,
/// IV, Iab, Ia, Ib, II, V, I, tried in that order, that stands in the
/// spectral type (no further 'I' or 'V' after its first occurrence); the
/// empty text when none does.
pub proof fn law_luminosity_class(s: Seq<char>)
    ensures
        forall|k: int|
            0 <= k < 11 && numeral_stands(s, #[trigger] numerals_in_order()[k]) && (forall|j: int|
                0 <= j < k ==> !numeral_stands(s, numerals_in_order()[j])) ==> luminosity_class_of(s)
                == numerals_in_order()[k],
        (forall|k: int| 0 <= k < 11 ==> !numeral_stands(s, #[trigger] numerals_in_order()[k]))
            ==> luminosity_class_of(s).len() == 0,
{
    let l = numerals_in_order();
    assert forall|k: int| 0 <= k < 11 implies #[trigger] lum_pattern(k) == l[k] by {
        reveal(lum_pattern);
    }
    assert forall|k: int|
        0 <= k < 11 && numeral_stands(s, #[trigger] l[k]) && (forall|j: int| 0 <= j < k ==> !numeral_stands(s, l[j]))
        implies luminosity_class_of(s) == l[k] by {
        assert forall|m: int| 0 <= m < k implies !numeral_stands(s, #[trigger] lum_pattern(m)) by {
            assert(lum_pattern(m) == l[m]);
        }
        lemma_lum_skip(s, 0, k);
        lemma_lum_step(s, k);
        assert(lum_pattern(k) == l[k]);
    }
    if forall|k: int| 0 <= k < 11 ==> !numeral_stands(s, #[trigger] l[k]) {
        assert forall|m: int| 0 <= m < 10 implies !numeral_stands(s, #[trigger] lum_pattern(m)) by {
            assert(lum_pattern(m) == l[m]);
        }
        lemma_lum_skip(s, 0, 10);
        lemma_lum_step(s, 10);
        assert(lum_pattern(10) == l[10]);
        assert(!numeral_stands(s, l[10]));
    }
}

/// The coarse group a luminosity class falls in: 0 supergiant, 1 bright
/// giant, 2 giant, 3 subgiant, 4 main sequence, 5 subdwarf, 6 white dwarf,
/// 7 unknown.
pub open spec fn lum_group_of(lc: Seq<char>) -> usize {
    if lc == seq!['I', 'a'] || lc == seq!['I', 'a', 'b'] || lc == seq!['I', 'b'] || lc == seq!['I'] {
        0
    } else if lc == seq!['I', 'I'] {
        1
    } else if lc == seq!['I', 'I', 'I'] {
        2
    } else if lc == seq!['I', 'V'] {
        3
    } else if lc == seq!['V'] {
        4
    } else if lc == seq!['V', 'I'] {
        5
    } else if lc == seq!['V', 'I', 'I'] || lc == seq!['V', 'I', 'I', 'I'] {
        6
    } else {
        7
    }
}

/// Coarse grouping of luminosity class for coloring and labels.
pub fn lum_class_group(lc: &str) -> (g: usize)
    ensures
        g == lum_group_of(lc@),
        g < 8,
{
    let cs = chars_of(lc);
    let c = cs.as_slice();
    let ia: Vec<char> = vec!['I', 'a'];
    assert(ia@ == seq!['I', 'a']);
    let iab: Vec<char> = vec!['I', 'a', 'b'];
    assert(iab@ == seq!['I', 'a', 'b']);
    let ib: Vec<char> = vec!['I', 'b'];
    assert(ib@ == seq!['I', 'b']);
    let i1: Vec<char> = vec!['I'];
    assert(i1@ == seq!['I']);
    let ii: Vec<char> = vec!['I', 'I'];
    assert(ii@ == seq!['I', 'I']);
    let iii: Vec<char> = vec!['I', 'I', 'I'];
    assert(iii@ == seq!['I', 'I', 'I']);
    let iv: Vec<char> = vec!['I', 'V'];
    assert(iv@ == seq!['I', 'V']);
    let v: Vec<char> = vec!['V'];
    assert(v@ == seq!['V']);
    let vi: Vec<char> = vec!['V', 'I'];
    assert(vi@ == seq!['V', 'I']);
    let vii: Vec<char> = vec!['V', 'I', 'I'];
    assert(vii@ == seq!['V', 'I', 'I']);
    let viii: Vec<char> = vec!['V', 'I', 'I', 'I'];
    assert(viii@ == seq!['V', 'I', 'I', 'I']);
    if same_chars(c, ia.as_slice()) || same_chars(c, iab.as_slice()) || same_chars(c, ib.as_slice())
        || same_chars(c, i1.as_slice()) {
        0
    } else if same_chars(c, ii.as_slice()) {
        1
    } else if same_chars(c, iii.as_slice()) {
        2
    } else if same_chars(c, iv.as_slice()) {
        3
    } else if same_chars(c, v.as_slice()) {
        4
    } else if same_chars(c, vi.as_slice()) {
        5
    } else if same_chars(c, vii.as_slice()) || same_chars(c, viii.as_slice()) {
        6
    } else {
        7
    }
}

} // verus!
