//! Building the catalog: the columns of the HYG star catalog, the rows
//! worth keeping, and the addresses and queries the build sends out.

use vstd::prelude::*;

use vstd::string::StringSliceAdditionalSpecFns;
use vstd::utf8::{encode_scalar, encode_utf8, has_width_1_encoding, has_width_2_encoding, has_width_3_encoding, is_ascii_chars, is_ascii_chars_encode_utf8};

use crate::csv::{csv_fields, csv_split, views};
use crate::data::{luminosity_class, luminosity_class_of};
use crate::text::{
    chars_of, decimal_of, first_index_of, lemma_first_index_absent, lemma_first_index_found, push_all,
    same_chars, strip_chars, stripped, trim, trimmed, Strip,
};

verus! {

broadcast use vstd::string::group_string_axioms;

/// The column names of the catalog's header line, with their quotes
/// stripped.
pub open spec fn header_of(line: Seq<char>) -> Seq<Seq<char>> {
    csv_fields(line).map_values(|f: Seq<char>| stripped(f, Strip::Quotes))
}

/// Where the columns the catalog build reads sit in a header line.
pub struct HygColumns {
    pub proper: usize,
    pub dist: usize,
    pub mag: usize,
    pub absmag: usize,
    pub spect: usize,
    pub ci: usize,
    pub bf: Option<usize>,
    pub con: Option<usize>,
    pub hip: Option<usize>,
    pub hd: Option<usize>,
    /// How many columns the header names.
    pub width: usize,
}

pub open spec fn opt_index(o: Option<usize>) -> Option<int> {
    match o {
        Some(i) => Some(i as int),
        None => None,
    }
}

/// The error that the first missing required column gives, if any.
pub open spec fn missing_column(h: Seq<Seq<char>>) -> Option<Seq<char>> {
    if first_index_of(h, "proper"@) is None {
        Some("hyg: no proper column"@)
    } else if first_index_of(h, "dist"@) is None {
        Some("hyg: no dist column"@)
    } else if first_index_of(h, "mag"@) is None {
        Some("hyg: no mag column"@)
    } else if first_index_of(h, "absmag"@) is None {
        Some("hyg: no absmag column"@)
    } else if first_index_of(h, "spect"@) is None {
        Some("hyg: no spect column"@)
    } else if first_index_of(h, "ci"@) is None {
        Some("hyg: no ci column"@)
    } else {
        None
    }
}

impl HygColumns {
    /// Each column is the first one of its name in `h`.
    pub open spec fn located_in(self, h: Seq<Seq<char>>) -> bool {
        &&& self.width == h.len()
        &&& first_index_of(h, "proper"@) == Some(self.proper as int)
        &&& first_index_of(h, "dist"@) == Some(self.dist as int)
        &&& first_index_of(h, "mag"@) == Some(self.mag as int)
        &&& first_index_of(h, "absmag"@) == Some(self.absmag as int)
        &&& first_index_of(h, "spect"@) == Some(self.spect as int)
        &&& first_index_of(h, "ci"@) == Some(self.ci as int)
        &&& first_index_of(h, "bf"@) == opt_index(self.bf)
        &&& first_index_of(h, "con"@) == opt_index(self.con)
        &&& first_index_of(h, "hip"@) == opt_index(self.hip)
        &&& first_index_of(h, "hd"@) == opt_index(self.hd)
    }

    /// Finds the columns in the catalog's header line. Fails, naming the
    /// first missing one, when a required column is absent.
    pub fn locate(header_line: &str) -> (r: Result<HygColumns, String>)
        ensures
            r is Ok <==> missing_column(header_of(header_line@)) is None,
            r matches Ok(c) ==> c.located_in(header_of(header_line@)),
            r matches Err(e) ==> missing_column(header_of(header_line@)) == Some(e@),
    {
        let raw = csv_split(header_line);
        let mut header: Vec<Vec<char>> = Vec::new();
        let ghost h = header_of(header_line@);
        let n = raw.len();
        let mut i: usize = 0;
        while i < n
            invariant
                i <= n,
                n == raw@.len(),
                views(raw@) == csv_fields(header_line@),
                h == header_of(header_line@),
                header@.len() == i,
                forall|k: int| 0 <= k < i ==> (#[trigger] header@[k])@ == h[k],
            decreases n - i,
        {
            let cs = chars_of(raw[i].as_str());
            assert(cs@ == csv_fields(header_line@)[i as int]);
            let field = strip_chars(cs.as_slice(), Strip::Quotes);
            header.push(field);
            i = i + 1;
        }
        assert(h.len() == n);
        let proper = column(&header, &chars_of("proper"), Ghost(h));
        let dist = column(&header, &chars_of("dist"), Ghost(h));
        let mag = column(&header, &chars_of("mag"), Ghost(h));
        let absmag = column(&header, &chars_of("absmag"), Ghost(h));
        let spect = column(&header, &chars_of("spect"), Ghost(h));
        let ci = column(&header, &chars_of("ci"), Ghost(h));
        let bf = column(&header, &chars_of("bf"), Ghost(h));
        let con = column(&header, &chars_of("con"), Ghost(h));
        let hip = column(&header, &chars_of("hip"), Ghost(h));
        let hd = column(&header, &chars_of("hd"), Ghost(h));
        let proper = match proper {
            Some(c) => c,
            None => return Err("hyg: no proper column".to_string()),
        };
        let dist = match dist {
            Some(c) => c,
            None => return Err("hyg: no dist column".to_string()),
        };
        let mag = match mag {
            Some(c) => c,
            None => return Err("hyg: no mag column".to_string()),
        };
        let absmag = match absmag {
            Some(c) => c,
            None => return Err("hyg: no absmag column".to_string()),
        };
        let spect = match spect {
            Some(c) => c,
            None => return Err("hyg: no spect column".to_string()),
        };
        let ci = match ci {
            Some(c) => c,
            None => return Err("hyg: no ci column".to_string()),
        };
        Ok(HygColumns { proper, dist, mag, absmag, spect, ci, bf, con, hip, hd, width: n })
    }
}

/// The first column of `header` named `name`.
fn column(header: &Vec<Vec<char>>, name: &Vec<char>, Ghost(h): Ghost<Seq<Seq<char>>>) -> (r: Option<usize>)
    requires
        header@.len() == h.len(),
        forall|k: int| 0 <= k < h.len() ==> (#[trigger] header@[k])@ == h[k],
    ensures
        opt_index(r) == first_index_of(h, name@),
{
    let n = header.len();
    let mut i: usize = 0;
    while i < n
        invariant
            i <= n,
            n == h.len(),
            header@.len() == h.len(),
            forall|k: int| 0 <= k < h.len() ==> (#[trigger] header@[k])@ == h[k],
            forall|j: int| 0 <= j < i ==> h[j] != name@,
        decreases n - i,
    {
        if same_chars(header[i].as_slice(), name.as_slice()) {
            proof {
                lemma_first_index_found(h, name@, i as int);
            }
            return Some(i);
        }
        i = i + 1;
    }
    proof {
        lemma_first_index_absent(h, name@);
    }
    None
}

/// The text of one catalog row that the build keeps, field by field. The
/// numeric fields are left as written; reading them as numbers is left to
/// the caller.
pub struct HygRow {
    pub name: String,
    pub designation: String,
    pub constellation: String,
    pub hip: String,
    pub hd: String,
    pub spectral: String,
    pub lum_class: String,
    pub dist: String,
    pub mag: String,
    pub absmag: String,
    pub color_index: String,
}

/// An optional column's text in a row: trimmed, or empty when the column
/// is absent.
pub open spec fn optional_field(f: Seq<Seq<char>>, c: Option<usize>) -> Seq<char> {
    match c {
        Some(i) => if i < f.len() {
            trimmed(f[i as int])
        } else {
            Seq::empty()
        },
        None => Seq::empty(),
    }
}

impl HygColumns {
    /// Every required column lies within a row of `n` fields.
    pub open spec fn fits(self, n: int) -> bool {
        self.proper < n && self.dist < n && self.mag < n && self.absmag < n && self.spect < n
            && self.ci < n
    }

    /// Whether a row with these fields is kept: it is as wide as the header
    /// and names its star.
    pub open spec fn keeps(self, f: Seq<Seq<char>>) -> bool {
        f.len() >= self.width && self.fits(f.len() as int) && trimmed(f[self.proper as int]).len() > 0
    }

    /// What the build reads from one catalog line: `None` for a row that is
    /// narrower than the header or has no proper name.
    pub fn row(&self, line: &str) -> (r: Option<HygRow>)
        ensures
            r is Some <==> self.keeps(csv_fields(line@)),
            r matches Some(row) ==> {
                let f = csv_fields(line@);
                &&& row.name@ == trimmed(f[self.proper as int])
                &&& row.designation@ == optional_field(f, self.bf)
                &&& row.constellation@ == optional_field(f, self.con)
                &&& row.hip@ == optional_field(f, self.hip)
                &&& row.hd@ == optional_field(f, self.hd)
                &&& row.spectral@ == trimmed(f[self.spect as int])
                &&& row.lum_class@ == luminosity_class_of(trimmed(f[self.spect as int]))
                &&& row.dist@ == f[self.dist as int]
                &&& row.mag@ == f[self.mag as int]
                &&& row.absmag@ == f[self.absmag as int]
                &&& row.color_index@ == f[self.ci as int]
            },
    {
        let f = csv_split(line);
        let ghost fs = csv_fields(line@);
        assert(views(f@).len() == f@.len());
        let n = f.len();
        if n < self.width {
            return None;
        }
        if !(self.proper < n && self.dist < n && self.mag < n && self.absmag < n && self.spect < n
            && self.ci < n) {
            return None;
        }
        assert(f@[self.proper as int]@ == fs[self.proper as int]);
        let name = trim(f[self.proper].as_str());
        if name.as_str().is_empty() {
            return None;
        }
        assert(f@[self.spect as int]@ == fs[self.spect as int]);
        assert(f@[self.dist as int]@ == fs[self.dist as int]);
        assert(f@[self.mag as int]@ == fs[self.mag as int]);
        assert(f@[self.absmag as int]@ == fs[self.absmag as int]);
        assert(f@[self.ci as int]@ == fs[self.ci as int]);
        let spectral = trim(f[self.spect].as_str());
        let lum_class = luminosity_class(spectral.as_str());
        Some(HygRow {
            name,
            designation: optional(&f, self.bf, Ghost(fs)),
            constellation: optional(&f, self.con, Ghost(fs)),
            hip: optional(&f, self.hip, Ghost(fs)),
            hd: optional(&f, self.hd, Ghost(fs)),
            spectral,
            lum_class,
            dist: f[self.dist].clone(),
            mag: f[self.mag].clone(),
            absmag: f[self.absmag].clone(),
            color_index: f[self.ci].clone(),
        })
    }
}

fn optional(f: &Vec<String>, c: Option<usize>, Ghost(fs): Ghost<Seq<Seq<char>>>) -> (out: String)
    requires
        views(f@) == fs,
    ensures
        out@ == optional_field(fs, c),
{
    match c {
        Some(i) => {
            if i < f.len() {
                assert(f@[i as int]@ == fs[i as int]);
                trim(f[i].as_str())
            } else {
                String::new()
            }
        },
        None => String::new(),
    }
}

// ───────────────────────────── addresses ─────────────────────────────

/// The bytes a URL carries as they are: letters, digits and `-_.~`.
pub open spec fn is_unreserved(b: u8) -> bool {
    (65 <= b && b <= 90) || (97 <= b && b <= 122) || (48 <= b && b <= 57) || b == 45 || b == 95
        || b == 46 || b == 126
}

/// An upper-case hexadecimal digit.
pub open spec fn hex_digit(n: u8) -> char {
    (if n < 10 {
        (48 + n) as u8
    } else {
        (55 + n) as u8
    }) as char
}

/// How one byte is written in a URL: as itself, or as `%` and two
/// upper-case hexadecimal digits.
pub open spec fn url_byte(b: u8) -> Seq<char> {
    if is_unreserved(b) {
        seq![b as char]
    } else {
        seq!['%', hex_digit(b / 16), hex_digit(b % 16)]
    }
}

/// The percent-encoding of a sequence of bytes.
pub open spec fn url_encoded(bs: Seq<u8>) -> Seq<char>
    decreases bs.len(),
{
    if bs.len() == 0 {
        Seq::empty()
    } else {
        url_encoded(bs.drop_last()) + url_byte(bs.last())
    }
}

fn hex_char(n: u8) -> (c: char)
    requires
        n < 16,
    ensures
        c == hex_digit(n),
{
    let d: u8 = if n < 10 {
        48 + n
    } else {
        55 + n
    };
    d as char
}

/// Percent-encodes the UTF-8 bytes of `s` for use in a URL.
pub fn urlencode(s: &str) -> (out: String)
    ensures
        out@ == url_encoded(s.spec_bytes()),
{
    let bytes = s.as_bytes();
    let mut out = String::new();
    let n = bytes.len();
    let mut i: usize = 0;
    while i < n
        invariant
            i <= n,
            n == bytes@.len(),
            out@ == url_encoded(bytes@.take(i as int)),
        decreases n - i,
    {
        let b = bytes[i];
        assert(bytes@.take(i + 1).drop_last() =~= bytes@.take(i as int));
        if (65 <= b && b <= 90) || (97 <= b && b <= 122) || (48 <= b && b <= 57) || b == 45 || b == 95
            || b == 46 || b == 126 {
            out.push(b as char);
        } else {
            out.push('%');
            out.push(hex_char(b / 16));
            out.push(hex_char(b % 16));
        }
        i = i + 1;
    }
    assert(bytes@.take(n as int) =~= bytes@);
    out
}

/// A character a URL carries as it is: a letter, a digit or one of `-_.~`.
pub open spec fn is_unreserved_char(c: char) -> bool {
    ('A' <= c && c <= 'Z') || ('a' <= c && c <= 'z') || ('0' <= c && c <= '9') || c == '-' || c == '_'
        || c == '.' || c == '~'
}

/// An upper-case hexadecimal digit character.
pub open spec fn is_upper_hex(c: char) -> bool {
    ('0' <= c && c <= '9') || ('A' <= c && c <= 'F')
}

/// The value of a hexadecimal digit character.
pub open spec fn hex_value(c: char) -> int {
    if '0' <= c && c <= '9' {
        c as int - 48
    } else {
        c as int - 55
    }
}

/// Well-formed percent-encoded text: every character is unreserved or a
/// `%`, and every `%` is followed by two upper-case hexadecimal digits.
pub open spec fn is_percent_encoded(s: Seq<char>) -> bool {
    &&& forall|i: int| 0 <= i < s.len() ==> is_unreserved_char(#[trigger] s[i]) || s[i] == '%'
    &&& forall|i: int|
        0 <= i < s.len() && #[trigger] s[i] == '%' ==> i + 2 < s.len() && is_upper_hex(s[i + 1]) && is_upper_hex(
            s[i + 2],
        )
}

/// Percent-decoding: `%XX` gives the byte `XX`, any other character the
/// byte of its code.
pub open spec fn url_decoded(s: Seq<char>) -> Seq<u8>
    decreases s.len(),
{
    if s.len() == 0 {
        Seq::empty()
    } else if s[0] == '%' && s.len() >= 3 {
        seq![(hex_value(s[1]) * 16 + hex_value(s[2])) as u8] + url_decoded(s.subrange(3, s.len() as int))
    } else {
        seq![s[0] as u8] + url_decoded(s.subrange(1, s.len() as int))
    }
}

proof fn lemma_url_byte(b: u8)
    ensures
        is_percent_encoded(url_byte(b)),
        url_byte(b).len() >= 1,
        url_byte(b).len() == 1 <==> is_unreserved(b),
        url_byte(b)[0] == '%' <==> !is_unreserved(b),
        is_unreserved(b) ==> url_byte(b) == seq![b as char] && (b as char) as u8 == b,
        !is_unreserved(b) ==> url_byte(b).len() == 3 && hex_value(url_byte(b)[1]) * 16 + hex_value(url_byte(b)[2])
            == b,
{
    let s = url_byte(b);
    if !is_unreserved(b) {
        let hi = b / 16;
        let lo = b % 16;
        assert(s[1] == hex_digit(hi) && s[2] == hex_digit(lo));
        assert(hex_value(hex_digit(hi)) == hi);
        assert(hex_value(hex_digit(lo)) == lo);
        assert(hi * 16 + lo == b);
    }
}

proof fn lemma_url_encoded_front(b: u8, rest: Seq<u8>)
    ensures
        url_encoded(seq![b] + rest) == url_byte(b) + url_encoded(rest),
    decreases rest.len(),
{
    if rest.len() == 0 {
        let one = seq![b] + rest;
        assert(one.drop_last() =~= Seq::<u8>::empty());
        assert(one.last() == b);
        assert(url_encoded(one) == url_encoded(one.drop_last()) + url_byte(b));
        assert(url_encoded(one.drop_last()) == Seq::<char>::empty());
        assert(url_encoded(one) =~= url_byte(b));
        assert(url_byte(b) + url_encoded(rest) =~= url_byte(b));
    } else {
        lemma_url_encoded_front(b, rest.drop_last());
        assert((seq![b] + rest).drop_last() =~= seq![b] + rest.drop_last());
        assert((seq![b] + rest).last() == rest.last());
        assert(url_byte(b) + url_encoded(rest) =~= url_byte(b) + url_encoded(rest.drop_last()) + url_byte(
            rest.last(),
        ));
    }
}

proof fn lemma_url_encoded_well_formed(bs: Seq<u8>)
    ensures
        is_percent_encoded(url_encoded(bs)),
        url_encoded(bs).len() >= bs.len(),
        (exists|i: int| 0 <= i < bs.len() && !is_unreserved(#[trigger] bs[i])) ==> url_encoded(bs).len() > bs.len(),
        (forall|i: int| 0 <= i < bs.len() ==> is_unreserved(#[trigger] bs[i])) ==> url_encoded(bs) == bs.map_values(
            |b: u8| b as char,
        ),
    decreases bs.len(),
{
    if bs.len() > 0 {
        let init = bs.drop_last();
        let b = bs.last();
        lemma_url_encoded_well_formed(init);
        lemma_url_byte(b);
        let a = url_encoded(init);
        let c = url_byte(b);
        let s = a + c;
        assert(url_encoded(bs) == s);
        assert forall|i: int| 0 <= i < s.len() implies is_unreserved_char(#[trigger] s[i]) || s[i] == '%' by {
            if i < a.len() {
                assert(s[i] == a[i]);
            } else {
                assert(s[i] == c[i - a.len()]);
            }
        }
        assert forall|i: int| 0 <= i < s.len() && #[trigger] s[i] == '%' implies i + 2 < s.len() && is_upper_hex(
            s[i + 1],
        ) && is_upper_hex(s[i + 2]) by {
            if i < a.len() {
                assert(s[i] == a[i]);
                assert(s[i + 1] == a[i + 1] && s[i + 2] == a[i + 2]);
            } else {
                assert(s[i] == c[i - a.len()]);
                assert(s[i + 1] == c[i + 1 - a.len()] && s[i + 2] == c[i + 2 - a.len()]);
            }
        }
        if exists|i: int| 0 <= i < bs.len() && !is_unreserved(#[trigger] bs[i]) {
            let i = choose|i: int| 0 <= i < bs.len() && !is_unreserved(#[trigger] bs[i]);
            if i < init.len() {
                assert(init[i] == bs[i]);
            }
        }
        if forall|i: int| 0 <= i < bs.len() ==> is_unreserved(#[trigger] bs[i]) {
            assert forall|i: int| 0 <= i < init.len() implies is_unreserved(#[trigger] init[i]) by {
                assert(init[i] == bs[i]);
            }
            assert(is_unreserved(bs[bs.len() - 1]));
            assert(s =~= bs.map_values(|b: u8| b as char));
        }
    }
}

proof fn lemma_url_decoded(bs: Seq<u8>)
    ensures
        url_decoded(url_encoded(bs)) == bs,
    decreases bs.len(),
{
    if bs.len() > 0 {
        let b = bs[0];
        let rest = bs.drop_first();
        assert(bs =~= seq![b] + rest);
        lemma_url_encoded_front(b, rest);
        lemma_url_decoded(rest);
        lemma_url_byte(b);
        let c = url_byte(b);
        let s = c + url_encoded(rest);
        assert(url_encoded(bs) == s);
        assert(s[0] == c[0]);
        if is_unreserved(b) {
            assert(s.subrange(1, s.len() as int) =~= url_encoded(rest));
        } else {
            assert(s[1] == c[1] && s[2] == c[2]);
            assert(s.subrange(3, s.len() as int) =~= url_encoded(rest));
        }
        assert(url_decoded(s) =~= seq![b] + rest);
    }
}

proof fn lemma_utf8_len(cs: Seq<char>)
    ensures
        encode_utf8(cs).len() >= cs.len(),
    decreases cs.len(),
{
    if cs.len() > 0 {
        lemma_utf8_len(cs.drop_first());
    }
}

proof fn lemma_utf8_ascii(cs: Seq<char>)
    requires
        forall|i: int| 0 <= i < encode_utf8(cs).len() ==> #[trigger] encode_utf8(cs)[i] < 128,
    ensures
        is_ascii_chars(cs),
    decreases cs.len(),
{
    if cs.len() > 0 {
        let v = cs[0] as u32;
        let head = encode_scalar(v);
        let rest = encode_utf8(cs.drop_first());
        assert(encode_utf8(cs) == head + rest);
        assert(encode_utf8(cs)[0] == head[0]);
        if !has_width_1_encoding(v) {
            let x: u8 = head[0];
            if has_width_2_encoding(v) {
                let y: u8 = ((v >> 6) & 0x1F) as u8;
                assert(0xC0u8 | y >= 0x80) by (bit_vector);
            } else if has_width_3_encoding(v) {
                let y: u8 = ((v >> 12) & 0x0F) as u8;
                assert(0xE0u8 | y >= 0x80) by (bit_vector);
            } else {
                let y: u8 = ((v >> 18) & 0x7) as u8;
                assert(0xF0u8 | y >= 0x80) by (bit_vector);
            }
            assert(x >= 128);
        }
        assert(head.len() >= 1);
        assert(encode_utf8(cs)[0] < 128);
        assert(has_width_1_encoding(v));
        vstd::utf8::char_u32_cast(cs[0], v);
        assert(cs[0] == v as char);
        assert((v as char) as int == v as int);
        assert(cs[0] as int <= 0x7f);
        assert(cs[0] <= '\u{7f}');
        assert forall|i: int| 0 <= i < rest.len() implies #[trigger] rest[i] < 128 by {
            assert(encode_utf8(cs)[head.len() + i] == rest[i]);
        }
        lemma_utf8_ascii(cs.drop_first());
        assert forall|i: int| 0 <= i < cs.len() implies '\0' <= #[trigger] cs[i] <= '\u{7f}' by {
            if i > 0 {
                assert(cs[i] == cs.drop_first()[i - 1]);
            }
        }
    }
}

/// What `urlencode` makes of a text: well-formed percent-encoded text (only
/// letters, digits, `-_.~`, and `%` followed by two upper-case hexadecimal
/// digits), which decodes back to the text's UTF-8 bytes, and which is the
/// text itself exactly when every byte of the text is a letter, a digit or
/// one of `-_.~`.
pub proof fn law_url_encoding(s: &str)
    ensures
        is_percent_encoded(url_encoded(s.spec_bytes())),
        url_decoded(url_encoded(s.spec_bytes())) == s.spec_bytes(),
        url_encoded(s.spec_bytes()) == s@ <==> forall|i: int|
            0 <= i < s.spec_bytes().len() ==> is_unreserved(#[trigger] s.spec_bytes()[i]),
{
    let bs = s.spec_bytes();
    let cs = s@;
    lemma_url_encoded_well_formed(bs);
    lemma_url_decoded(bs);
    lemma_utf8_len(cs);
    if forall|i: int| 0 <= i < bs.len() ==> is_unreserved(#[trigger] bs[i]) {
        assert forall|i: int| 0 <= i < encode_utf8(cs).len() implies #[trigger] encode_utf8(cs)[i] < 128 by {
            assert(is_unreserved(bs[i]));
        }
        lemma_utf8_ascii(cs);
        is_ascii_chars_encode_utf8(cs);
        assert forall|i: int| 0 <= i < cs.len() implies #[trigger] cs[i] == bs.map_values(|b: u8| b as char)[i] by {
            assert(cs[i] as u8 == bs[i]);
            assert(cs[i] as u32 <= 0x7f);
        }
        assert(url_encoded(bs) =~= cs);
    }
}

/// `s` with every space turned into an underscore.
pub open spec fn underscored(s: Seq<char>) -> Seq<char> {
    s.map_values(|c: char| if c == ' ' { '_' } else { c })
}

/// The address of a Wikipedia article, from its title.
pub open spec fn article_url_of(title: Seq<char>) -> Seq<char> {
    "https://en.wikipedia.org/wiki/"@ + underscored(title)
}

/// The Wikipedia page of an article with the given title, spaces written
/// as underscores.
pub fn article_url(title: &str) -> (url: String)
    ensures
        url@ == article_url_of(title@),
{
    let mut out = String::new();
    push_all(&mut out, chars_of("https://en.wikipedia.org/wiki/").as_slice());
    let cs = chars_of(title);
    let ghost start = out@;
    let n = cs.len();
    let mut i: usize = 0;
    while i < n
        invariant
            i <= n,
            n == cs@.len(),
            cs@ == title@,
            start == "https://en.wikipedia.org/wiki/"@,
            out@ == start + underscored(cs@.take(i as int)),
        decreases n - i,
    {
        let c = cs[i];
        out.push(if c == ' ' { '_' } else { c });
        assert(underscored(cs@.take(i + 1)) =~= underscored(cs@.take(i as int)).push(
            if c == ' ' { '_' } else { c },
        ));
        i = i + 1;
    }
    assert(cs@.take(n as int) =~= cs@);
    out
}

/// The TextExtracts request for the plain-text article on `name`.
pub open spec fn article_request_of(name: &str) -> Seq<char> {
    "https://en.wikipedia.org/w/api.php?action=query&prop=extracts&explaintext=1&redirects=1&format=json&formatversion=2&titles="@
        + url_encoded(name.spec_bytes())
}

/// The address that asks Wikipedia for the full plain-text article on
/// `name`, following redirects.
pub fn article_request(name: &str) -> (url: String)
    ensures
        url@ == article_request_of(name),
{
    let mut out = String::new();
    push_all(
        &mut out,
        chars_of(
            "https://en.wikipedia.org/w/api.php?action=query&prop=extracts&explaintext=1&redirects=1&format=json&formatversion=2&titles=",
        ).as_slice(),
    );
    let encoded = urlencode(name);
    push_all(&mut out, chars_of(encoded.as_str()).as_slice());
    out
}

// ───────────────────────────── the Wikidata query ─────────────────────────────

/// One star name in the query's VALUES list; names holding a double quote
/// or a backslash are left out.
pub open spec fn sparql_value(name: Seq<char>) -> Seq<char> {
    if name.contains('"') || name.contains('\\') {
        Seq::empty()
    } else {
        seq!['"'] + name + "\"@en "@
    }
}

pub open spec fn sparql_values(names: Seq<Seq<char>>) -> Seq<char>
    decreases names.len(),
{
    if names.len() == 0 {
        Seq::empty()
    } else {
        sparql_values(names.drop_last()) + sparql_value(names.last())
    }
}

/// The SPARQL query asking for the measured temperature, luminosity,
/// radius and mass of every named star at once.
pub open spec fn sparql_query_of(names: Seq<Seq<char>>) -> Seq<char> {
    "SELECT ?name ?temp ?lum ?radius ?mass WHERE { VALUES ?name { "@ + sparql_values(names)
        + " } ?s rdfs:label ?name ; wdt:P6879 ?temp . OPTIONAL { ?s wdt:P2060 ?lum } OPTIONAL { ?s wdt:P2120 ?radius } OPTIONAL { ?s wdt:P2067 ?mass } }"@
}

/// One SPARQL query for every star name at once: the names that can be
/// written as literals are listed, the query asks for the ones with a
/// published temperature and whatever luminosity, radius and mass are
/// published beside it.
pub fn sparql_query(names: &Vec<String>) -> (query: String)
    ensures
        query@ == sparql_query_of(views(names@)),
{
    let mut out = String::new();
    push_all(&mut out, chars_of("SELECT ?name ?temp ?lum ?radius ?mass WHERE { VALUES ?name { ").as_slice());
    let ghost start = out@;
    let n = names.len();
    let mut i: usize = 0;
    while i < n
        invariant
            i <= n,
            n == names@.len(),
            start == "SELECT ?name ?temp ?lum ?radius ?mass WHERE { VALUES ?name { "@,
            out@ == start + sparql_values(views(names@.take(i as int))),
        decreases n - i,
    {
        let ghost prev = views(names@.take(i as int));
        let ghost next = views(names@.take(i + 1));
        assert(next.drop_last() =~= prev);
        assert(next.last() == names@[i as int]@);
        let cs = chars_of(names[i].as_str());
        let quote: Vec<char> = vec!['"'];
        let backslash: Vec<char> = vec!['\\'];
        let has_quote = crate::text::contains_chars(cs.as_slice(), quote.as_slice());
        let has_backslash = crate::text::contains_chars(cs.as_slice(), backslash.as_slice());
        proof {
            lemma_contains_char(cs@, '"');
            lemma_contains_char(cs@, '\\');
            assert(quote@ == seq!['"']);
            assert(backslash@ == seq!['\\']);
        }
        if !has_quote && !has_backslash {
            out.push('"');
            push_all(&mut out, cs.as_slice());
            push_all(&mut out, chars_of("\"@en ").as_slice());
            assert(out@ =~= start + sparql_values(prev) + sparql_value(next.last()));
        } else {
            assert(sparql_value(next.last()) == Seq::<char>::empty());
            assert(out@ =~= start + sparql_values(prev) + sparql_value(next.last()));
        }
        i = i + 1;
    }
    assert(names@.take(n as int) =~= names@);
    push_all(
        &mut out,
        chars_of(
            " } ?s rdfs:label ?name ; wdt:P6879 ?temp . OPTIONAL { ?s wdt:P2060 ?lum } OPTIONAL { ?s wdt:P2120 ?radius } OPTIONAL { ?s wdt:P2067 ?mass } }",
        ).as_slice(),
    );
    out
}

/// A character occurs in `s` exactly when the one-character text made of
/// it does.
proof fn lemma_contains_char(s: Seq<char>, c: char)
    ensures
        crate::text::contains_seq(s, seq![c]) == s.contains(c),
{
    if s.contains(c) {
        let i = choose|i: int| 0 <= i < s.len() && s[i] == c;
        assert(s.subrange(i, i + 1) =~= seq![c]);
        assert(crate::text::occurs_at(s, seq![c], i));
    }
    if crate::text::contains_seq(s, seq![c]) {
        let i = choose|i: int| crate::text::occurs_at(s, seq![c], i);
        assert(s.subrange(i, i + 1)[0] == s[i]);
    }
}

// ─────────────────────────── published values ───────────────────────────

/// The values published for one star: effective temperature, luminosity,
/// radius and mass, each when known.
#[derive(Clone, Copy)]
pub struct Measured<T> {
    pub teff: Option<T>,
    pub lum: Option<T>,
    pub radius: Option<T>,
    pub mass: Option<T>,
}

pub open spec fn fill<T>(have: Option<T>, offered: Option<T>) -> Option<T> {
    if have is Some {
        have
    } else {
        offered
    }
}

/// A known value stays; an unknown one takes what the next source offers.
pub open spec fn fill_gaps<T>(have: Measured<T>, offered: Measured<T>) -> Measured<T> {
    Measured {
        teff: fill(have.teff, offered.teff),
        lum: fill(have.lum, offered.lum),
        radius: fill(have.radius, offered.radius),
        mass: fill(have.mass, offered.mass),
    }
}

pub open spec fn entry_names<T>(table: Seq<(Seq<char>, Measured<T>)>) -> Seq<Seq<char>> {
    table.map_values(|e: (Seq<char>, Measured<T>)| e.0)
}

/// Taking in one result row: a row without a star name is skipped; the
/// first row of a star opens its entry, later ones only fill its gaps.
pub open spec fn merge_step<T>(table: Seq<(Seq<char>, Measured<T>)>, row: (Option<Seq<char>>, Measured<T>)) -> Seq<(Seq<char>, Measured<T>)> {
    match row.0 {
        None => table,
        Some(name) => match first_index_of(entry_names(table), name) {
            Some(j) => table.update(j, (name, fill_gaps(table[j].1, row.1))),
            None => table.push((name, row.1)),
        },
    }
}

/// The values published for each star, from the result rows in order.
pub open spec fn merged<T>(rows: Seq<(Option<Seq<char>>, Measured<T>)>) -> Seq<(Seq<char>, Measured<T>)>
    decreases rows.len(),
{
    if rows.len() == 0 {
        Seq::empty()
    } else {
        merge_step(merged(rows.drop_last()), rows.last())
    }
}

pub open spec fn rows_view<T>(rows: Seq<(Option<String>, Measured<T>)>) -> Seq<(Option<Seq<char>>, Measured<T>)> {
    rows.map_values(
        |r: (Option<String>, Measured<T>)|
            (
                match r.0 {
                    Some(n) => Some(n@),
                    None => None,
                },
                r.1,
            ),
    )
}

pub open spec fn table_view<T>(table: Seq<(String, Measured<T>)>) -> Seq<(Seq<char>, Measured<T>)> {
    table.map_values(|e: (String, Measured<T>)| (e.0@, e.1))
}

fn find_entry<T>(table: &Vec<(String, Measured<T>)>, name: &[char]) -> (r: Option<usize>)
    ensures
        match r {
            Some(j) => first_index_of(entry_names(table_view(table@)), name@) == Some(j as int),
            None => first_index_of(entry_names(table_view(table@)), name@) is None,
        },
        r matches Some(j) ==> j < table@.len(),
{
    let ghost names = entry_names(table_view(table@));
    let n = table.len();
    let mut j: usize = 0;
    while j < n
        invariant
            j <= n,
            n == table@.len(),
            names == entry_names(table_view(table@)),
            names.len() == n,
            forall|k: int| 0 <= k < j ==> names[k] != name@,
        decreases n - j,
    {
        let cs = chars_of(table[j].0.as_str());
        assert(names[j as int] == table@[j as int].0@);
        if same_chars(cs.as_slice(), name) {
            proof {
                lemma_first_index_found(names, name@, j as int);
            }
            return Some(j);
        }
        j = j + 1;
    }
    proof {
        lemma_first_index_absent(names, name@);
    }
    None
}

fn fill_exec<T: Copy>(have: Option<T>, offered: Option<T>) -> (r: Option<T>)
    ensures
        r == fill(have, offered),
{
    match have {
        Some(v) => Some(v),
        None => offered,
    }
}

/// One entry per star named in the result rows, in the order the names
/// first appear. Several sources per star: the first value of each kind
/// wins, later rows only fill the gaps. Rows without a name are skipped.
pub fn merge_measurements<T: Copy>(rows: &Vec<(Option<String>, Measured<T>)>) -> (table: Vec<(String, Measured<T>)>)
    ensures
        table_view(table@) == merged(rows_view(rows@)),
{
    let ghost rv = rows_view(rows@);
    let mut table: Vec<(String, Measured<T>)> = Vec::new();
    let n = rows.len();
    let mut i: usize = 0;
    while i < n
        invariant
            i <= n,
            n == rows@.len(),
            rv == rows_view(rows@),
            table_view(table@) == merged(rv.take(i as int)),
        decreases n - i,
    {
        assert(rv.take(i + 1).drop_last() =~= rv.take(i as int));
        assert(rv.take(i + 1).last() == rv[i as int]);
        let offered = rows[i].1;
        match &rows[i].0 {
            None => {},
            Some(name) => {
                let cs = chars_of(name.as_str());
                let ghost before = table_view(table@);
                match find_entry(&table, cs.as_slice()) {
                    Some(j) => {
                        let (old_name, have) = table.remove(j);
                        let m = Measured {
                            teff: fill_exec(have.teff, offered.teff),
                            lum: fill_exec(have.lum, offered.lum),
                            radius: fill_exec(have.radius, offered.radius),
                            mass: fill_exec(have.mass, offered.mass),
                        };
                        assert(old_name@ == name@) by {
                            crate::text::lemma_first_index_facts(entry_names(before), name@);
                        }
                        table.insert(j, (old_name, m));
                        assert(table_view(table@) =~= before.update(
                            j as int,
                            (name@, fill_gaps(before[j as int].1, offered)),
                        ));
                    },
                    None => {
                        table.push((name.clone(), offered));
                        assert(table_view(table@) =~= before.push((name@, offered)));
                    },
                }
            },
        }
        i = i + 1;
    }
    assert(rv.take(n as int) =~= rv);
    table
}

/// The `k`-th published value: temperature, luminosity, radius, mass.
pub open spec fn slot<T>(m: Measured<T>, k: int) -> Option<T> {
    if k == 0 {
        m.teff
    } else if k == 1 {
        m.lum
    } else if k == 2 {
        m.radius
    } else {
        m.mass
    }
}

/// The first `k`-th value any row gives for the star `name`.
pub open spec fn first_value<T>(rows: Seq<(Option<Seq<char>>, Measured<T>)>, name: Seq<char>, k: int) -> Option<T>
    decreases rows.len(),
{
    if rows.len() == 0 {
        None
    } else {
        let prev = first_value(rows.drop_last(), name, k);
        if prev is Some {
            prev
        } else if rows.last().0 == Some(name) {
            slot(rows.last().1, k)
        } else {
            None
        }
    }
}

pub open spec fn named_in<T>(rows: Seq<(Option<Seq<char>>, Measured<T>)>, name: Seq<char>) -> bool {
    exists|i: int| 0 <= i < rows.len() && #[trigger] rows[i].0 == Some(name)
}

proof fn lemma_merged<T>(rows: Seq<(Option<Seq<char>>, Measured<T>)>)
    ensures
        ({
            let t = merged(rows);
            &&& crate::grid::distinct_names(entry_names(t))
            &&& forall|j: int| 0 <= j < t.len() ==> named_in(rows, #[trigger] t[j].0)
            &&& forall|j: int, k: int| 0 <= j < t.len() ==> #[trigger] slot(t[j].1, k) == first_value(rows, t[j].0, k)
            &&& forall|name: Seq<char>| named_in(rows, name) ==> #[trigger] entry_names(t).contains(name)
        }),
    decreases rows.len(),
{
    if rows.len() > 0 {
        let init = rows.drop_last();
        let r = rows.last();
        lemma_merged(init);
        let t0 = merged(init);
        let t = merged(rows);
        assert forall|i: int| 0 <= i < init.len() implies #[trigger] init[i] == rows[i] by {}
        assert forall|name: Seq<char>| named_in(init, name) implies named_in(rows, name) by {
            let i = choose|i: int| 0 <= i < init.len() && #[trigger] init[i].0 == Some(name);
            assert(rows[i].0 == Some(name));
        }
        assert forall|name: Seq<char>, k: int| !(r.0 == Some(name)) implies first_value(rows, name, k) == first_value(init, name, k) by {}
        match r.0 {
            None => {
                assert(t == t0);
                assert forall|name: Seq<char>| named_in(rows, name) implies #[trigger] entry_names(t).contains(name) by {
                    let i = choose|i: int| 0 <= i < rows.len() && #[trigger] rows[i].0 == Some(name);
                    assert(i < init.len());
                    assert(init[i].0 == Some(name));
                }
            },
            Some(name) => {
                crate::text::lemma_first_index_facts(entry_names(t0), name);
                assert(named_in(rows, name)) by {
                    assert(rows[rows.len() - 1].0 == Some(name));
                }
                match first_index_of(entry_names(t0), name) {
                    Some(j) => {
                        assert(t == t0.update(j, (name, fill_gaps(t0[j].1, r.1))));
                        assert(entry_names(t) =~= entry_names(t0));
                        assert forall|jj: int, k: int| 0 <= jj < t.len() implies #[trigger] slot(t[jj].1, k)
                            == first_value(rows, t[jj].0, k) by {
                            if jj != j {
                                assert(t[jj] == t0[jj]);
                                assert(entry_names(t0)[jj] == t0[jj].0);
                                assert(entry_names(t0)[j] == t0[j].0);
                                assert(t0[jj].0 != name);
                            } else {
                                assert(t0[j].0 == name);
                            }
                        }
                        assert forall|n2: Seq<char>| named_in(rows, n2) implies #[trigger] entry_names(t).contains(n2) by {
                            if n2 != name {
                                let i = choose|i: int| 0 <= i < rows.len() && #[trigger] rows[i].0 == Some(n2);
                                assert(i < init.len());
                                assert(init[i].0 == Some(n2));
                                assert(entry_names(t0).contains(n2));
                            } else {
                                assert(entry_names(t)[j] == name);
                            }
                        }
                    },
                    None => {
                        assert(t == t0.push((name, r.1)));
                        assert(entry_names(t) =~= entry_names(t0).push(name));
                        assert(!entry_names(t0).contains(name));
                        assert forall|k: int| first_value(init, name, k) is None by {
                            lemma_first_value_absent(init, name, k);
                        }
                        assert forall|jj: int, k: int| 0 <= jj < t.len() implies #[trigger] slot(t[jj].1, k)
                            == first_value(rows, t[jj].0, k) by {
                            if jj < t0.len() {
                                assert(t[jj] == t0[jj]);
                                assert(entry_names(t0)[jj] == t0[jj].0);
                            }
                        }
                        assert forall|n2: Seq<char>| named_in(rows, n2) implies #[trigger] entry_names(t).contains(n2) by {
                            if n2 != name {
                                let i = choose|i: int| 0 <= i < rows.len() && #[trigger] rows[i].0 == Some(n2);
                                assert(i < init.len());
                                assert(init[i].0 == Some(n2));
                                assert(entry_names(t0).contains(n2));
                                let q = choose|q: int| 0 <= q < entry_names(t0).len() && entry_names(t0)[q] == n2;
                                assert(entry_names(t)[q] == n2);
                            } else {
                                assert(entry_names(t)[t0.len() as int] == name);
                            }
                        }
                        assert(crate::grid::distinct_names(entry_names(t))) by {
                            assert forall|a: int, b: int|
                                0 <= a < entry_names(t).len() && 0 <= b < entry_names(t).len() && a != b implies
                                entry_names(t)[a] != entry_names(t)[b] by {
                                if a == t0.len() && b < t0.len() {
                                    assert(entry_names(t0)[b] == entry_names(t)[b]);
                                } else if b == t0.len() && a < t0.len() {
                                    assert(entry_names(t0)[a] == entry_names(t)[a]);
                                } else if a < t0.len() && b < t0.len() {
                                    assert(entry_names(t0)[a] == entry_names(t)[a]);
                                    assert(entry_names(t0)[b] == entry_names(t)[b]);
                                }
                            }
                        }
                    },
                }
            },
        }
    }
}

/// A star no row names has no value.
proof fn lemma_first_value_absent<T>(rows: Seq<(Option<Seq<char>>, Measured<T>)>, name: Seq<char>, k: int)
    requires
        forall|i: int| 0 <= i < rows.len() ==> rows[i].0 != Some(name),
    ensures
        first_value(rows, name, k) is None,
    decreases rows.len(),
{
    if rows.len() > 0 {
        let init = rows.drop_last();
        assert forall|i: int| 0 <= i < init.len() implies init[i].0 != Some(name) by {
            assert(init[i] == rows[i]);
        }
        lemma_first_value_absent(init, name, k);
        assert(rows[rows.len() - 1] == rows.last());
    }
}

/// "Several sources per star: first one wins, but fill any gaps." Every
/// star some row names gets exactly one entry, and each of its values is
/// the first one any row gives for it; stars no row names get none.
pub proof fn law_first_value_wins<T>(rows: Seq<(Option<Seq<char>>, Measured<T>)>, name: Seq<char>, k: int)
    ensures
        entry_names(merged(rows)).contains(name) <==> named_in(rows, name),
        named_in(rows, name) ==> ({
            let t = merged(rows);
            let j = first_index_of(entry_names(t), name).unwrap();
            &&& forall|i: int| 0 <= i < t.len() && i != j ==> #[trigger] t[i].0 != name
            &&& slot(t[j].1, k) == first_value(rows, name, k)
        }),
{
    lemma_merged(rows);
    let t = merged(rows);
    crate::text::lemma_first_index_facts(entry_names(t), name);
    if entry_names(t).contains(name) {
        let q = choose|q: int| 0 <= q < entry_names(t).len() && entry_names(t)[q] == name;
        assert(t[q].0 == name);
        assert(named_in(rows, t[q].0));
    }
    if named_in(rows, name) {
        let j = first_index_of(entry_names(t), name).unwrap();
        assert(entry_names(t)[j] == t[j].0);
        assert forall|i: int| 0 <= i < t.len() && i != j implies #[trigger] t[i].0 != name by {
            assert(entry_names(t)[i] == t[i].0);
        }
    }
}

// ───────────────────────────── fetching an article ─────────────────────────────

/// What one request for an article brought back.
pub enum Outcome {
    /// A readable answer: the page's title and its plain-text extract,
    /// each when the answer holds one.
    Page { title: Option<String>, extract: Option<String> },
    /// An answer whose body could not be read, with the reason.
    Unreadable(String),
    /// A failed request: the HTTP status when the server gave one, and the
    /// error as text.
    Failed { status: Option<u16>, message: String },
}

/// What to do after a request.
pub enum Next {
    /// The fetch is over: the title and text of the article, or why there
    /// is none.
    Done(Result<(String, String), String>),
    /// Wait, then ask again.
    Again,
}

/// Fetching one article: Wikipedia throttles bursts, so a throttled or
/// failing request is tried again, backing off, up to five times in all;
/// a missing page is not.
pub struct ArticleFetch {
    attempt: usize,
    last: String,
}

/// How many requests are made for one article at most.
pub const ATTEMPTS: usize = 5;

/// The server is busy or failing, and asking again may help.
pub open spec fn worth_retrying(status: Option<u16>) -> bool {
    match status {
        Some(code) => code == 429 || code >= 500,
        None => false,
    }
}

/// How long to wait before request number `attempt` (counted from 0):
/// nothing before the first, then 400 ms doubled with each attempt.
pub open spec fn backoff_ms_of(attempt: nat) -> nat {
    if attempt == 0 {
        0
    } else {
        400 * vstd::arithmetic::power2::pow2(attempt)
    }
}

impl ArticleFetch {
    pub closed spec fn attempts_made(self) -> nat {
        self.attempt as nat
    }

    pub closed spec fn last_error(self) -> Seq<char> {
        self.last@
    }

    pub fn new() -> (f: ArticleFetch)
        ensures
            f.attempts_made() == 0,
            f.last_error() == Seq::<char>::empty(),
    {
        ArticleFetch { attempt: 0, last: String::new() }
    }

    /// How long to wait before the next request.
    pub fn wait_ms(&self) -> (ms: u64)
        requires
            self.attempts_made() < ATTEMPTS,
        ensures
            ms as nat == backoff_ms_of(self.attempts_made()),
    {
        if self.attempt == 0 {
            0
        } else {
            proof {
                vstd::arithmetic::power2::lemma2_to64();
                vstd::bits::lemma_u64_shl_is_mul(400, self.attempt as u64);
            }
            400u64 << (self.attempt as u64)
        }
    }

    /// Takes in what a request brought back for the article on `name`: a
    /// page ends the fetch, with its title (or `name`) and its trimmed text,
    /// or "empty extract" when there is no text; an unreadable body or a
    /// throttled or failing server (429, 5xx) is tried again until five
    /// requests have been made, and then the last reason is given; any other
    /// failure ends the fetch with its reason.
    pub fn on_outcome(&mut self, name: &str, outcome: Outcome) -> (next: Next)
        requires
            old(self).attempts_made() < ATTEMPTS,
        ensures
            match outcome {
                Outcome::Page { title, extract } => {
                    let text = trimmed(
                        match extract {
                            Some(e) => e@,
                            None => Seq::empty(),
                        },
                    );
                    let t = match title {
                        Some(t) => t@,
                        None => name@,
                    };
                    next matches Next::Done(r) && if text.len() == 0 {
                        r matches Err(e) && e@ == "empty extract"@
                    } else {
                        r matches Ok((rt, rx)) && rt@ == t && rx@ == text
                    }
                },
                Outcome::Unreadable(reason) => {
                    &&& final(self).attempts_made() == old(self).attempts_made() + 1
                    &&& final(self).last_error() == reason@
                    &&& if final(self).attempts_made() < ATTEMPTS {
                        next is Again
                    } else {
                        next matches Next::Done(r) && r matches Err(e) && e@ == reason@
                    }
                },
                Outcome::Failed { status, message } => if worth_retrying(status) {
                    let reason = "http "@ + decimal_of(status.unwrap() as nat);
                    &&& final(self).attempts_made() == old(self).attempts_made() + 1
                    &&& final(self).last_error() == reason
                    &&& if final(self).attempts_made() < ATTEMPTS {
                        next is Again
                    } else {
                        next matches Next::Done(r) && r matches Err(e) && e@ == reason
                    }
                } else {
                    next matches Next::Done(r) && r matches Err(e) && e@ == message@
                },
            },
            next is Again ==> final(self).attempts_made() < ATTEMPTS,
    {
        match outcome {
            Outcome::Page { title, extract } => {
                let text = match extract {
                    Some(e) => trim(e.as_str()),
                    None => String::new(),
                };
                proof {
                    if extract is None {
                        assert(trimmed(Seq::<char>::empty()) == Seq::<char>::empty());
                    }
                }
                if text.as_str().is_empty() {
                    return Next::Done(Err("empty extract".to_string()));
                }
                let t = match title {
                    Some(t) => t,
                    None => name.to_string(),
                };
                Next::Done(Ok((t, text)))
            },
            Outcome::Unreadable(reason) => {
                self.attempt = self.attempt + 1;
                self.last = reason;
                if self.attempt < ATTEMPTS {
                    Next::Again
                } else {
                    Next::Done(Err(self.last.clone()))
                }
            },
            Outcome::Failed { status, message } => {
                let retry = match status {
                    Some(code) => code == 429 || code >= 500,
                    None => false,
                };
                if retry {
                    let code = match status {
                        Some(c) => c,
                        None => 0,
                    };
                    let mut reason = "http ".to_string();
                    let digits = crate::text::decimal(code as u64);
                    push_all(&mut reason, chars_of(digits.as_str()).as_slice());
                    self.attempt = self.attempt + 1;
                    self.last = reason;
                    if self.attempt < ATTEMPTS {
                        Next::Again
                    } else {
                        Next::Done(Err(self.last.clone()))
                    }
                } else {
                    Next::Done(Err(message))
                }
            },
        }
    }
}

} // verus!
