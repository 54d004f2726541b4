//! What the screen shows that is not geometry: the color modes and their
//! names, the colors of the spectral and luminosity classes and of the
//! data sources, text fitted to a column, and where the panes stand.

use vstd::prelude::*;

use crate::data::Src;
use crate::text::{chars_of, push_all};

verus! {

broadcast use vstd::string::group_string_axioms;

/// The name of each color mode.
pub open spec fn mode_name_of(mode: int) -> Seq<char> {
    if mode == 0 {
        "spectral class"@
    } else if mode == 1 {
        "luminosity class"@
    } else if mode == 2 {
        "distance"@
    } else if mode == 3 {
        "apparent magnitude"@
    } else if mode == 4 {
        "mass"@
    } else if mode == 5 {
        "radius"@
    } else {
        "data source"@
    }
}

/// The name of color mode `mode` (0 to 6).
pub fn mode_name(mode: usize) -> (name: &'static str)
    requires
        mode < 7,
    ensures
        name@ == mode_name_of(mode as int),
{
    if mode == 0 {
        "spectral class"
    } else if mode == 1 {
        "luminosity class"
    } else if mode == 2 {
        "distance"
    } else if mode == 3 {
        "apparent magnitude"
    } else if mode == 4 {
        "mass"
    } else if mode == 5 {
        "radius"
    } else {
        "data source"
    }
}

/// The file a list ordered by color mode `mode` is exported to:
/// `stars-by-<mode name, spaces as dashes>.csv`.
pub open spec fn export_name_of(mode: int) -> Seq<char> {
    "stars-by-"@ + mode_name_of(mode).map_values(|c: char| if c == ' ' { '-' } else { c }) + ".csv"@
}

pub fn export_file_name(mode: usize) -> (name: String)
    requires
        mode < 7,
    ensures
        name@ == export_name_of(mode as int),
{
    let mut out = String::new();
    push_all(&mut out, chars_of("stars-by-").as_slice());
    let ghost start = out@;
    let cs = chars_of(mode_name(mode));
    let n = cs.len();
    let mut i: usize = 0;
    while i < n
        invariant
            i <= n,
            n == cs@.len(),
            cs@ == mode_name_of(mode as int),
            start == "stars-by-"@,
            out@ == start + cs@.take(i as int).map_values(|c: char| if c == ' ' { '-' } else { c }),
        decreases n - i,
    {
        let c = cs[i];
        out.push(if c == ' ' { '-' } else { c });
        assert(cs@.take(i + 1).map_values(|c: char| if c == ' ' { '-' } else { c }) =~= cs@.take(
            i as int,
        ).map_values(|c: char| if c == ' ' { '-' } else { c }).push(if c == ' ' { '-' } else { c }));
        i = i + 1;
    }
    assert(cs@.take(n as int) =~= cs@);
    push_all(&mut out, chars_of(".csv").as_slice());
    out
}

/// The header line of an exported star list.
pub open spec fn export_header_of() -> Seq<char> {
    "name,designation,constellation,spectral,lum_class,teff_k,teff_source,luminosity_lsun,lum_source,radius_rsun,mass_msun,distance_ly,apparent_mag,absolute_mag,color_index,hip,hd,url\n"@
}

/// The header line of an exported star list: every column the explorer
/// knows, including which numbers were measured and which were derived.
pub fn export_header() -> (h: String)
    ensures
        h@ == export_header_of(),
{
    "name,designation,constellation,spectral,lum_class,teff_k,teff_source,luminosity_lsun,lum_source,radius_rsun,mass_msun,distance_ly,apparent_mag,absolute_mag,color_index,hip,hd,url\n".to_string()
}

// ───────────────────────────── colors ─────────────────────────────

pub type Rgb = (u8, u8, u8);

/// The color of each spectral class letter, from blue O to red M; carbon
/// stars as M, Wolf-Rayet pale blue, brown dwarfs dull red, anything else
/// grey.
pub open spec fn class_rgb_of(c: char) -> Rgb {
    if c == 'O' {
        (120, 150, 255)
    } else if c == 'B' {
        (160, 195, 255)
    } else if c == 'A' {
        (225, 235, 255)
    } else if c == 'F' {
        (255, 245, 200)
    } else if c == 'G' {
        (255, 215, 90)
    } else if c == 'K' {
        (255, 150, 60)
    } else if c == 'M' || c == 'C' || c == 'S' || c == 'R' {
        (255, 90, 60)
    } else if c == 'W' {
        (200, 210, 255)
    } else if c == 'L' || c == 'T' || c == 'Y' {
        (170, 80, 90)
    } else {
        (150, 150, 150)
    }
}

/// True-ish colors for the spectral classes, from blue O to red M.
pub fn class_rgb(c: char) -> (rgb: Rgb)
    ensures
        rgb == class_rgb_of(c),
{
    match c {
        'O' => (120, 150, 255),
        'B' => (160, 195, 255),
        'A' => (225, 235, 255),
        'F' => (255, 245, 200),
        'G' => (255, 215, 90),
        'K' => (255, 150, 60),
        'M' => (255, 90, 60),
        'C' | 'S' | 'R' => (255, 90, 60),
        'W' => (200, 210, 255),
        'L' | 'T' | 'Y' => (170, 80, 90),
        _ => (150, 150, 150),
    }
}

/// The legend of the luminosity-class groups: name and color of each.
pub open spec fn lum_legend_of(g: int) -> (Seq<char>, Rgb) {
    if g == 0 {
        ("supergiant"@, (255, 120, 200))
    } else if g == 1 {
        ("bright giant"@, (255, 150, 120))
    } else if g == 2 {
        ("giant"@, (255, 200, 80))
    } else if g == 3 {
        ("subgiant"@, (200, 230, 120))
    } else if g == 4 {
        ("main seq"@, (120, 220, 255))
    } else if g == 5 {
        ("subdwarf"@, (140, 160, 200))
    } else if g == 6 {
        ("white dwarf"@, (230, 230, 255))
    } else {
        ("unknown"@, (130, 130, 130))
    }
}

/// Name and color of luminosity-class group `g` (0 to 7; see
/// `lum_class_group`).
pub fn lum_legend(g: usize) -> (entry: (&'static str, Rgb))
    requires
        g < 8,
    ensures
        entry.0@ == lum_legend_of(g as int).0,
        entry.1 == lum_legend_of(g as int).1,
{
    if g == 0 {
        ("supergiant", (255, 120, 200))
    } else if g == 1 {
        ("bright giant", (255, 150, 120))
    } else if g == 2 {
        ("giant", (255, 200, 80))
    } else if g == 3 {
        ("subgiant", (200, 230, 120))
    } else if g == 4 {
        ("main seq", (120, 220, 255))
    } else if g == 5 {
        ("subdwarf", (140, 160, 200))
    } else if g == 6 {
        ("white dwarf", (230, 230, 255))
    } else {
        ("unknown", (130, 130, 130))
    }
}

/// The legend of the data-source color mode.
pub open spec fn source_legend_of(k: int) -> (Seq<char>, Rgb) {
    if k == 0 {
        ("measured"@, (120, 220, 140))
    } else if k == 1 {
        ("from spectrum"@, (255, 200, 80))
    } else {
        ("from magnitude"@, (170, 150, 200))
    }
}

/// Name and color of entry `k` (0 to 2) of the data-source legend.
pub fn source_legend(k: usize) -> (entry: (&'static str, Rgb))
    requires
        k < 3,
    ensures
        entry.0@ == source_legend_of(k as int).0,
        entry.1 == source_legend_of(k as int).1,
{
    if k == 0 {
        ("measured", (120, 220, 140))
    } else if k == 1 {
        ("from spectrum", (255, 200, 80))
    } else {
        ("from magnitude", (170, 150, 200))
    }
}

/// The color a star gets in the data-source mode: green when both its
/// temperature and luminosity are measured; amber when the temperature is
/// measured, or comes from the spectral type with the luminosity from the
/// radius; violet when the temperature is derived otherwise; grey when it
/// is unknown.
pub open spec fn source_rgb_of(teff: Src, lum: Src) -> Rgb {
    if teff == Src::Measured && lum == Src::Measured {
        source_legend_of(0).1
    } else if teff == Src::Measured || (teff == Src::Spectral && lum == Src::Radius) {
        source_legend_of(1).1
    } else if teff == Src::Spectral || teff == Src::Color {
        source_legend_of(2).1
    } else {
        (110, 110, 110)
    }
}

pub fn source_rgb(teff: Src, lum: Src) -> (rgb: Rgb)
    ensures
        rgb == source_rgb_of(teff, lum),
{
    match (teff, lum) {
        (Src::Measured, Src::Measured) => (120, 220, 140),
        (Src::Measured, _) | (Src::Spectral, Src::Radius) => (255, 200, 80),
        (Src::Spectral, _) | (Src::Color, _) => (170, 150, 200),
        _ => (110, 110, 110),
    }
}

// ───────────────────────────── columns ─────────────────────────────

/// `v` fitted to `w` characters: padded with spaces, or cut and ended
/// with an ellipsis.
pub open spec fn fit_of(v: Seq<char>, w: int) -> Seq<char> {
    if v.len() <= w {
        v + Seq::new((w - v.len()) as nat, |i: int| ' ')
    } else {
        v.take(if w >= 1 {
            w - 1
        } else {
            0
        }) + seq!['…']
    }
}

pub fn fit(v: &str, w: usize) -> (out: String)
    ensures
        out@ == fit_of(v@, w as int),
{
    let cs = chars_of(v);
    let n = cs.len();
    let mut out = String::new();
    if n <= w {
        push_all(&mut out, cs.as_slice());
        let mut k: usize = 0;
        while k < w - n
            invariant
                n <= w,
                n == v@.len(),
                cs@ == v@,
                k <= w - n,
                out@ == v@ + Seq::new(k as nat, |i: int| ' '),
            decreases w - n - k,
        {
            out.push(' ');
            assert(Seq::new((k + 1) as nat, |i: int| ' ') =~= Seq::new(k as nat, |i: int| ' ').push(' '));
            k = k + 1;
        }
    } else {
        let keep = if w >= 1 {
            w - 1
        } else {
            0
        };
        let mut k: usize = 0;
        while k < keep
            invariant
                keep < n,
                n == cs@.len(),
                k <= keep,
                out@ == cs@.take(k as int),
            decreases keep - k,
        {
            out.push(cs[k]);
            assert(cs@.take(k + 1) =~= cs@.take(k as int).push(cs@[k as int]));
            k = k + 1;
        }
        out.push('…');
    }
    out
}

/// One line of the color-mode menu: a dot marks the active mode, then the
/// mode's key and name.
pub open spec fn menu_line_of(i: int, mode: int) -> Seq<char> {
    seq![' ', ' ', if i == mode { '●' } else { ' ' }, ' ', ' ', crate::text::digit_char((i + 1) as nat), ' ', ' ']
        + mode_name_of(i)
}

/// The lines of the color-mode menu, each with whether the menu cursor is
/// on it.
pub fn mode_menu(mode: usize, menu_ix: usize) -> (lines: Vec<(String, bool)>)
    ensures
        lines@.len() == 7,
        forall|i: int| 0 <= i < 7 ==> (#[trigger] lines@[i]).0@ == menu_line_of(i, mode as int) && lines@[i].1 == (i
            == menu_ix),
{
    let mut out: Vec<(String, bool)> = Vec::new();
    let mut i: usize = 0;
    while i < 7
        invariant
            i <= 7,
            out@.len() == i,
            forall|k: int| 0 <= k < i ==> (#[trigger] out@[k]).0@ == menu_line_of(k, mode as int) && out@[k].1 == (k
                == menu_ix),
        decreases 7 - i,
    {
        let mut line = String::new();
        line.push(' ');
        line.push(' ');
        line.push(if i == mode { '●' } else { ' ' });
        line.push(' ');
        line.push(' ');
        line.push(((49 + i) as u8) as char);
        line.push(' ');
        line.push(' ');
        push_all(&mut line, chars_of(mode_name(i)).as_slice());
        assert(line@ =~= menu_line_of(i as int, mode as int));
        out.push((line, i == menu_ix));
        i = i + 1;
    }
    out
}

/// First column of the plot area.
pub const PLOT_X: u16 = 8;

/// First row of the plot area (the row under the header bar stays blank).
pub const PLOT_Y: u16 = 3;

/// Column of the property block beside the plot.
pub const SIDE_X: u16 = 74;

/// Terminal width from which the property block stands beside the plot.
pub const SIDE_MIN: u16 = 118;

/// Width of the label column of a property table.
pub const LABEL_W: usize = 13;

/// Gap between a label and its value in a property table.
pub const GUTTER: usize = 2;

/// How the property block lays out its two tables.
#[derive(Clone, Copy, Debug, PartialEq, Eq, Structural)]
pub enum SideTable {
    /// Side by side, each column this wide.
    Two(usize),
    /// One above the other, each this wide.
    One(usize),
}

/// The property tables for a block `avail` columns wide: side by side from
/// 76 columns on, each at most 38 wide, otherwise stacked, at most 40 wide.
pub fn side_table(avail: usize) -> (t: SideTable)
    ensures
        avail >= 76 ==> t == SideTable::Two(if (avail - 3) / 2 < 38 { ((avail - 3) / 2) as usize } else { 38 }),
        avail < 76 ==> t == SideTable::One(if avail < 2 { 0 } else if avail - 2 < 40 { (avail - 2) as usize } else { 40 }),
{
    if avail >= 76 {
        let half = (avail - 3) / 2;
        SideTable::Two(if half < 38 { half } else { 38 })
    } else {
        let w = if avail < 2 { 0 } else { avail - 2 };
        SideTable::One(if w < 40 { w } else { 40 })
    }
}

/// The blank run that moves the legend of the header bar to the column of
/// the property block, on a terminal `cols` wide whose header text is
/// `info_width` columns: `None` where the block is not shown or the text
/// reaches that far (the legend then follows after three spaces).
pub fn header_gap(cols: u16, info_width: usize) -> (gap: Option<usize>)
    ensures
        gap == (if cols >= SIDE_MIN && info_width < SIDE_X - 1 {
            Some((SIDE_X - 1 - info_width) as usize)
        } else {
            None::<usize>
        }),
{
    if cols >= SIDE_MIN && info_width < 73 {
        Some(73 - info_width)
    } else {
        None
    }
}

/// The room a value has in a table column `cell` wide, after the label,
/// the gutter and the margins.
pub fn value_width(cell: usize) -> (w: usize)
    ensures
        w == (if cell < LABEL_W + GUTTER + 2 { 0 } else { cell - (LABEL_W + GUTTER + 2) }),
{
    if cell < LABEL_W + GUTTER + 2 {
        0
    } else {
        cell - (LABEL_W + GUTTER + 2)
    }
}

/// The length of the rule after a table's title of `title_len` characters
/// in a column `cell` wide.
pub fn rule_width(cell: usize, title_len: usize) -> (w: usize)
    ensures
        w == (if cell < 3 + title_len { 0 } else { cell - 3 - title_len }),
{
    if title_len > cell || cell - title_len < 3 {
        0
    } else {
        cell - title_len - 3
    }
}

/// Whether star `i` shares its plot cell with a later star of the list.
pub open spec fn shares_cell(cells: Seq<Option<(u16, u16)>>, i: int) -> bool {
    cells[i] is Some && exists|j: int| i < j < cells.len() && cells[j] == cells[i]
}

/// The stars are painted faintest first (the list runs brightest first),
/// so each cell ends up showing its brightest star. A star is drawn as a
/// crowd mark where a fainter star was painted in its cell before it: the
/// result says so for each star, given the cell each one falls in (`None`
/// off the plot).
pub fn crowded_marks(cells: &Vec<Option<(u16, u16)>>) -> (marks: Vec<bool>)
    ensures
        marks@.len() == cells@.len(),
        forall|i: int| 0 <= i < cells@.len() ==> #[trigger] marks@[i] == shares_cell(cells@, i),
{
    let n = cells.len();
    let mut marks: Vec<bool> = Vec::new();
    let mut i: usize = 0;
    while i < n
        invariant
            n == cells@.len(),
            i <= n,
            marks@.len() == i,
            forall|k: int| 0 <= k < i ==> #[trigger] marks@[k] == shares_cell(cells@, k),
        decreases n - i,
    {
        let mut found = false;
        if let Some(c) = cells[i] {
            let mut j: usize = i + 1;
            while j < n && !found
                invariant
                    n == cells@.len(),
                    i < j <= n,
                    cells@[i as int] == Some(c),
                    found ==> shares_cell(cells@, i as int),
                    !found ==> forall|k: int| i < k < j ==> cells@[k] != cells@[i as int],
                decreases n - j,
            {
                if let Some(d) = cells[j] {
                    if d.0 == c.0 && d.1 == c.1 {
                        assert(cells@[j as int] == cells@[i as int]);
                        found = true;
                    }
                }
                j = j + 1;
            }
        }
        marks.push(found);
        i = i + 1;
    }
    marks
}

} // verus!
