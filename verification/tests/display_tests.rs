use stars::article::{style_article, Line};
use stars::data::Src;
use stars::display::{
    class_rgb, crowded_marks, export_file_name, export_header, fit, header_gap, lum_legend, mode_menu, mode_name, rule_width,
    side_table, source_legend, source_rgb, value_width, SideTable,
};

#[test]
fn class_colors() {
    assert_eq!(class_rgb('O'), (120, 150, 255));
    assert_eq!(class_rgb('G'), (255, 215, 90));
    assert_eq!(class_rgb('M'), (255, 90, 60));
    assert_eq!(class_rgb('C'), (255, 90, 60));
    assert_eq!(class_rgb('W'), (200, 210, 255));
    assert_eq!(class_rgb('T'), (170, 80, 90));
    assert_eq!(class_rgb('?'), (150, 150, 150));
}

#[test]
fn source_colors() {
    assert_eq!(source_rgb(Src::Measured, Src::Measured), (120, 220, 140));
    assert_eq!(source_rgb(Src::Measured, Src::Magnitude), (255, 200, 80));
    assert_eq!(source_rgb(Src::Spectral, Src::Radius), (255, 200, 80));
    assert_eq!(source_rgb(Src::Spectral, Src::Magnitude), (170, 150, 200));
    assert_eq!(source_rgb(Src::Color, Src::Measured), (170, 150, 200));
    assert_eq!(source_rgb(Src::Unknown, Src::Unknown), (110, 110, 110));
    assert_eq!(source_legend(0), ("measured", (120, 220, 140)));
    assert_eq!(lum_legend(4), ("main seq", (120, 220, 255)));
    assert_eq!(lum_legend(7), ("unknown", (130, 130, 130)));
}

#[test]
fn fit_pads_or_cuts() {
    assert_eq!(fit("Vega", 6), "Vega  ");
    assert_eq!(fit("Vega", 4), "Vega");
    assert_eq!(fit("Betelgeuse", 5), "Bete…");
    assert_eq!(fit("Betelgeuse", 0), "…");
    assert_eq!(fit("", 2), "  ");
}

#[test]
fn modes_and_export_names() {
    assert_eq!(mode_name(0), "spectral class");
    assert_eq!(mode_name(6), "data source");
    assert_eq!(export_file_name(3), "stars-by-apparent-magnitude.csv");
    assert_eq!(export_file_name(4), "stars-by-mass.csv");
    assert!(export_header().starts_with("name,designation,constellation,spectral"));
    assert!(export_header().ends_with(",hip,hd,url\n"));
    let menu = mode_menu(2, 5);
    assert_eq!(menu.len(), 7);
    assert_eq!(menu[0], ("     1  spectral class".to_string(), false));
    assert_eq!(menu[2], ("  ●  3  distance".to_string(), false));
    assert_eq!(menu[5], ("     6  radius".to_string(), true));
}

fn text(s: &str) -> Line {
    Line::Text(s.to_string())
}

#[test]
fn article_headings_paragraphs_and_tail() {
    let a = "Vega is a star.\nIt is bright.\n\n\n\n== Physical properties ==\nHot.\n=== Rotation ===\nFast.\n\nSee it.\n== See also ==\nAltair\n== Later ==\n";
    assert_eq!(
        style_article(a),
        vec![
            text("Vega is a star."),
            text(""),
            text("It is bright."),
            text(""),
            Line::Heading(2, "Physical properties".to_string()),
            text("Hot."),
            Line::Heading(3, "Rotation".to_string()),
            text("Fast."),
            text(""),
            text("See it."),
        ]
    );
}

#[test]
fn article_lines_keep_escape_lines_and_strip_cr() {
    let a = "one\r\ntwo\n";
    assert_eq!(style_article(a), vec![text("one"), text(""), text("two")]);
    // "====" is only four bytes: not a heading
    assert_eq!(style_article("===="), vec![text("====")]);
    assert_eq!(style_article("== REFERENCES ==\nx"), Vec::<Line>::new());
    assert_eq!(style_article(""), Vec::<Line>::new());
}

#[test]
fn side_tables() {
    assert_eq!(side_table(100), SideTable::Two(38));
    assert_eq!(side_table(76), SideTable::Two(36));
    assert_eq!(side_table(75), SideTable::One(40));
    assert_eq!(side_table(30), SideTable::One(28));
    assert_eq!(side_table(1), SideTable::One(0));
}

#[test]
fn header_legend_column() {
    assert_eq!(header_gap(120, 40), Some(33));
    assert_eq!(header_gap(120, 73), None);
    assert_eq!(header_gap(117, 40), None);
}

#[test]
fn table_widths() {
    assert_eq!(value_width(38), 21);
    assert_eq!(value_width(10), 0);
    assert_eq!(rule_width(38, 4), 31);
    assert_eq!(rule_width(5, 4), 0);
}

#[test]
fn crowd_marks() {
    let cells = vec![Some((3, 8)), Some((4, 9)), None, Some((3, 8)), Some((4, 9)), Some((3, 8))];
    assert_eq!(crowded_marks(&cells), vec![true, true, false, true, false, false]);
    assert_eq!(crowded_marks(&vec![]), Vec::<bool>::new());
}
