use stars::csv::{csv, csv_line, csv_split};

#[test]
fn csv_split_plain_fields() {
    assert_eq!(csv_split("a,b,c"), vec!["a", "b", "c"]);
    assert_eq!(csv_split("a,,c,"), vec!["a", "", "c", ""]);
    assert_eq!(csv_split(""), vec![""]);
}

#[test]
fn csv_split_honors_quotes() {
    assert_eq!(csv_split("a,\"b,c\",d"), vec!["a", "b,c", "d"]);
    assert_eq!(csv_split("\"id\",\"proper\""), vec!["id", "proper"]);
    // Quotes are dropped, not undoubled.
    assert_eq!(csv_split("\"say \"\"hi\"\"\""), vec!["say hi"]);
}

#[test]
fn csv_quotes_only_when_needed() {
    assert_eq!(csv("plain"), "plain");
    assert_eq!(csv(""), "");
    assert_eq!(csv("a,b"), "\"a,b\"");
    assert_eq!(csv("two\nlines"), "\"two\nlines\"");
    assert_eq!(csv("say \"hi\""), "\"say \"\"hi\"\"\"");
}

#[test]
fn csv_line_joins_quoted_fields() {
    let row = vec!["Sirius".to_string(), "Alp CMa".to_string(), "A0m...,A1Va".to_string(), "8.6".to_string()];
    assert_eq!(csv_line(&row), "Sirius,Alp CMa,\"A0m...,A1Va\",8.6\n");
    assert_eq!(csv_line(&vec![]), "\n");
}

#[test]
fn written_record_reads_back() {
    let row = vec!["Rigel".to_string(), "B8, Ia".to_string(), "".to_string(), "x\ny".to_string()];
    let line = csv_line(&row);
    let back = csv_split(line.trim_end_matches('\n'));
    assert_eq!(back, row);
}
