use stars::catalog::{
    article_request, article_url, merge_measurements, sparql_query, urlencode, ArticleFetch,
    HygColumns, Measured, Next, Outcome,
};

const HEADER: &str = "\"id\",\"hip\",\"hd\",\"hr\",\"gl\",\"bf\",\"proper\",\"ra\",\"dec\",\"dist\",\"pmra\",\"pmdec\",\"rv\",\"mag\",\"absmag\",\"spect\",\"ci\",\"con\"";

#[test]
fn locate_finds_the_columns() {
    let c = HygColumns::locate(HEADER).unwrap();
    assert_eq!(c.proper, 6);
    assert_eq!(c.dist, 9);
    assert_eq!(c.mag, 13);
    assert_eq!(c.absmag, 14);
    assert_eq!(c.spect, 15);
    assert_eq!(c.ci, 16);
    assert_eq!(c.bf, Some(5));
    assert_eq!(c.con, Some(17));
    assert_eq!(c.hip, Some(1));
    assert_eq!(c.hd, Some(2));
    assert_eq!(c.width, 18);
}

#[test]
fn locate_names_the_first_missing_column() {
    assert_eq!(HygColumns::locate("id,dist").err().unwrap(), "hyg: no proper column");
    assert_eq!(HygColumns::locate("proper,mag").err().unwrap(), "hyg: no dist column");
    assert_eq!(HygColumns::locate("proper,dist").err().unwrap(), "hyg: no mag column");
    assert_eq!(HygColumns::locate("proper,dist,mag").err().unwrap(), "hyg: no absmag column");
    assert_eq!(HygColumns::locate("proper,dist,mag,absmag").err().unwrap(), "hyg: no spect column");
    assert_eq!(HygColumns::locate("proper,dist,mag,absmag,spect").err().unwrap(), "hyg: no ci column");
    let c = HygColumns::locate("proper,dist,mag,absmag,spect,ci").unwrap();
    assert_eq!(c.bf, None);
}

#[test]
fn row_reads_a_named_star() {
    let c = HygColumns::locate(HEADER).unwrap();
    let line = "32263,32349,48915,2491,\"Gl 244A\",\"9Alp CMa\", Sirius ,6.752,-16.71,2.6371,-546.01,-1223.07,-5.5,-1.44,1.454,\"A0m...\",0.009,\"CMa\"";
    let r = c.row(line).unwrap();
    assert_eq!(r.name, "Sirius");
    assert_eq!(r.designation, "9Alp CMa");
    assert_eq!(r.constellation, "CMa");
    assert_eq!(r.hip, "32349");
    assert_eq!(r.hd, "48915");
    assert_eq!(r.spectral, "A0m...");
    assert_eq!(r.lum_class, "");
    assert_eq!(r.dist, "2.6371");
    assert_eq!(r.mag, "-1.44");
    assert_eq!(r.absmag, "1.454");
    assert_eq!(r.color_index, "0.009");
}

#[test]
fn row_drops_unnamed_and_short_rows() {
    let c = HygColumns::locate(HEADER).unwrap();
    let unnamed = "1,2,3,4,5,6,  ,8,9,10,11,12,13,14,15,G2V,17,Ori";
    assert!(c.row(unnamed).is_none());
    let short = "1,2,3,4,5,6,Vega";
    assert!(c.row(short).is_none());
}

#[test]
fn urlencode_escapes_reserved_bytes() {
    assert_eq!(urlencode("Alpha Centauri"), "Alpha%20Centauri");
    assert_eq!(urlencode("a-b_c.d~e"), "a-b_c.d~e");
    assert_eq!(urlencode("Théta"), "Th%C3%A9ta");
    assert_eq!(urlencode("a/b?c"), "a%2Fb%3Fc");
}

fn percent_decode(s: &str) -> Vec<u8> {
    let b = s.as_bytes();
    let mut out = Vec::new();
    let mut i = 0;
    while i < b.len() {
        if b[i] == b'%' {
            let hex = std::str::from_utf8(&b[i + 1..i + 3]).unwrap();
            out.push(u8::from_str_radix(hex, 16).unwrap());
            i += 3;
        } else {
            out.push(b[i]);
            i += 1;
        }
    }
    out
}

#[test]
fn urlencode_decodes_back() {
    for s in ["Alpha Centauri", "Théta Ophiuchi", "100% \"odd\" & more", "plain-name_1.2~x", ""] {
        let e = urlencode(s);
        assert!(e.chars().all(|c| c.is_ascii_alphanumeric() || "-_.~%".contains(c)));
        for (i, c) in e.char_indices() {
            if c == '%' {
                let hex = &e[i + 1..i + 3];
                assert!(hex.chars().all(|h| h.is_ascii_digit() || ('A'..='F').contains(&h)));
            }
        }
        assert_eq!(percent_decode(&e), s.as_bytes());
        let unreserved = s.bytes().all(|b| b.is_ascii_alphanumeric() || b"-_.~".contains(&b));
        assert_eq!(e == s, unreserved);
    }
}

#[test]
fn article_addresses() {
    assert_eq!(article_url("Alpha Centauri"), "https://en.wikipedia.org/wiki/Alpha_Centauri");
    assert_eq!(
        article_request("Barnard's Star"),
        "https://en.wikipedia.org/w/api.php?action=query&prop=extracts&explaintext=1&redirects=1&format=json&formatversion=2&titles=Barnard%27s%20Star"
    );
}

#[test]
fn sparql_query_lists_quotable_names() {
    let names = vec!["Sirius".to_string(), "Bad\"Name".to_string(), "Back\\slash".to_string(), "Vega".to_string()];
    assert_eq!(
        sparql_query(&names),
        "SELECT ?name ?temp ?lum ?radius ?mass WHERE { VALUES ?name { \"Sirius\"@en \"Vega\"@en  } ?s rdfs:label ?name ; wdt:P6879 ?temp . OPTIONAL { ?s wdt:P2060 ?lum } OPTIONAL { ?s wdt:P2120 ?radius } OPTIONAL { ?s wdt:P2067 ?mass } }"
    );
}

fn m(teff: Option<f64>, lum: Option<f64>, radius: Option<f64>, mass: Option<f64>) -> Measured<f64> {
    Measured { teff, lum, radius, mass }
}

#[test]
fn first_value_wins_and_gaps_are_filled() {
    let rows = vec![
        (Some("Vega".to_string()), m(Some(9602.0), None, None, None)),
        (None, m(Some(1.0), Some(1.0), Some(1.0), Some(1.0))),
        (Some("Sirius".to_string()), m(Some(9940.0), Some(25.4), None, None)),
        (Some("Vega".to_string()), m(Some(9500.0), Some(40.1), Some(2.36), None)),
        (Some("Vega".to_string()), m(None, None, Some(9.9), Some(2.1))),
    ];
    let t = merge_measurements(&rows);
    assert_eq!(t.len(), 2);
    assert_eq!(t[0].0, "Vega");
    assert_eq!(t[0].1.teff, Some(9602.0));
    assert_eq!(t[0].1.lum, Some(40.1));
    assert_eq!(t[0].1.radius, Some(2.36));
    assert_eq!(t[0].1.mass, Some(2.1));
    assert_eq!(t[1].0, "Sirius");
    assert_eq!(t[1].1.teff, Some(9940.0));
    assert_eq!(t[1].1.lum, Some(25.4));
    assert_eq!(t[1].1.radius, None);
}

fn page(title: Option<&str>, extract: Option<&str>) -> Outcome {
    Outcome::Page { title: title.map(|s| s.to_string()), extract: extract.map(|s| s.to_string()) }
}

#[test]
fn article_fetch_takes_a_page() {
    let mut f = ArticleFetch::new();
    assert_eq!(f.wait_ms(), 0);
    match f.on_outcome("Vega", page(Some("Vega (star)"), Some("  Vega is bright.\n"))) {
        Next::Done(Ok((t, x))) => {
            assert_eq!(t, "Vega (star)");
            assert_eq!(x, "Vega is bright.");
        }
        _ => panic!("expected the article"),
    }
    let mut f = ArticleFetch::new();
    match f.on_outcome("Vega", page(None, Some("text"))) {
        Next::Done(Ok((t, _))) => assert_eq!(t, "Vega"),
        _ => panic!("expected the article"),
    }
}

#[test]
fn article_fetch_empty_extract_is_an_error() {
    let mut f = ArticleFetch::new();
    match f.on_outcome("X", page(Some("X"), Some("   "))) {
        Next::Done(Err(e)) => assert_eq!(e, "empty extract"),
        _ => panic!("expected an error"),
    }
    let mut f = ArticleFetch::new();
    match f.on_outcome("X", page(Some("X"), None)) {
        Next::Done(Err(e)) => assert_eq!(e, "empty extract"),
        _ => panic!("expected an error"),
    }
}

#[test]
fn article_fetch_backs_off_on_throttling_five_times_at_most() {
    let mut f = ArticleFetch::new();
    let mut waits = Vec::new();
    for n in 0..5 {
        waits.push(f.wait_ms());
        let out = f.on_outcome("X", Outcome::Failed { status: Some(if n % 2 == 0 { 429 } else { 503 }), message: "busy".to_string() });
        match out {
            Next::Again => assert!(n < 4),
            Next::Done(Err(e)) => {
                assert_eq!(n, 4);
                assert_eq!(e, "http 429");
            }
            Next::Done(Ok(_)) => panic!("no page was given"),
        }
    }
    assert_eq!(waits, vec![0, 800, 1600, 3200, 6400]);
}

#[test]
fn article_fetch_gives_up_at_once_on_a_missing_page() {
    let mut f = ArticleFetch::new();
    match f.on_outcome("X", Outcome::Failed { status: Some(404), message: "status code 404".to_string() }) {
        Next::Done(Err(e)) => assert_eq!(e, "status code 404"),
        _ => panic!("expected an error"),
    }
    let mut f = ArticleFetch::new();
    match f.on_outcome("X", Outcome::Failed { status: None, message: "dns".to_string() }) {
        Next::Done(Err(e)) => assert_eq!(e, "dns"),
        _ => panic!("expected an error"),
    }
}

#[test]
fn article_fetch_retries_an_unreadable_body() {
    let mut f = ArticleFetch::new();
    assert!(matches!(f.on_outcome("X", Outcome::Unreadable("bad json".to_string())), Next::Again));
    assert_eq!(f.wait_ms(), 800);
    match f.on_outcome("X", page(None, Some("ok"))) {
        Next::Done(Ok((_, x))) => assert_eq!(x, "ok"),
        _ => panic!("expected the article"),
    }
}
