use response_viewer::{codes_from_table, parse_vocabulary, str_lt, themes_of, Code, Viewer};

fn s(x: &str) -> String {
    x.to_string()
}

fn code(theme: &str, tag: &str, label: &str) -> Code {
    Code { theme: s(theme), tag: s(tag), code: s(label) }
}

fn triples(codes: &[Code]) -> Vec<(String, String, String)> {
    codes.iter().map(|c| (c.theme.clone(), c.tag.clone(), c.code.clone())).collect()
}

#[test]
fn malformed_row_is_dropped() {
    let text = b"theme,tag,code\nA,a1,Alpha one\nA,a2\nB,b1,Beta one\n";
    let codes = parse_vocabulary(text);
    assert_eq!(
        triples(&codes),
        vec![
            (s("A"), s("a1"), s("Alpha one")),
            (s("B"), s("b1"), s("Beta one")),
        ]
    );
}

#[test]
fn columns_are_found_by_name() {
    let text = b"code,extra,theme,tag\nLabel,x,T,t1\n";
    let codes = parse_vocabulary(text);
    assert_eq!(triples(&codes), vec![(s("T"), s("t1"), s("Label"))]);
}

#[test]
fn missing_column_drops_every_row() {
    let text = b"theme,tag,label\nA,a1,Alpha\n";
    assert!(parse_vocabulary(text).is_empty());
}

#[test]
fn empty_vocabulary() {
    assert!(parse_vocabulary(b"").is_empty());
    assert!(parse_vocabulary(b"theme,tag,code\n").is_empty());
}

#[test]
fn repeated_column_name_drops_every_row() {
    let header = Some(vec![s("theme"), s("tag"), s("code"), s("tag")]);
    let rows = vec![Some(vec![s("A"), s("a"), s("Alpha"), s("b")])];
    assert!(codes_from_table(header, rows).is_empty());
}

#[test]
fn unreadable_header_reads_by_position() {
    let rows = vec![
        Some(vec![s("A"), s("a"), s("Alpha"), s("more")]),
        None,
        Some(vec![s("B"), s("b")]),
    ];
    let codes = codes_from_table(None, rows);
    assert_eq!(triples(&codes), vec![(s("A"), s("a"), s("Alpha"))]);
}

#[test]
fn themes_are_sorted_and_distinct() {
    let codes = vec![
        code("beta", "1", "one"),
        code("alpha", "2", "two"),
        code("beta", "3", "three"),
        code("Zed", "4", "four"),
        code("alphabet", "5", "five"),
    ];
    assert_eq!(themes_of(&codes), vec![s("Zed"), s("alpha"), s("alphabet"), s("beta")]);
    assert!(themes_of(&vec![]).is_empty());
}

#[test]
fn string_order_is_by_code_point() {
    assert!(str_lt(&s("a"), &s("b")));
    assert!(!str_lt(&s("b"), &s("a")));
    assert!(str_lt(&s("ab"), &s("abc")));
    assert!(!str_lt(&s("abc"), &s("abc")));
    assert!(str_lt(&s(""), &s("a")));
    assert!(str_lt(&s("Z"), &s("a")));
    assert!(str_lt(&s("z"), &s("é")));
}

#[test]
fn viewer_lays_out_every_theme_in_rows_of_five() {
    let codes: Vec<Code> = (0..7).map(|i| code(&format!("t{}", i), &format!("g{}", i), "c")).collect();
    let v = Viewer::new(vec![response_viewer::Entry {
        index: 0,
        lab: s("l"),
        group: s("g"),
        response: s("r"),
        ratings: vec![],
        matches: None,
        codes: response_viewer::Codes::Tags(response_viewer::TagSet::new()),
    }], codes);
    assert_eq!(v.themes().len(), 7);
    assert_eq!(v.theme_rows(), vec![(0, 5), (5, 7)]);
    assert_eq!(v.codes().len(), 7);
}

#[test]
fn codes_are_grouped_by_theme() {
    let codes = vec![code("b", "1", "one"), code("a", "2", "two"), code("b", "3", "three")];
    let v = Viewer::new(vec![response_viewer::Entry {
        index: 0,
        lab: s("l"),
        group: s("g"),
        response: s("r"),
        ratings: vec![],
        matches: None,
        codes: response_viewer::Codes::Tags(response_viewer::TagSet::new()),
    }], codes);
    assert_eq!(v.themes(), &vec![s("a"), s("b")]);
    assert_eq!(v.codes_in_theme(&s("b")), vec![0, 2]);
    assert_eq!(v.codes_in_theme(&s("a")), vec![1]);
    assert!(v.codes_in_theme(&s("c")).is_empty());
}

fn viewer_with_themes(k: usize) -> Viewer {
    let codes: Vec<Code> = (0..k).map(|i| code(&format!("t{:02}", i), &format!("g{}", i), "c")).collect();
    Viewer::new(vec![response_viewer::Entry {
        index: 0,
        lab: s("l"),
        group: s("g"),
        response: s("r"),
        ratings: vec![],
        matches: None,
        codes: response_viewer::Codes::Tags(response_viewer::TagSet::new()),
    }], codes)
}

#[test]
fn fewer_than_five_themes_make_one_row() {
    assert_eq!(viewer_with_themes(2).theme_rows(), vec![(0, 2)]);
    assert_eq!(viewer_with_themes(1).theme_rows(), vec![(0, 1)]);
}

#[test]
fn full_rows_need_no_partial_row() {
    assert_eq!(viewer_with_themes(5).theme_rows(), vec![(0, 5)]);
    assert_eq!(viewer_with_themes(10).theme_rows(), vec![(0, 5), (5, 10)]);
    assert_eq!(viewer_with_themes(11).theme_rows(), vec![(0, 5), (5, 10), (10, 11)]);
}

#[test]
fn no_themes_no_rows() {
    assert!(viewer_with_themes(0).theme_rows().is_empty());
}
