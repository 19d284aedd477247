use linked_hash_map::LinkedHashMap;
use site_table::{
    apply_edit, flag_text, lines_to_map, lines_to_records, map_to_lines, parse_flag, read_table,
    records_to_lines, sites_to_table, write_table, CsvLine, CustomSite, EditError, TableError,
};

fn site(enabled: bool, keyword: &str, text: &str, url: &str, utf8: bool) -> CustomSite {
    CustomSite {
        enabled,
        keyword: keyword.to_string(),
        text: text.to_string(),
        url: url.to_string(),
        utf8,
    }
}

fn line(key: &str, enabled: bool, keyword: &str, text: &str, url: &str, utf8: bool) -> CsvLine {
    CsvLine {
        key: key.to_string(),
        enabled,
        keyword: keyword.to_string(),
        text: text.to_string(),
        url: url.to_string(),
        utf8,
    }
}

fn sample_map() -> LinkedHashMap<String, CustomSite> {
    let mut m = LinkedHashMap::new();
    m.insert(
        "B2".to_string(),
        site(true, "g", "Google {query}", "https://google.com/search?q={query}", true),
    );
    m.insert(
        "A1".to_string(),
        site(false, "ddg", "DuckDuckGo", "https://duckduckgo.com/?q={query}", false),
    );
    m.insert(
        "C3".to_string(),
        site(true, "w", "Wikipedia", "https://en.wikipedia.org/wiki/{query}", true),
    );
    m
}

fn entries(m: &LinkedHashMap<String, CustomSite>) -> Vec<(String, bool, String, String, String, bool)> {
    m.iter()
        .map(|(k, v)| {
            (k.clone(), v.enabled, v.keyword.clone(), v.text.clone(), v.url.clone(), v.utf8)
        })
        .collect()
}

fn line_tuple(l: &CsvLine) -> (String, bool, String, String, String, bool) {
    (l.key.clone(), l.enabled, l.keyword.clone(), l.text.clone(), l.url.clone(), l.utf8)
}

fn text_of(lines: &[&str]) -> Vec<u8> {
    let mut s = String::new();
    for l in lines {
        s.push_str(l);
        s.push('\n');
    }
    s.into_bytes()
}

const HEADER: &str = "key,enabled,keyword,text,url,utf8";

#[test]
fn flatten_keeps_map_order() {
    let m = sample_map();
    let lines = map_to_lines(m.clone());
    let keys: Vec<&str> = lines.iter().map(|l| l.key.as_str()).collect();
    assert_eq!(keys, vec!["B2", "A1", "C3"]);
    assert_eq!(
        line_tuple(&lines[1]),
        (
            "A1".to_string(),
            false,
            "ddg".to_string(),
            "DuckDuckGo".to_string(),
            "https://duckduckgo.com/?q={query}".to_string(),
            false
        )
    );
}

#[test]
fn flatten_of_empty_map_is_empty() {
    let m: LinkedHashMap<String, CustomSite> = LinkedHashMap::new();
    assert!(map_to_lines(m).is_empty());
}

#[test]
fn unflatten_of_flatten_is_identity() {
    let m = sample_map();
    let back = lines_to_map(map_to_lines(m.clone()));
    assert_eq!(entries(&back), entries(&m));
}

#[test]
fn unflatten_inserts_in_row_order() {
    let lines = vec![
        line("z", true, "a", "A", "u1", false),
        line("y", false, "b", "B", "u2", true),
    ];
    let m = lines_to_map(lines);
    let keys: Vec<String> = m.keys().cloned().collect();
    assert_eq!(keys, vec!["z".to_string(), "y".to_string()]);
}

#[test]
fn duplicate_key_last_row_wins_and_moves_to_end() {
    let lines = vec![
        line("k", true, "first", "F", "u1", true),
        line("m", true, "other", "O", "u2", true),
        line("k", false, "second", "S", "u3", false),
    ];
    let m = lines_to_map(lines);
    let keys: Vec<String> = m.keys().cloned().collect();
    assert_eq!(keys, vec!["m".to_string(), "k".to_string()]);
    let k = m.get("k").unwrap();
    assert_eq!(k.keyword, "second");
    assert!(!k.enabled);
    assert_eq!(m.len(), 2);
}

#[test]
fn flag_text_and_parse() {
    assert_eq!(flag_text(true), "true");
    assert_eq!(flag_text(false), "false");
    assert_eq!(parse_flag(&"true".to_string()), Some(true));
    assert_eq!(parse_flag(&"false".to_string()), Some(false));
    assert_eq!(parse_flag(&"maybe".to_string()), None);
    assert_eq!(parse_flag(&"True".to_string()), None);
    assert_eq!(parse_flag(&"".to_string()), None);
}

#[test]
fn records_start_with_header() {
    let recs = lines_to_records(&vec![line("k", true, "g", "G", "u", false)]);
    assert_eq!(recs.len(), 2);
    assert_eq!(recs[0], vec!["key", "enabled", "keyword", "text", "url", "utf8"]);
    assert_eq!(recs[1], vec!["k", "true", "g", "G", "u", "false"]);
}

#[test]
fn write_table_exact_text() {
    let text = write_table(&vec![
        line("k1", true, "g", "Google", "https://g/?q={query}", false),
        line("k2", false, "d", "Dd", "https://d/{query}", true),
    ]);
    assert_eq!(
        String::from_utf8(text).unwrap(),
        "key,enabled,keyword,text,url,utf8\n\
         k1,true,g,Google,https://g/?q={query},false\n\
         k2,false,d,Dd,https://d/{query},true\n"
    );
}

#[test]
fn write_table_of_no_rows_is_header_only() {
    let text = write_table(&Vec::new());
    assert_eq!(String::from_utf8(text).unwrap(), format!("{}\n", HEADER));
}

#[test]
fn write_table_quotes_special_fields() {
    let text = write_table(&vec![line("k", true, "g", "a,b", "say \"hi\"", true)]);
    assert_eq!(
        String::from_utf8(text).unwrap(),
        "key,enabled,keyword,text,url,utf8\nk,true,g,\"a,b\",\"say \"\"hi\"\"\",true\n"
    );
}

#[test]
fn table_round_trip_plain() {
    let lines = map_to_lines(sample_map());
    let back = read_table(&write_table(&lines)).unwrap();
    let a: Vec<_> = lines.iter().map(line_tuple).collect();
    let b: Vec<_> = back.iter().map(line_tuple).collect();
    assert_eq!(a, b);
}

#[test]
fn table_round_trip_with_delimiters_quotes_and_newlines() {
    let lines = vec![
        line("k,1", true, "g\"x", "two\nlines, and \"quotes\"", "https://x/?a=1,b=2\r\n", false),
        line("", false, "", "", "", true),
    ];
    let back = read_table(&write_table(&lines)).unwrap();
    let a: Vec<_> = lines.iter().map(line_tuple).collect();
    let b: Vec<_> = back.iter().map(line_tuple).collect();
    assert_eq!(a, b);
}

#[test]
fn records_round_trip() {
    let lines = vec![line("k", false, "kw", "T", "U", true)];
    let back = records_to_lines(&lines_to_records(&lines)).unwrap();
    assert_eq!(line_tuple(&back[0]), line_tuple(&lines[0]));
    assert_eq!(back.len(), 1);
}

#[test]
fn read_empty_text_is_missing_header() {
    assert_eq!(read_table(&Vec::new()).unwrap_err(), TableError::MissingHeader);
}

#[test]
fn read_without_enabled_column_is_rejected() {
    let text = text_of(&["key,keyword,text,url,utf8", "k,g,G,u,true"]);
    assert_eq!(read_table(&text).unwrap_err(), TableError::BadHeader);
}

#[test]
fn read_reordered_header_is_rejected() {
    let text = text_of(&["enabled,key,keyword,text,url,utf8", "true,k,g,G,u,true"]);
    assert_eq!(read_table(&text).unwrap_err(), TableError::BadHeader);
}

#[test]
fn read_maybe_flag_is_rejected() {
    let text = text_of(&[HEADER, "k1,true,g,G,u,true", "k2,maybe,g,G,u,true"]);
    assert_eq!(read_table(&text).unwrap_err(), TableError::BadFlag { row: 2, column: 1 });
}

#[test]
fn read_bad_utf8_flag_column_is_rejected() {
    let text = text_of(&[HEADER, "k1,true,g,G,u,yes"]);
    assert_eq!(read_table(&text).unwrap_err(), TableError::BadFlag { row: 1, column: 5 });
}

#[test]
fn read_short_row_is_rejected() {
    let text = text_of(&[HEADER, "k1,true,g,G,u,true", "k2,true,g"]);
    assert_eq!(read_table(&text).unwrap_err(), TableError::WrongColumnCount { row: 2 });
}

#[test]
fn read_long_row_is_rejected() {
    let text = text_of(&[HEADER, "k1,true,g,G,u,true,extra"]);
    assert_eq!(read_table(&text).unwrap_err(), TableError::WrongColumnCount { row: 1 });
}

#[test]
fn read_invalid_utf8_is_syntax_error() {
    let mut text = text_of(&[HEADER]);
    text.extend_from_slice(&[b'k', 0xff, 0xfe, b',', b't']);
    text.push(b'\n');
    assert_eq!(read_table(&text).unwrap_err(), TableError::Syntax);
}

#[test]
fn read_first_error_wins() {
    let text = text_of(&[HEADER, "k1,true,g", "k2,maybe,g,G,u,true"]);
    assert_eq!(read_table(&text).unwrap_err(), TableError::WrongColumnCount { row: 1 });
}

#[test]
fn records_to_lines_header_only_is_empty() {
    let recs = lines_to_records(&Vec::new());
    assert!(records_to_lines(&recs).unwrap().is_empty());
}

#[test]
fn failed_editor_gives_no_document() {
    let text = sites_to_table(sample_map());
    assert_eq!(apply_edit(false, &text).unwrap_err(), EditError::EditorFailed);
    assert_eq!(apply_edit(false, &Vec::new()).unwrap_err(), EditError::EditorFailed);
}

#[test]
fn unchanged_edit_gives_same_document() {
    let m = sample_map();
    let text = sites_to_table(m.clone());
    let back = apply_edit(true, &text).unwrap();
    assert_eq!(entries(&back), entries(&m));
}

#[test]
fn malformed_edit_is_table_error() {
    let text = text_of(&[HEADER, "k,maybe,g,G,u,true"]);
    assert_eq!(
        apply_edit(true, &text).unwrap_err(),
        EditError::Table(TableError::BadFlag { row: 1, column: 1 })
    );
}

#[test]
fn deleted_row_key_is_absent() {
    let text = String::from_utf8(sites_to_table(sample_map())).unwrap();
    let kept: Vec<&str> = text.lines().filter(|l| !l.starts_with("A1,")).collect();
    let back = apply_edit(true, &text_of(&kept)).unwrap();
    assert!(back.get("A1").is_none());
    let keys: Vec<String> = back.keys().cloned().collect();
    assert_eq!(keys, vec!["B2".to_string(), "C3".to_string()]);
}

#[test]
fn added_row_is_present_with_its_values() {
    let mut text = String::from_utf8(sites_to_table(sample_map())).unwrap();
    text.push_str("N9,false,yt,YouTube,https://youtube.com/results?q={query},true\n");
    let back = apply_edit(true, &text.into_bytes()).unwrap();
    let n = back.get("N9").unwrap();
    assert!(!n.enabled);
    assert_eq!(n.keyword, "yt");
    assert_eq!(n.text, "YouTube");
    assert_eq!(n.url, "https://youtube.com/results?q={query}");
    assert!(n.utf8);
    assert_eq!(back.keys().last().unwrap(), "N9");
    assert_eq!(back.len(), 4);
}

#[test]
fn url_edit_leaves_other_rows_unchanged() {
    let m = sample_map();
    let text = String::from_utf8(sites_to_table(m.clone())).unwrap();
    let edited = text.replace(
        "https://duckduckgo.com/?q={query}",
        "https://html.duckduckgo.com/html?q={query}",
    );
    let back = apply_edit(true, &edited.into_bytes()).unwrap();
    let before = entries(&m);
    let after = entries(&back);
    assert_eq!(after.len(), 3);
    assert_eq!(after[0], before[0]);
    assert_eq!(after[2], before[2]);
    assert_eq!(after[1].4, "https://html.duckduckgo.com/html?q={query}");
    assert_eq!((&after[1].0, after[1].1, &after[1].2, &after[1].3, after[1].5),
               (&before[1].0, before[1].1, &before[1].2, &before[1].3, before[1].5));
}

#[test]
fn reordered_rows_reorder_document() {
    let text = text_of(&[HEADER, "C3,true,w,W,u3,true", "B2,true,g,G,u1,true"]);
    let back = apply_edit(true, &text).unwrap();
    let keys: Vec<String> = back.keys().cloned().collect();
    assert_eq!(keys, vec!["C3".to_string(), "B2".to_string()]);
}
