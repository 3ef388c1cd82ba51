use jaeger_stats::stitch::key::Key;
use jaeger_stats::stitch::stitch_list::{StitchList, StitchSourceItem, StitchSources};
use jaeger_stats::text::{join_strings, split_exec, starts_with, usize_to_string};

#[test]
fn decimal_formatting() {
    assert_eq!(usize_to_string(0), "0");
    assert_eq!(usize_to_string(7), "7");
    assert_eq!(usize_to_string(10), "10");
    assert_eq!(usize_to_string(1234567), "1234567");
}

#[test]
fn split_and_join() {
    let parts = split_exec("a & b&c", '&');
    assert_eq!(parts, vec!["a ".to_string(), " b".to_string(), "c".to_string()]);
    assert_eq!(split_exec("", '&'), vec!["".to_string()]);
    assert_eq!(split_exec("&", '&'), vec!["".to_string(), "".to_string()]);
    let items = vec!["x".to_string(), "y".to_string(), "z".to_string()];
    assert_eq!(join_strings(&items, "; "), "x; y; z");
    assert_eq!(join_strings(&Vec::new(), "; "), "");
    assert!(starts_with("gateway/GET", "gate"));
    assert!(!starts_with("gate", "gateway"));
}

#[test]
fn key_to_string() {
    let k = Key { process: "order".to_string(), operation: "GET:/orders".to_string() };
    assert_eq!(k.to_string(), "order/GET:/orders");
}

#[test]
fn source_item_csv() {
    assert_eq!(StitchSourceItem::new(Some(3), "file.json").to_csv_string(), "3; file.json");
    assert_eq!(StitchSourceItem::new(None, "# comment").to_csv_string(), " ; # comment");
}

#[test]
fn sources_numbering() {
    let mut s = StitchSources::new();
    s.add_unnumbered("# header");
    s.add_numbered("a.json");
    s.add_numbered("% missing");
    s.add_unnumbered("# note");
    s.add_numbered("b.json");
    let cols: Vec<Option<u32>> = s.0.iter().map(|x| x.column).collect();
    assert_eq!(cols, vec![None, Some(0), Some(1), None, Some(2)]);
    assert_eq!(
        s.csv_output(),
        vec![" ; # header", "0; a.json", "1; % missing", " ; # note", "2; b.json"]
    );
}

#[test]
fn stitch_list_from_lines() {
    let lines: Vec<String> = vec![
        "#  comment line: this line is full ignored".to_string(),
        "/home/user/batch/Stats/cummulative_trace_stats.json".to_string(),
        "  ../get_order/Stats/cummulative_trace_stats.json  ".to_string(),
        "% ../post_order/Stats/cummulative_trace_stats.json".to_string(),
        "".to_string(),
        "   ".to_string(),
        "# yet another comment".to_string(),
    ];
    let sl = StitchList::from_lines(&lines);
    assert_eq!(sl.lines.0.len(), 5);
    assert_eq!(sl.paths.len(), 3);
    assert_eq!(sl.paths[0].as_deref(), Some("/home/user/batch/Stats/cummulative_trace_stats.json"));
    assert_eq!(sl.paths[1].as_deref(), Some("../get_order/Stats/cummulative_trace_stats.json"));
    assert_eq!(sl.paths[2], None);
    assert_eq!(sl.lines.0[2].description, "../get_order/Stats/cummulative_trace_stats.json");
    assert_eq!(sl.lines.0[3].column, Some(2));
    assert_eq!(sl.lines.0[4].column, None);
}

#[test]
fn stitch_list_path_stops_at_comment() {
    let lines: Vec<String> = vec![
        "run_20231008/Stats/cummulative_trace_stats.json   # first week".to_string(),
        "\u{3000}run_b.json#no space\u{a0}".to_string(),
    ];
    let sl = StitchList::from_lines(&lines);
    assert_eq!(sl.paths[0].as_deref(), Some("run_20231008/Stats/cummulative_trace_stats.json"));
    assert_eq!(sl.paths[1].as_deref(), Some("run_b.json"));
    assert_eq!(sl.lines.0[0].description, "run_20231008/Stats/cummulative_trace_stats.json   # first week");
}
