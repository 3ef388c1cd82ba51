use jaeger_stats::stitch::api::chain_list::{get_call_chain_items, get_call_chain_items_end2end, get_call_chain_items_inbound, get_process_items};
use jaeger_stats::stitch::api::inbound_prefix_idx::InboundPrefixIdx;
use jaeger_stats::stitch::api::selection::{get_full_selection, try_get_full_selection};
use jaeger_stats::stitch::api::types::Label;
use jaeger_stats::stitch::api::{get_label_list, get_month_description, try_get_label_list};
use jaeger_stats::stitch::call_chain_data::CallChainData;
use jaeger_stats::stitch::stitch_list::{StitchSourceItem, StitchSources};
use jaeger_stats::stitch::stitched::Stitched;
use jaeger_stats::stitch::stitched_line::{BestFit, StitchedLine};
use jaeger_stats::stitch::stitched_set::StitchedSet;

fn sources(descs: &[(Option<u32>, &str)]) -> StitchSources {
    StitchSources(descs.iter().map(|(c, d)| StitchSourceItem::new(*c, d)).collect())
}

fn line(label: &str, data: Vec<Option<u64>>) -> StitchedLine {
    StitchedLine {
        label: label.to_string(),
        num_filled_columns: data.iter().filter(|x| x.is_some()).count() as u32,
        data,
        data_avg: None,
        best_fit: BestFit::NoFit,
    }
}

fn ccd(full_key: &str, is_leaf: bool) -> CallChainData {
    CallChainData::new(full_key.to_string(), String::new(), true, is_leaf, StitchedSet(Vec::new()))
}

#[test]
fn month_names() {
    assert_eq!(get_month_description("01"), "Jan");
    assert_eq!(get_month_description("02"), "Febr");
    assert_eq!(get_month_description("09"), "Sept");
    assert_eq!(get_month_description("10"), "Sept");
    assert_eq!(get_month_description("12"), "Dec");
}

#[test]
fn label_list_from_dates() {
    let data = Stitched::new(
        sources(&[
            (None, "# comment 20230101"),
            (Some(0), "/data/run_20231008/Stats/cummulative_trace_stats.json"),
            (Some(1), "/data/run_20231110/Stats.json"),
            (Some(2), "% no date here"),
        ]),
        StitchedSet(Vec::new()),
        Vec::new(),
        Vec::new(),
    );
    assert_eq!(get_label_list(&data), vec!["Sept 8", "Nov 10", "2"]);
    assert_eq!(try_get_label_list(&data), Some(vec!["Sept 8".to_string(), "Nov 10".to_string(), "2".to_string()]));
    let sel = get_full_selection(&data);
    assert_eq!(sel.len(), 3);
    assert_eq!(sel[1].idx, 1);
    assert_eq!(sel[1].label, "Nov 10");
    assert!(sel.iter().all(|l| l.selected));
}

#[test]
fn label_list_rejects_invalid_month() {
    let data = Stitched::new(
        sources(&[(Some(0), "run_20231308.json")]),
        StitchedSet(Vec::new()),
        Vec::new(),
        Vec::new(),
    );
    assert_eq!(try_get_label_list(&data), None);
    assert!(try_get_full_selection(&data).is_none());
}

#[test]
fn label_new_is_selected() {
    let l = Label::new(4, "Sept 8".to_string());
    assert_eq!(l.idx, 4);
    assert!(l.selected);
}

#[test]
fn headers_and_metrics() {
    let set = StitchedSet(vec![
        line("count", vec![Some(1), None, Some(3)]),
        line("rate (req/sec)", vec![None, None, Some(2)]),
    ]);
    assert_eq!(
        set.0[0].headers(),
        "label; NUM_FILLED; 0; _1; 2; ; ; best_fit; slope; y_intercept; r2; L1_norm; scaled_slope; last_deviation; periodic_growth; exp_a, exp_b; exp_r2; exp_last_dev;"
    );
    assert_eq!(set.summary_header(false), vec!["count", "rate (req/sec)"]);
    assert_eq!(set.summary_header(true), vec!["COUNT", "NUM_FILLED", "count", "rate (req/sec)"]);
    assert_eq!(StitchedSet(Vec::new()).summary_header(true), vec!["NO DATA", "NUM_FILLED"]);
    assert_eq!(set.get_metric_stitched_line("rate (req/sec)").map(|l| l.data.clone()), Some(vec![None, None, Some(2)]));
    assert!(set.get_metric_stitched_line("p99 millis").is_none());

    let data = Stitched::new(
        sources(&[]),
        StitchedSet(Vec::new()),
        vec![("order/GET".to_string(), set)],
        Vec::new(),
    );
    assert_eq!(data.summary_header(&["Process/Operation"], false), "Process/Operation; count; rate (req/sec)");
    assert_eq!(data.summary_header(&["a", "b"], true), "a; b; COUNT; NUM_FILLED; count; rate (req/sec)");
    assert!(data.full_data_header(&["Input-files"]).starts_with("Input-files; label; NUM_FILLED; 0; _1; 2; ; ;"));
    let empty = Stitched::new(sources(&[]), StitchedSet(Vec::new()), Vec::new(), Vec::new());
    assert_eq!(empty.summary_header(&["x"], false), "x; NO DATA");
    assert_eq!(empty.full_data_header(&["x"]), "x; NO DATA");
    assert_eq!(empty.version.major, 0);
    assert_eq!(empty.version.minor, 3);
}

#[test]
fn best_fit_names() {
    assert_eq!(BestFit::LinRegr.to_string(), "Linear");
    assert_eq!(BestFit::ExprRegr.to_string(), "Exponential");
    assert_eq!(BestFit::NoFit.to_string(), "");
}

#[test]
fn chain_types() {
    let mk = |rooted, leaf| CallChainData::new(String::new(), String::new(), rooted, leaf, StitchedSet(Vec::new()));
    assert_eq!(mk(true, true).chain_type(), "end2end");
    assert_eq!(mk(true, false).chain_type(), "partial");
    assert_eq!(mk(false, true).chain_type(), "unrooted-leaf");
    assert_eq!(mk(false, false).chain_type(), "floating");
}

fn prefix_data() -> Stitched {
    Stitched::new(
        sources(&[]),
        StitchedSet(Vec::new()),
        Vec::new(),
        vec![
            ("other/op".to_string(), vec![ccd("x & y & z", true)]),
            (
                "order/GET".to_string(),
                vec![
                    ccd("gateway/GET | order/GET & order/GET & L", true),
                    ccd("gateway/GET | order/GET  & order/GET & ", false),
                    ccd("gateway/POST | shop/POST | order/GET & order/GET & L", true),
                    ccd("gateway/POST & order/GET & L", true),
                ],
            ),
            ("order/GET".to_string(), vec![ccd("ignored & second & section", false)]),
        ],
    )
}

#[test]
fn inbound_prefix_index() {
    let data = prefix_data();
    let idx = InboundPrefixIdx::new(&data, "order/GET");
    // non-leaf chain 2 overrides leaf chain 1 for the same (trimmed) prefix
    assert_eq!(idx.get_idx("gateway/GET | order/GET & order/GET & L"), 2);
    assert_eq!(idx.get_idx("gateway/POST | shop/POST | order/GET & x"), 3);
    // the longest matching prefix wins
    assert_eq!(idx.get_idx("gateway/POST | shop/POST | order/GET | more"), 3);
    assert_eq!(idx.get_idx("gateway/POST | other"), 4);
    assert_eq!(idx.get_idx("unrelated"), 0);
    assert_eq!(idx.get_idx("ignored"), 0);
}

#[test]
fn call_chain_items_inbound_listed_in_order() {
    let data = prefix_data();
    let items = get_call_chain_items_inbound(&data, "order/GET").expect("a section");
    assert_eq!(items.len(), 4);
    assert_eq!(items[0].idx, 1);
    assert_eq!(items[3].idx, 4);
    assert_eq!(items[2].key, "gateway/POST | shop/POST | order/GET & order/GET & L");
    assert_eq!(items[1].chain_type, "partial");
    assert!(items.iter().all(|it| it.inbound_idx == 0));
    assert_eq!((items[2].section, items[2].chain), (1, 2));
    assert!(get_call_chain_items_inbound(&data, "missing/op").is_none());
    // through the scope dispatcher
    let via_scope = get_call_chain_items(&data, "order/GET", "", "inbound").unwrap();
    assert_eq!(via_scope.len(), 4);
    assert_eq!(get_call_chain_items(&data, "order/GET", "", "").unwrap().len(), 4);
    assert!(get_call_chain_items(&data, "missing/op", "", "inbound").unwrap().is_empty());
    assert!(get_call_chain_items(&data, "order/GET", "", "sideways").unwrap().is_empty());
}

fn end2end_data() -> Stitched {
    Stitched::new(
        sources(&[]),
        StitchedSet(Vec::new()),
        Vec::new(),
        vec![
            (
                "order/GET".to_string(),
                vec![ccd("gateway/GET & order/GET & L", false), ccd("gateway/POST & order/GET & L", true)],
            ),
            (
                "stock/check".to_string(),
                vec![
                    ccd("gateway/POST & order/GET | stock/check & L", true),
                    ccd("gateway/GET & order/GET | stock/check & ", false),
                    ccd("zeta & order/GET | stock/check & L", true),
                    ccd("other & x & L", true),
                ],
            ),
            ("db/query".to_string(), vec![ccd("gateway/GET & order/GET | db/query & L", true)]),
        ],
    )
}

#[test]
fn call_chain_items_end2end() {
    let data = end2end_data();
    let found = get_call_chain_items_end2end(&data, "order/GET").expect("a valid pattern");
    let summary: Vec<(&str, i64, i64, usize, usize)> =
        found.iter().map(|it| (it.key.as_str(), it.idx, it.inbound_idx, it.section, it.chain)).collect();
    assert_eq!(
        summary,
        vec![
            ("gateway/POST & order/GET | stock/check & L", 0, 2, 1, 0),
            ("zeta & order/GET | stock/check & L", 0, 0, 1, 2),
            ("gateway/GET & order/GET | db/query & L", 0, 1, 2, 0),
        ]
    );
    assert_eq!(found[0].chain_type, "end2end");
    // without a metric the chains come in order of their keys, numbered
    let by_key = get_call_chain_items(&data, "order/GET", "", "end2end").unwrap();
    let keys: Vec<(&str, i64)> = by_key.iter().map(|it| (it.key.as_str(), it.idx)).collect();
    assert_eq!(
        keys,
        vec![
            ("gateway/GET & order/GET | db/query & L", 1),
            ("gateway/POST & order/GET | stock/check & L", 2),
            ("zeta & order/GET | stock/check & L", 3),
        ]
    );
    // with a metric they stay in the order found, to be ranked
    let unranked = get_call_chain_items(&data, "order/GET", "count", "end2end").unwrap();
    assert_eq!(unranked[0].key, "gateway/POST & order/GET | stock/check & L");
    assert!(unranked.iter().all(|it| it.idx == 0));
}

#[test]
fn call_chain_items_end2end_invalid_pattern() {
    let data = Stitched::new(
        sources(&[]),
        StitchedSet(Vec::new()),
        Vec::new(),
        vec![("(".to_string(), vec![ccd("a & b & c", true)])],
    );
    assert!(get_call_chain_items_end2end(&data, "(").is_none());
    assert!(get_call_chain_items(&data, "(", "", "end2end").is_none());
}

#[test]
fn process_items_listed_in_order() {
    let data = Stitched::new(
        sources(&[]),
        StitchedSet(Vec::new()),
        vec![("a/x".to_string(), StitchedSet(Vec::new())), ("b/y".to_string(), StitchedSet(Vec::new()))],
        Vec::new(),
    );
    let items = get_process_items(&data);
    let summary: Vec<(i64, &str, &str, &str, i64, usize)> = items
        .iter()
        .map(|it| (it.idx, it.key.as_str(), it.display.as_str(), it.chain_type.as_str(), it.inbound_idx, it.section))
        .collect();
    assert_eq!(summary, vec![(1, "a/x", "a/x", "", 0, 0), (2, "b/y", "b/y", "", 0, 1)]);
}

#[test]
fn inbound_prefix_index_from_items() {
    let idx = InboundPrefixIdx::from_items(vec![
        (true, "a".to_string(), 1),
        (true, "a".to_string(), 2),
        (false, "ab".to_string(), 3),
        (true, "ab".to_string(), 4),
    ]);
    assert_eq!(idx.get_idx("a"), 2);
    assert_eq!(idx.get_idx("abc"), 3);
    assert_eq!(idx.get_idx("b"), 0);
}

#[test]
fn inbound_prefix_index_multibyte_prefixes() {
    let idx = InboundPrefixIdx::from_items(vec![
        (false, "abc".to_string(), 1),
        (false, "éé".to_string(), 2),
        (false, "é".to_string(), 3),
    ]);
    assert_eq!(idx.get_idx("abcd"), 1);
    assert_eq!(idx.get_idx("ééx"), 2);
    assert_eq!(idx.get_idx("éx"), 3);
}

use jaeger_stats::stitch::api::data_set::{Error, StitchedDataSet};
use jaeger_stats::stitch::api::selection::{get_call_chain_selection, get_derived_stitched, get_proc_oper_selection};

/// Keep the selected columns of every line; a set without any value left is dropped.
fn keep_columns(set: &StitchedSet, sel: &Vec<bool>) -> Option<StitchedSet> {
    let lines: Vec<StitchedLine> = set
        .0
        .iter()
        .map(|l| {
            let data: Vec<Option<u64>> =
                l.data.iter().zip(sel.iter()).filter(|(_, s)| **s).map(|(v, _)| *v).collect();
            line(&l.label, data)
        })
        .collect();
    if lines.iter().any(|l| l.data.iter().any(|v| v.is_some())) {
        Some(StitchedSet(lines))
    } else {
        None
    }
}

fn selection_data() -> Stitched {
    let set = |a: Option<u64>, b: Option<u64>| StitchedSet(vec![line("count", vec![a, b])]);
    Stitched::new(
        sources(&[(Some(0), "run_20231008"), (Some(1), "run_20231110")]),
        set(Some(1), Some(2)),
        vec![
            ("a/op".to_string(), set(Some(1), None)),
            ("b/op".to_string(), set(None, Some(3))),
        ],
        vec![
            (
                "a/op".to_string(),
                vec![
                    CallChainData::new("x|a".to_string(), "x".to_string(), true, true, set(Some(5), None)),
                    CallChainData::new("y|a".to_string(), "y".to_string(), false, true, set(None, Some(6))),
                ],
            ),
            (
                "b/op".to_string(),
                vec![CallChainData::new("z|b".to_string(), "z".to_string(), true, false, set(None, Some(7)))],
            ),
        ],
    )
}

#[test]
fn selections_of_columns() {
    let data = selection_data();
    let first = vec![true, false];
    let so = get_proc_oper_selection(&data, &first, &keep_columns);
    assert_eq!(so.len(), 1);
    assert_eq!(so[0].0, "a/op");
    assert_eq!(so[0].1 .0[0].data, vec![Some(1)]);
    let cc = get_call_chain_selection(&data, &first, &keep_columns);
    assert_eq!(cc.len(), 1);
    assert_eq!(cc[0].0, "a/op");
    assert_eq!(cc[0].1.len(), 1);
    assert_eq!(cc[0].1[0].full_key, "x|a");
    assert_eq!(cc[0].1[0].inbound_process_key, "x");
    let derived = get_derived_stitched(&data, &vec![false, true], &keep_columns);
    assert!(derived.sources.0.is_empty());
    assert!(derived.basic.0.is_empty());
    assert_eq!(derived.service_operation.len(), 1);
    assert_eq!(derived.service_operation[0].0, "b/op");
    assert_eq!(derived.call_chain.len(), 2);
    assert_eq!(derived.call_chain[1].1[0].full_key, "z|b");
}

#[test]
fn data_set_selection() {
    let mut ds = StitchedDataSet::new(selection_data());
    assert_eq!(ds.get_label_list(), vec!["Sept 8", "Nov 10"]);
    match ds.set_selection(vec![true], &keep_columns) {
        Err(Error::selection_failure(1, 2)) => {}
        other => panic!("unexpected {other:?}"),
    }
    assert!(ds.get_selection().iter().all(|l| l.selected));
    assert!(ds.set_selection(vec![false, true], &keep_columns).is_ok());
    assert_eq!(ds.get_label_list(), vec!["Nov 10"]);
    assert!(!ds.get_selection()[0].selected);
    assert!(ds.set_selection(vec![true, true], &keep_columns).is_ok());
    assert_eq!(ds.get_label_list(), vec!["Sept 8", "Nov 10"]);
    assert!(StitchedDataSet::try_new(selection_data()).is_some());
}

#[test]
fn stitched_set_selection_of_columns() {
    let set = StitchedSet(vec![
        line("count", vec![Some(1), None, Some(3)]),
        line("rate", vec![None, None, Some(9)]),
    ]);
    let fit = |data: &Vec<Option<u64>>| (Some(data.len() as u64), BestFit::LinRegr);
    let sel = set.get_selection(&vec![true, true, false], &fit).expect("a value is left");
    assert_eq!(sel.0.len(), 2);
    assert_eq!(sel.0[0].label, "count");
    assert_eq!(sel.0[0].data, vec![Some(1), None]);
    assert_eq!(sel.0[0].num_filled_columns, 1);
    assert_eq!(sel.0[0].data_avg, Some(2));
    assert_eq!(sel.0[0].best_fit, BestFit::LinRegr);
    assert_eq!(sel.0[1].label, "rate");
    assert_eq!(sel.0[1].data, vec![None, None]);
    assert_eq!(sel.0[1].num_filled_columns, 0);
    assert!(set.get_selection(&vec![false, true, false], &fit).is_none());
    // a selection longer than the data reaches only as far as the data
    let short = set.get_selection(&vec![false, false, true, true], &fit).unwrap();
    assert_eq!(short.0[1].data, vec![Some(9)]);
}

use jaeger_stats::stitch::api::{get_file_stats, try_get_file_stats};

#[test]
fn file_stats_table() {
    let data = selection_data();
    let t = get_file_stats(&data);
    assert_eq!(t.column_labels, vec!["Sept 8", "Nov 10"]);
    assert_eq!(t.data.len(), 1);
    assert_eq!(t.data[0].label, "count");
    assert_eq!(t.data[0].data, vec![Some(1), Some(2)]);
    let ds = StitchedDataSet::new(selection_data());
    assert_eq!(ds.get_file_stats().column_labels, vec!["Sept 8", "Nov 10"]);
    let bad = Stitched::new(sources(&[(Some(0), "run_20231308")]), StitchedSet(Vec::new()), Vec::new(), Vec::new());
    assert!(try_get_file_stats(&bad).is_none());
}
