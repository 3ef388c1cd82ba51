use jaeger_stats::order::str_lt;
use jaeger_stats::stats::call_chain::{Call, CallDirection};
use jaeger_stats::stitch::api::mermaid::diagram::split_service;
use jaeger_stats::stitch::api::mermaid::service_oper_graph::call_descriptor::CallDescriptor;
use jaeger_stats::stitch::api::mermaid::service_oper_graph::operation::Operation;
use jaeger_stats::stitch::api::mermaid::service_oper_graph::{
    LinkType, Loc, ServiceOperGraph, ServiceOperationType,
};
use jaeger_stats::stitch::call_chain_reporter::repartition_keys;
use jaeger_stats::stitch::legacy::stitched::vec_try_into;
use jaeger_stats::trace::{
    find_full_duration, get_response_duration, get_root_call, JaegerItem, JaegerSpan, Span, Trace,
};

fn call(process: &str, method: &str, call_direction: CallDirection) -> Call {
    Call {
        process: process.to_string(),
        method: method.to_string(),
        call_direction,
    }
}

fn show(c: f64) -> String {
    format!("{}", c)
}

#[test]
fn lexicographic_order() {
    assert!(str_lt("abc", "abd"));
    assert!(str_lt("ab", "abc"));
    assert!(str_lt("", "a"));
    assert!(!str_lt("abc", "abc"));
    assert!(!str_lt("b", "abc"));
    assert!(str_lt("Z", "a"));
}

#[test]
fn repartition_groups_by_name_then_count() {
    let keys = vec![
        ("b/op".to_string(), 1u32, 5usize, true),
        ("a/op".to_string(), 2u32, 1usize, false),
        ("b/op".to_string(), 3u32, 9usize, false),
        ("a/op".to_string(), 4u32, 7usize, true),
        ("c/op".to_string(), 5u32, 2usize, true),
    ];
    let groups = repartition_keys(keys);
    assert_eq!(
        groups,
        vec![
            ("a/op".to_string(), vec![(4u32, true), (2u32, false)]),
            ("b/op".to_string(), vec![(3u32, false), (1u32, true)]),
            ("c/op".to_string(), vec![(5u32, true)]),
        ]
    );
}

#[test]
fn repartition_of_nothing() {
    let keys: Vec<(String, u8, usize, bool)> = Vec::new();
    assert!(repartition_keys(keys).is_empty());
}

#[test]
fn service_of_service_oper() {
    assert_eq!(split_service("gateway/POST:/orders"), "gateway");
    assert_eq!(split_service("gateway"), "gateway");
    assert_eq!(split_service("/orders"), "");
    assert_eq!(split_service(""), "");
}

fn item() -> JaegerItem {
    JaegerItem {
        trace_id: "t1".to_string(),
        spans: vec![
            JaegerSpan { start_time: 100, duration: 50 },
            JaegerSpan { start_time: 90, duration: 200 },
            JaegerSpan { start_time: 120, duration: 10 },
        ],
    }
}

fn spans() -> Vec<Span> {
    vec![
        Span {
            parent: Some(1),
            process: "db".to_string(),
            operation_name: "select".to_string(),
        },
        Span {
            parent: None,
            process: "gateway".to_string(),
            operation_name: "GET:/orders".to_string(),
        },
        Span {
            parent: Some(1),
            process: "orders".to_string(),
            operation_name: "list".to_string(),
        },
    ]
}

#[test]
fn full_duration_of_item() {
    assert_eq!(find_full_duration(&item()), (90, 290));
}

#[test]
fn response_duration_and_root() {
    assert_eq!(get_response_duration(&spans(), &item()), 200);
    assert_eq!(get_root_call(&spans()), "gateway/GET:/orders");
}

#[test]
fn trace_from_item() {
    let t = Trace::new(&item(), spans(), vec!["x".to_string()]);
    assert_eq!(t.trace_id, "t1");
    assert_eq!(t.root_call, "gateway/GET:/orders");
    assert_eq!(t.start_dt, 90);
    assert_eq!(t.end_dt, 290);
    assert_eq!(t.duration_micros, 200);
    assert_eq!(t.time_to_respond_micros, 200);
    assert_eq!(t.missing_span_ids, vec!["x".to_string()]);
    assert_eq!(t.spans.len(), 3);
}

struct Even(u32);

impl TryInto<u16> for Even {
    type Error = &'static str;
    fn try_into(self) -> Result<u16, &'static str> {
        if self.0 % 2 == 0 {
            Ok((self.0 / 2) as u16)
        } else {
            Err("odd value")
        }
    }
}

#[test]
fn vec_try_into_converts_all_or_stops() {
    let ok: Result<Vec<(&str, u16)>, &str> = vec_try_into(vec![("a", Even(4)), ("b", Even(10))]);
    assert_eq!(ok, Ok(vec![("a", 2u16), ("b", 5u16)]));
    let err: Result<Vec<(&str, u16)>, &str> =
        vec_try_into(vec![("a", Even(4)), ("b", Even(3)), ("c", Even(6))]);
    assert_eq!(err, Err("odd value"));
}

#[test]
fn upsert_adds_counts() {
    let mut op: Operation<f64> = Operation::new("list".to_string(), CallDirection::Inbound);
    op.upsert_link(CallDescriptor::new(Loc { service_idx: 1, oper_idx: 0 }, 2.0), |a, b| a + b);
    op.upsert_link(CallDescriptor::new(Loc { service_idx: 2, oper_idx: 0 }, 1.0), |a, b| a + b);
    op.upsert_link(CallDescriptor::new(Loc { service_idx: 1, oper_idx: 0 }, 3.5), |a, b| a + b);
    assert_eq!(op.calls.len(), 2);
    assert_eq!(op.calls[0].count, 5.5);
    assert_eq!(op.calls[1].count, 1.0);
    op.update_line_type(Loc { service_idx: 2, oper_idx: 0 }, LinkType::Emphasized);
    assert_eq!(op.calls[1].line_type, LinkType::Emphasized);
    assert_eq!(op.calls[0].line_type, LinkType::Default);
}

fn sample_graph() -> ServiceOperGraph<f64> {
    let mut g = ServiceOperGraph::new();
    g.add_connection(
        call("gateway", "GET:/orders", CallDirection::Inbound),
        call("gateway", "orders/list", CallDirection::Outbound),
        4.0,
        |a, b| a + b,
    );
    g.add_connection(
        call("gateway", "orders/list", CallDirection::Outbound),
        call("orders", "list", CallDirection::Inbound),
        4.0,
        |a, b| a + b,
    );
    g.add_connection(
        call("gateway", "orders/list", CallDirection::Outbound),
        call("orders", "list", CallDirection::Inbound),
        1.5,
        |a, b| a + b,
    );
    g
}

#[test]
fn graph_lookup_and_creation() {
    let mut g = sample_graph();
    assert_eq!(g.get_service_idx("gateway"), Some(0));
    assert_eq!(g.get_service_idx("orders"), Some(1));
    assert_eq!(g.get_service_idx("db"), None);
    let loc = g.get_service_operation_idx(&call("gateway", "orders/list", CallDirection::Outbound));
    assert_eq!(loc, Some(Loc { service_idx: 0, oper_idx: 1 }));
    let new_loc = g.get_create_service_operation_idx(call("orders", "get", CallDirection::Inbound));
    assert_eq!(new_loc, Loc { service_idx: 1, oper_idx: 1 });
    let db_loc = g.get_create_service_operation_idx(call("db", "select", CallDirection::Inbound));
    assert_eq!(db_loc, Loc { service_idx: 2, oper_idx: 0 });
    assert_eq!(g.get_target(1, 1), "orders/get");
}

#[test]
fn graph_diagram_with_counts_and_styles() {
    let mut g = sample_graph();
    g.update_line_type(
        &call("gateway", "orders/list", CallDirection::Outbound),
        &call("orders", "list", CallDirection::Inbound),
        LinkType::Emphasized,
        0.0,
    );
    g.update_service_operation_type(
        &call("orders", "list", CallDirection::Inbound),
        ServiceOperationType::Emphasized,
    );
    let diagram = g.mermaid_diagram(false, &show);
    let expected = [
        "graph LR",
        "\tsubgraph gateway",
        "\t\tgateway/GET:/orders([gateway/GET:/orders])",
        "\t\tgateway/orders/list([gateway/orders/list])",
        "\tend",
        "\tsubgraph orders",
        "\t\torders/list([orders/list])",
        "\tend",
        "\tgateway/GET:/orders -->|4| gateway/orders/list",
        "\tgateway/orders/list ==>|5.5| orders/list",
    ]
    .join("\n");
    assert_eq!(diagram, expected);
}

use jaeger_stats::stitch::api::mermaid::flowchart::link::MermaidLink as FlowLink;
use jaeger_stats::stitch::api::mermaid::mermaid::basic_node::MermaidBasicNode;
use jaeger_stats::stitch::api::mermaid::mermaid::link::MermaidLink;
use jaeger_stats::stitch::api::mermaid::mermaid::mermaid::Mermaid;
use jaeger_stats::stitch::api::mermaid::mermaid::sub_graph::MermaidSubGraph;
use jaeger_stats::stitch::api::proc_oper_graph::ProcOperGraph;
use jaeger_stats::trace_analysis::dedup::deduplicate;

#[test]
fn proc_oper_graph_links() {
    let mut g: ProcOperGraph<f64> = ProcOperGraph::new();
    g.add(
        call("gateway", "GET:/orders", CallDirection::Inbound),
        call("orders", "list", CallDirection::Inbound),
        2.0,
        |a, b| a + b,
    );
    g.add(
        call("gateway", "GET:/orders", CallDirection::Inbound),
        call("orders", "list", CallDirection::Inbound),
        3.0,
        |a, b| a + b,
    );
    let d = g.get_proc_oper_idx(call("gateway", "GET:/orders", CallDirection::Inbound), 0.0);
    assert_eq!((d.to_proc, d.to_oper), (0, 0));
    let d = g.get_proc_oper_idx(call("orders", "list", CallDirection::Inbound), 0.0);
    assert_eq!((d.to_proc, d.to_oper), (1, 0));
    let d = g.get_proc_oper_idx(call("orders", "get", CallDirection::Inbound), 7.0);
    assert_eq!((d.to_proc, d.to_oper, d.count), (1, 1, 7.0));
    let d = g.get_proc_oper_idx(call("db", "query", CallDirection::Inbound), 0.0);
    assert_eq!((d.to_proc, d.to_oper), (2, 0));
}

fn trace_with_id(id: &str) -> Trace {
    Trace {
        trace_id: id.to_string(),
        root_call: String::new(),
        start_dt: 0,
        end_dt: 0,
        duration_micros: 0,
        time_to_respond_micros: 0,
        missing_span_ids: Vec::new(),
        spans: Vec::new(),
    }
}

#[test]
fn deduplicate_keeps_first_of_each_id() {
    let traces = vec![
        trace_with_id("a"),
        trace_with_id("b"),
        trace_with_id("a"),
        trace_with_id("c"),
        trace_with_id("b"),
        trace_with_id("a"),
    ];
    let (kept, removed) = deduplicate(traces);
    let ids: Vec<&str> = kept.iter().map(|t| t.trace_id.as_str()).collect();
    assert_eq!(ids, vec!["a", "b", "c"]);
    assert_eq!(removed, vec!["a".to_string(), "b".to_string(), "a".to_string()]);
    assert_eq!(kept.len() + removed.len(), 6);
}

#[test]
fn deduplicate_without_duplicates() {
    let (kept, removed) = deduplicate(vec![trace_with_id("x"), trace_with_id("y")]);
    assert_eq!(kept.len(), 2);
    assert!(removed.is_empty());
    let (kept, removed) = deduplicate(Vec::new());
    assert!(kept.is_empty() && removed.is_empty());
}

#[test]
fn mermaid_diagram_styles_emphasized_links() {
    let mut m: Mermaid<f64> = Mermaid::new();
    m.add_node(MermaidBasicNode::new("gateway", ServiceOperationType::Default));
    let mut sg = MermaidSubGraph {
        service: "orders",
        serv_oper_type: ServiceOperationType::Default,
        nodes: Vec::new(),
    };
    sg.add_node(MermaidBasicNode::new("list", ServiceOperationType::Default));
    m.add_subgraph(sg);
    m.add_link(MermaidLink::new("gateway", "orders", 3.0, LinkType::Default));
    m.add_link(MermaidLink::new("orders", "list", 3.0, LinkType::Emphasized));
    m.add_link(MermaidLink::new("gateway", "list", 1.0, LinkType::Emphasized));
    let expected = [
        "graph LR",
        "\tgateway([gateway])",
        "\tsubgraph orders",
        "\t\tlist([list])",
        "\tend",
        "linkStyle 2,3 stroke:#ff3,stroke-width:4px,color:red;",
    ]
    .join("\n");
    assert_eq!(m.mermaid_diagram(), expected);
}

#[test]
fn mermaid_link_adds_no_line() {
    let mut d = vec!["x".to_string()];
    MermaidLink::new("a", "b", 2.0, LinkType::Emphasized).to_diagram(&mut d, 1);
    assert_eq!(d, vec!["x".to_string()]);
}

#[test]
fn flowchart_link_lines() {
    let rounded = |v: f64| format!("{:.0}", v);
    let mut d = Vec::new();
    FlowLink::new("a".to_string(), "b".to_string(), Some(2.4), LinkType::Emphasized)
        .to_diagram(&mut d, 1, &rounded);
    FlowLink::new("b".to_string(), "c".to_string(), None, LinkType::Default)
        .to_diagram(&mut d, 2, &rounded);
    assert_eq!(d, vec!["\ta ==>|2| b", "\t\tb --> c"]);
}

use jaeger_stats::stats::StatsRec;
use jaeger_stats::trace_analysis::api::trace_data_set::diagram_file_name;
use jaeger_stats::traceext::TraceExt;

#[test]
fn endpoint_key_and_diagram_file_name() {
    let mut trace = trace_with_id("t");
    trace.root_call = "gateway/GET:/orders;v1\\x".to_string();
    let te = TraceExt {
        base_name: "t".to_string(),
        trace,
        stats_rec: StatsRec { stats: Vec::new() },
    };
    assert_eq!(te.get_endpoint_key(), "gateway_GET__orders_v1_x");
    assert_eq!(diagram_file_name("gateway/GET:/orders\\x"), "gateway_GET:_orders_x.mermaid");
}

#[test]
fn find_or_add_is_idempotent() {
    let mut g = sample_graph();
    let first = g.get_create_service_operation_idx(call("db", "select", CallDirection::Inbound));
    let again = g.get_create_service_operation_idx(call("db", "select", CallDirection::Inbound));
    assert_eq!(first, again);
    assert_eq!(g.get_service_idx("db"), Some(first.service_idx));
    assert_eq!(
        g.get_create_service_operation_idx(call("gateway", "GET:/orders", CallDirection::Inbound)),
        Loc { service_idx: 0, oper_idx: 0 }
    );
}

#[test]
fn lexicographic_order_is_strict_and_total() {
    let words = ["", "a", "ab", "abc", "b", "ba", "Z", "é"];
    for x in words {
        assert!(!str_lt(x, x));
        for y in words {
            assert!(!(str_lt(x, y) && str_lt(y, x)));
            assert!(x == y || str_lt(x, y) || str_lt(y, x));
            for z in words {
                if str_lt(x, y) && str_lt(y, z) {
                    assert!(str_lt(x, z));
                }
            }
        }
    }
}

use jaeger_stats::stats::Stats;
use jaeger_stats::stitch::proc_oper_stats_reporter::get_keys;

fn service(name: &str, ops: &[&str]) -> (String, Stats) {
    (
        name.to_string(),
        Stats {
            num_received_calls: 1,
            num_unknown_calls: 0,
            operation: ops.iter().map(|o| o.to_string()).collect(),
        },
    )
}

#[test]
fn report_keys_sorted_and_distinct() {
    let data = vec![
        Some(StatsRec { stats: vec![service("orders", &["list", "get"]), service("gateway", &["GET:/orders"])] }),
        None,
        Some(StatsRec { stats: vec![service("orders", &["get", "add"]), service("db", &[])] }),
    ];
    let keys: Vec<String> = get_keys(&data).iter().map(|k| k.to_string()).collect();
    assert_eq!(keys, vec!["gateway/GET:/orders", "orders/add", "orders/get", "orders/list"]);
    assert!(get_keys(&[]).is_empty());
}

#[test]
fn lexicographic_order_matches_str_order() {
    let words = ["", "a", "ab", "abc", "b", "ba", "Z", "é", "zz"];
    for x in words {
        for y in words {
            assert_eq!(str_lt(x, y), x < y);
        }
    }
}

#[test]
fn update_line_type_creates_what_is_missing() {
    let mut g = sample_graph();
    // an existing pair of operations without a link between them gets one
    g.update_line_type(
        &call("gateway", "GET:/orders", CallDirection::Inbound),
        &call("orders", "list", CallDirection::Inbound),
        LinkType::Emphasized,
        0.0,
    );
    // missing operations are added, with the link
    g.update_line_type(
        &call("orders", "list", CallDirection::Inbound),
        &call("db", "select", CallDirection::Inbound),
        LinkType::Reachable,
        1.0,
    );
    assert_eq!(g.get_service_idx("db"), Some(2));
    let diagram = g.mermaid_diagram(false, &show);
    assert!(diagram.ends_with(
        "\tgateway/GET:/orders -->|4| gateway/orders/list\n\tgateway/GET:/orders ==>|0| orders/list\n\tgateway/orders/list -->|5.5| orders/list\n\torders/list -->|1| db/select"
    ));
}

#[test]
fn endpoint_key_of_readme_example() {
    let mut trace = trace_with_id("t");
    trace.root_call = "gateway/POST:/services/orders/update/".to_string();
    let te = TraceExt { base_name: "t".to_string(), trace, stats_rec: StatsRec { stats: Vec::new() } };
    assert_eq!(te.get_endpoint_key(), "gateway_POST__services_orders_update");
    let mut trace = trace_with_id("u");
    trace.root_call = "a/b:;/".to_string();
    let te = TraceExt { base_name: "u".to_string(), trace, stats_rec: StatsRec { stats: Vec::new() } };
    assert_eq!(te.get_endpoint_key(), "a_b");
}

use jaeger_stats::trace_analysis::stats::group_by_endpoint;

fn trace_ext(id: &str, root: &str, missing: &[&str]) -> TraceExt {
    let mut trace = trace_with_id(id);
    trace.root_call = root.to_string();
    trace.missing_span_ids = missing.iter().map(|m| m.to_string()).collect();
    TraceExt { base_name: id.to_string(), trace, stats_rec: StatsRec { stats: Vec::new() } }
}

#[test]
fn traces_grouped_per_endpoint() {
    let traces = vec![
        trace_ext("1", "gateway/GET:/orders", &[]),
        trace_ext("2", "gateway/POST:/orders/", &["s9"]),
        trace_ext("3", "gateway/GET:/orders", &["s1", "s2"]),
        trace_ext("4", "gateway/POST:/orders", &[]),
        trace_ext("5", "gateway/GET:/orders", &[]),
    ];
    let (groups, incomplete) = group_by_endpoint(traces);
    assert_eq!(incomplete, 2);
    let summary: Vec<(String, Vec<String>, Vec<String>)> = groups
        .iter()
        .map(|(k, c, i)| {
            (
                k.clone(),
                c.iter().map(|t| t.trace.trace_id.clone()).collect(),
                i.iter().map(|t| t.trace.trace_id.clone()).collect(),
            )
        })
        .collect();
    assert_eq!(
        summary,
        vec![
            ("gateway_GET__orders".to_string(), vec!["1".to_string(), "5".to_string()], vec!["3".to_string()]),
            ("gateway_POST__orders".to_string(), vec!["4".to_string()], vec!["2".to_string()]),
        ]
    );
    // every group is non-empty
    assert!(groups.iter().all(|(_, c, i)| !c.is_empty() || !i.is_empty()));
    let (groups, incomplete) = group_by_endpoint(Vec::new());
    assert!(groups.is_empty());
    assert_eq!(incomplete, 0);
}

use jaeger_stats::stitch::key::Key;
use jaeger_stats::stitch::stitch_list::{StitchSourceItem, StitchSources};
use jaeger_stats::stitch::stitched::Stitched;
use jaeger_stats::stitch::stitched_line::{short_term_data, BestFit, StitchedLine};
use jaeger_stats::stitch::api::ranking;
use jaeger_stats::text::trim_str;

#[test]
fn short_term_data_takes_the_last_points() {
    let data = vec![Some(1), None, Some(3), Some(4), Some(5)];
    assert_eq!(short_term_data(&data, 2), Some(vec![Some(4), Some(5)]));
    assert_eq!(short_term_data(&data, 3), None);
    assert_eq!(short_term_data(&data, 0), Some(Vec::new()));
    assert_eq!(short_term_data(&Vec::new(), 1), None);
}

#[test]
fn stitched_line_counts_filled_columns() {
    let fit = |d: &Vec<Option<u64>>| (d.iter().flatten().max().copied(), BestFit::ExprRegr);
    let l = StitchedLine::new("rate".to_string(), vec![Some(4), None, Some(9), None], &fit);
    assert_eq!(l.label, "rate");
    assert_eq!(l.data, vec![Some(4), None, Some(9), None]);
    assert_eq!(l.num_filled_columns, 2);
    assert_eq!(l.data_avg, Some(9));
    assert_eq!(l.best_fit, BestFit::ExprRegr);
}

#[test]
fn keys_ranked_lexicographically() {
    let keys: Vec<String> = ["order/GET", "gateway/POST", "order/GET", "auth/login"].iter().map(|s| s.to_string()).collect();
    assert_eq!(ranking::lexicographic_order(&keys), vec![3, 1, 0, 2]);
    let ranked = ranking::rank_lexicographic(&keys);
    let items: Vec<usize> = ranked.iter().map(|r| r.item).collect();
    let idxs: Vec<i64> = ranked.iter().map(|r| r.idx).collect();
    let ranks: Vec<usize> = ranked.iter().map(|r| r.rank).collect();
    assert_eq!(items, vec![3, 1, 0, 2]);
    assert_eq!(idxs, vec![1, 2, 3, 4]);
    assert_eq!(ranks, vec![4, 3, 2, 1]);
    assert!(ranking::rank_lexicographic(&Vec::new()).is_empty());
}

#[test]
fn trim_removes_unicode_white_space() {
    assert_eq!(trim_str("\u{3000}\t a b \n\u{a0}"), "a b");
    assert_eq!(trim_str(" \r\n "), "");
    assert_eq!(trim_str("x"), "x");
    assert_eq!(trim_str("\u{200b}x"), "\u{200b}x");
}

fn stats_with(name: &str, calls: usize, ops: &[&str]) -> (String, Stats) {
    (
        name.to_string(),
        Stats {
            num_received_calls: calls,
            num_unknown_calls: 0,
            operation: ops.iter().map(|o| o.to_string()).collect(),
        },
    )
}

/// A stand-in for a basic statistic: item 0 counts the services of a column, item 1 has no value.
fn basic_value(sr: &StatsRec, item: usize) -> Option<u64> {
    if item == 0 {
        Some(sr.stats.len() as u64)
    } else {
        None
    }
}

/// A stand-in for a service/operation statistic: the received calls of the service, plus the item number.
fn po_value(sr: &StatsRec, key: &Key, item: usize) -> Option<u64> {
    sr.stats
        .iter()
        .find(|(p, _)| *p == key.process)
        .map(|(_, s)| (s.num_received_calls + item) as u64)
}

/// A stand-in for the floating-point statistics: the sum of the values, and no fit.
fn sum_fit(data: &Vec<Option<u64>>) -> (Option<u64>, BestFit) {
    (Some(data.iter().flatten().sum()), BestFit::NoFit)
}

#[test]
fn stitched_build_drops_and_keys() {
    let sources = StitchSources(vec![
        StitchSourceItem::new(Some(0), "a.json"),
        StitchSourceItem::new(Some(1), "b.json"),
        StitchSourceItem::new(Some(2), "c.json"),
    ]);
    let data = vec![
        Some(StatsRec { stats: vec![stats_with("orders", 5, &["list", "get"]), stats_with("rare", 1, &["x"])] }),
        Some(StatsRec { stats: vec![stats_with("gateway", 3, &["GET:/orders"]), stats_with("orders", 2, &["get"])] }),
        None,
    ];
    let basic_labels = vec!["num_services".to_string(), "nothing".to_string()];
    let po_labels = vec!["calls".to_string(), "calls_plus_one".to_string()];
    let (st, dropped) = Stitched::build(
        sources,
        data,
        2,
        &basic_labels,
        &basic_value,
        &po_labels,
        &po_value,
        &sum_fit,
        Vec::new(),
    );
    assert_eq!(dropped, 1);
    assert_eq!(st.sources.0.len(), 3);
    // basic: one line per label, one value per column; "rare" was dropped from the first column
    assert_eq!(st.basic.0.len(), 2);
    assert_eq!(st.basic.0[0].label, "num_services");
    assert_eq!(st.basic.0[0].data, vec![Some(1), Some(2), None]);
    assert_eq!(st.basic.0[0].num_filled_columns, 2);
    assert_eq!(st.basic.0[0].data_avg, Some(3));
    assert_eq!(st.basic.0[1].data, vec![None, None, None]);
    assert_eq!(st.basic.0[1].num_filled_columns, 0);
    let keys: Vec<&str> = st.service_operation.iter().map(|(k, _)| k.as_str()).collect();
    assert_eq!(keys, vec!["gateway/GET:/orders", "orders/get", "orders/list"]);
    let get = &st.service_operation[1].1;
    assert_eq!(get.0.len(), 2);
    assert_eq!(get.0[0].label, "calls");
    assert_eq!(get.0[0].data, vec![Some(5), Some(2), None]);
    assert_eq!(get.0[1].data, vec![Some(6), Some(3), None]);
    // "list" is served in the first column only
    assert_eq!(st.service_operation[2].1 .0[0].data, vec![Some(5), None, None]);
    assert_eq!(st.service_operation[0].1 .0[0].data, vec![None, Some(3), None]);
}
