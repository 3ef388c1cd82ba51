use jaeger_stats::stats::{Stats, StatsRec};
use jaeger_stats::stitch::api::mermaid::flowchart::basic_node::MermaidBasicNode as FlowNode;
use jaeger_stats::stitch::api::mermaid::flowchart::escape_name::escape_name;
use jaeger_stats::stitch::api::mermaid::indent::IndentStr;
use jaeger_stats::stitch::api::mermaid::mermaid::basic_node::MermaidBasicNode;
use jaeger_stats::stitch::api::mermaid::mermaid::node::MermaidNode;
use jaeger_stats::stitch::api::mermaid::mermaid::sub_graph::MermaidSubGraph;
use jaeger_stats::stitch::api::mermaid::service_oper_graph::{LinkType, ServiceOperationType};
use jaeger_stats::stitch::api::scope::TraceScope;
use jaeger_stats::stitch::dataseries::DataSeries;
use jaeger_stats::trace_analysis::api::trace_data_set::TraceDataSet;
use jaeger_stats::trace_analysis::edge_value::EdgeValue;

#[test]
fn indent_strings() {
    let mut ind = IndentStr::new();
    assert_eq!(ind.get_indent_str(0), "");
    assert_eq!(ind.get_indent_str(3), "\t\t\t");
    assert_eq!(ind.get_indent_str(1), "\t");
    assert_eq!(ind.get_indent_str(5), "\t\t\t\t\t");
}

#[test]
fn escape_names() {
    assert_eq!(escape_name("order service"), "order_service");
    assert_eq!(escape_name("a b  c"), "a_b__c");
    assert_eq!(escape_name("plain"), "plain");
}

#[test]
fn flowchart_node_lines() {
    let mut d = Vec::new();
    FlowNode::new("order svc".to_string(), ServiceOperationType::Default).to_diagram(&mut d, 1);
    assert_eq!(d, vec!["\torder_svc([\"order svc\"])"]);
    let mut d = Vec::new();
    FlowNode::new("x y".to_string(), ServiceOperationType::Emphasized).to_diagram(&mut d, 2);
    assert_eq!(d, vec!["\t\tx_y([\"x y\"])", "\t\tstyle x_y fill:#003311"]);
}

#[test]
fn mermaid_nodes_and_subgraphs() {
    let mut d = vec!["graph LR".to_string()];
    MermaidBasicNode::new("order", ServiceOperationType::Emphasized).to_diagram(&mut d, 1);
    assert_eq!(d, vec!["graph LR", "\torder([order])", "\tstyle order fill:#00f"]);

    let mut inner = MermaidSubGraph { service: "inner", serv_oper_type: ServiceOperationType::Default, nodes: Vec::new() };
    inner.add_node(MermaidBasicNode::new("leaf", ServiceOperationType::Default));
    let mut outer = MermaidSubGraph { service: "outer", serv_oper_type: ServiceOperationType::Emphasized, nodes: Vec::new() };
    outer.add_node(MermaidBasicNode::new("a", ServiceOperationType::Default));
    outer.add_subgraph(inner);
    let mut d = Vec::new();
    MermaidNode::SubGraph(outer).to_diagram(&mut d, 1);
    assert_eq!(
        d,
        vec![
            "\tsubgraph outer",
            "\t\ta([a])",
            "\t\tsubgraph inner",
            "\t\t\tleaf([leaf])",
            "\t\tend",
            "\tend",
            "\tstyle outer fill:#00f",
        ]
    );
}

#[test]
fn link_type_merge() {
    let (d, r, e) = (LinkType::Default, LinkType::Reachable, LinkType::Emphasized);
    assert_eq!(d.merge(d), d);
    assert_eq!(r.merge(d), r);
    assert_eq!(d.merge(r), r);
    assert_eq!(r.merge(r), r);
    assert_eq!(e.merge(d), e);
    assert_eq!(r.merge(e), e);
    let all = [d, r, e];
    for a in all {
        for b in all {
            assert_eq!(a.merge(b), b.merge(a));
            for c in all {
                assert_eq!(a.merge(b).merge(c), a.merge(b.merge(c)));
            }
        }
        assert_eq!(a.merge(a), a);
    }
}

#[test]
fn trace_scope_names() {
    for s in [TraceScope::All, TraceScope::End2end, TraceScope::Inbound] {
        assert_eq!(TraceScope::from(&s.to_string()), s);
    }
    assert_eq!(TraceScope::from("inbound"), TraceScope::Inbound);
    assert_eq!(TraceScope::from("End2End"), TraceScope::End2end);
    assert_eq!(TraceScope::try_from_str("outbound"), None);
    assert_eq!(TraceScope::All.to_string(), "ALL");
}

#[test]
fn edge_value_names() {
    let all = [
        EdgeValue::Count,
        EdgeValue::AvgMillis,
        EdgeValue::MedianMillis,
        EdgeValue::P75Millis,
        EdgeValue::P90Millis,
        EdgeValue::P95Millis,
        EdgeValue::P99Millis,
        EdgeValue::MaxMillis,
    ];
    for e in all {
        assert_eq!(EdgeValue::from(&e.to_string()), e);
    }
    assert_eq!(EdgeValue::from("p95millis"), EdgeValue::P95Millis);
    assert_eq!(EdgeValue::MedianMillis.to_string(), "MEDIANMILLIS");
    assert_eq!(EdgeValue::try_from_str("full"), None);
}

fn rec(entries: &[(&str, usize, usize)]) -> Option<StatsRec> {
    Some(StatsRec {
        stats: entries
            .iter()
            .map(|(k, r, u)| {
                (
                    k.to_string(),
                    Stats { num_received_calls: *r, num_unknown_calls: *u, operation: Vec::new() },
                )
            })
            .collect(),
    })
}

#[test]
fn drop_low_volume() {
    let data = vec![
        rec(&[("a", 5, 0), ("b", 1, 0), ("c", 0, 1)]),
        None,
        rec(&[("a", 2, 1), ("c", 1, 0), ("d", 0, 0)]),
    ];
    let mut ds = DataSeries(data);
    // totals: a = 8, b = 1, c = 2, d = 0
    let dropped = ds.drop_low_volume_traces(1);
    assert_eq!(dropped, 2);
    let keys: Vec<Vec<String>> = ds
        .0
        .iter()
        .map(|sr| sr.as_ref().map(|sr| sr.stats.iter().map(|(k, _)| k.clone()).collect()).unwrap_or_default())
        .collect();
    assert_eq!(keys, vec![vec!["a".to_string(), "c".to_string()], vec![], vec!["a".to_string(), "c".to_string()]]);
    assert!(ds.0[1].is_none());
    assert_eq!(ds.drop_low_volume_traces(1), 0);
    let mut ds2 = DataSeries(ds.0);
    assert_eq!(ds2.drop_low_volume_traces(0), 0);
}

#[test]
fn trace_data_set_holds_stats() {
    let t = TraceDataSet::new(StatsRec { stats: vec![] });
    assert!(t.0.stats.is_empty());
}
