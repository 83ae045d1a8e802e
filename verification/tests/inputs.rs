//! Clusters and workload traces.

use serde_json::Value;
use skein::ieee::{Ieee32, Ieee64};
use skein::ir::cluster::{ClusterSpec, Link, LinkKind, Node};
use skein::ir::error::{ClusterError, WorkloadError};
use skein::ir::workload::{assemble, trace_lines, RequestRecord, Slo, Workload};
use skein::text::is_white_space;

const TWO_H100: &str = r#"
num_devices = 2

[[node]]
id = "node0"
devices = ["d0", "d1"]
device_kind = "h100_sxm5"
device_memory_gb = 80

[[link]]
endpoints = ["d0", "d1"]
kind = "nvlink_gen4"
bandwidth_gbps = 900.0
latency_us = 1.0
"#;

fn ieee64(x: f64) -> Ieee64 {
    Ieee64 { bits: x.to_bits() }
}

fn entries(t: &toml::Table, key: &str) -> Vec<toml::Table> {
    match t.get(key) {
        Some(v) => v
            .as_array()
            .unwrap()
            .iter()
            .map(|e| e.as_table().unwrap().clone())
            .collect(),
        None => vec![],
    }
}

fn text(t: &toml::Table, key: &str) -> String {
    t[key].as_str().unwrap().to_string()
}

fn texts(t: &toml::Table, key: &str) -> Vec<String> {
    t[key]
        .as_array()
        .unwrap()
        .iter()
        .map(|v| v.as_str().unwrap().to_string())
        .collect()
}

fn link_kind(s: &str) -> LinkKind {
    match s {
        "nvlink_gen4" => LinkKind::NvlinkGen4,
        "nvlink_gen5" => LinkKind::NvlinkGen5,
        "pcie5" => LinkKind::Pcie5,
        "infiniband400g" => LinkKind::Infiniband400g,
        "roce100g" => LinkKind::Roce100g,
        _ => LinkKind::Tcp10g,
    }
}

fn from_toml_str(s: &str) -> Result<ClusterSpec, ClusterError> {
    let t: toml::Table = s.parse().unwrap();
    let spec = ClusterSpec {
        num_devices: t["num_devices"].as_integer().unwrap() as u32,
        nodes: entries(&t, "node")
            .iter()
            .map(|n| Node {
                id: text(n, "id"),
                devices: texts(n, "devices"),
                device_kind: text(n, "device_kind"),
                device_memory_gb: n["device_memory_gb"].as_integer().unwrap() as u32,
            })
            .collect(),
        links: entries(&t, "link")
            .iter()
            .map(|l| {
                let ends = texts(l, "endpoints");
                Link {
                    endpoints: [ends[0].clone(), ends[1].clone()],
                    kind: link_kind(l["kind"].as_str().unwrap()),
                    bandwidth_gbps: ieee64(l["bandwidth_gbps"].as_float().unwrap()),
                    latency_us: ieee64(l["latency_us"].as_float().unwrap()),
                }
            })
            .collect(),
    };
    spec.validate()?;
    Ok(spec)
}

fn object(line: &str) -> Result<Value, String> {
    serde_json::from_str(line).map_err(|e| e.to_string())
}

fn number(v: &Value, name: &str) -> Result<u64, String> {
    v.get(name)
        .and_then(|x| x.as_u64())
        .ok_or_else(|| format!("missing field `{name}`"))
}

fn fraction(v: &Value, name: &str) -> Result<Ieee64, String> {
    v.get(name)
        .and_then(|x| x.as_f64())
        .map(ieee64)
        .ok_or_else(|| format!("missing field `{name}`"))
}

fn read_slo(line: &str) -> Result<Slo, String> {
    let v = object(line)?;
    let slo = v.get("slo").ok_or("missing field `slo`")?;
    Ok(Slo {
        ttft_p95_ms: number(slo, "ttft_p95_ms")? as u32,
        tpot_p95_ms: number(slo, "tpot_p95_ms")? as u32,
        max_accuracy_drift: fraction(slo, "max_accuracy_drift")?,
        recompile_drift_threshold_kl: fraction(slo, "recompile_drift_threshold_kl")?,
    })
}

fn read_record(line: &str) -> Result<RequestRecord, String> {
    let v = object(line)?;
    Ok(RequestRecord {
        prompt_tokens: number(&v, "prompt_tokens")? as u32,
        output_tokens: number(&v, "output_tokens")? as u32,
        arrival_ms: number(&v, "arrival_ms")?,
    })
}

fn from_jsonl_str(s: &str) -> Result<Workload, WorkloadError> {
    Workload::from_jsonl_str(s, read_slo, read_record)
}

#[test]
fn parse_two_h100_sxm5() {
    let spec = from_toml_str(TWO_H100).unwrap();
    assert_eq!(spec.num_devices, 2);
    assert_eq!(spec.nodes.len(), 1);
    assert_eq!(spec.links.len(), 1);
    assert_eq!(spec.all_devices(), vec!["d0", "d1"]);
    assert_eq!(spec.links[0].kind, LinkKind::NvlinkGen4);
}

#[test]
fn rejects_device_count_mismatch() {
    let bad = r#"
num_devices = 4

[[node]]
id = "node0"
devices = ["d0", "d1"]
device_kind = "h100_sxm5"
device_memory_gb = 80
"#;
    let err = from_toml_str(bad).unwrap_err();
    match err {
        ClusterError::DeviceCountMismatch {
            declared: 4,
            actual: 2,
        } => {}
        other => panic!("unexpected error: {other:?}"),
    }
}

#[test]
fn rejects_unknown_device_in_link() {
    let bad = r#"
num_devices = 1

[[node]]
id = "node0"
devices = ["d0"]
device_kind = "h100_sxm5"
device_memory_gb = 80

[[link]]
endpoints = ["d0", "d99"]
kind = "nvlink_gen4"
bandwidth_gbps = 900.0
latency_us = 1.0
"#;
    let err = from_toml_str(bad).unwrap_err();
    match err {
        ClusterError::UnknownDeviceInLink { device } => assert_eq!(device, "d99"),
        other => panic!("unexpected error: {other:?}"),
    }
}

#[test]
fn rejects_self_link() {
    let bad = r#"
num_devices = 1

[[node]]
id = "node0"
devices = ["d0"]
device_kind = "h100_sxm5"
device_memory_gb = 80

[[link]]
endpoints = ["d0", "d0"]
kind = "nvlink_gen4"
bandwidth_gbps = 900.0
latency_us = 1.0
"#;
    let err = from_toml_str(bad).unwrap_err();
    assert!(matches!(err, ClusterError::SelfLink { .. }));
}

#[test]
fn rejects_duplicate_device() {
    let bad = r#"
num_devices = 2

[[node]]
id = "node0"
devices = ["d0"]
device_kind = "h100_sxm5"
device_memory_gb = 80

[[node]]
id = "node1"
devices = ["d0"]
device_kind = "h100_sxm5"
device_memory_gb = 80
"#;
    let err = from_toml_str(bad).unwrap_err();
    assert!(matches!(err, ClusterError::DuplicateDevice(d) if d == "d0"));
}

#[test]
fn rejects_duplicate_node() {
    let bad = TWO_H100.replace("num_devices = 2", "num_devices = 3")
        + "[[node]]\nid = \"node0\"\ndevices = [\"d2\"]\ndevice_kind = \"h100_sxm5\"\ndevice_memory_gb = 80\n";
    let err = from_toml_str(&bad).unwrap_err();
    assert!(matches!(err, ClusterError::DuplicateNode(n) if n == "node0"));
}

#[test]
fn devices_come_node_by_node() {
    let two = TWO_H100.replace("num_devices = 2", "num_devices = 3")
        + "[[node]]\nid = \"node1\"\ndevices = [\"c2\"]\ndevice_kind = \"h100_sxm5\"\ndevice_memory_gb = 80\n";
    let spec = from_toml_str(&two).unwrap();
    assert_eq!(spec.all_devices(), vec!["d0", "d1", "c2"]);
}

const SAMPLE: &str = r#"{"slo": {"ttft_p95_ms": 500, "tpot_p95_ms": 50, "max_accuracy_drift": 0.01, "recompile_drift_threshold_kl": 0.05}}
{"prompt_tokens": 47, "output_tokens": 132, "arrival_ms": 0}
{"prompt_tokens": 312, "output_tokens": 89, "arrival_ms": 234}
"#;

#[test]
fn parses_canonical_trace() {
    let w = from_jsonl_str(SAMPLE).unwrap();
    assert_eq!(w.slo.ttft_p95_ms, 500);
    assert_eq!(w.slo.tpot_p95_ms, 50);
    assert!((f64::from_bits(w.slo.max_accuracy_drift.bits) - 0.01).abs() < 1e-9);
    assert_eq!(w.requests.len(), 2);
    assert_eq!(w.requests[0].prompt_tokens, 47);
    assert_eq!(w.requests[1].arrival_ms, 234);
}

#[test]
fn rejects_empty_trace() {
    assert!(matches!(from_jsonl_str(""), Err(WorkloadError::Empty)));
    assert!(matches!(
        from_jsonl_str("\n\n  \n"),
        Err(WorkloadError::Empty)
    ));
}

#[test]
fn rejects_missing_slo() {
    let bad = r#"{"oops": true}
{"prompt_tokens": 1, "output_tokens": 1, "arrival_ms": 0}
"#;
    assert!(matches!(from_jsonl_str(bad), Err(WorkloadError::MissingSlo)));
}

#[test]
fn rejects_non_monotonic_arrival() {
    let bad = r#"{"slo": {"ttft_p95_ms": 500, "tpot_p95_ms": 50, "max_accuracy_drift": 0.01, "recompile_drift_threshold_kl": 0.05}}
{"prompt_tokens": 1, "output_tokens": 1, "arrival_ms": 100}
{"prompt_tokens": 1, "output_tokens": 1, "arrival_ms": 50}
"#;
    let err = from_jsonl_str(bad).unwrap_err();
    match err {
        WorkloadError::NonMonotonicArrival {
            line,
            arrival,
            previous,
        } => {
            assert_eq!(line, 3);
            assert_eq!(arrival, 50);
            assert_eq!(previous, 100);
        }
        other => panic!("unexpected error: {other:?}"),
    }
}

#[test]
fn rejects_garbage_line() {
    let bad = "this is not JSON\n";
    assert!(matches!(
        from_jsonl_str(bad),
        Err(WorkloadError::Json { line: 1, .. })
    ));
    let later = format!("\n{SAMPLE}\nnor this\n");
    assert!(matches!(
        from_jsonl_str(&later),
        Err(WorkloadError::Json { line: 6, .. })
    ));
}

#[test]
fn blank_lines_of_any_white_space_are_skipped() {
    let spaced = "\u{3000}\u{00a0}\r\n\t\n".to_string() + &SAMPLE.replace('\n', "\r\n\u{2003}\n");
    let lines = trace_lines(&spaced);
    assert_eq!(lines.len(), 3);
    assert_eq!(lines[0].number, 3);
    assert_eq!(lines[1].number, 5);
    assert_eq!(from_jsonl_str(&spaced).unwrap(), from_jsonl_str(SAMPLE).unwrap());
    assert_eq!(trace_lines("\u{200b}\n").len(), 1);
}

#[test]
fn a_header_after_unusual_space_is_still_an_object() {
    let w = from_jsonl_str("\u{2003}{\"oops\": 1}\n");
    assert!(matches!(w, Err(WorkloadError::MissingSlo)));
}

#[test]
fn a_trace_is_assembled_from_what_was_read() {
    let lines = trace_lines("h\n\na\nb");
    let slo = read_slo(SAMPLE.lines().next().unwrap());
    let record = |arrival_ms: u64| RequestRecord {
        prompt_tokens: 1,
        output_tokens: 2,
        arrival_ms,
    };
    let w = assemble(&lines, slo.clone(), &vec![Ok(record(3)), Ok(record(3))]).unwrap();
    assert_eq!(w.requests.len(), 2);
    assert_eq!(
        assemble(&lines, slo.clone(), &vec![Ok(record(3)), Err("not a record".to_string())]),
        Err(WorkloadError::Json { line: 4, source: "not a record".to_string() })
    );
    assert!(matches!(
        assemble(&lines, slo, &vec![Ok(record(3)), Ok(record(2))]),
        Err(WorkloadError::NonMonotonicArrival { line: 4, arrival: 2, previous: 3 })
    ));
    assert_eq!(
        assemble(
            &lines,
            Err("not a header".to_string()),
            &vec![Ok(record(3)), Ok(record(3))]
        ),
        Err(WorkloadError::Json { line: 1, source: "not a header".to_string() })
    );
}

#[test]
fn a_line_that_was_not_read_says_why() {
    let text = format!("{SAMPLE}\n{{\"prompt_tokens\": 1}}\n");
    match from_jsonl_str(&text) {
        Err(WorkloadError::Json { source, .. }) => {
            assert_eq!(source, "missing field `output_tokens`")
        }
        other => panic!("unexpected outcome {other:?}"),
    }
}

#[test]
fn white_space_is_what_std_says_it_is() {
    for code in 0..=char::MAX as u32 {
        if let Some(c) = char::from_u32(code) {
            assert_eq!(is_white_space(c), c.is_whitespace(), "{code:x}");
        }
    }
}

#[test]
fn numbers_compare_as_numbers() {
    assert_eq!(ieee64(0.0), ieee64(-0.0));
    assert_ne!(ieee64(f64::NAN), ieee64(f64::NAN));
    assert_eq!(ieee64(1.5), ieee64(1.5));
    assert_ne!(ieee64(1.5), ieee64(-1.5));
    assert_ne!(ieee64(f64::INFINITY), ieee64(f64::NEG_INFINITY));
    let single = |x: f32| Ieee32 { bits: x.to_bits() };
    assert_eq!(single(0.0), single(-0.0));
    assert_ne!(single(f32::NAN), single(f32::NAN));
    assert_ne!(single(2.0), single(3.0));
    let with = |drift: f64| Slo {
        max_accuracy_drift: ieee64(drift),
        ..read_slo(SAMPLE.lines().next().unwrap()).unwrap()
    };
    assert_eq!(with(0.0), with(-0.0));
    assert_ne!(with(f64::NAN), with(f64::NAN));
}
