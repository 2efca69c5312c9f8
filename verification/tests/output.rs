//! The serialized document: field layout, escaping, absent fields, the two
//! sink modes, and spans whose two ends resolve into different files.

use varscan::analyze;
use varscan::json::{record_to_json, records_to_json};
use varscan::record::{RecordKind, VariableRecord};
use varscan::rules::{ActiveRules, TraversalConfig};
use varscan::sink::{RecordSink, SinkMode};
use varscan::span::{ByteSpan, Position, SourceFile, SourceMap};
use varscan::unit::{Node, NodeKind, PatternShape, TypedUnit};

fn all_rules() -> TraversalConfig {
    TraversalConfig {
        descend_into_nested_items: true,
        descend_into_expressions: true,
        rules: ActiveRules { declarations: true, reassignments: true, reads: true },
        strict_patterns: false,
    }
}

fn sample_record() -> VariableRecord {
    VariableRecord {
        name: "counter".to_string(),
        kind: RecordKind::Declaration,
        start: Position { line: 3, column: 9, file: Some("lib.rs".to_string()) },
        end: Position { line: 3, column: 16, file: Some("lib.rs".to_string()) },
        ty: Some("u64".to_string()),
    }
}

#[test]
fn record_serializes_field_for_field() {
    let json = record_to_json(&sample_record());
    assert_eq!(
        json,
        "{\"name\":\"counter\",\"kind\":\"declaration\",\"start_line\":3,\"start_col\":9,\
         \"start_file\":\"lib.rs\",\"end_line\":3,\"end_col\":16,\"end_file\":\"lib.rs\",\
         \"ty\":\"u64\"}"
    );
}

#[test]
fn absent_fields_are_omitted_not_null() {
    let rec = VariableRecord {
        name: "tmp".to_string(),
        kind: RecordKind::Read,
        start: Position { line: 1, column: 1, file: None },
        end: Position { line: 1, column: 4, file: None },
        ty: None,
    };
    let json = record_to_json(&rec);
    assert!(!json.contains("null"));
    assert!(!json.contains("start_file"));
    assert!(!json.contains("end_file"));
    assert!(!json.contains("\"ty\""));
    let v: serde_json::Value = serde_json::from_str(&json).unwrap();
    assert_eq!(v["kind"], "read");
    assert!(v.get("ty").is_none());
}

#[test]
fn string_escaping_round_trips() {
    let mut rec = sample_record();
    rec.name = "we\"ird\\name\nwith\tcontrol\u{1}chars".to_string();
    rec.ty = Some("Vec<Box<dyn Fn(&str) -> String>>".to_string());
    let json = record_to_json(&rec);
    let v: serde_json::Value = serde_json::from_str(&json).unwrap();
    assert_eq!(v["name"].as_str().unwrap(), rec.name);
    assert_eq!(v["ty"].as_str().unwrap(), "Vec<Box<dyn Fn(&str) -> String>>");
    assert!(json.contains("\\u0001"));
}

#[test]
fn document_is_one_comma_separated_array() {
    let a = sample_record();
    let mut b = sample_record();
    b.name = "other".to_string();
    b.kind = RecordKind::Reassignment;
    let doc = records_to_json(&vec![a.clone(), b.clone()]);
    let expected = format!("[{},{}]", record_to_json(&a), record_to_json(&b));
    assert_eq!(doc, expected);
}

#[test]
fn batch_sink_buffers_and_finalizes_whole() {
    let mut sink = RecordSink::new(SinkMode::Batch);
    let a = sample_record();
    let mut b = sample_record();
    b.name = "second".to_string();
    assert!(sink.accept(a.clone()).is_none());
    assert!(sink.accept(b.clone()).is_none());
    let out = sink.finalize();
    assert_eq!(out.dropped, 0);
    assert_eq!(out.document, records_to_json(&vec![a, b]));
}

#[test]
fn streaming_sink_emits_each_record_at_once() {
    let mut sink = RecordSink::new(SinkMode::Streaming);
    let a = sample_record();
    let line = sink.accept(a.clone()).expect("a streaming sink hands the line back");
    assert_eq!(line, record_to_json(&a));
    // Nothing was buffered: finalizing yields an empty document.
    let out = sink.finalize();
    assert_eq!(out.document, "[]");
    assert_eq!(out.dropped, 0);
}

/// Two buffers: a physical file and a synthetic one after it.  A
/// declaration's identifier span stretches across the boundary.
#[test]
fn span_ends_may_resolve_into_different_files() {
    let map = SourceMap {
        files: vec![
            SourceFile {
                path: Some("real.rs".to_string()),
                start: 0,
                end: 99,
                line_starts: vec![0, 50],
            },
            SourceFile { path: None, start: 100, end: 199, line_starts: vec![100, 130] },
        ],
    };
    let nodes = vec![
        Node {
            kind: NodeKind::Item { children: vec![1] },
            span: ByteSpan { lo: 0, hi: 150 },
            ty: None,
        },
        Node {
            kind: NodeKind::Decl {
                pattern: PatternShape::Ident {
                    name: "spliced".to_string(),
                    span: ByteSpan { lo: 60, hi: 140 },
                },
                init: None,
            },
            span: ByteSpan { lo: 55, hi: 145 },
            ty: None,
        },
    ];
    let unit = TypedUnit { nodes, roots: vec![0], source_map: map };
    let out = analyze(&unit, &all_rules()).unwrap();
    let v: serde_json::Value = serde_json::from_str(&out.document).unwrap();
    let rec = &v.as_array().unwrap()[0];
    // The low end lies in the physical file, line 2 column 11.
    assert_eq!(rec["start_file"], "real.rs");
    assert_eq!(rec["start_line"], 2);
    assert_eq!(rec["start_col"], 11);
    // The high end lies in the synthetic buffer: no file, positions still
    // reported relative to it.
    assert!(rec.get("end_file").is_none());
    assert_eq!(rec["end_line"], 2);
    assert_eq!(rec["end_col"], 11);
    // A declaration without an initializer carries no type.
    assert!(rec.get("ty").is_none());
}
