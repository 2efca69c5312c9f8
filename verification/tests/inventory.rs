//! Traversal scenarios over a hand-lowered example unit.

use varscan::analyze;
use varscan::engine::{traverse, TraversalError};
use varscan::rules::{ActiveRules, TraversalConfig};
use varscan::span::{ByteSpan, SourceFile, SourceMap};
use varscan::unit::{AssignTarget, Node, NodeKind, PatternShape, TypedUnit};

fn single_file_map() -> SourceMap {
    // One physical file whose lines begin every 40 bytes.
    let line_starts: Vec<usize> = (0..15).map(|k| 40 * k).collect();
    SourceMap {
        files: vec![SourceFile {
            path: Some("src/t.rs".to_string()),
            start: 0,
            end: 599,
            line_starts,
        }],
    }
}

fn node(kind: NodeKind, lo: usize, hi: usize, ty: Option<&str>) -> Node {
    Node {
        kind,
        span: ByteSpan { lo, hi },
        ty: ty.map(|t| t.to_string()),
    }
}

/// The example program: a module holding a record type and a nested
/// function with two declarations, and a top-level function declaring,
/// reassigning and finally reading a record value.
fn example_unit() -> TypedUnit {
    let nodes = vec![
        // 0: the module
        node(NodeKind::Item { children: vec![1, 2] }, 0, 360, None),
        // 1: the record type's definition
        node(NodeKind::Item { children: vec![] }, 48, 170, None),
        // 2: the nested function
        node(NodeKind::Item { children: vec![3, 5] }, 200, 330, None),
        // 3: `let a = 10;`
        node(
            NodeKind::Decl {
                pattern: PatternShape::Ident {
                    name: "a".to_string(),
                    span: ByteSpan { lo: 252, hi: 253 },
                },
                init: Some(4),
            },
            248,
            258,
            None,
        ),
        // 4: the literal `10`
        node(NodeKind::Expr { children: vec![] }, 255, 257, Some("i32")),
        // 5: `let mut b: bool = false;`
        node(
            NodeKind::Decl {
                pattern: PatternShape::Ident {
                    name: "b".to_string(),
                    span: ByteSpan { lo: 288, hi: 289 },
                },
                init: Some(6),
            },
            284,
            304,
            None,
        ),
        // 6: the literal `false`
        node(NodeKind::Expr { children: vec![] }, 298, 303, Some("bool")),
        // 7: the top-level function
        node(NodeKind::Item { children: vec![8, 10, 12] }, 400, 599, None),
        // 8: `let mut instance_b = ...;`
        node(
            NodeKind::Decl {
                pattern: PatternShape::Ident {
                    name: "instance_b".to_string(),
                    span: ByteSpan { lo: 452, hi: 462 },
                },
                init: Some(9),
            },
            444,
            478,
            None,
        ),
        // 9: the record literal initializing it
        node(NodeKind::Expr { children: vec![] }, 465, 478, Some("mod_a::StructB")),
        // 10: `instance_b = ...;`
        node(
            NodeKind::Assign {
                target: AssignTarget::Ident {
                    name: "instance_b".to_string(),
                    span: ByteSpan { lo: 484, hi: 494 },
                },
                rhs: 11,
            },
            484,
            516,
            None,
        ),
        // 11: the record literal assigned
        node(NodeKind::Expr { children: vec![] }, 497, 516, Some("mod_a::StructB")),
        // 12: the trailing print statement
        node(NodeKind::Expr { children: vec![13] }, 520, 570, None),
        // 13: the read of `instance_b` inside it
        node(
            NodeKind::IdentRef { name: "instance_b".to_string(), is_local: true },
            550,
            560,
            Some("mod_a::StructB"),
        ),
    ];
    TypedUnit { nodes, roots: vec![0, 7], source_map: single_file_map() }
}

fn config(nested: bool, exprs: bool, decls: bool, reassigns: bool, reads: bool) -> TraversalConfig {
    TraversalConfig {
        descend_into_nested_items: nested,
        descend_into_expressions: exprs,
        rules: ActiveRules { declarations: decls, reassignments: reassigns, reads },
        strict_patterns: false,
    }
}

fn parse(document: &str) -> Vec<serde_json::Value> {
    let v: serde_json::Value = serde_json::from_str(document).expect("document parses as JSON");
    v.as_array().expect("document is an array").clone()
}

#[test]
fn scenario_four_records_in_order() {
    let unit = example_unit();
    let out = analyze(&unit, &config(true, true, true, true, false)).unwrap();
    assert_eq!(out.skipped.len(), 0);
    let records = parse(&out.document);
    assert_eq!(records.len(), 4);

    assert_eq!(records[0]["name"], "a");
    assert_eq!(records[0]["kind"], "declaration");
    assert_eq!(records[0]["ty"], "i32");

    assert_eq!(records[1]["name"], "b");
    assert_eq!(records[1]["kind"], "declaration");
    assert_eq!(records[1]["ty"], "bool");

    assert_eq!(records[2]["name"], "instance_b");
    assert_eq!(records[2]["kind"], "declaration");
    assert_eq!(records[2]["ty"], "mod_a::StructB");

    assert_eq!(records[3]["name"], "instance_b");
    assert_eq!(records[3]["kind"], "reassignment");
    assert_eq!(records[3]["ty"], "mod_a::StructB");
}

#[test]
fn declaration_positions_are_the_identifier_span() {
    let unit = example_unit();
    let out = analyze(&unit, &config(true, true, true, true, false)).unwrap();
    let records = parse(&out.document);
    // `a` sits on line 7 (lines begin every 40 bytes; offset 252).
    assert_eq!(records[0]["start_line"], 7);
    assert_eq!(records[0]["start_col"], 13);
    assert_eq!(records[0]["end_line"], 7);
    assert_eq!(records[0]["end_col"], 14);
    assert_eq!(records[0]["start_file"], "src/t.rs");
    assert_eq!(records[0]["end_file"], "src/t.rs");
    // The reassignment's positions are the target identifier's span.
    assert_eq!(records[3]["start_line"], 13);
    assert_eq!(records[3]["start_col"], 5);
    assert_eq!(records[3]["end_line"], 13);
    assert_eq!(records[3]["end_col"], 15);
}

#[test]
fn traversal_is_idempotent() {
    let unit = example_unit();
    let cfg = config(true, true, true, true, true);
    let first = analyze(&unit, &cfg).unwrap();
    let second = analyze(&unit, &cfg).unwrap();
    assert_eq!(first.document, second.document);
    assert_eq!(first.skipped, second.skipped);
}

#[test]
fn nested_items_skipped_when_flag_off() {
    let unit = example_unit();
    let out = analyze(&unit, &config(false, true, true, true, false)).unwrap();
    let records = parse(&out.document);
    // The module's contents vanish whole; the top-level function's own body
    // is still fully explored.
    assert_eq!(records.len(), 2);
    assert_eq!(records[0]["name"], "instance_b");
    assert_eq!(records[0]["kind"], "declaration");
    assert_eq!(records[1]["name"], "instance_b");
    assert_eq!(records[1]["kind"], "reassignment");
}

#[test]
fn nested_records_follow_when_flag_on() {
    let unit = example_unit();
    let out = analyze(&unit, &config(true, true, true, true, false)).unwrap();
    let records = parse(&out.document);
    // The nested function's declarations appear, in visitation order,
    // before the later top-level item's records.
    let names: Vec<&str> = records.iter().map(|r| r["name"].as_str().unwrap()).collect();
    assert_eq!(names, vec!["a", "b", "instance_b", "instance_b"]);
}

#[test]
fn read_rule_emits_one_record_per_occurrence() {
    let unit = example_unit();
    let out = analyze(&unit, &config(true, true, false, false, true)).unwrap();
    let records = parse(&out.document);
    // Only the read inside the print statement matches: the assignment
    // target is not a read occurrence.
    assert_eq!(records.len(), 1);
    assert_eq!(records[0]["name"], "instance_b");
    assert_eq!(records[0]["kind"], "read");
    assert_eq!(records[0]["ty"], "mod_a::StructB");
}

/// A unit whose only assignment hides inside another expression.
fn nested_assign_unit() -> TypedUnit {
    let nodes = vec![
        node(NodeKind::Item { children: vec![1] }, 0, 100, None),
        node(NodeKind::Expr { children: vec![2] }, 10, 90, None),
        node(
            NodeKind::Assign {
                target: AssignTarget::Ident {
                    name: "x".to_string(),
                    span: ByteSpan { lo: 42, hi: 43 },
                },
                rhs: 3,
            },
            42,
            60,
            None,
        ),
        node(NodeKind::Expr { children: vec![] }, 46, 60, Some("u8")),
    ];
    let line_starts: Vec<usize> = (0..3).map(|k| 40 * k).collect();
    let map = SourceMap {
        files: vec![SourceFile {
            path: Some("src/t.rs".to_string()),
            start: 0,
            end: 120,
            line_starts,
        }],
    };
    TypedUnit { nodes, roots: vec![0], source_map: map }
}

#[test]
fn expression_descent_off_leaves_nested_rules_silent() {
    let unit = nested_assign_unit();
    let out = analyze(&unit, &config(true, false, true, true, false)).unwrap();
    assert_eq!(out.document, "[]");
}

#[test]
fn expression_descent_on_reaches_nested_assignment() {
    let unit = nested_assign_unit();
    let out = analyze(&unit, &config(true, true, true, true, false)).unwrap();
    let records = parse(&out.document);
    assert_eq!(records.len(), 1);
    assert_eq!(records[0]["kind"], "reassignment");
    assert_eq!(records[0]["ty"], "u8");
}

#[test]
fn reassignment_type_comes_from_right_hand_side() {
    // The target was declared elsewhere as one type; the right-hand call
    // resolves to another.  The record reports the right-hand type.
    let nodes = vec![
        node(NodeKind::Item { children: vec![1] }, 0, 100, None),
        node(
            NodeKind::Assign {
                target: AssignTarget::Ident {
                    name: "x".to_string(),
                    span: ByteSpan { lo: 5, hi: 6 },
                },
                rhs: 2,
            },
            5,
            20,
            None,
        ),
        node(NodeKind::Expr { children: vec![] }, 9, 20, Some("alloc::string::String")),
    ];
    let map = SourceMap {
        files: vec![SourceFile {
            path: Some("src/t.rs".to_string()),
            start: 0,
            end: 120,
            line_starts: vec![0, 40, 80],
        }],
    };
    let unit = TypedUnit { nodes, roots: vec![0], source_map: map };
    let out = analyze(&unit, &config(true, true, true, true, false)).unwrap();
    let records = parse(&out.document);
    assert_eq!(records.len(), 1);
    assert_eq!(records[0]["ty"], "alloc::string::String");
}

/// A unit with a destructuring declaration between two supported ones.
fn destructuring_unit(strict: bool) -> (TypedUnit, TraversalConfig) {
    let nodes = vec![
        node(NodeKind::Item { children: vec![1, 3, 4] }, 0, 100, None),
        node(
            NodeKind::Decl {
                pattern: PatternShape::Ident {
                    name: "x".to_string(),
                    span: ByteSpan { lo: 5, hi: 6 },
                },
                init: Some(2),
            },
            5,
            15,
            None,
        ),
        node(NodeKind::Expr { children: vec![] }, 9, 15, Some("i32")),
        node(
            NodeKind::Decl {
                pattern: PatternShape::Other { span: ByteSpan { lo: 41, hi: 47 } },
                init: None,
            },
            41,
            55,
            None,
        ),
        node(
            NodeKind::Decl {
                pattern: PatternShape::Ident {
                    name: "y".to_string(),
                    span: ByteSpan { lo: 85, hi: 86 },
                },
                init: None,
            },
            85,
            95,
            None,
        ),
    ];
    let map = SourceMap {
        files: vec![SourceFile {
            path: Some("src/t.rs".to_string()),
            start: 0,
            end: 120,
            line_starts: vec![0, 40, 80],
        }],
    };
    let unit = TypedUnit { nodes, roots: vec![0], source_map: map };
    let mut cfg = config(true, true, true, true, false);
    cfg.strict_patterns = strict;
    (unit, cfg)
}

#[test]
fn unsupported_pattern_is_skipped_and_counted() {
    let (unit, cfg) = destructuring_unit(false);
    let out = analyze(&unit, &cfg).unwrap();
    let records = parse(&out.document);
    // The run continues past the unsupported node and reports it.
    assert_eq!(records.len(), 2);
    assert_eq!(records[0]["name"], "x");
    assert_eq!(records[1]["name"], "y");
    assert_eq!(out.skipped, vec![3]);
}

#[test]
fn unsupported_pattern_aborts_under_strict_parity() {
    let (unit, cfg) = destructuring_unit(true);
    assert_eq!(analyze(&unit, &cfg).unwrap_err(), TraversalError::UnsupportedPattern);
}

#[test]
fn malformed_unit_is_rejected_whole() {
    // A child handle at or before its parent breaks the session guarantee.
    let nodes = vec![node(NodeKind::Item { children: vec![0] }, 0, 10, None)];
    let map = SourceMap {
        files: vec![SourceFile { path: None, start: 0, end: 20, line_starts: vec![0] }],
    };
    let unit = TypedUnit { nodes, roots: vec![0], source_map: map };
    let cfg = config(true, true, true, true, true);
    assert_eq!(analyze(&unit, &cfg).unwrap_err(), TraversalError::MalformedUnit);
    assert_eq!(traverse(&unit, &cfg).unwrap_err(), TraversalError::MalformedUnit);
}

#[test]
fn sample_program_items_are_usable() {
    varscan::sample::foo();
    let s = varscan::sample::StructB { field_c: 11 };
    assert_eq!(s.field_c, 11);
}

#[test]
fn empty_unit_yields_empty_document() {
    let unit = TypedUnit {
        nodes: vec![],
        roots: vec![],
        source_map: SourceMap { files: vec![] },
    };
    let out = analyze(&unit, &config(true, true, true, true, true)).unwrap();
    assert_eq!(out.document, "[]");
    assert_eq!(out.skipped.len(), 0);
}
