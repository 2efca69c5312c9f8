//! The per-node extraction rules and the traversal configuration.
//!
//! Three independently selectable rules turn a matched node into at most one
//! record: declarations binding one simple identifier, assignments whose
//! target is a bare identifier, and identifier reads resolving to a local
//! binding.  A declaration whose pattern destructures a compound value
//! triggers the declaration rule but is unsupported by it: it is skipped and
//! counted, never extracted and — unless strict pattern handling is asked
//! for — never fatal.

use vstd::prelude::*;
use crate::record::{RecordKind, SpecRecord, VariableRecord, recs_view};
use crate::span::{ByteSpan, pos_le, resolve_span};
use crate::unit::{AssignTarget, NodeKind, PatternShape, TypedUnit};

verus! {

/// Which extraction rules a traversal runs.
#[derive(Clone, Copy, Debug, PartialEq, Eq, Structural)]
pub struct ActiveRules {
    pub declarations: bool,
    pub reassignments: bool,
    pub reads: bool,
}

/// The configuration of one traversal session, fixed for its duration.
#[derive(Clone, Copy, Debug, PartialEq, Eq, Structural)]
pub struct TraversalConfig {
    /// Whether an item definition found inside another item's body is itself
    /// visited; when false such items, and everything inside them, are
    /// skipped entirely.
    pub descend_into_nested_items: bool,
    /// Whether the engine walks into sub-expressions and nested statements
    /// of a visited body; when false, rules still apply to a body's direct
    /// statement list but nothing below it is explored.
    pub descend_into_expressions: bool,
    pub rules: ActiveRules,
    /// When true, an unsupported binding pattern aborts the run instead of
    /// being skipped; kept false by default, for graceful skipping.
    pub strict_patterns: bool,
}

/// The records the active rules produce at node `i`: at most one.
pub open spec fn rule_records(u: TypedUnit, cfg: TraversalConfig, i: int) -> Seq<SpecRecord> {
    let n = u.nodes@[i];
    match n.kind {
        NodeKind::Decl { pattern, init } => match pattern {
            PatternShape::Ident { name, span } => if cfg.rules.declarations {
                seq![
                    SpecRecord {
                        name: name@,
                        kind: RecordKind::Declaration,
                        start: u.source_map.spec_position(span.lo as int),
                        end: u.source_map.spec_position(span.hi as int),
                        ty: match init {
                            Some(c) => match u.nodes@[c as int].ty {
                                Some(t) => Some(t@),
                                None => None,
                            },
                            None => None,
                        },
                    },
                ]
            } else {
                Seq::empty()
            },
            PatternShape::Other { .. } => Seq::empty(),
        },
        NodeKind::Assign { target, rhs } => match target {
            AssignTarget::Ident { name, span } => if cfg.rules.reassignments {
                seq![
                    SpecRecord {
                        name: name@,
                        kind: RecordKind::Reassignment,
                        start: u.source_map.spec_position(span.lo as int),
                        end: u.source_map.spec_position(span.hi as int),
                        ty: match u.nodes@[rhs as int].ty {
                            Some(t) => Some(t@),
                            None => None,
                        },
                    },
                ]
            } else {
                Seq::empty()
            },
            AssignTarget::Other => Seq::empty(),
        },
        NodeKind::IdentRef { name, is_local } => if cfg.rules.reads && is_local {
            seq![
                SpecRecord {
                    name: name@,
                    kind: RecordKind::Read,
                    start: u.source_map.spec_position(n.span.lo as int),
                    end: u.source_map.spec_position(n.span.hi as int),
                    ty: match n.ty {
                        Some(t) => Some(t@),
                        None => None,
                    },
                },
            ]
        } else {
            Seq::empty()
        },
        _ => Seq::empty(),
    }
}

/// The nodes the active rules skip at node `i`: a declaration whose pattern
/// the declaration rule triggers on but does not support.
pub open spec fn rule_skips(u: TypedUnit, cfg: TraversalConfig, i: int) -> Seq<int> {
    match u.nodes@[i].kind {
        NodeKind::Decl { pattern, .. } => match pattern {
            PatternShape::Other { .. } => if cfg.rules.declarations {
                seq![i]
            } else {
                Seq::empty()
            },
            _ => Seq::empty(),
        },
        _ => Seq::empty(),
    }
}

/// The view of a sequence of skipped handles.
pub open spec fn skips_view(v: Seq<usize>) -> Seq<int> {
    v.map_values(|x: usize| x as int)
}

pub proof fn lemma_recs_view_push(v: Seq<VariableRecord>, r: VariableRecord)
    ensures
        recs_view(v.push(r)) == recs_view(v).push(r@),
{
    assert(recs_view(v.push(r)) =~= recs_view(v).push(r@));
}

pub proof fn lemma_skips_view_push(v: Seq<usize>, x: usize)
    ensures
        skips_view(v.push(x)) == skips_view(v).push(x as int),
{
    assert(skips_view(v.push(x)) =~= skips_view(v).push(x as int));
}

/// Applies the active rules at node `i`, appending the produced record to
/// `out` and the handle of a skipped node to `skipped`.
pub fn apply_rules(
    unit: &TypedUnit,
    cfg: &TraversalConfig,
    i: usize,
    out: &mut Vec<VariableRecord>,
    skipped: &mut Vec<usize>,
) requires
    unit.wf(),
    (i as int) < unit.nodes@.len(),
ensures
    recs_view(final(out)@) == recs_view(old(out)@) + rule_records(*unit, *cfg, i as int),
    skips_view(final(skipped)@) == skips_view(old(skipped)@) + rule_skips(*unit, *cfg, i as int),
{
    proof {
        assert(unit.node_wf(i as int));
    }
    let node = &unit.nodes[i];
    match &node.kind {
        NodeKind::Decl { pattern, init } => {
            match pattern {
                PatternShape::Ident { name, span } => {
                    if cfg.rules.declarations {
                        let (start, end) = resolve_span(&unit.source_map, *span);
                        let ty: Option<String> = match init {
                            Some(c) => {
                                proof {
                                    assert(crate::unit::spec_children(
                                        unit.nodes@[i as int].kind,
                                    )[0] == *c);
                                }
                                match &unit.nodes[*c].ty {
                                    Some(t) => Some(t.clone()),
                                    None => None,
                                }
                            },
                            None => None,
                        };
                        let rec = VariableRecord {
                            name: name.clone(),
                            kind: RecordKind::Declaration,
                            start,
                            end,
                            ty,
                        };
                        proof {
                            lemma_recs_view_push(out@, rec);
                        }
                        out.push(rec);
                    }
                },
                PatternShape::Other { .. } => {
                    if cfg.rules.declarations {
                        proof {
                            lemma_skips_view_push(skipped@, i);
                        }
                        skipped.push(i);
                    }
                },
            }
        },
        NodeKind::Assign { target, rhs } => {
            match target {
                AssignTarget::Ident { name, span } => {
                    if cfg.rules.reassignments {
                        let (start, end) = resolve_span(&unit.source_map, *span);
                        proof {
                            assert(crate::unit::spec_children(unit.nodes@[i as int].kind)[0]
                                == *rhs);
                        }
                        let ty: Option<String> = match &unit.nodes[*rhs].ty {
                            Some(t) => Some(t.clone()),
                            None => None,
                        };
                        let rec = VariableRecord {
                            name: name.clone(),
                            kind: RecordKind::Reassignment,
                            start,
                            end,
                            ty,
                        };
                        proof {
                            lemma_recs_view_push(out@, rec);
                        }
                        out.push(rec);
                    }
                },
                AssignTarget::Other => {},
            }
        },
        NodeKind::IdentRef { name, is_local } => {
            if cfg.rules.reads && *is_local {
                let (start, end) = resolve_span(&unit.source_map, node.span);
                let ty: Option<String> = match &node.ty {
                    Some(t) => Some(t.clone()),
                    None => None,
                };
                let rec = VariableRecord {
                    name: name.clone(),
                    kind: RecordKind::Read,
                    start,
                    end,
                    ty,
                };
                proof {
                    lemma_recs_view_push(out@, rec);
                }
                out.push(rec);
            }
        },
        _ => {},
    }
    proof {
        assert(recs_view(out@) =~= recs_view(old(out)@) + rule_records(*unit, *cfg, i as int));
        assert(skips_view(skipped@) =~= skips_view(old(skipped)@) + rule_skips(
            *unit,
            *cfg,
            i as int,
        ));
    }
}

} // verus!
