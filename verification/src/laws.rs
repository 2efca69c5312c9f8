//! The laws the library states of itself, proved once and for all inputs.

use vstd::prelude::*;
use crate::engine::{
    spec_traverse, visit_child, visit_list, visit_node, visit_roots,
};
use crate::json::json_of_records;
use crate::record::{SpecRecord, record_wf};
use crate::rules::{TraversalConfig, rule_records};
use crate::span::{ByteSpan, lemma_position_monotone, lemma_spec_position_wf};
use crate::unit::{NodeKind, PatternShape, TypedUnit, spec_children};

verus! {

/// Whether the node shape is a declaration binding one simple identifier.
pub open spec fn is_simple_decl(k: NodeKind) -> bool {
    k matches NodeKind::Decl { pattern: PatternShape::Ident { .. }, .. }
}

pub open spec fn decl_name(k: NodeKind) -> Seq<char> {
    match k {
        NodeKind::Decl { pattern: PatternShape::Ident { name, .. }, .. } => name@,
        _ => Seq::empty(),
    }
}

pub open spec fn decl_span(k: NodeKind) -> ByteSpan {
    match k {
        NodeKind::Decl { pattern: PatternShape::Ident { name: _, span }, .. } => span,
        _ => ByteSpan { lo: 0, hi: 0 },
    }
}

pub open spec fn decl_init(k: NodeKind) -> Option<usize> {
    match k {
        NodeKind::Decl { pattern: _, init } => init,
        _ => None,
    }
}

/// Whether the node shape is an assignment to a bare identifier.
pub open spec fn is_simple_assign(k: NodeKind) -> bool {
    k matches NodeKind::Assign { target: crate::unit::AssignTarget::Ident { .. }, .. }
}

pub open spec fn assign_rhs(k: NodeKind) -> usize {
    match k {
        NodeKind::Assign { target: _, rhs } => rhs,
        _ => 0,
    }
}

/// Every record the rules produce at a node is well-formed: non-empty name,
/// 1-based positions, start at or before end whenever both ends name a
/// file, and a type on every reassignment.
pub proof fn lemma_rule_records_wf(u: TypedUnit, cfg: TraversalConfig, i: int)
    requires
        u.wf(),
        0 <= i < u.nodes@.len(),
    ensures
        forall|k: int|
            0 <= k < rule_records(u, cfg, i).len() ==> record_wf(
                #[trigger] rule_records(u, cfg, i)[k],
            ),
{
    assert(u.node_wf(i));
    let n = u.nodes@[i];
    let rs = rule_records(u, cfg, i);
    if rs.len() > 0 {
        let r = rs[0];
        match n.kind {
            NodeKind::Decl { pattern, init: _ } => match pattern {
                PatternShape::Ident { name: _, span } => {
                    lemma_spec_position_wf(u.source_map, span.lo as int);
                    lemma_spec_position_wf(u.source_map, span.hi as int);
                    if r.start.file is Some && r.end.file is Some && r.start.file == r.end.file {
                        lemma_position_monotone(u.source_map, span.lo as int, span.hi as int);
                    }
                },
                _ => {},
            },
            NodeKind::Assign { target, rhs: _ } => match target {
                crate::unit::AssignTarget::Ident { name: _, span } => {
                    lemma_spec_position_wf(u.source_map, span.lo as int);
                    lemma_spec_position_wf(u.source_map, span.hi as int);
                    if r.start.file is Some && r.end.file is Some && r.start.file == r.end.file {
                        lemma_position_monotone(u.source_map, span.lo as int, span.hi as int);
                    }
                },
                _ => {},
            },
            NodeKind::IdentRef { .. } => {
                lemma_spec_position_wf(u.source_map, n.span.lo as int);
                lemma_spec_position_wf(u.source_map, n.span.hi as int);
                if r.start.file is Some && r.end.file is Some && r.start.file == r.end.file {
                    lemma_position_monotone(u.source_map, n.span.lo as int, n.span.hi as int);
                }
            },
            _ => {},
        }
    }
}

proof fn lemma_wf_concat(a: Seq<SpecRecord>, b: Seq<SpecRecord>)
    requires
        forall|k: int| 0 <= k < a.len() ==> record_wf(#[trigger] a[k]),
        forall|k: int| 0 <= k < b.len() ==> record_wf(#[trigger] b[k]),
    ensures
        forall|k: int| 0 <= k < (a + b).len() ==> record_wf(#[trigger] (a + b)[k]),
{
    assert forall|k: int| 0 <= k < (a + b).len() implies record_wf((a + b)[k]) by {
        if k < a.len() {
            assert((a + b)[k] == a[k]);
        } else {
            assert((a + b)[k] == b[k - a.len()]);
        }
    }
}

proof fn lemma_visit_node_wf(u: TypedUnit, cfg: TraversalConfig, i: int)
    requires
        u.wf(),
        0 <= i < u.nodes@.len(),
    ensures
        forall|k: int|
            0 <= k < visit_node(u, cfg, i).0.len() ==> record_wf(
                #[trigger] visit_node(u, cfg, i).0[k],
            ),
    decreases u.nodes@.len() - i, 1int, 0int,
{
    assert(u.node_wf(i));
    lemma_rule_records_wf(u, cfg, i);
    let own = rule_records(u, cfg, i);
    match u.nodes@[i].kind {
        NodeKind::Item { .. } => {
            lemma_visit_list_wf(u, cfg, i, spec_children(u.nodes@[i].kind), true);
            lemma_wf_concat(own, visit_list(u, cfg, i, spec_children(u.nodes@[i].kind), true).0);
        },
        NodeKind::IdentRef { .. } => {
            lemma_wf_concat(own, Seq::<SpecRecord>::empty());
        },
        _ => {
            if cfg.descend_into_expressions {
                lemma_visit_list_wf(u, cfg, i, spec_children(u.nodes@[i].kind), false);
                lemma_wf_concat(
                    own,
                    visit_list(u, cfg, i, spec_children(u.nodes@[i].kind), false).0,
                );
            } else {
                lemma_wf_concat(own, Seq::<SpecRecord>::empty());
            }
        },
    }
}

proof fn lemma_visit_child_wf(u: TypedUnit, cfg: TraversalConfig, c: int, parent_item: bool)
    requires
        u.wf(),
        0 <= c < u.nodes@.len(),
    ensures
        forall|k: int|
            0 <= k < visit_child(u, cfg, c, parent_item).0.len() ==> record_wf(
                #[trigger] visit_child(u, cfg, c, parent_item).0[k],
            ),
    decreases u.nodes@.len() - c, 2int, 0int,
{
    if u.nodes@[c].kind is Item {
        if cfg.descend_into_nested_items {
            lemma_visit_node_wf(u, cfg, c);
            assert(visit_child(u, cfg, c, parent_item).0 == visit_node(u, cfg, c).0);
        } else {
            assert(visit_child(u, cfg, c, parent_item).0 == Seq::<SpecRecord>::empty());
        }
    } else if parent_item && !cfg.descend_into_expressions {
        lemma_rule_records_wf(u, cfg, c);
        assert(visit_child(u, cfg, c, parent_item).0 == rule_records(u, cfg, c));
    } else {
        lemma_visit_node_wf(u, cfg, c);
        assert(visit_child(u, cfg, c, parent_item).0 == visit_node(u, cfg, c).0);
    }
}

proof fn lemma_visit_list_wf(
    u: TypedUnit,
    cfg: TraversalConfig,
    i: int,
    cs: Seq<usize>,
    parent_item: bool,
)
    requires
        u.wf(),
        0 <= i < u.nodes@.len(),
        forall|k: int|
            0 <= k < cs.len() ==> i < (#[trigger] cs[k]) && (cs[k] as int) < u.nodes@.len(),
    ensures
        forall|k: int|
            0 <= k < visit_list(u, cfg, i, cs, parent_item).0.len() ==> record_wf(
                #[trigger] visit_list(u, cfg, i, cs, parent_item).0[k],
            ),
    decreases u.nodes@.len() - i, 0int, cs.len(),
{
    if cs.len() == 0 {
    } else {
        lemma_visit_child_wf(u, cfg, cs[0] as int, parent_item);
        lemma_visit_list_wf(u, cfg, i, cs.skip(1), parent_item);
        lemma_wf_concat(
            visit_child(u, cfg, cs[0] as int, parent_item).0,
            visit_list(u, cfg, i, cs.skip(1), parent_item).0,
        );
    }
}

proof fn lemma_visit_roots_wf(u: TypedUnit, cfg: TraversalConfig, rs: Seq<usize>)
    requires
        u.wf(),
        forall|k: int| 0 <= k < rs.len() ==> ((#[trigger] rs[k]) as int) < u.nodes@.len(),
    ensures
        forall|k: int|
            0 <= k < visit_roots(u, cfg, rs).0.len() ==> record_wf(
                #[trigger] visit_roots(u, cfg, rs).0[k],
            ),
    decreases rs.len(),
{
    if rs.len() == 0 {
    } else {
        lemma_visit_node_wf(u, cfg, rs[0] as int);
        lemma_visit_roots_wf(u, cfg, rs.skip(1));
        lemma_wf_concat(visit_node(u, cfg, rs[0] as int).0, visit_roots(u, cfg, rs.skip(1)).0);
    }
}

/// Every record a traversal produces is well-formed: its name is the
/// non-empty identifier text, its lines and columns are 1-based, its start
/// precedes or equals its end in (line, column) order whenever both ends
/// name a file, and a reassignment always carries a type.
pub proof fn lemma_output_records_wf(u: TypedUnit, cfg: TraversalConfig)
    requires
        u.wf(),
    ensures
        forall|k: int|
            0 <= k < spec_traverse(u, cfg).0.len() ==> record_wf(
                #[trigger] spec_traverse(u, cfg).0[k],
            ),
{
    lemma_visit_roots_wf(u, cfg, u.roots@);
}

/// A declaration node binding one simple identifier yields exactly one
/// record under the declaration rule: a well-formed Declaration carrying
/// the identifier's text and the positions of the identifier's own span.
pub proof fn lemma_declaration_exact(u: TypedUnit, cfg: TraversalConfig, i: int)
    requires
        u.wf(),
        0 <= i < u.nodes@.len(),
        cfg.rules.declarations,
        is_simple_decl(u.nodes@[i].kind),
    ensures
        rule_records(u, cfg, i).len() == 1,
        rule_records(u, cfg, i)[0].kind is Declaration,
        rule_records(u, cfg, i)[0].name == decl_name(u.nodes@[i].kind),
        rule_records(u, cfg, i)[0].start == u.source_map.spec_position(
            decl_span(u.nodes@[i].kind).lo as int,
        ),
        rule_records(u, cfg, i)[0].end == u.source_map.spec_position(
            decl_span(u.nodes@[i].kind).hi as int,
        ),
        record_wf(rule_records(u, cfg, i)[0]),
{
    lemma_rule_records_wf(u, cfg, i);
}

/// A declaration's recorded type is present exactly when the declaration
/// carried an initializer, and is then the initializer expression's
/// resolved type — the declaration's own annotation is never consulted.
pub proof fn lemma_declaration_type_presence(u: TypedUnit, cfg: TraversalConfig, i: int)
    requires
        u.wf(),
        0 <= i < u.nodes@.len(),
        cfg.rules.declarations,
        is_simple_decl(u.nodes@[i].kind),
    ensures
        rule_records(u, cfg, i)[0].ty is Some <==> decl_init(u.nodes@[i].kind) is Some,
        decl_init(u.nodes@[i].kind) matches Some(c) ==> rule_records(u, cfg, i)[0].ty == Some(
            u.nodes@[c as int].ty->0@,
        ),
{
    assert(u.node_wf(i));
}

/// A reassignment's recorded type is the right-hand expression's resolved
/// type — never a declared type of the target, which the rule does not even
/// look at.
pub proof fn lemma_reassignment_type_from_rhs(u: TypedUnit, cfg: TraversalConfig, i: int)
    requires
        u.wf(),
        0 <= i < u.nodes@.len(),
        cfg.rules.reassignments,
        is_simple_assign(u.nodes@[i].kind),
    ensures
        rule_records(u, cfg, i).len() == 1,
        rule_records(u, cfg, i)[0].kind is Reassignment,
        rule_records(u, cfg, i)[0].ty == Some(
            u.nodes@[assign_rhs(u.nodes@[i].kind) as int].ty->0@,
        ),
{
    assert(u.node_wf(i));
}

/// Two traversals of the same unit under the same configuration produce the
/// same ordered records, and so the same serialized document, character for
/// character.
pub proof fn lemma_traversal_idempotent(
    u: TypedUnit,
    cfg: TraversalConfig,
    first: (Seq<SpecRecord>, Seq<int>),
    second: (Seq<SpecRecord>, Seq<int>),
)
    requires
        first == spec_traverse(u, cfg),
        second == spec_traverse(u, cfg),
    ensures
        first == second,
        json_of_records(first.0) == json_of_records(second.0),
{
}

/// With descent into nested items disabled, an item definition found among
/// a visited node's children contributes nothing: the children traverse
/// exactly as if the item were not there.
pub proof fn lemma_nested_item_contributes_nothing(
    u: TypedUnit,
    cfg: TraversalConfig,
    i: int,
    cs: Seq<usize>,
    parent_item: bool,
    j: int,
)
    requires
        u.wf(),
        0 <= i < u.nodes@.len(),
        forall|k: int|
            0 <= k < cs.len() ==> i < (#[trigger] cs[k]) && (cs[k] as int) < u.nodes@.len(),
        0 <= j < cs.len(),
        !cfg.descend_into_nested_items,
        u.nodes@[cs[j] as int].kind is Item,
    ensures
        visit_list(u, cfg, i, cs, parent_item).0 == visit_list(
            u,
            cfg,
            i,
            cs.remove(j),
            parent_item,
        ).0,
        visit_list(u, cfg, i, cs, parent_item).1 == visit_list(
            u,
            cfg,
            i,
            cs.remove(j),
            parent_item,
        ).1,
    decreases j,
{
    if j == 0 {
        assert(visit_child(u, cfg, cs[0] as int, parent_item).0 == Seq::<SpecRecord>::empty());
        assert(cs.remove(0) =~= cs.skip(1));
        assert(Seq::<SpecRecord>::empty() + visit_list(u, cfg, i, cs.skip(1), parent_item).0
            =~= visit_list(u, cfg, i, cs.skip(1), parent_item).0);
        assert(Seq::<int>::empty() + visit_list(u, cfg, i, cs.skip(1), parent_item).1
            =~= visit_list(u, cfg, i, cs.skip(1), parent_item).1);
    } else {
        assert(cs.remove(j).skip(1) =~= cs.skip(1).remove(j - 1));
        assert(cs.skip(1)[j - 1] == cs[j]);
        lemma_nested_item_contributes_nothing(u, cfg, i, cs.skip(1), parent_item, j - 1);
        assert(cs.remove(j)[0] == cs[0]);
    }
}

} // verus!
