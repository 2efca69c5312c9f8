//! The traversal engine.
//!
//! One call walks the whole unit to completion: depth-first, pre-order, over
//! the top-level items in order.  The rules are applied at every visited
//! node; the two depth flags of the configuration decide what is visited.
//! An item found inside another item's body is entered only when
//! `descend_into_nested_items` holds; sub-expressions and nested statements
//! of a body are entered only when `descend_into_expressions` holds, though
//! the rules still apply to a body's direct statement list either way.
//! Visitation order is the sole ordering guarantee on the output.

use vstd::prelude::*;
use crate::record::{SpecRecord, VariableRecord, recs_view};
use crate::rules::{TraversalConfig, apply_rules, rule_records, rule_skips, skips_view};
use crate::unit::{NodeKind, TypedUnit, spec_children};

verus! {

/// The records and the skipped handles contributed by visiting node `i`.
pub open spec fn visit_node(u: TypedUnit, cfg: TraversalConfig, i: int) -> (
    Seq<SpecRecord>,
    Seq<int>,
)
    decreases u.nodes@.len() - i, 1int, 0int,
        when u.wf() && 0 <= i < u.nodes@.len()
{
    let own = (rule_records(u, cfg, i), rule_skips(u, cfg, i));
    let below = match u.nodes@[i].kind {
        NodeKind::Item { .. } => visit_list(u, cfg, i, spec_children(u.nodes@[i].kind), true),
        NodeKind::IdentRef { .. } => (Seq::<SpecRecord>::empty(), Seq::<int>::empty()),
        _ => if cfg.descend_into_expressions {
            visit_list(u, cfg, i, spec_children(u.nodes@[i].kind), false)
        } else {
            (Seq::<SpecRecord>::empty(), Seq::<int>::empty())
        },
    };
    (own.0 + below.0, own.1 + below.1)
}

/// The contribution of one child `c` of a visited node: a nested item is
/// entered only per the nesting flag; a direct statement of a body whose
/// sub-structure is closed off still has the rules applied to it.
pub open spec fn visit_child(u: TypedUnit, cfg: TraversalConfig, c: int, parent_item: bool) -> (
    Seq<SpecRecord>,
    Seq<int>,
)
    decreases u.nodes@.len() - c, 2int, 0int,
        when u.wf() && 0 <= c < u.nodes@.len()
{
    if u.nodes@[c].kind is Item {
        if cfg.descend_into_nested_items {
            visit_node(u, cfg, c)
        } else {
            (Seq::<SpecRecord>::empty(), Seq::<int>::empty())
        }
    } else if parent_item && !cfg.descend_into_expressions {
        (rule_records(u, cfg, c), rule_skips(u, cfg, c))
    } else {
        visit_node(u, cfg, c)
    }
}

/// The contributions of the children `cs` of node `i`, in order.
pub open spec fn visit_list(
    u: TypedUnit,
    cfg: TraversalConfig,
    i: int,
    cs: Seq<usize>,
    parent_item: bool,
) -> (Seq<SpecRecord>, Seq<int>)
    decreases u.nodes@.len() - i, 0int, cs.len(),
        when u.wf() && 0 <= i < u.nodes@.len() && (forall|k: int|
            0 <= k < cs.len() ==> i < (#[trigger] cs[k]) && (cs[k] as int) < u.nodes@.len())
{
    if cs.len() == 0 {
        (Seq::<SpecRecord>::empty(), Seq::<int>::empty())
    } else {
        let head = visit_child(u, cfg, cs[0] as int, parent_item);
        let tail = visit_list(u, cfg, i, cs.skip(1), parent_item);
        (head.0 + tail.0, head.1 + tail.1)
    }
}

/// The contributions of the top-level items `rs`, in order.
pub open spec fn visit_roots(u: TypedUnit, cfg: TraversalConfig, rs: Seq<usize>) -> (
    Seq<SpecRecord>,
    Seq<int>,
)
    decreases rs.len(),
        when u.wf() && (forall|k: int|
            0 <= k < rs.len() ==> ((#[trigger] rs[k]) as int) < u.nodes@.len())
{
    if rs.len() == 0 {
        (Seq::<SpecRecord>::empty(), Seq::<int>::empty())
    } else {
        let head = visit_node(u, cfg, rs[0] as int);
        let tail = visit_roots(u, cfg, rs.skip(1));
        (head.0 + tail.0, head.1 + tail.1)
    }
}

/// What one traversal of the unit produces: the ordered record sequence and
/// the handles of the nodes skipped over unsupported patterns.
pub open spec fn spec_traverse(u: TypedUnit, cfg: TraversalConfig) -> (Seq<SpecRecord>, Seq<int>) {
    visit_roots(u, cfg, u.roots@)
}

pub(crate) fn visit_node_exec(
    unit: &TypedUnit,
    cfg: &TraversalConfig,
    i: usize,
    out: &mut Vec<VariableRecord>,
    skipped: &mut Vec<usize>,
)
    requires
        unit.wf(),
        (i as int) < unit.nodes@.len(),
    ensures
        recs_view(final(out)@) == recs_view(old(out)@) + visit_node(*unit, *cfg, i as int).0,
        skips_view(final(skipped)@) == skips_view(old(skipped)@) + visit_node(
            *unit,
            *cfg,
            i as int,
        ).1,
    decreases unit.nodes@.len() - i, 1int,
{
    proof {
        assert(unit.node_wf(i as int));
    }
    apply_rules(unit, cfg, i, out, skipped);
    let node = &unit.nodes[i];
    match &node.kind {
        NodeKind::Item { children } => {
            proof {
                assert(spec_children(unit.nodes@[i as int].kind) =~= children@);
            }
            visit_list_exec(unit, cfg, i, children, true, out, skipped);
        },
        NodeKind::IdentRef { .. } => {},
        NodeKind::Decl { pattern: _, init } => {
            if cfg.descend_into_expressions {
                match init {
                    Some(c) => {
                        proof {
                            assert(spec_children(unit.nodes@[i as int].kind) =~= seq![*c]);
                            assert(spec_children(unit.nodes@[i as int].kind)[0] == *c);
                        }
                        visit_child_exec(unit, cfg, *c, false, out, skipped);
                        proof {
                            let cs = spec_children(unit.nodes@[i as int].kind);
                            assert(cs.skip(1) =~= Seq::<usize>::empty());
                            lemma_concat_empty_right(
                                visit_child(*unit, *cfg, *c as int, false).0,
                                visit_child(*unit, *cfg, *c as int, false).1,
                            );
                        }
                    },
                    None => {
                        proof {
                            assert(spec_children(unit.nodes@[i as int].kind)
                                =~= Seq::<usize>::empty());
                        }
                    },
                }
            }
        },
        NodeKind::Assign { target: _, rhs } => {
            if cfg.descend_into_expressions {
                proof {
                    assert(spec_children(unit.nodes@[i as int].kind) =~= seq![*rhs]);
                    assert(spec_children(unit.nodes@[i as int].kind)[0] == *rhs);
                }
                visit_child_exec(unit, cfg, *rhs, false, out, skipped);
                proof {
                    let cs = spec_children(unit.nodes@[i as int].kind);
                    assert(cs.skip(1) =~= Seq::<usize>::empty());
                    lemma_concat_empty_right(
                        visit_child(*unit, *cfg, *rhs as int, false).0,
                        visit_child(*unit, *cfg, *rhs as int, false).1,
                    );
                }
            }
        },
        NodeKind::Expr { children } => {
            if cfg.descend_into_expressions {
                proof {
                    assert(spec_children(unit.nodes@[i as int].kind) =~= children@);
                }
                visit_list_exec(unit, cfg, i, children, false, out, skipped);
            }
        },
    }
    proof {
        assert(recs_view(out@) =~= recs_view(old(out)@) + visit_node(*unit, *cfg, i as int).0);
        assert(skips_view(skipped@) =~= skips_view(old(skipped)@) + visit_node(
            *unit,
            *cfg,
            i as int,
        ).1);
    }
}

proof fn lemma_concat_empty_right(r: Seq<SpecRecord>, s: Seq<int>)
    ensures
        r + Seq::<SpecRecord>::empty() == r,
        s + Seq::<int>::empty() == s,
{
    assert(r + Seq::<SpecRecord>::empty() =~= r);
    assert(s + Seq::<int>::empty() =~= s);
}

pub(crate) fn visit_child_exec(
    unit: &TypedUnit,
    cfg: &TraversalConfig,
    c: usize,
    parent_item: bool,
    out: &mut Vec<VariableRecord>,
    skipped: &mut Vec<usize>,
)
    requires
        unit.wf(),
        (c as int) < unit.nodes@.len(),
    ensures
        recs_view(final(out)@) == recs_view(old(out)@) + visit_child(
            *unit,
            *cfg,
            c as int,
            parent_item,
        ).0,
        skips_view(final(skipped)@) == skips_view(old(skipped)@) + visit_child(
            *unit,
            *cfg,
            c as int,
            parent_item,
        ).1,
    decreases unit.nodes@.len() - c, 2int,
{
    let is_item = match &unit.nodes[c].kind {
        NodeKind::Item { .. } => true,
        _ => false,
    };
    if is_item {
        if cfg.descend_into_nested_items {
            visit_node_exec(unit, cfg, c, out, skipped);
        } else {
            proof {
                assert(recs_view(out@) =~= recs_view(old(out)@) + Seq::<SpecRecord>::empty());
                assert(skips_view(skipped@) =~= skips_view(old(skipped)@) + Seq::<int>::empty());
            }
        }
    } else if parent_item && !cfg.descend_into_expressions {
        apply_rules(unit, cfg, c, out, skipped);
    } else {
        visit_node_exec(unit, cfg, c, out, skipped);
    }
}

pub(crate) fn visit_list_exec(
    unit: &TypedUnit,
    cfg: &TraversalConfig,
    i: usize,
    children: &Vec<usize>,
    parent_item: bool,
    out: &mut Vec<VariableRecord>,
    skipped: &mut Vec<usize>,
)
    requires
        unit.wf(),
        (i as int) < unit.nodes@.len(),
        forall|k: int|
            0 <= k < children@.len() ==> i < (#[trigger] children@[k]) && (children@[k] as int)
                < unit.nodes@.len(),
    ensures
        recs_view(final(out)@) == recs_view(old(out)@) + visit_list(
            *unit,
            *cfg,
            i as int,
            children@,
            parent_item,
        ).0,
        skips_view(final(skipped)@) == skips_view(old(skipped)@) + visit_list(
            *unit,
            *cfg,
            i as int,
            children@,
            parent_item,
        ).1,
    decreases unit.nodes@.len() - i, 0int,
{
    let ghost total = visit_list(*unit, *cfg, i as int, children@, parent_item);
    proof {
        assert(children@.skip(0) =~= children@);
    }
    let n = children.len();
    let mut k: usize = 0;
    while k < n
        invariant
            unit.wf(),
            (i as int) < unit.nodes@.len(),
            forall|m: int|
                0 <= m < children@.len() ==> i < (#[trigger] children@[m]) && (children@[m] as int)
                    < unit.nodes@.len(),
            n == children@.len(),
            k <= n,
            total == visit_list(*unit, *cfg, i as int, children@, parent_item),
            recs_view(out@) + visit_list(
                *unit,
                *cfg,
                i as int,
                children@.skip(k as int),
                parent_item,
            ).0 == recs_view(old(out)@) + total.0,
            skips_view(skipped@) + visit_list(
                *unit,
                *cfg,
                i as int,
                children@.skip(k as int),
                parent_item,
            ).1 == skips_view(old(skipped)@) + total.1,
        decreases n - k,
    {
        let c = children[k];
        proof {
            assert(children@.skip(k as int)[0] == children@[k as int]);
            assert(children@.skip(k as int).skip(1) =~= children@.skip(k as int + 1));
        }
        let ghost recs_before = recs_view(out@);
        let ghost skips_before = skips_view(skipped@);
        visit_child_exec(unit, cfg, c, parent_item, out, skipped);
        proof {
            let rest = visit_list(
                *unit,
                *cfg,
                i as int,
                children@.skip(k as int + 1),
                parent_item,
            );
            let head = visit_child(*unit, *cfg, c as int, parent_item);
            assert(visit_list(*unit, *cfg, i as int, children@.skip(k as int), parent_item).0
                == head.0 + rest.0);
            assert(visit_list(*unit, *cfg, i as int, children@.skip(k as int), parent_item).1
                == head.1 + rest.1);
            assert(recs_view(out@) + rest.0 =~= recs_before + (head.0 + rest.0));
            assert(skips_view(skipped@) + rest.1 =~= skips_before + (head.1 + rest.1));
        }
        k += 1;
    }
    proof {
        assert(children@.skip(n as int) =~= Seq::<usize>::empty());
        assert(recs_view(out@) + Seq::<SpecRecord>::empty() =~= recs_view(out@));
        assert(skips_view(skipped@) + Seq::<int>::empty() =~= skips_view(skipped@));
    }
}

/// Why a run produced no output.
#[derive(Clone, Copy, Debug, PartialEq, Eq, Structural)]
pub enum TraversalError {
    /// The unit violates the front-end guarantees; nothing was extracted.
    MalformedUnit,
    /// Strict pattern handling was asked for and a declaration pattern
    /// destructuring a compound value was encountered.
    UnsupportedPattern,
}

/// What a successful run yields: the records in visitation order, and the
/// handles of the nodes that were skipped over unsupported patterns.
#[derive(Debug)]
pub struct TraversalOutput {
    pub records: Vec<VariableRecord>,
    pub skipped: Vec<usize>,
}

/// Walks the whole unit once and extracts every fact the active rules match,
/// in visitation order.  A malformed unit is rejected whole; an unsupported
/// declaration pattern is skipped and reported by handle, unless strict
/// pattern handling was configured, in which case it aborts the run.
pub fn traverse(unit: &TypedUnit, config: &TraversalConfig) -> (r: Result<
    TraversalOutput,
    TraversalError,
>)
    ensures
        ({
            let t = spec_traverse(*unit, *config);
            match r {
                Ok(out) => unit.wf() && recs_view(out.records@) == t.0 && skips_view(out.skipped@)
                    == t.1 && (config.strict_patterns ==> t.1.len() == 0),
                Err(e) => {
                    &&& (e is MalformedUnit <==> !unit.wf())
                    &&& (e is UnsupportedPattern <==> unit.wf() && config.strict_patterns
                        && t.1.len() > 0)
                },
            }
        }),
{
    if !unit.check_wf() {
        return Err(TraversalError::MalformedUnit);
    }
    let mut records: Vec<VariableRecord> = Vec::new();
    let mut skipped: Vec<usize> = Vec::new();
    let n = unit.roots.len();
    let ghost total = visit_roots(*unit, *config, unit.roots@);
    proof {
        assert(unit.roots@.skip(0) =~= unit.roots@);
    }
    let mut k: usize = 0;
    while k < n
        invariant
            unit.wf(),
            n == unit.roots@.len(),
            k <= n,
            total == visit_roots(*unit, *config, unit.roots@),
            recs_view(records@) + visit_roots(*unit, *config, unit.roots@.skip(k as int)).0
                == total.0,
            skips_view(skipped@) + visit_roots(*unit, *config, unit.roots@.skip(k as int)).1
                == total.1,
        decreases n - k,
    {
        let r = unit.roots[k];
        proof {
            assert(unit.roots@.skip(k as int)[0] == unit.roots@[k as int]);
            assert(unit.roots@.skip(k as int).skip(1) =~= unit.roots@.skip(k as int + 1));
        }
        let ghost recs_before = recs_view(records@);
        let ghost skips_before = skips_view(skipped@);
        visit_node_exec(unit, config, r, &mut records, &mut skipped);
        proof {
            let rest = visit_roots(*unit, *config, unit.roots@.skip(k as int + 1));
            let head = visit_node(*unit, *config, r as int);
            assert(recs_view(records@) + rest.0 =~= recs_before + (head.0 + rest.0));
            assert(skips_view(skipped@) + rest.1 =~= skips_before + (head.1 + rest.1));
        }
        k += 1;
    }
    proof {
        assert(unit.roots@.skip(n as int) =~= Seq::<usize>::empty());
        assert(recs_view(records@) + Seq::<SpecRecord>::empty() =~= recs_view(records@));
        assert(skips_view(skipped@) + Seq::<int>::empty() =~= skips_view(skipped@));
        assert(skips_view(skipped@).len() == skipped@.len());
    }
    if config.strict_patterns && skipped.len() > 0 {
        return Err(TraversalError::UnsupportedPattern);
    }
    Ok(TraversalOutput { records, skipped })
}

} // verus!
