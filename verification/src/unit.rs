//! The typed-program model handed to the traversal engine.
//!
//! The front end lowers a type-checked program into plain data: a table of
//! nodes in a tagged-union shape, the indices of the top-level items, and a
//! source map.  A node handle is an index into the table, valid only for the
//! unit that owns it.  Every child index is strictly greater than its
//! parent's, so the table is topologically ordered and every walk bottoms
//! out.

use vstd::prelude::*;
use crate::span::{ByteSpan, SourceMap, covers_check};

verus! {

/// The binding pattern of a declaration.
#[derive(Debug)]
pub enum PatternShape {
    /// A single identifier, with the identifier's own span.
    Ident { name: String, span: ByteSpan },
    /// Any other pattern (a destructuring of a compound value).
    Other { span: ByteSpan },
}

/// The left-hand target of an assignment.
#[derive(Debug)]
pub enum AssignTarget {
    /// A bare identifier reference, with its span.
    Ident { name: String, span: ByteSpan },
    /// A field access, index, destructuring target, or anything else.
    Other,
}

/// The shape of one node, with its children as node handles.
#[derive(Debug)]
pub enum NodeKind {
    /// An item definition (a function, a module, a type); its children are
    /// its member items and the direct statements of its body, in order.
    Item { children: Vec<usize> },
    /// A local-variable declaration; `init` is the initializer expression.
    Decl { pattern: PatternShape, init: Option<usize> },
    /// An assignment expression; `rhs` is the right-hand expression.
    Assign { target: AssignTarget, rhs: usize },
    /// An identifier-reference expression; `is_local` says whether the name
    /// resolves to a local binding rather than a free function, constant or
    /// external symbol.
    IdentRef { name: String, is_local: bool },
    /// Any other statement or expression, with its sub-nodes in order.
    Expr { children: Vec<usize> },
}

/// One node of the typed tree: its shape, its own span, and its resolved
/// type where the front end resolved one.
#[derive(Debug)]
pub struct Node {
    pub kind: NodeKind,
    pub span: ByteSpan,
    pub ty: Option<String>,
}

/// One type-checked compilation unit, as handed over by the front end.
#[derive(Debug)]
pub struct TypedUnit {
    pub nodes: Vec<Node>,
    pub roots: Vec<usize>,
    pub source_map: SourceMap,
}

/// The children of a node shape, as a sequence of handles.
pub open spec fn spec_children(k: NodeKind) -> Seq<usize> {
    match k {
        NodeKind::Item { children } => children@,
        NodeKind::Decl { pattern: _, init } => match init {
            Some(c) => seq![c],
            None => Seq::empty(),
        },
        NodeKind::Assign { target: _, rhs } => seq![rhs],
        NodeKind::IdentRef { .. } => Seq::empty(),
        NodeKind::Expr { children } => children@,
    }
}

/// The spans a rule would extract from the node, besides the node's own.
pub open spec fn inner_span_wf(k: NodeKind, m: SourceMap) -> bool {
    match k {
        NodeKind::Decl { pattern, init: _ } => match pattern {
            PatternShape::Ident { name, span } => {
                &&& name@.len() > 0
                &&& span.wf()
                &&& m.covers(span.lo as int)
                &&& m.covers(span.hi as int)
            },
            PatternShape::Other { span } => {
                &&& span.wf()
                &&& m.covers(span.lo as int)
                &&& m.covers(span.hi as int)
            },
        },
        NodeKind::Assign { target, rhs: _ } => match target {
            AssignTarget::Ident { name, span } => {
                &&& name@.len() > 0
                &&& span.wf()
                &&& m.covers(span.lo as int)
                &&& m.covers(span.hi as int)
            },
            AssignTarget::Other => true,
        },
        NodeKind::IdentRef { name, .. } => name@.len() > 0,
        _ => true,
    }
}

impl TypedUnit {
    /// What the front end guarantees of one node at index `i`.
    pub open spec fn node_wf(self, i: int) -> bool {
        let n = self.nodes@[i];
        &&& n.span.wf()
        &&& self.source_map.covers(n.span.lo as int)
        &&& self.source_map.covers(n.span.hi as int)
        &&& inner_span_wf(n.kind, self.source_map)
        &&& forall|k: int|
            0 <= k < spec_children(n.kind).len()
                ==> i < (#[trigger] spec_children(n.kind)[k]) && (spec_children(n.kind)[k] as int)
                < self.nodes@.len()
        &&& (match n.kind {
            NodeKind::Decl { pattern: _, init } => match init {
                Some(c) => self.nodes@[c as int].ty is Some,
                None => true,
            },
            NodeKind::Assign { target: _, rhs } => self.nodes@[rhs as int].ty is Some,
            _ => true,
        })
    }

    /// A well-formed unit: a well-formed source map, every node well-formed
    /// with children strictly after their parent, and every root in range.
    pub open spec fn wf(self) -> bool {
        &&& self.source_map.wf()
        &&& forall|i: int| 0 <= i < self.nodes@.len() ==> self.node_wf(i)
        &&& forall|k: int|
            0 <= k < self.roots@.len() ==> ((#[trigger] self.roots@[k]) as int) < self.nodes@.len()
    }

    /// Decides whether a span, with any it extracts from, is resolvable.
    fn check_span(&self, span: &ByteSpan) -> (b: bool)
        ensures
            b == (span.wf() && self.source_map.covers(span.lo as int) && self.source_map.covers(
                span.hi as int,
            )),
    {
        span.lo <= span.hi && covers_check(&self.source_map, span.lo) && covers_check(
            &self.source_map,
            span.hi,
        )
    }

    /// Decides the front-end guarantees for the node at `i`.
    fn check_node(&self, i: usize) -> (b: bool)
        requires
            (i as int) < self.nodes@.len(),
        ensures
            b == self.node_wf(i as int),
    {
        let node = &self.nodes[i];
        if !self.check_span(&node.span) {
            return false;
        }
        let n = self.nodes.len();
        match &node.kind {
            NodeKind::Item { children } => {
                proof {
                    assert(spec_children(self.nodes@[i as int].kind) =~= children@);
                }
                let cn = children.len();
                let mut k: usize = 0;
                while k < cn
                    invariant
                        spec_children(self.nodes@[i as int].kind) == children@,
                        cn == children@.len(),
                        n == self.nodes@.len(),
                        k <= cn,
                        (i as int) < n,
                        forall|m: int|
                            0 <= m < k ==> i < (#[trigger] children@[m]) && (children@[m] as int)
                                < n,
                    decreases cn - k,
                {
                    if children[k] <= i || children[k] >= n {
                        proof {
                            assert(spec_children(self.nodes@[i as int].kind)[k as int]
                                == children@[k as int]);
                        }
                        return false;
                    }
                    k += 1;
                }
                proof {
                    assert(spec_children(self.nodes@[i as int].kind) =~= children@);
                }
                true
            },
            NodeKind::Decl { pattern, init } => {
                let pat_ok = match pattern {
                    PatternShape::Ident { name, span } => !name.as_str().is_empty()
                        && self.check_span(span),
                    PatternShape::Other { span } => self.check_span(span),
                };
                if !pat_ok {
                    return false;
                }
                match init {
                    Some(c) => {
                        proof {
                            assert(spec_children(self.nodes@[i as int].kind) =~= seq![*c]);
                            assert(spec_children(self.nodes@[i as int].kind)[0] == *c);
                        }
                        *c > i && *c < n && self.nodes[*c].ty.is_some()
                    },
                    None => {
                        proof {
                            assert(spec_children(self.nodes@[i as int].kind)
                                =~= Seq::<usize>::empty());
                        }
                        true
                    },
                }
            },
            NodeKind::Assign { target, rhs } => {
                let tgt_ok = match target {
                    AssignTarget::Ident { name, span } => !name.as_str().is_empty()
                        && self.check_span(span),
                    AssignTarget::Other => true,
                };
                proof {
                    assert(spec_children(self.nodes@[i as int].kind) =~= seq![*rhs]);
                    assert(spec_children(self.nodes@[i as int].kind)[0] == *rhs);
                }
                tgt_ok && *rhs > i && *rhs < n && self.nodes[*rhs].ty.is_some()
            },
            NodeKind::IdentRef { name, .. } => {
                proof {
                    assert(spec_children(self.nodes@[i as int].kind) =~= Seq::<usize>::empty());
                }
                !name.as_str().is_empty()
            },
            NodeKind::Expr { children } => {
                proof {
                    assert(spec_children(self.nodes@[i as int].kind) =~= children@);
                }
                let cn = children.len();
                let mut k: usize = 0;
                while k < cn
                    invariant
                        spec_children(self.nodes@[i as int].kind) == children@,
                        cn == children@.len(),
                        n == self.nodes@.len(),
                        k <= cn,
                        (i as int) < n,
                        forall|m: int|
                            0 <= m < k ==> i < (#[trigger] children@[m]) && (children@[m] as int)
                                < n,
                    decreases cn - k,
                {
                    if children[k] <= i || children[k] >= n {
                        proof {
                            assert(spec_children(self.nodes@[i as int].kind)[k as int]
                                == children@[k as int]);
                        }
                        return false;
                    }
                    k += 1;
                }
                proof {
                    assert(spec_children(self.nodes@[i as int].kind) =~= children@);
                }
                true
            },
        }
    }

    /// Decides whether the whole unit meets the front-end guarantees.
    pub fn check_wf(&self) -> (b: bool)
        ensures
            b == self.wf(),
    {
        if !self.source_map.check_wf() {
            return false;
        }
        let n = self.nodes.len();
        let mut i: usize = 0;
        while i < n
            invariant
                n == self.nodes@.len(),
                i <= n,
                forall|k: int| 0 <= k < i ==> self.node_wf(k),
            decreases n - i,
        {
            if !self.check_node(i) {
                return false;
            }
            i += 1;
        }
        let rn = self.roots.len();
        let mut k: usize = 0;
        while k < rn
            invariant
                rn == self.roots@.len(),
                n == self.nodes@.len(),
                k <= rn,
                forall|m: int| 0 <= m < k ==> ((#[trigger] self.roots@[m]) as int) < n,
            decreases rn - k,
        {
            if self.roots[k] >= n {
                return false;
            }
            k += 1;
        }
        true
    }
}

} // verus!
