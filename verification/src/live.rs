//! The live tree: the mutable on-screen structure that reconciliation keeps
//! in step with the declarative tree.  Every live node carries a stable
//! identity, handed out once by an [`IdGen`]; reusing a node across renders
//! means keeping its identity.

use vstd::prelude::*;
use crate::vtree::{Attr, VNode, attrs_eq, strs_eq};

verus! {

broadcast use vstd::std_specs::vec::group_vec_axioms;

/// A live element node.
pub struct LiveElement {
    pub tag: String,
    pub attrs: Vec<Attr>,
    pub listeners: Vec<String>,
    pub key: Option<u64>,
    pub children: Vec<LiveNode>,
}

/// A live mounted-component placeholder.  The node's identity doubles as the
/// identity of the scope mounted for it.
pub struct LiveComponent {
    pub type_id: u64,
    pub props: String,
    pub key: Option<u64>,
}

/// The content of a live node.
pub enum LiveKind {
    Text(String),
    Element(LiveElement),
    List(Vec<LiveNode>),
    Component(LiveComponent),
}

/// A node of the live tree: a stable identity plus its current content.
pub struct LiveNode {
    pub id: u64,
    pub kind: LiveKind,
}

impl LiveNode {
    /// The identity key this live node carries, if any.
    pub open spec fn spec_key(self) -> Option<u64> {
        match self.kind {
            LiveKind::Element(e) => e.key,
            LiveKind::Component(c) => c.key,
            _ => None,
        }
    }

    /// The live node reflects exactly the given declared tree.
    pub open spec fn matches(self, v: VNode) -> bool
        decreases v, 0int,
    {
        match (self.kind, v) {
            (LiveKind::Text(a), VNode::Text(b)) => a@ == b@,
            (LiveKind::Element(a), VNode::Element(b)) => {
                &&& a.tag@ == b.tag@
                &&& a.key == b.key
                &&& attrs_eq(a.attrs@, b.attrs@)
                &&& strs_eq(a.listeners@, b.listeners@)
                &&& LiveNode::seq_matches(a.children@, b.children@)
            },
            (LiveKind::List(a), VNode::List(b)) => LiveNode::seq_matches(a@, b@),
            (LiveKind::Component(a), VNode::Component(b)) => {
                a.type_id == b.type_id && a.props@ == b.props@ && a.key == b.key
            },
            _ => false,
        }
    }

    /// Each live node of a sequence reflects the declared node at the same
    /// position.
    pub open spec fn seq_matches(ls: Seq<LiveNode>, vs: Seq<VNode>) -> bool
        decreases vs, 1int,
    {
        ls.len() == vs.len() && (vs.len() == 0 || (ls[0].matches(vs[0]) && LiveNode::seq_matches(
            ls.skip(1),
            vs.skip(1),
        )))
    }

    /// Two live trees are identical: same identities and same content
    /// everywhere.
    pub open spec fn live_eq(self, other: LiveNode) -> bool
        decreases self, 0int,
    {
        self.id == other.id && match (self.kind, other.kind) {
            (LiveKind::Text(a), LiveKind::Text(b)) => a@ == b@,
            (LiveKind::Element(a), LiveKind::Element(b)) => {
                &&& a.tag@ == b.tag@
                &&& a.key == b.key
                &&& attrs_eq(a.attrs@, b.attrs@)
                &&& strs_eq(a.listeners@, b.listeners@)
                &&& LiveNode::seq_live_eq(a.children@, b.children@)
            },
            (LiveKind::List(a), LiveKind::List(b)) => LiveNode::seq_live_eq(a@, b@),
            (LiveKind::Component(a), LiveKind::Component(b)) => {
                a.type_id == b.type_id && a.props@ == b.props@ && a.key == b.key
            },
            _ => false,
        }
    }

    /// Pointwise identity of two live-node sequences.
    pub open spec fn seq_live_eq(xs: Seq<LiveNode>, ys: Seq<LiveNode>) -> bool
        decreases xs, 1int,
    {
        xs.len() == ys.len() && (xs.len() == 0 || (xs[0].live_eq(ys[0]) && LiveNode::seq_live_eq(
            xs.skip(1),
            ys.skip(1),
        )))
    }

    /// Two live trees have the same structure: identical content everywhere,
    /// with no regard to node identities.
    pub open spec fn same_shape(self, other: LiveNode) -> bool
        decreases self, 0int,
    {
        match (self.kind, other.kind) {
            (LiveKind::Text(a), LiveKind::Text(b)) => a@ == b@,
            (LiveKind::Element(a), LiveKind::Element(b)) => {
                &&& a.tag@ == b.tag@
                &&& a.key == b.key
                &&& attrs_eq(a.attrs@, b.attrs@)
                &&& strs_eq(a.listeners@, b.listeners@)
                &&& LiveNode::seq_same_shape(a.children@, b.children@)
            },
            (LiveKind::List(a), LiveKind::List(b)) => LiveNode::seq_same_shape(a@, b@),
            (LiveKind::Component(a), LiveKind::Component(b)) => {
                a.type_id == b.type_id && a.props@ == b.props@ && a.key == b.key
            },
            _ => false,
        }
    }

    /// Pointwise structural equality of two live-node sequences.
    pub open spec fn seq_same_shape(xs: Seq<LiveNode>, ys: Seq<LiveNode>) -> bool
        decreases xs, 1int,
    {
        xs.len() == ys.len() && (xs.len() == 0 || (xs[0].same_shape(ys[0])
            && LiveNode::seq_same_shape(xs.skip(1), ys.skip(1))))
    }

    /// A well-formed live tree: sibling keys unique, attribute names unique,
    /// listener kinds unique, recursively.
    pub open spec fn live_wf(self) -> bool
        decreases self, 0int,
    {
        match self.kind {
            LiveKind::Text(_) => true,
            LiveKind::Element(e) => {
                &&& crate::vtree::names_unique(e.attrs@)
                &&& crate::vtree::kinds_unique(e.listeners@)
                &&& live_keys_unique(e.children@)
                &&& LiveNode::seq_live_wf(e.children@)
            },
            LiveKind::List(cs) => {
                &&& live_keys_unique(cs@)
                &&& LiveNode::seq_live_wf(cs@)
            },
            LiveKind::Component(_) => true,
        }
    }

    /// Every live tree of a sequence is well-formed.
    pub open spec fn seq_live_wf(xs: Seq<LiveNode>) -> bool
        decreases xs, 1int,
    {
        xs.len() == 0 || (xs[0].live_wf() && LiveNode::seq_live_wf(xs.skip(1)))
    }
}

/// `seq_matches` is position-by-position matching.
pub proof fn lemma_seq_matches_iff(ls: Seq<LiveNode>, vs: Seq<VNode>)
    ensures
        LiveNode::seq_matches(ls, vs) <==> (ls.len() == vs.len() && forall|i: int|
            0 <= i < vs.len() ==> #[trigger] ls[i].matches(vs[i])),
    decreases vs,
{
    if ls.len() == vs.len() && vs.len() > 0 {
        lemma_seq_matches_iff(ls.skip(1), vs.skip(1));
        if LiveNode::seq_matches(ls, vs) {
            assert forall|i: int| 0 <= i < vs.len() implies #[trigger] ls[i].matches(vs[i]) by {
                if i > 0 {
                    assert(ls.skip(1)[i - 1] == ls[i]);
                    assert(vs.skip(1)[i - 1] == vs[i]);
                    assert(ls.skip(1)[i - 1].matches(vs.skip(1)[i - 1]));
                }
            }
        }
        if forall|i: int| 0 <= i < vs.len() ==> #[trigger] ls[i].matches(vs[i]) {
            assert forall|i: int| 0 <= i < vs.skip(1).len() implies #[trigger] ls.skip(1)[i].matches(
                vs.skip(1)[i],
            ) by {
                assert(ls.skip(1)[i] == ls[i + 1]);
                assert(vs.skip(1)[i] == vs[i + 1]);
                assert(ls[i + 1].matches(vs[i + 1]));
            }
            assert(ls[0].matches(vs[0]));
        }
    }
}

/// `seq_live_eq` is position-by-position identity.
pub proof fn lemma_seq_live_eq_iff(xs: Seq<LiveNode>, ys: Seq<LiveNode>)
    ensures
        LiveNode::seq_live_eq(xs, ys) <==> (xs.len() == ys.len() && forall|i: int|
            0 <= i < xs.len() ==> #[trigger] xs[i].live_eq(ys[i])),
    decreases xs,
{
    if xs.len() == ys.len() && xs.len() > 0 {
        lemma_seq_live_eq_iff(xs.skip(1), ys.skip(1));
        if LiveNode::seq_live_eq(xs, ys) {
            assert forall|i: int| 0 <= i < xs.len() implies #[trigger] xs[i].live_eq(ys[i]) by {
                if i > 0 {
                    assert(xs.skip(1)[i - 1] == xs[i]);
                    assert(ys.skip(1)[i - 1] == ys[i]);
                    assert(xs.skip(1)[i - 1].live_eq(ys.skip(1)[i - 1]));
                }
            }
        }
        if forall|i: int| 0 <= i < xs.len() ==> #[trigger] xs[i].live_eq(ys[i]) {
            assert forall|i: int| 0 <= i < xs.skip(1).len() implies #[trigger] xs.skip(1)[i].live_eq(
                ys.skip(1)[i],
            ) by {
                assert(xs.skip(1)[i] == xs[i + 1]);
                assert(ys.skip(1)[i] == ys[i + 1]);
                assert(xs[i + 1].live_eq(ys[i + 1]));
            }
            assert(xs[0].live_eq(ys[0]));
        }
    }
}

/// `seq_same_shape` is position-by-position structural equality.
pub proof fn lemma_seq_same_shape_iff(xs: Seq<LiveNode>, ys: Seq<LiveNode>)
    ensures
        LiveNode::seq_same_shape(xs, ys) <==> (xs.len() == ys.len() && forall|i: int|
            0 <= i < xs.len() ==> #[trigger] xs[i].same_shape(ys[i])),
    decreases xs,
{
    if xs.len() == ys.len() && xs.len() > 0 {
        lemma_seq_same_shape_iff(xs.skip(1), ys.skip(1));
        if LiveNode::seq_same_shape(xs, ys) {
            assert forall|i: int| 0 <= i < xs.len() implies #[trigger] xs[i].same_shape(ys[i]) by {
                if i > 0 {
                    assert(xs.skip(1)[i - 1] == xs[i]);
                    assert(ys.skip(1)[i - 1] == ys[i]);
                    assert(xs.skip(1)[i - 1].same_shape(ys.skip(1)[i - 1]));
                }
            }
        }
        if forall|i: int| 0 <= i < xs.len() ==> #[trigger] xs[i].same_shape(ys[i]) {
            assert forall|i: int|
                0 <= i < xs.skip(1).len() implies #[trigger] xs.skip(1)[i].same_shape(
                ys.skip(1)[i],
            ) by {
                assert(xs.skip(1)[i] == xs[i + 1]);
                assert(ys.skip(1)[i] == ys[i + 1]);
                assert(xs[i + 1].same_shape(ys[i + 1]));
            }
            assert(xs[0].same_shape(ys[0]));
        }
    }
}

/// `seq_live_wf` is position-by-position well-formedness.
pub proof fn lemma_seq_live_wf_iff(xs: Seq<LiveNode>)
    ensures
        LiveNode::seq_live_wf(xs) <==> (forall|i: int|
            0 <= i < xs.len() ==> #[trigger] xs[i].live_wf()),
    decreases xs,
{
    if xs.len() > 0 {
        lemma_seq_live_wf_iff(xs.skip(1));
        if LiveNode::seq_live_wf(xs) {
            assert forall|i: int| 0 <= i < xs.len() implies #[trigger] xs[i].live_wf() by {
                if i > 0 {
                    assert(xs.skip(1)[i - 1] == xs[i]);
                    assert(xs.skip(1)[i - 1].live_wf());
                }
            }
        }
        if forall|i: int| 0 <= i < xs.len() ==> #[trigger] xs[i].live_wf() {
            assert forall|i: int| 0 <= i < xs.skip(1).len() implies #[trigger] xs.skip(1)[i].live_wf() by {
                assert(xs.skip(1)[i] == xs[i + 1]);
                assert(xs[i + 1].live_wf());
            }
            assert(xs[0].live_wf());
        }
    }
}

/// Among keyed live siblings no key occurs twice.
pub open spec fn live_keys_unique(s: Seq<LiveNode>) -> bool {
    forall|i: int, j: int|
        0 <= i < j < s.len() && #[trigger] s[i].spec_key() is Some ==> s[i].spec_key()
            != #[trigger] s[j].spec_key()
}

/// The first live sibling carrying the given key, if any.
pub open spec fn live_find_key(s: Seq<LiveNode>, k: u64) -> Option<int>
    decreases s,
{
    if s.len() == 0 {
        None
    } else if s[0].spec_key() == Some(k) {
        Some(0)
    } else {
        match live_find_key(s.skip(1), k) {
            Some(i) => Some(i + 1),
            None => None,
        }
    }
}

/// What `live_find_key` returns is a match, and the first one.
pub proof fn lemma_live_find_key(s: Seq<LiveNode>, k: u64)
    ensures
        match live_find_key(s, k) {
            Some(i) => 0 <= i < s.len() && s[i].spec_key() == Some(k) && forall|i2: int|
                0 <= i2 < i ==> #[trigger] s[i2].spec_key() != Some(k),
            None => forall|i2: int| 0 <= i2 < s.len() ==> #[trigger] s[i2].spec_key() != Some(k),
        },
    decreases s,
{
    if s.len() > 0 && s[0].spec_key() != Some(k) {
        lemma_live_find_key(s.skip(1), k);
        match live_find_key(s.skip(1), k) {
            Some(i) => {
                assert forall|i2: int| 0 <= i2 < i + 1 implies #[trigger] s[i2].spec_key() != Some(
                    k,
                ) by {
                    if i2 > 0 {
                        assert(s.skip(1)[i2 - 1] == s[i2]);
                        assert(s.skip(1)[i2 - 1].spec_key() != Some(k));
                    }
                }
            },
            None => {
                assert forall|i2: int| 0 <= i2 < s.len() implies #[trigger] s[i2].spec_key()
                    != Some(k) by {
                    if i2 > 0 {
                        assert(s.skip(1)[i2 - 1] == s[i2]);
                        assert(s.skip(1)[i2 - 1].spec_key() != Some(k));
                    }
                }
            },
        }
    }
}

/// A live node that reflects a declared node carries the declared node's
/// key.
pub proof fn lemma_matches_key(l: LiveNode, v: VNode)
    requires
        l.matches(v),
    ensures
        l.spec_key() == v.spec_key(),
{
}

/// A live tree that reflects a well-formed declared tree is itself
/// well-formed.
pub proof fn lemma_matches_implies_live_wf(l: LiveNode, v: VNode)
    requires
        l.matches(v),
        v.wf(),
    ensures
        l.live_wf(),
    decreases v,
{
    lemma_seq_matches_wf(l, v);
}

/// Helper induction for `lemma_matches_implies_live_wf`, shared between the
/// node and sequence levels.
proof fn lemma_seq_matches_wf(l: LiveNode, v: VNode)
    requires
        l.matches(v),
        v.wf(),
    ensures
        l.live_wf(),
    decreases v, 0int,
{
    match (l.kind, v) {
        (LiveKind::Element(a), VNode::Element(b)) => {
            lemma_seq_matches_iff(a.children@, b.children@);
            crate::vtree::lemma_seq_wf_iff(b.children@);
            assert forall|i: int, j: int|
                0 <= i < j < a.attrs@.len() implies #[trigger] a.attrs@[i].name@
                != #[trigger] a.attrs@[j].name@ by {
                assert(a.attrs@[i].eq_spec(b.attrs@[i]));
                assert(a.attrs@[j].eq_spec(b.attrs@[j]));
            }
            assert forall|i: int, j: int|
                0 <= i < j < a.listeners@.len() implies #[trigger] a.listeners@[i]@
                != #[trigger] a.listeners@[j]@ by {
                assert(a.listeners@[i]@ == b.listeners@[i]@);
                assert(a.listeners@[j]@ == b.listeners@[j]@);
            }
            assert forall|i: int| 0 <= i < a.children@.len() implies #[trigger] a.children@[i].live_wf() by {
                lemma_seq_matches_wf(a.children@[i], b.children@[i]);
            }
            assert forall|i: int, j: int|
                0 <= i < j < a.children@.len() && #[trigger] a.children@[i].spec_key() is Some
                implies a.children@[i].spec_key() != #[trigger] a.children@[j].spec_key() by {
                lemma_matches_key(a.children@[i], b.children@[i]);
                lemma_matches_key(a.children@[j], b.children@[j]);
            }
            lemma_seq_live_wf_iff(a.children@);
        },
        (LiveKind::List(a), VNode::List(b)) => {
            lemma_seq_matches_iff(a@, b@);
            crate::vtree::lemma_seq_wf_iff(b@);
            assert forall|i: int| 0 <= i < a@.len() implies #[trigger] a@[i].live_wf() by {
                lemma_seq_matches_wf(a@[i], b@[i]);
            }
            assert forall|i: int, j: int|
                0 <= i < j < a@.len() && #[trigger] a@[i].spec_key() is Some implies a@[i].spec_key()
                != #[trigger] a@[j].spec_key() by {
                lemma_matches_key(a@[i], b@[i]);
                lemma_matches_key(a@[j], b@[j]);
            }
            lemma_seq_live_wf_iff(a@);
        },
        _ => {},
    }
}

/// A live tree reflecting one declared tree reflects every structurally
/// equal declared tree: reconciling against an equal tree is the same as
/// reconciling against the tree itself, which emits nothing.
pub proof fn lemma_matches_tree_eq(l: LiveNode, a: VNode, b: VNode)
    requires
        l.matches(a),
        a.tree_eq(b),
    ensures
        l.matches(b),
    decreases a,
{
    match (l.kind, a, b) {
        (LiveKind::Element(x), VNode::Element(ea), VNode::Element(eb)) => {
            lemma_seq_matches_iff(x.children@, ea.children@);
            crate::vtree::lemma_seq_tree_eq_iff(ea.children@, eb.children@);
            assert forall|i: int|
                0 <= i < x.children@.len() implies #[trigger] x.children@[i].matches(
                eb.children@[i],
            ) by {
                lemma_matches_tree_eq(x.children@[i], ea.children@[i], eb.children@[i]);
            }
            lemma_seq_matches_iff(x.children@, eb.children@);
            assert forall|i: int| 0 <= i < x.attrs@.len() implies #[trigger] x.attrs@[i].eq_spec(
                eb.attrs@[i],
            ) by {
                assert(x.attrs@[i].eq_spec(ea.attrs@[i]));
                assert(ea.attrs@[i].eq_spec(eb.attrs@[i]));
            }
            assert forall|i: int| 0 <= i < x.listeners@.len() implies #[trigger] x.listeners@[i]@
                == eb.listeners@[i]@ by {
                assert(x.listeners@[i]@ == ea.listeners@[i]@);
                assert(ea.listeners@[i]@ == eb.listeners@[i]@);
            }
        },
        (LiveKind::List(x), VNode::List(ca), VNode::List(cb)) => {
            lemma_seq_matches_iff(x@, ca@);
            crate::vtree::lemma_seq_tree_eq_iff(ca@, cb@);
            assert forall|i: int| 0 <= i < x@.len() implies #[trigger] x@[i].matches(cb@[i]) by {
                lemma_matches_tree_eq(x@[i], ca@[i], cb@[i]);
            }
            lemma_seq_matches_iff(x@, cb@);
        },
        _ => {},
    }
}

/// Two live trees that both reflect one and the same declared tree have the
/// same structure, whatever their node identities.
pub proof fn lemma_matches_same_shape(a: LiveNode, b: LiveNode, v: VNode)
    requires
        a.matches(v),
        b.matches(v),
    ensures
        a.same_shape(b),
    decreases v,
{
    match (a.kind, b.kind, v) {
        (LiveKind::Element(x), LiveKind::Element(y), VNode::Element(e)) => {
            lemma_seq_matches_iff(x.children@, e.children@);
            lemma_seq_matches_iff(y.children@, e.children@);
            assert forall|i: int| 0 <= i < x.attrs@.len() implies #[trigger] x.attrs@[i].eq_spec(
                y.attrs@[i],
            ) by {
                assert(x.attrs@[i].eq_spec(e.attrs@[i]));
                assert(y.attrs@[i].eq_spec(e.attrs@[i]));
            }
            assert forall|i: int| 0 <= i < x.listeners@.len() implies #[trigger] x.listeners@[i]@
                == y.listeners@[i]@ by {
                assert(x.listeners@[i]@ == e.listeners@[i]@);
                assert(y.listeners@[i]@ == e.listeners@[i]@);
            }
            assert forall|i: int|
                0 <= i < x.children@.len() implies #[trigger] x.children@[i].same_shape(
                y.children@[i],
            ) by {
                lemma_matches_same_shape(x.children@[i], y.children@[i], e.children@[i]);
            }
            lemma_seq_same_shape_iff(x.children@, y.children@);
        },
        (LiveKind::List(x), LiveKind::List(y), VNode::List(cs)) => {
            lemma_seq_matches_iff(x@, cs@);
            lemma_seq_matches_iff(y@, cs@);
            assert forall|i: int| 0 <= i < x@.len() implies #[trigger] x@[i].same_shape(y@[i]) by {
                lemma_matches_same_shape(x@[i], y@[i], cs@[i]);
            }
            lemma_seq_same_shape_iff(x@, y@);
        },
        _ => {},
    }
}

/// A generator of fresh live-node identities.
pub struct IdGen {
    next: u64,
}

impl IdGen {
    /// The next identity that will be handed out.
    pub closed spec fn next_id(self) -> int {
        self.next as int
    }

    /// A generator whose first identity is `first`.
    pub fn new(first: u64) -> (r: IdGen)
        ensures
            r.next_id() == first as int,
    {
        IdGen { next: first }
    }

    /// How many identities are still available.
    pub fn remaining(&self) -> (r: u64)
        ensures
            r as int == u64::MAX - self.next_id(),
    {
        u64::MAX - self.next
    }

    /// Hand out one fresh identity.
    pub fn fresh(&mut self) -> (id: u64)
        requires
            old(self).next_id() < u64::MAX,
        ensures
            id as int == old(self).next_id(),
            final(self).next_id() == old(self).next_id() + 1,
    {
        let id = self.next;
        self.next = self.next + 1;
        id
    }
}

} // verus!
