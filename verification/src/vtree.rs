//! The declarative tree: an immutable-once-built description of what should
//! be on screen, produced by a component's `view` function.  A node is a
//! text node, an element (tag, attributes, listener kinds, optional identity
//! key, children), a list of nodes, or a placeholder for a nested component.

use vstd::prelude::*;

verus! {

broadcast use vstd::std_specs::vec::group_vec_axioms;

/// One attribute of an element: a name and the value it is set to.
pub struct Attr {
    pub name: String,
    pub value: String,
}

impl Attr {
    /// Two attributes are the same when name and value agree.
    pub open spec fn eq_spec(self, other: Attr) -> bool {
        self.name@ == other.name@ && self.value@ == other.value@
    }
}

/// An element node: a tag, attributes, declared listener kinds, an optional
/// identity key used for keyed child reconciliation, and child nodes.
pub struct VElement {
    pub tag: String,
    pub attrs: Vec<Attr>,
    pub listeners: Vec<String>,
    pub key: Option<u64>,
    pub children: Vec<VNode>,
}

/// A placeholder for a nested component: the component type it stands for
/// and the configuration to hand to that component.
pub struct VComponent {
    pub type_id: u64,
    pub props: String,
    pub key: Option<u64>,
}

/// A node of the declarative tree.
pub enum VNode {
    /// A text node.
    Text(String),
    /// An element node.
    Element(VElement),
    /// A list (fragment) of sibling nodes.
    List(Vec<VNode>),
    /// A nested component placeholder.
    Component(VComponent),
}

impl VNode {
    /// The number of nodes in this tree, counting this one.
    pub open spec fn size(self) -> nat
        decreases self,
    {
        match self {
            VNode::Text(_) => 1,
            VNode::Element(e) => 1 + VNode::seq_size(e.children@),
            VNode::List(cs) => 1 + VNode::seq_size(cs@),
            VNode::Component(_) => 1,
        }
    }

    /// The total number of nodes in a sequence of trees.
    pub open spec fn seq_size(s: Seq<VNode>) -> nat
        decreases s,
    {
        if s.len() == 0 {
            0
        } else {
            s[0].size() + VNode::seq_size(s.skip(1))
        }
    }

    /// The identity key a node carries, if any.
    pub open spec fn spec_key(self) -> Option<u64> {
        match self {
            VNode::Element(e) => e.key,
            VNode::Component(c) => c.key,
            _ => None,
        }
    }

    /// Structural equality of two declared trees.
    pub open spec fn tree_eq(self, other: VNode) -> bool
        decreases self, 0int,
    {
        match (self, other) {
            (VNode::Text(a), VNode::Text(b)) => a@ == b@,
            (VNode::Element(a), VNode::Element(b)) => {
                &&& a.tag@ == b.tag@
                &&& a.key == b.key
                &&& attrs_eq(a.attrs@, b.attrs@)
                &&& strs_eq(a.listeners@, b.listeners@)
                &&& VNode::seq_tree_eq(a.children@, b.children@)
            },
            (VNode::List(a), VNode::List(b)) => VNode::seq_tree_eq(a@, b@),
            (VNode::Component(a), VNode::Component(b)) => {
                a.type_id == b.type_id && a.props@ == b.props@ && a.key == b.key
            },
            _ => false,
        }
    }

    /// Position-by-position structural equality of two tree sequences.
    pub open spec fn seq_tree_eq(xs: Seq<VNode>, ys: Seq<VNode>) -> bool
        decreases xs, 1int,
    {
        xs.len() == ys.len() && (xs.len() == 0 || (xs[0].tree_eq(ys[0]) && VNode::seq_tree_eq(
            xs.skip(1),
            ys.skip(1),
        )))
    }
}

/// `seq_tree_eq` is position-by-position equality.
pub proof fn lemma_seq_tree_eq_iff(xs: Seq<VNode>, ys: Seq<VNode>)
    ensures
        VNode::seq_tree_eq(xs, ys) <==> (xs.len() == ys.len() && forall|i: int|
            0 <= i < xs.len() ==> #[trigger] xs[i].tree_eq(ys[i])),
    decreases xs,
{
    if xs.len() == ys.len() && xs.len() > 0 {
        lemma_seq_tree_eq_iff(xs.skip(1), ys.skip(1));
        if VNode::seq_tree_eq(xs, ys) {
            assert forall|i: int| 0 <= i < xs.len() implies #[trigger] xs[i].tree_eq(ys[i]) by {
                if i > 0 {
                    assert(xs.skip(1)[i - 1] == xs[i]);
                    assert(ys.skip(1)[i - 1] == ys[i]);
                    assert(xs.skip(1)[i - 1].tree_eq(ys.skip(1)[i - 1]));
                }
            }
        }
        if forall|i: int| 0 <= i < xs.len() ==> #[trigger] xs[i].tree_eq(ys[i]) {
            assert forall|i: int| 0 <= i < xs.skip(1).len() implies #[trigger] xs.skip(1)[i].tree_eq(
                ys.skip(1)[i],
            ) by {
                assert(xs.skip(1)[i] == xs[i + 1]);
                assert(ys.skip(1)[i] == ys[i + 1]);
                assert(xs[i + 1].tree_eq(ys[i + 1]));
            }
            assert(xs[0].tree_eq(ys[0]));
        }
    }
}

/// Pointwise equality of two attribute sequences.
pub open spec fn attrs_eq(a: Seq<Attr>, b: Seq<Attr>) -> bool {
    a.len() == b.len() && forall|i: int| 0 <= i < a.len() ==> #[trigger] a[i].eq_spec(b[i])
}

/// Pointwise equality of two sequences of strings.
pub open spec fn strs_eq(a: Seq<String>, b: Seq<String>) -> bool {
    a.len() == b.len() && forall|i: int| 0 <= i < a.len() ==> #[trigger] a[i]@ == b[i]@
}

/// No two attributes share a name.
pub open spec fn names_unique(s: Seq<Attr>) -> bool {
    forall|i: int, j: int| 0 <= i < j < s.len() ==> #[trigger] s[i].name@ != #[trigger] s[j].name@
}

/// No two listener kinds are the same.
pub open spec fn kinds_unique(s: Seq<String>) -> bool {
    forall|i: int, j: int| 0 <= i < j < s.len() ==> #[trigger] s[i]@ != #[trigger] s[j]@
}

/// Among keyed siblings no key occurs twice; a duplicate key is a setup
/// error.
pub open spec fn keys_unique(s: Seq<VNode>) -> bool {
    forall|i: int, j: int|
        0 <= i < j < s.len() && #[trigger] s[i].spec_key() is Some ==> s[i].spec_key()
            != #[trigger] s[j].spec_key()
}

impl VNode {
    /// A well-formed declared tree: sibling keys are unique, attribute names
    /// are unique, listener kinds are unique, recursively.
    pub open spec fn wf(self) -> bool
        decreases self, 0int,
    {
        match self {
            VNode::Text(_) => true,
            VNode::Element(e) => {
                &&& names_unique(e.attrs@)
                &&& kinds_unique(e.listeners@)
                &&& keys_unique(e.children@)
                &&& VNode::seq_wf(e.children@)
            },
            VNode::List(cs) => {
                &&& keys_unique(cs@)
                &&& VNode::seq_wf(cs@)
            },
            VNode::Component(_) => true,
        }
    }

    /// Every tree of a sequence is well-formed.
    pub open spec fn seq_wf(xs: Seq<VNode>) -> bool
        decreases xs, 1int,
    {
        xs.len() == 0 || (xs[0].wf() && VNode::seq_wf(xs.skip(1)))
    }
}

/// `seq_wf` is position-by-position well-formedness.
pub proof fn lemma_seq_wf_iff(xs: Seq<VNode>)
    ensures
        VNode::seq_wf(xs) <==> (forall|i: int| 0 <= i < xs.len() ==> #[trigger] xs[i].wf()),
    decreases xs,
{
    if xs.len() > 0 {
        lemma_seq_wf_iff(xs.skip(1));
        if VNode::seq_wf(xs) {
            assert forall|i: int| 0 <= i < xs.len() implies #[trigger] xs[i].wf() by {
                if i > 0 {
                    assert(xs.skip(1)[i - 1] == xs[i]);
                    assert(xs.skip(1)[i - 1].wf());
                }
            }
        }
        if forall|i: int| 0 <= i < xs.len() ==> #[trigger] xs[i].wf() {
            assert forall|i: int| 0 <= i < xs.skip(1).len() implies #[trigger] xs.skip(1)[i].wf() by {
                assert(xs.skip(1)[i] == xs[i + 1]);
                assert(xs[i + 1].wf());
            }
            assert(xs[0].wf());
        }
    }
}

/// Every tree contains at least its own node.
pub proof fn lemma_size_pos(v: VNode)
    ensures
        v.size() >= 1,
{
}

/// Appending one tree to a sequence grows the total size by that tree's
/// size.
pub proof fn lemma_seq_size_push(s: Seq<VNode>, x: VNode)
    ensures
        VNode::seq_size(s.push(x)) == VNode::seq_size(s) + x.size(),
    decreases s,
{
    if s.len() == 0 {
        assert(s.push(x).skip(1) =~= Seq::<VNode>::empty());
        assert(s.push(x)[0] == x);
        assert(VNode::seq_size(Seq::<VNode>::empty()) == 0);
    } else {
        assert(s.push(x).skip(1) =~= s.skip(1).push(x));
        assert(s.push(x)[0] == s[0]);
        lemma_seq_size_push(s.skip(1), x);
        assert(VNode::seq_size(s) == s[0].size() + VNode::seq_size(s.skip(1)));
    }
}

/// A prefix of a sequence, extended by the next tree, has the size of the
/// shorter prefix plus that tree's size.
pub proof fn lemma_seq_size_prefix_step(s: Seq<VNode>, j: int)
    requires
        0 <= j < s.len(),
    ensures
        VNode::seq_size(s.subrange(0, j + 1)) == VNode::seq_size(s.subrange(0, j)) + s[j].size(),
{
    assert(s.subrange(0, j + 1) =~= s.subrange(0, j).push(s[j]));
    lemma_seq_size_push(s.subrange(0, j), s[j]);
}

/// The size of a prefix never exceeds the size of the whole sequence.
pub proof fn lemma_seq_size_prefix_le(s: Seq<VNode>, j: int)
    requires
        0 <= j <= s.len(),
    ensures
        VNode::seq_size(s.subrange(0, j)) <= VNode::seq_size(s),
    decreases s.len() - j,
{
    if j == s.len() {
        assert(s.subrange(0, j) =~= s);
    } else {
        lemma_seq_size_prefix_step(s, j);
        lemma_size_pos(s[j]);
        lemma_seq_size_prefix_le(s, j + 1);
    }
}

/// Each element's size is bounded by the size of the whole sequence.
pub proof fn lemma_seq_size_elem(s: Seq<VNode>, j: int)
    requires
        0 <= j < s.len(),
    ensures
        s[j].size() <= VNode::seq_size(s),
    decreases j,
{
    if j == 0 {
    } else {
        lemma_seq_size_elem(s.skip(1), j - 1);
        assert(s.skip(1)[j - 1] == s[j]);
    }
}


/// The identity key of a declared node.
pub fn node_key(v: &VNode) -> (k: Option<u64>)
    ensures
        k == v.spec_key(),
{
    match v {
        VNode::Element(e) => e.key,
        VNode::Component(c) => c.key,
        _ => None,
    }
}

/// Add two counts, reporting exhaustion instead of wrapping.
fn add_checked(a: usize, b: usize) -> (r: Option<usize>)
    ensures
        r matches Some(n) ==> n == a + b,
        r is None ==> a + b > usize::MAX,
{
    if a <= usize::MAX - b {
        Some(a + b)
    } else {
        None
    }
}

/// Count the nodes of a declared tree; `None` when the count does not fit.
pub fn node_count(v: &VNode) -> (r: Option<usize>)
    ensures
        r matches Some(n) ==> n as nat == v.size(),
        r is None ==> v.size() > usize::MAX as nat,
    decreases v.size(), 0int,
{
    match v {
        VNode::Text(_) => Some(1),
        VNode::Element(e) => {
            match count_children(&e.children) {
                Some(n) => add_checked(n, 1),
                None => None,
            }
        },
        VNode::List(cs) => {
            match count_children(cs) {
                Some(n) => add_checked(n, 1),
                None => None,
            }
        },
        VNode::Component(_) => Some(1),
    }
}

/// Count the nodes of a sequence of declared trees.
fn count_children(cs: &Vec<VNode>) -> (r: Option<usize>)
    ensures
        r matches Some(n) ==> n as nat == VNode::seq_size(cs@),
        r is None ==> VNode::seq_size(cs@) > usize::MAX as nat,
    decreases VNode::seq_size(cs@), 1int,
{
    let mut acc: usize = 0;
    let mut i: usize = 0;
    while i < cs.len()
        invariant
            0 <= i <= cs@.len(),
            acc as nat == VNode::seq_size(cs@.take(i as int)),
        decreases cs@.len() - i,
    {
        proof {
            lemma_seq_size_prefix_step(cs@, i as int);
            lemma_seq_size_elem(cs@, i as int);
        }
        let c = match node_count(&cs[i]) {
            Some(c) => c,
            None => {
                proof {
                    lemma_seq_size_prefix_le(cs@, cs@.len() as int);
                    assert(cs@.take(cs@.len() as int) =~= cs@);
                }
                return None;
            },
        };
        acc = match add_checked(acc, c) {
            Some(a) => a,
            None => {
                proof {
                    lemma_seq_size_prefix_le(cs@, i as int + 1);
                }
                return None;
            },
        };
        i = i + 1;
    }
    proof {
        assert(cs@.take(cs@.len() as int) =~= cs@);
    }
    Some(acc)
}

/// Whether no two keyed children share a key.
fn check_keys_unique(cs: &Vec<VNode>) -> (r: bool)
    ensures
        r == keys_unique(cs@),
{
    let mut i: usize = 0;
    while i < cs.len()
        invariant
            0 <= i <= cs@.len(),
            forall|i2: int, j2: int|
                0 <= i2 < j2 < cs@.len() && i2 < i && #[trigger] cs@[i2].spec_key() is Some
                    ==> cs@[i2].spec_key() != #[trigger] cs@[j2].spec_key(),
        decreases cs@.len() - i,
    {
        if let Some(ki) = node_key(&cs[i]) {
            let mut j: usize = i + 1;
            while j < cs.len()
                invariant
                    0 <= i < j <= cs@.len(),
                    cs@[i as int].spec_key() == Some(ki),
                    forall|j2: int|
                        i < j2 < j ==> cs@[i as int].spec_key() != #[trigger] cs@[j2].spec_key(),
                decreases cs@.len() - j,
            {
                if let Some(kj) = node_key(&cs[j]) {
                    if ki == kj {
                        proof {
                            assert(cs@[i as int].spec_key() == cs@[j as int].spec_key());
                            assert(!keys_unique(cs@));
                        }
                        return false;
                    }
                }
                j = j + 1;
            }
        }
        i = i + 1;
    }
    true
}

/// Whether no two attributes share a name.
fn check_names_unique(attrs: &Vec<Attr>) -> (r: bool)
    ensures
        r == names_unique(attrs@),
{
    let mut i: usize = 0;
    while i < attrs.len()
        invariant
            0 <= i <= attrs@.len(),
            forall|i2: int, j2: int|
                0 <= i2 < j2 < attrs@.len() && i2 < i ==> #[trigger] attrs@[i2].name@
                    != #[trigger] attrs@[j2].name@,
        decreases attrs@.len() - i,
    {
        let mut j: usize = i + 1;
        while j < attrs.len()
            invariant
                0 <= i < j <= attrs@.len(),
                forall|j2: int|
                    i < j2 < j ==> attrs@[i as int].name@ != #[trigger] attrs@[j2].name@,
            decreases attrs@.len() - j,
        {
            if attrs[i].name == attrs[j].name {
                proof {
                    assert(attrs@[i as int].name@ == attrs@[j as int].name@);
                    assert(!names_unique(attrs@));
                }
                return false;
            }
            j = j + 1;
        }
        i = i + 1;
    }
    true
}

/// Whether no two listener kinds are the same.
fn check_kinds_unique(kinds: &Vec<String>) -> (r: bool)
    ensures
        r == kinds_unique(kinds@),
{
    let mut i: usize = 0;
    while i < kinds.len()
        invariant
            0 <= i <= kinds@.len(),
            forall|i2: int, j2: int|
                0 <= i2 < j2 < kinds@.len() && i2 < i ==> #[trigger] kinds@[i2]@
                    != #[trigger] kinds@[j2]@,
        decreases kinds@.len() - i,
    {
        let mut j: usize = i + 1;
        while j < kinds.len()
            invariant
                0 <= i < j <= kinds@.len(),
                forall|j2: int| i < j2 < j ==> kinds@[i as int]@ != #[trigger] kinds@[j2]@,
            decreases kinds@.len() - j,
        {
            if kinds[i] == kinds[j] {
                proof {
                    assert(kinds@[i as int]@ == kinds@[j as int]@);
                    assert(!kinds_unique(kinds@));
                }
                return false;
            }
            j = j + 1;
        }
        i = i + 1;
    }
    true
}

/// Whether a declared tree is well-formed: sibling keys unique, attribute
/// names unique, listener kinds unique, recursively.  A tree that fails this
/// check is rejected as a setup error.
pub fn check_wf(v: &VNode) -> (r: bool)
    ensures
        r == v.wf(),
    decreases v.size(), 0int,
{
    match v {
        VNode::Text(_) => true,
        VNode::Element(e) => {
            check_names_unique(&e.attrs) && check_kinds_unique(&e.listeners) && check_keys_unique(
                &e.children,
            ) && check_children_wf(&e.children)
        },
        VNode::List(cs) => check_keys_unique(cs) && check_children_wf(cs),
        VNode::Component(_) => true,
    }
}

/// Whether every tree of a sequence is well-formed.
fn check_children_wf(cs: &Vec<VNode>) -> (r: bool)
    ensures
        r == VNode::seq_wf(cs@),
    decreases VNode::seq_size(cs@), 1int,
{
    let mut i: usize = 0;
    while i < cs.len()
        invariant
            0 <= i <= cs@.len(),
            forall|i2: int| 0 <= i2 < i ==> (#[trigger] cs@[i2]).wf(),
        decreases cs@.len() - i,
    {
        proof {
            lemma_seq_size_elem(cs@, i as int);
        }
        if !check_wf(&cs[i]) {
            proof {
                lemma_seq_wf_iff(cs@);
            }
            return false;
        }
        i = i + 1;
    }
    proof {
        lemma_seq_wf_iff(cs@);
    }
    true
}

} // verus!
