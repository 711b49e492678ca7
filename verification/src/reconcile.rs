//! The tree reconciler: diffs a freshly declared tree against the live tree
//! that reflects the previous declaration and emits a minimal sequence of
//! patch operations, while producing the live tree that reflects the new
//! declaration.
//!
//! The diff is a single top-down pass: text is updated in place when it
//! changed; an element with the same tag is patched in place (attribute
//! diff, listener rebinding, child reconciliation); a changed tag replaces
//! the whole subtree; keyed children are matched by key so reordering reuses
//! live nodes instead of destroying and recreating them.

use vstd::prelude::*;
use crate::vtree::{Attr, VNode, node_key};
use crate::live::{IdGen, LiveComponent, LiveElement, LiveKind, LiveNode, lemma_live_find_key, lemma_seq_live_eq_iff, lemma_seq_live_wf_iff, lemma_seq_matches_iff, live_find_key, live_keys_unique};
use crate::patch::{Patch, PatchV, is_move, patches_view};

verus! {

broadcast use vstd::std_specs::vec::group_vec_axioms;

/// The value of the first attribute with the given name, if any.
pub open spec fn attr_lookup(s: Seq<Attr>, name: Seq<char>) -> Option<Seq<char>>
    decreases s,
{
    if s.len() == 0 {
        None
    } else if s[0].name@ == name {
        Some(s[0].value@)
    } else {
        attr_lookup(s.skip(1), name)
    }
}

/// A name is found exactly when some attribute carries it.
pub proof fn lemma_attr_lookup_exists(s: Seq<Attr>, name: Seq<char>)
    ensures
        attr_lookup(s, name) is Some <==> exists|i: int| 0 <= i < s.len() && #[trigger] s[i].name@
            == name,
    decreases s,
{
    if s.len() > 0 && s[0].name@ != name {
        lemma_attr_lookup_exists(s.skip(1), name);
        if attr_lookup(s, name) is Some {
            let i = choose|i: int| 0 <= i < s.skip(1).len() && #[trigger] s.skip(1)[i].name@
                == name;
            assert(s[i + 1].name@ == name);
        }
        if exists|i: int| 0 <= i < s.len() && #[trigger] s[i].name@ == name {
            let i = choose|i: int| 0 <= i < s.len() && #[trigger] s[i].name@ == name;
            assert(s.skip(1)[i - 1].name@ == name);
        }
    }
}

/// With unique names, looking up an attribute's own name gives its value.
pub proof fn lemma_attr_lookup_unique(s: Seq<Attr>, i: int)
    requires
        crate::vtree::names_unique(s),
        0 <= i < s.len(),
    ensures
        attr_lookup(s, s[i].name@) == Some(s[i].value@),
    decreases s,
{
    if i > 0 {
        assert forall|i2: int, j2: int|
            0 <= i2 < j2 < s.skip(1).len() implies #[trigger] s.skip(1)[i2].name@
            != #[trigger] s.skip(1)[j2].name@ by {
            assert(s.skip(1)[i2] == s[i2 + 1]);
            assert(s.skip(1)[j2] == s[j2 + 1]);
        }
        lemma_attr_lookup_unique(s.skip(1), i - 1);
        assert(s.skip(1)[i - 1] == s[i]);
    }
}

/// The removals an attribute diff emits: one `RemoveAttr` for each attribute
/// present before but absent now, in previous order.
pub open spec fn attr_remove_patches(id: u64, olds: Seq<Attr>, news: Seq<Attr>) -> Seq<PatchV>
    decreases olds,
{
    if olds.len() == 0 {
        Seq::empty()
    } else {
        attr_remove_patches(id, olds.drop_last(), news) + (
        if attr_lookup(news, olds.last().name@) is None {
            seq![PatchV::RemoveAttr { id, name: olds.last().name@ }]
        } else {
            Seq::empty()
        })
    }
}

/// The writes an attribute diff emits: one `SetAttr` for each attribute that
/// is new or whose value changed, in declared order.
pub open spec fn attr_set_patches(id: u64, olds: Seq<Attr>, news: Seq<Attr>) -> Seq<PatchV>
    decreases news,
{
    if news.len() == 0 {
        Seq::empty()
    } else {
        attr_set_patches(id, olds, news.drop_last()) + (
        if attr_lookup(olds, news.last().name@) == Some(news.last().value@) {
            Seq::empty()
        } else {
            seq![
                PatchV::SetAttr {
                    id,
                    name: news.last().name@,
                    value: news.last().value@,
                },
            ]
        })
    }
}

/// Everything an attribute diff emits: removals first, then writes.
pub open spec fn attr_patches(id: u64, olds: Seq<Attr>, news: Seq<Attr>) -> Seq<PatchV> {
    attr_remove_patches(id, olds, news) + attr_set_patches(id, olds, news)
}

/// Some listener of the given kind is declared.
pub open spec fn has_kind(s: Seq<String>, k: Seq<char>) -> bool {
    exists|i: int| 0 <= i < s.len() && #[trigger] s[i]@ == k
}

/// The unbindings a listener diff emits: one `Unbind` for each kind bound
/// before but no longer declared, in previous order.
pub open spec fn unbind_patches(id: u64, olds: Seq<String>, news: Seq<String>) -> Seq<PatchV>
    decreases olds,
{
    if olds.len() == 0 {
        Seq::empty()
    } else {
        unbind_patches(id, olds.drop_last(), news) + (
        if has_kind(news, olds.last()@) {
            Seq::empty()
        } else {
            seq![PatchV::Unbind { id, kind: olds.last()@ }]
        })
    }
}

/// The bindings a listener diff emits: one `Bind` for each newly declared
/// kind, in declared order.
pub open spec fn bind_patches(id: u64, olds: Seq<String>, news: Seq<String>) -> Seq<PatchV>
    decreases news,
{
    if news.len() == 0 {
        Seq::empty()
    } else {
        bind_patches(id, olds, news.drop_last()) + (
        if has_kind(olds, news.last()@) {
            Seq::empty()
        } else {
            seq![PatchV::Bind { id, kind: news.last()@ }]
        })
    }
}

/// Everything a listener diff emits: unbindings first, then bindings.
pub open spec fn listener_patches(id: u64, olds: Seq<String>, news: Seq<String>) -> Seq<PatchV> {
    unbind_patches(id, olds, news) + bind_patches(id, olds, news)
}

/// Equal attribute sequences with unique names diff to no patches at all.
pub proof fn lemma_attr_patches_empty(id: u64, olds: Seq<Attr>, news: Seq<Attr>)
    requires
        crate::vtree::attrs_eq(olds, news),
        crate::vtree::names_unique(news),
    ensures
        attr_patches(id, olds, news) =~= Seq::<PatchV>::empty(),
{
    lemma_attr_remove_patches_prefix_empty(id, olds, news, olds.len() as int);
    assert(olds.take(olds.len() as int) =~= olds);
    lemma_attr_set_patches_prefix_empty(id, olds, news, news.len() as int);
    assert(news.take(news.len() as int) =~= news);
}

proof fn lemma_attr_remove_patches_prefix_empty(id: u64, olds: Seq<Attr>, news: Seq<Attr>, n: int)
    requires
        crate::vtree::attrs_eq(olds, news),
        0 <= n <= olds.len(),
    ensures
        attr_remove_patches(id, olds.take(n), news) =~= Seq::<PatchV>::empty(),
    decreases n,
{
    if n > 0 {
        lemma_attr_remove_patches_prefix_empty(id, olds, news, n - 1);
        assert(olds.take(n).drop_last() =~= olds.take(n - 1));
        assert(olds.take(n).last() == olds[n - 1]);
        assert(olds[n - 1].eq_spec(news[n - 1]));
        lemma_attr_lookup_exists(news, olds[n - 1].name@);
        assert(news[n - 1].name@ == olds[n - 1].name@);
    }
}

proof fn lemma_attr_set_patches_prefix_empty(id: u64, olds: Seq<Attr>, news: Seq<Attr>, n: int)
    requires
        crate::vtree::attrs_eq(olds, news),
        crate::vtree::names_unique(news),
        0 <= n <= news.len(),
    ensures
        attr_set_patches(id, olds, news.take(n)) =~= Seq::<PatchV>::empty(),
    decreases n,
{
    if n > 0 {
        lemma_attr_set_patches_prefix_empty(id, olds, news, n - 1);
        assert(news.take(n).drop_last() =~= news.take(n - 1));
        assert(news.take(n).last() == news[n - 1]);
        assert forall|i2: int, j2: int|
            0 <= i2 < j2 < olds.len() implies #[trigger] olds[i2].name@
            != #[trigger] olds[j2].name@ by {
            assert(olds[i2].eq_spec(news[i2]));
            assert(olds[j2].eq_spec(news[j2]));
        }
        lemma_attr_lookup_unique(olds, n - 1);
        assert(olds[n - 1].eq_spec(news[n - 1]));
    }
}

/// Equal listener sequences diff to no patches at all.
pub proof fn lemma_listener_patches_empty(id: u64, olds: Seq<String>, news: Seq<String>)
    requires
        crate::vtree::strs_eq(olds, news),
    ensures
        listener_patches(id, olds, news) =~= Seq::<PatchV>::empty(),
{
    lemma_unbind_patches_prefix_empty(id, olds, news, olds.len() as int);
    assert(olds.take(olds.len() as int) =~= olds);
    lemma_bind_patches_prefix_empty(id, olds, news, news.len() as int);
    assert(news.take(news.len() as int) =~= news);
}

proof fn lemma_unbind_patches_prefix_empty(id: u64, olds: Seq<String>, news: Seq<String>, n: int)
    requires
        crate::vtree::strs_eq(olds, news),
        0 <= n <= olds.len(),
    ensures
        unbind_patches(id, olds.take(n), news) =~= Seq::<PatchV>::empty(),
    decreases n,
{
    if n > 0 {
        lemma_unbind_patches_prefix_empty(id, olds, news, n - 1);
        assert(olds.take(n).drop_last() =~= olds.take(n - 1));
        assert(olds.take(n).last() == olds[n - 1]);
        assert(news[n - 1]@ == olds[n - 1]@);
        assert(has_kind(news, olds[n - 1]@));
    }
}

proof fn lemma_bind_patches_prefix_empty(id: u64, olds: Seq<String>, news: Seq<String>, n: int)
    requires
        crate::vtree::strs_eq(olds, news),
        0 <= n <= news.len(),
    ensures
        bind_patches(id, olds, news.take(n)) =~= Seq::<PatchV>::empty(),
    decreases n,
{
    if n > 0 {
        lemma_bind_patches_prefix_empty(id, olds, news, n - 1);
        assert(news.take(n).drop_last() =~= news.take(n - 1));
        assert(news.take(n).last() == news[n - 1]);
        assert(olds[n - 1]@ == news[n - 1]@);
        assert(has_kind(olds, news[n - 1]@));
    }
}

/// Look an attribute up by name, as the platform would.
fn attr_lookup_exec<'a>(attrs: &'a Vec<Attr>, name: &String) -> (r: Option<&'a String>)
    ensures
        match r {
            Some(v) => attr_lookup(attrs@, name@) == Some(v@),
            None => attr_lookup(attrs@, name@) is None,
        },
{
    proof {
        assert(attrs@.skip(0) =~= attrs@);
    }
    let mut i: usize = 0;
    while i < attrs.len()
        invariant
            0 <= i <= attrs@.len(),
            attr_lookup(attrs@, name@) == attr_lookup(attrs@.skip(i as int), name@),
        decreases attrs@.len() - i,
    {
        if attrs[i].name == *name {
            proof {
                assert(attrs@.skip(i as int)[0] == attrs@[i as int]);
            }
            return Some(&attrs[i].value);
        }
        proof {
            assert(attrs@.skip(i as int)[0] == attrs@[i as int]);
            assert(attrs@.skip(i as int).skip(1) =~= attrs@.skip(i as int + 1));
        }
        i = i + 1;
    }
    proof {
        assert(attrs@.skip(i as int).len() == 0);
    }
    None
}

/// Whether a listener kind occurs in a declared list.
fn has_kind_exec(kinds: &Vec<String>, k: &String) -> (r: bool)
    ensures
        r == has_kind(kinds@, k@),
{
    let mut i: usize = 0;
    while i < kinds.len()
        invariant
            0 <= i <= kinds@.len(),
            forall|j: int| 0 <= j < i ==> #[trigger] kinds@[j]@ != k@,
        decreases kinds@.len() - i,
    {
        if kinds[i] == *k {
            return true;
        }
        i = i + 1;
    }
    false
}

/// Diff the attributes of an element patched in place: remove attributes
/// present before but absent now, then set changed or added attributes; no
/// unrelated attribute is touched.
pub fn diff_attrs(id: u64, olds: &Vec<Attr>, news: &Vec<Attr>, out: &mut Vec<Patch>)
    ensures
        patches_view(final(out)@) =~= patches_view(old(out)@) + attr_patches(id, olds@, news@),
        extends(final(out)@, old(out)@),
{
    let mut i: usize = 0;
    while i < olds.len()
        invariant
            0 <= i <= olds@.len(),
            patches_view(out@) =~= patches_view(old(out)@) + attr_remove_patches(
                id,
                olds@.take(i as int),
                news@,
            ),
            extends(out@, old(out)@),
        decreases olds@.len() - i,
    {
        let ghost prev = out@;
        proof {
            assert(olds@.take(i as int + 1).drop_last() =~= olds@.take(i as int));
            assert(olds@.take(i as int + 1).last() == olds@[i as int]);
        }
        if attr_lookup_exec(news, &olds[i].name).is_none() {
            out.push(
                Patch::RemoveAttr { id, name: olds[i].name.clone() },
            );
            proof {
                assert(patches_view(out@) =~= patches_view(prev).push(out@.last()@));
            }
        }
        proof {
            assert(patches_view(out@) =~= patches_view(old(out)@) + attr_remove_patches(
                id,
                olds@.take(i as int + 1),
                news@,
            ));
        }
        i = i + 1;
    }
    proof {
        assert(olds@.take(olds@.len() as int) =~= olds@);
    }
    let mut j: usize = 0;
    while j < news.len()
        invariant
            0 <= j <= news@.len(),
            patches_view(out@) =~= patches_view(old(out)@) + attr_remove_patches(id, olds@, news@)
                + attr_set_patches(id, olds@, news@.take(j as int)),
            extends(out@, old(out)@),
        decreases news@.len() - j,
    {
        let ghost prev = out@;
        proof {
            assert(news@.take(j as int + 1).drop_last() =~= news@.take(j as int));
            assert(news@.take(j as int + 1).last() == news@[j as int]);
        }
        let needed = match attr_lookup_exec(olds, &news[j].name) {
            Some(v) => !(*v == news[j].value),
            None => true,
        };
        if needed {
            out.push(
                Patch::SetAttr { id, name: news[j].name.clone(), value: news[j].value.clone() },
            );
            proof {
                assert(patches_view(out@) =~= patches_view(prev).push(out@.last()@));
            }
        }
        proof {
            assert(patches_view(out@) =~= patches_view(old(out)@) + attr_remove_patches(
                id,
                olds@,
                news@,
            ) + attr_set_patches(id, olds@, news@.take(j as int + 1)));
        }
        j = j + 1;
    }
    proof {
        assert(news@.take(news@.len() as int) =~= news@);
    }
}

/// Diff the listeners of an element patched in place: unbind kinds no longer
/// declared, then bind newly declared kinds; kinds declared before and after
/// are left bound.
pub fn diff_listeners(id: u64, olds: &Vec<String>, news: &Vec<String>, out: &mut Vec<Patch>)
    ensures
        patches_view(final(out)@) =~= patches_view(old(out)@) + listener_patches(id, olds@, news@),
        extends(final(out)@, old(out)@),
{
    let mut i: usize = 0;
    while i < olds.len()
        invariant
            0 <= i <= olds@.len(),
            patches_view(out@) =~= patches_view(old(out)@) + unbind_patches(
                id,
                olds@.take(i as int),
                news@,
            ),
            extends(out@, old(out)@),
        decreases olds@.len() - i,
    {
        let ghost prev = out@;
        proof {
            assert(olds@.take(i as int + 1).drop_last() =~= olds@.take(i as int));
            assert(olds@.take(i as int + 1).last() == olds@[i as int]);
        }
        if !has_kind_exec(news, &olds[i]) {
            out.push(Patch::Unbind { id, kind: olds[i].clone() });
            proof {
                assert(patches_view(out@) =~= patches_view(prev).push(out@.last()@));
            }
        }
        proof {
            assert(patches_view(out@) =~= patches_view(old(out)@) + unbind_patches(
                id,
                olds@.take(i as int + 1),
                news@,
            ));
        }
        i = i + 1;
    }
    proof {
        assert(olds@.take(olds@.len() as int) =~= olds@);
    }
    let mut j: usize = 0;
    while j < news.len()
        invariant
            0 <= j <= news@.len(),
            patches_view(out@) =~= patches_view(old(out)@) + unbind_patches(id, olds@, news@)
                + bind_patches(id, olds@, news@.take(j as int)),
            extends(out@, old(out)@),
        decreases news@.len() - j,
    {
        let ghost prev = out@;
        proof {
            assert(news@.take(j as int + 1).drop_last() =~= news@.take(j as int));
            assert(news@.take(j as int + 1).last() == news@[j as int]);
        }
        if !has_kind_exec(olds, &news[j]) {
            out.push(Patch::Bind { id, kind: news[j].clone() });
            proof {
                assert(patches_view(out@) =~= patches_view(prev).push(out@.last()@));
            }
        }
        proof {
            assert(patches_view(out@) =~= patches_view(old(out)@) + unbind_patches(
                id,
                olds@,
                news@,
            ) + bind_patches(id, olds@, news@.take(j as int + 1)));
        }
        j = j + 1;
    }
    proof {
        assert(news@.take(news@.len() as int) =~= news@);
    }
}


/// The declared node can be patched onto the live node in place, keeping its
/// identity: text onto text, an element onto an element with the same tag, a
/// list onto a list, a component onto a component of the same type.
pub open spec fn in_place(l: LiveNode, v: VNode) -> bool {
    match (l.kind, v) {
        (LiveKind::Text(_), VNode::Text(_)) => true,
        (LiveKind::Element(a), VNode::Element(b)) => a.tag@ == b.tag@,
        (LiveKind::List(_), VNode::List(_)) => true,
        (LiveKind::Component(a), VNode::Component(b)) => a.type_id == b.type_id,
        _ => false,
    }
}

/// The patch log only grew: what was emitted before is still there, in
/// place.
pub open spec fn extends(post: Seq<Patch>, pre: Seq<Patch>) -> bool {
    post.len() >= pre.len() && forall|i: int| 0 <= i < pre.len() ==> post[i] == #[trigger] pre[i]
}

/// Some declared child before position `j` carries the same key as the live
/// child at `i`.
pub open spec fn key_matched_before(lives: Seq<LiveNode>, news: Seq<VNode>, i: int, j: int) -> bool {
    exists|j2: int| 0 <= j2 < j && #[trigger] news[j2].spec_key() == lives[i].spec_key()
}

/// The declared children are a keyed permutation of the live children: every
/// child on both sides is keyed, and each declared child is structurally
/// equal to the live child carrying its key.
pub open spec fn keyed_perm(lives: Seq<LiveNode>, news: Seq<VNode>) -> bool {
    &&& lives.len() == news.len()
    &&& forall|j: int| 0 <= j < news.len() ==> (#[trigger] news[j].spec_key()) is Some
    &&& forall|j: int|
        0 <= j < news.len() ==> match live_find_key(lives, news[j].spec_key()->0) {
            Some(i) => lives[i].matches(#[trigger] news[j]),
            None => false,
        }
    &&& forall|i: int|
        0 <= i < lives.len() ==> key_matched_before(lives, news, i, news.len() as int)
}

/// The identity key of a live node.
fn live_key(l: &LiveNode) -> (k: Option<u64>)
    ensures
        k == l.spec_key(),
{
    match &l.kind {
        LiveKind::Element(e) => e.key,
        LiveKind::Component(c) => c.key,
        _ => None,
    }
}

/// The first not-yet-matched live child carrying the given key, if any.
fn find_unused_key(lives: &Vec<LiveNode>, used: &Vec<bool>, k: u64) -> (r: Option<usize>)
    requires
        used@.len() == lives@.len(),
    ensures
        match r {
            Some(i) => {
                &&& i < lives@.len()
                &&& !used@[i as int]
                &&& lives@[i as int].spec_key() == Some(k)
                &&& forall|i2: int|
                    0 <= i2 < i ==> used@[i2] || #[trigger] lives@[i2].spec_key() != Some(k)
            },
            None => forall|i2: int|
                0 <= i2 < lives@.len() ==> used@[i2] || #[trigger] lives@[i2].spec_key() != Some(
                    k,
                ),
        },
{
    let mut i: usize = 0;
    while i < lives.len()
        invariant
            0 <= i <= lives@.len(),
            used@.len() == lives@.len(),
            forall|i2: int| 0 <= i2 < i ==> used@[i2] || #[trigger] lives@[i2].spec_key() != Some(
                k,
            ),
        decreases lives@.len() - i,
    {
        if !used[i] {
            if let Some(lk) = live_key(&lives[i]) {
                if lk == k {
                    return Some(i);
                }
            }
        }
        i = i + 1;
    }
    None
}

/// Copy a declared attribute list into a live node.
fn clone_attrs(v: &Vec<Attr>) -> (r: Vec<Attr>)
    ensures
        crate::vtree::attrs_eq(r@, v@),
{
    let mut r: Vec<Attr> = Vec::new();
    let mut i: usize = 0;
    while i < v.len()
        invariant
            0 <= i <= v@.len(),
            r@.len() == i,
            forall|i2: int| 0 <= i2 < i ==> #[trigger] r@[i2].eq_spec(v@[i2]),
        decreases v@.len() - i,
    {
        r.push(Attr { name: v[i].name.clone(), value: v[i].value.clone() });
        i = i + 1;
    }
    r
}

/// Copy a declared listener-kind list into a live node.
fn clone_strs(v: &Vec<String>) -> (r: Vec<String>)
    ensures
        crate::vtree::strs_eq(r@, v@),
{
    let mut r: Vec<String> = Vec::new();
    let mut i: usize = 0;
    while i < v.len()
        invariant
            0 <= i <= v@.len(),
            r@.len() == i,
            forall|i2: int| 0 <= i2 < i ==> #[trigger] r@[i2]@ == v@[i2]@,
        decreases v@.len() - i,
    {
        r.push(v[i].clone());
        i = i + 1;
    }
    r
}

/// The attribute writes building a fresh element emits, in declared order.
pub open spec fn attr_create_patches(id: u64, attrs: Seq<Attr>) -> Seq<PatchV>
    decreases attrs,
{
    if attrs.len() == 0 {
        Seq::empty()
    } else {
        attr_create_patches(id, attrs.drop_last()) + seq![
            PatchV::SetAttr {
                id,
                name: attrs.last().name@,
                value: attrs.last().value@,
            },
        ]
    }
}

/// The bindings building a fresh element emits, in declared order.
pub open spec fn bind_create_patches(id: u64, kinds: Seq<String>) -> Seq<PatchV>
    decreases kinds,
{
    if kinds.len() == 0 {
        Seq::empty()
    } else {
        bind_create_patches(id, kinds.drop_last()) + seq![
            PatchV::Bind { id, kind: kinds.last()@ },
        ]
    }
}

/// Everything building a fresh live subtree emits, with identities assigned
/// in a preorder walk starting at `id`: create the node, set its attributes,
/// bind its listeners, then build each child and attach it at its position.
pub open spec fn create_patches(v: VNode, id: int) -> Seq<PatchV>
    decreases v, 0int,
{
    match v {
        VNode::Text(t) => seq![PatchV::CreateText { id: id as u64, text: t@ }],
        VNode::Element(e) => seq![PatchV::CreateElement { id: id as u64, tag: e.tag@ }]
            + attr_create_patches(id as u64, e.attrs@) + bind_create_patches(
            id as u64,
            e.listeners@,
        ) + children_create_patches(e.children@, id as u64, id + 1, 0),
        VNode::List(cs) => seq![PatchV::CreateList { id: id as u64 }] + children_create_patches(
            cs@,
            id as u64,
            id + 1,
            0,
        ),
        VNode::Component(c) => seq![
            PatchV::MountComponent { id: id as u64, type_id: c.type_id, props: c.props@ },
        ],
    }
}

/// What building a list of fresh children emits: each child's subtree, then
/// its attachment, in order, with identities running on in preorder.
pub open spec fn children_create_patches(cs: Seq<VNode>, parent: u64, next: int, pos: int) -> Seq<
    PatchV,
>
    decreases cs, 1int,
{
    if cs.len() == 0 {
        Seq::empty()
    } else {
        create_patches(cs[0], next) + seq![
            PatchV::AttachChild { parent, index: pos, child: next as u64 },
        ] + children_create_patches(cs.skip(1), parent, next + cs[0].size(), pos + 1)
    }
}

/// Appending one more child extends the emitted sequence by that child's
/// subtree and its attachment.
pub proof fn lemma_children_create_push(cs: Seq<VNode>, x: VNode, parent: u64, next: int, pos: int)
    ensures
        children_create_patches(cs.push(x), parent, next, pos) =~= children_create_patches(
            cs,
            parent,
            next,
            pos,
        ) + create_patches(x, next + VNode::seq_size(cs)) + seq![
            PatchV::AttachChild {
                parent,
                index: pos + cs.len(),
                child: (next + VNode::seq_size(cs)) as u64,
            },
        ],
    decreases cs,
{
    if cs.len() == 0 {
        assert(cs.push(x)[0] == x);
        assert(cs.push(x).skip(1) =~= Seq::<VNode>::empty());
        assert(VNode::seq_size(cs) == 0);
        assert(children_create_patches(cs, parent, next, pos) =~= Seq::<PatchV>::empty());
        assert(children_create_patches(
            cs.push(x).skip(1),
            parent,
            next + cs.push(x)[0].size(),
            pos + 1,
        ) =~= Seq::<PatchV>::empty());
        assert(children_create_patches(cs.push(x), parent, next, pos) =~= create_patches(x, next)
            + seq![PatchV::AttachChild { parent, index: pos, child: next as u64 }]);
    } else {
        assert(cs.push(x)[0] == cs[0]);
        assert(cs.push(x).skip(1) =~= cs.skip(1).push(x));
        lemma_children_create_push(cs.skip(1), x, parent, next + cs[0].size(), pos + 1);
        assert(VNode::seq_size(cs) == cs[0].size() + VNode::seq_size(cs.skip(1)));
        assert(children_create_patches(cs.push(x), parent, next, pos) =~= create_patches(cs[0], next)
            + seq![PatchV::AttachChild { parent, index: pos, child: next as u64 }]
            + children_create_patches(cs.skip(1).push(x), parent, next + cs[0].size(), pos + 1));
        assert(children_create_patches(cs.skip(1).push(x), parent, next + cs[0].size(), pos + 1)
            =~= children_create_patches(cs.skip(1), parent, next + cs[0].size(), pos + 1)
            + create_patches(x, next + VNode::seq_size(cs)) + seq![
            PatchV::AttachChild {
                parent,
                index: pos + cs.len(),
                child: (next + VNode::seq_size(cs)) as u64,
            },
        ]);
        assert(children_create_patches(cs, parent, next, pos) =~= create_patches(cs[0], next)
            + seq![PatchV::AttachChild { parent, index: pos, child: next as u64 }]
            + children_create_patches(cs.skip(1), parent, next + cs[0].size(), pos + 1));
    }
}

/// Growth of the patch log is transitive.
pub proof fn lemma_extends_trans(c: Seq<Patch>, b: Seq<Patch>, a: Seq<Patch>)
    requires
        extends(c, b),
        extends(b, a),
    ensures
        extends(c, a),
{
    assert forall|i: int| 0 <= i < a.len() implies c[i] == #[trigger] a[i] by {
        assert(b[i] == a[i]);
        assert(c[i] == b[i]);
    }
}

/// Build a fresh live subtree for a declared tree that has nothing to diff
/// against: create each node, set its attributes, bind its listeners, mount
/// its component placeholders, and attach children in order.
pub fn create_node(new: &VNode, ids: &mut IdGen, out: &mut Vec<Patch>) -> (res: LiveNode)
    requires
        new.wf(),
        old(ids).next_id() + new.size() <= u64::MAX,
    ensures
        res.matches(*new),
        res.id as int == old(ids).next_id(),
        final(ids).next_id() == old(ids).next_id() + new.size(),
        extends(final(out)@, old(out)@),
        patches_view(final(out)@) =~= patches_view(old(out)@) + create_patches(
            *new,
            old(ids).next_id(),
        ),
    decreases new.size(), 0int,
{
    proof {
        crate::vtree::lemma_size_pos(*new);
    }
    match new {
        VNode::Text(t) => {
            let id = ids.fresh();
            out.push(Patch::CreateText { id, text: t.clone() });
            proof {
                assert forall|i: int| 0 <= i < old(out)@.len() implies out@[i] == #[trigger] old(
                    out,
                )@[i] by {}
                assert(patches_view(out@) =~= patches_view(old(out)@).push(out@.last()@));
            }
            LiveNode { id, kind: LiveKind::Text(t.clone()) }
        },
        VNode::Element(e) => {
            let id = ids.fresh();
            out.push(Patch::CreateElement { id, tag: e.tag.clone() });
            let ghost base = out@;
            proof {
                assert forall|i: int| 0 <= i < old(out)@.len() implies out@[i] == #[trigger] old(
                    out,
                )@[i] by {}
                assert(patches_view(base) =~= patches_view(old(out)@).push(base.last()@));
            }
            let mut i: usize = 0;
            while i < e.attrs.len()
                invariant
                    0 <= i <= e.attrs@.len(),
                    extends(out@, base),
                    patches_view(out@) =~= patches_view(base) + attr_create_patches(
                        id,
                        e.attrs@.take(i as int),
                    ),
                decreases e.attrs@.len() - i,
            {
                let ghost prev = out@;
                proof {
                    assert(e.attrs@.take(i as int + 1).drop_last() =~= e.attrs@.take(i as int));
                    assert(e.attrs@.take(i as int + 1).last() == e.attrs@[i as int]);
                }
                out.push(
                    Patch::SetAttr {
                        id,
                        name: e.attrs[i].name.clone(),
                        value: e.attrs[i].value.clone(),
                    },
                );
                proof {
                    assert(patches_view(out@) =~= patches_view(prev).push(out@.last()@));
                }
                i = i + 1;
            }
            proof {
                assert(e.attrs@.take(e.attrs@.len() as int) =~= e.attrs@);
            }
            let ghost based = out@;
            let mut i: usize = 0;
            while i < e.listeners.len()
                invariant
                    0 <= i <= e.listeners@.len(),
                    extends(out@, based),
                    patches_view(out@) =~= patches_view(based) + bind_create_patches(
                        id,
                        e.listeners@.take(i as int),
                    ),
                decreases e.listeners@.len() - i,
            {
                let ghost prev = out@;
                proof {
                    assert(e.listeners@.take(i as int + 1).drop_last() =~= e.listeners@.take(
                        i as int,
                    ));
                    assert(e.listeners@.take(i as int + 1).last() == e.listeners@[i as int]);
                }
                out.push(Patch::Bind { id, kind: e.listeners[i].clone() });
                proof {
                    assert(patches_view(out@) =~= patches_view(prev).push(out@.last()@));
                }
                i = i + 1;
            }
            proof {
                assert(e.listeners@.take(e.listeners@.len() as int) =~= e.listeners@);
            }
            let ghost mid = out@;
            let children = create_children(id, &e.children, ids, out);
            proof {
                lemma_extends_trans(out@, mid, base);
                lemma_extends_trans(out@, base, old(out)@);
                assert(patches_view(out@) =~= patches_view(old(out)@) + create_patches(
                    *new,
                    old(ids).next_id(),
                ));
            }
            LiveNode {
                id,
                kind: LiveKind::Element(
                    LiveElement {
                        tag: e.tag.clone(),
                        attrs: clone_attrs(&e.attrs),
                        listeners: clone_strs(&e.listeners),
                        key: e.key,
                        children,
                    },
                ),
            }
        },
        VNode::List(cs) => {
            let id = ids.fresh();
            out.push(Patch::CreateList { id });
            proof {
                assert forall|i: int| 0 <= i < old(out)@.len() implies out@[i] == #[trigger] old(
                    out,
                )@[i] by {}
            }
            let ghost mid = out@;
            proof {
                assert(patches_view(mid) =~= patches_view(old(out)@).push(mid.last()@));
            }
            let children = create_children(id, cs, ids, out);
            proof {
                lemma_extends_trans(out@, mid, old(out)@);
                assert(patches_view(out@) =~= patches_view(old(out)@) + create_patches(
                    *new,
                    old(ids).next_id(),
                ));
            }
            LiveNode { id, kind: LiveKind::List(children) }
        },
        VNode::Component(c) => {
            let id = ids.fresh();
            out.push(Patch::MountComponent { id, type_id: c.type_id, props: c.props.clone() });
            proof {
                assert forall|i: int| 0 <= i < old(out)@.len() implies out@[i] == #[trigger] old(
                    out,
                )@[i] by {}
                assert(patches_view(out@) =~= patches_view(old(out)@).push(out@.last()@));
            }
            LiveNode {
                id,
                kind: LiveKind::Component(
                    LiveComponent { type_id: c.type_id, props: c.props.clone(), key: c.key },
                ),
            }
        },
    }
}

/// Build fresh live children for a declared child list, attaching each at
/// its position.
fn create_children(parent: u64, news: &Vec<VNode>, ids: &mut IdGen, out: &mut Vec<Patch>) -> (res:
    Vec<LiveNode>)
    requires
        VNode::seq_wf(news@),
        old(ids).next_id() + VNode::seq_size(news@) <= u64::MAX,
    ensures
        LiveNode::seq_matches(res@, news@),
        final(ids).next_id() == old(ids).next_id() + VNode::seq_size(news@),
        extends(final(out)@, old(out)@),
        patches_view(final(out)@) =~= patches_view(old(out)@) + children_create_patches(
            news@,
            parent,
            old(ids).next_id(),
            0,
        ),
    decreases VNode::seq_size(news@), 1int,
{
    proof {
        crate::vtree::lemma_seq_wf_iff(news@);
    }
    let mut res: Vec<LiveNode> = Vec::new();
    let mut j: usize = 0;
    while j < news.len()
        invariant
            0 <= j <= news@.len(),
            VNode::seq_wf(news@),
            res@.len() == j,
            forall|j2: int| 0 <= j2 < j ==> #[trigger] res@[j2].matches(news@[j2]),
            ids.next_id() == old(ids).next_id() + VNode::seq_size(news@.take(j as int)),
            old(ids).next_id() + VNode::seq_size(news@) <= u64::MAX,
            extends(out@, old(out)@),
            patches_view(out@) =~= patches_view(old(out)@) + children_create_patches(
                news@.take(j as int),
                parent,
                old(ids).next_id(),
                0,
            ),
        decreases news@.len() - j,
    {
        proof {
            crate::vtree::lemma_seq_wf_iff(news@);
            crate::vtree::lemma_seq_size_prefix_step(news@, j as int);
            crate::vtree::lemma_seq_size_prefix_le(news@, j as int + 1);
            crate::vtree::lemma_seq_size_elem(news@, j as int);
        }
        let child = create_node(&news[j], ids, out);
        let ghost prev = out@;
        out.push(Patch::AttachChild { parent, index: j, child: child.id });
        res.push(child);
        proof {
            assert(patches_view(out@) =~= patches_view(prev).push(out@.last()@));
            assert(news@.take(j as int + 1) =~= news@.take(j as int).push(news@[j as int]));
            lemma_children_create_push(
                news@.take(j as int),
                news@[j as int],
                parent,
                old(ids).next_id(),
                0,
            );
        }
        j = j + 1;
    }
    proof {
        assert(news@.take(news@.len() as int) =~= news@);
        lemma_seq_matches_iff(res@, news@);
    }
    res
}


/// Tear the old subtree out and put a freshly built one in its place.  If
/// the old subtree's root was a mounted component, its scope is destroyed.
fn replace_node(parent: u64, old_live: &LiveNode, new: &VNode, ids: &mut IdGen, out: &mut Vec<
    Patch,
>) -> (res: LiveNode)
    requires
        new.wf(),
        old(ids).next_id() + new.size() <= u64::MAX,
    ensures
        res.matches(*new),
        res.id as int == old(ids).next_id(),
        final(ids).next_id() == old(ids).next_id() + new.size(),
        extends(final(out)@, old(out)@),
        patches_view(final(out)@) =~= patches_view(old(out)@) + create_patches(
            *new,
            old(ids).next_id(),
        ) + seq![
            PatchV::ReplaceChild { parent, old_child: old_live.id, new_child: res.id },
        ] + (if old_live.kind is Component {
            seq![PatchV::DestroyComponent { id: old_live.id }]
        } else {
            Seq::<PatchV>::empty()
        }),
{
    let fresh_live = create_node(new, ids, out);
    let ghost mid = out@;
    out.push(
        Patch::ReplaceChild { parent, old_child: old_live.id, new_child: fresh_live.id },
    );
    let is_comp = match &old_live.kind {
        LiveKind::Component(_) => true,
        _ => false,
    };
    if is_comp {
        out.push(Patch::DestroyComponent { id: old_live.id });
    }
    proof {
        assert forall|i: int| 0 <= i < mid.len() implies out@[i] == #[trigger] mid[i] by {}
        lemma_extends_trans(out@, mid, old(out)@);
    }
    fresh_live
}

/// Reconcile one declared node against the live node standing where it will
/// stand: patch text, attributes, listeners and children in place when the
/// node kind allows it, and replace the subtree otherwise.  Reconciling a
/// declared tree that the live node already reflects emits nothing and
/// returns the live tree unchanged.
pub fn reconcile(
    parent: u64,
    live: &LiveNode,
    new: &VNode,
    ids: &mut IdGen,
    out: &mut Vec<Patch>,
) -> (res: LiveNode)
    requires
        new.wf(),
        live.live_wf(),
        old(ids).next_id() + new.size() <= u64::MAX,
    ensures
        res.matches(*new),
        final(ids).next_id() >= old(ids).next_id(),
        final(ids).next_id() <= old(ids).next_id() + new.size(),
        extends(final(out)@, old(out)@),
        live.matches(*new) ==> final(out)@ == old(out)@ && res.live_eq(*live)
            && final(ids).next_id() == old(ids).next_id(),
        in_place(*live, *new) ==> res.id == live.id,
    decreases new.size(), 2int,
{
    match (&live.kind, new) {
        (LiveKind::Text(a), VNode::Text(b)) => {
            if !(*a == *b) {
                out.push(Patch::SetText { id: live.id, text: b.clone() });
                proof {
                    assert forall|i: int| 0 <= i < old(out)@.len() implies out@[i] == #[trigger] old(
                        out,
                    )@[i] by {}
                }
            }
            LiveNode { id: live.id, kind: LiveKind::Text(b.clone()) }
        },
        (LiveKind::Element(a), VNode::Element(b)) => {
            if a.tag == b.tag {
                proof {
                    assert(new.size() == 1 + VNode::seq_size(b.children@));
                    if live.matches(*new) {
                        lemma_attr_patches_empty(live.id, a.attrs@, b.attrs@);
                        lemma_listener_patches_empty(live.id, a.listeners@, b.listeners@);
                    }
                }
                let ghost out0 = out@;
                diff_attrs(live.id, &a.attrs, &b.attrs, out);
                let ghost out1 = out@;
                diff_listeners(live.id, &a.listeners, &b.listeners, out);
                let ghost out2 = out@;
                let children = reconcile_children(live.id, &a.children, &b.children, ids, out);
                proof {
                    lemma_extends_trans(out2, out1, out0);
                    lemma_extends_trans(out@, out2, out0);
                    if live.matches(*new) {
                        assert(patches_view(out1) =~= patches_view(out0));
                        assert(out1.len() == out0.len());
                        assert(out1 =~= out0);
                        assert(patches_view(out2) =~= patches_view(out1));
                        assert(out2 =~= out1);
                    }
                }
                let res = LiveNode {
                    id: live.id,
                    kind: LiveKind::Element(
                        LiveElement {
                            tag: b.tag.clone(),
                            attrs: clone_attrs(&b.attrs),
                            listeners: clone_strs(&b.listeners),
                            key: b.key,
                            children,
                        },
                    ),
                };
                proof {
                    if live.matches(*new) {
                        let rk = res.kind->Element_0;
                        assert forall|i: int| 0 <= i < rk.attrs@.len() implies #[trigger] rk.attrs@[i].eq_spec(
                            a.attrs@[i],
                        ) by {
                            assert(rk.attrs@[i].eq_spec(b.attrs@[i]));
                            assert(a.attrs@[i].eq_spec(b.attrs@[i]));
                        }
                        assert forall|i: int| 0 <= i < rk.listeners@.len() implies #[trigger] rk.listeners@[i]@
                            == a.listeners@[i]@ by {
                            assert(rk.listeners@[i]@ == b.listeners@[i]@);
                            assert(a.listeners@[i]@ == b.listeners@[i]@);
                        }
                        assert(crate::vtree::attrs_eq(rk.attrs@, a.attrs@));
                        assert(crate::vtree::strs_eq(rk.listeners@, a.listeners@));
                    }
                }
                res
            } else {
                replace_node(parent, live, new, ids, out)
            }
        },
        (LiveKind::List(a), VNode::List(b)) => {
            proof {
                assert(new.size() == 1 + VNode::seq_size(b@));
            }
            let children = reconcile_children(live.id, a, b, ids, out);
            LiveNode { id: live.id, kind: LiveKind::List(children) }
        },
        (LiveKind::Component(a), VNode::Component(b)) => {
            if a.type_id == b.type_id {
                if !(a.props == b.props) {
                    out.push(
                        Patch::DeliverProperties { id: live.id, props: b.props.clone() },
                    );
                    proof {
                        assert forall|i: int|
                            0 <= i < old(out)@.len() implies out@[i] == #[trigger] old(
                            out,
                        )@[i] by {}
                    }
                }
                LiveNode {
                    id: live.id,
                    kind: LiveKind::Component(
                        LiveComponent { type_id: b.type_id, props: b.props.clone(), key: b.key },
                    ),
                }
            } else {
                replace_node(parent, live, new, ids, out)
            }
        },
        _ => {
            replace_node(parent, live, new, ids, out)
        },
    }
}

/// Reconcile a child list: a declared child with a key is matched to the
/// not-yet-matched live child carrying that key and moved to its new
/// position if needed; a declared child without a key is matched to the
/// not-yet-matched unkeyed live child standing at its position; everything
/// unmatched on the declared side is freshly created and attached, and every
/// live child left unmatched is removed, in previous order.  A key never
/// matches a missing key.
pub fn reconcile_children(
    parent: u64,
    lives: &Vec<LiveNode>,
    news: &Vec<VNode>,
    ids: &mut IdGen,
    out: &mut Vec<Patch>,
) -> (res: Vec<LiveNode>)
    requires
        VNode::seq_wf(news@),
        crate::vtree::keys_unique(news@),
        LiveNode::seq_live_wf(lives@),
        live_keys_unique(lives@),
        old(ids).next_id() + VNode::seq_size(news@) <= u64::MAX,
    ensures
        res@.len() == news@.len(),
        LiveNode::seq_matches(res@, news@),
        final(ids).next_id() >= old(ids).next_id(),
        final(ids).next_id() <= old(ids).next_id() + VNode::seq_size(news@),
        extends(final(out)@, old(out)@),
        LiveNode::seq_matches(lives@, news@) ==> final(out)@ == old(out)@
            && LiveNode::seq_live_eq(res@, lives@) && final(ids).next_id() == old(ids).next_id(),
        forall|j: int|
            0 <= j < news@.len() && (#[trigger] news@[j].spec_key()) is Some && live_find_key(
                lives@,
                news@[j].spec_key()->0,
            ) is Some && in_place(
                lives@[live_find_key(lives@, news@[j].spec_key()->0)->0],
                news@[j],
            ) ==> res@[j].id == lives@[live_find_key(lives@, news@[j].spec_key()->0)->0].id,
        keyed_perm(lives@, news@) ==> (forall|k: int|
            old(out)@.len() <= k < final(out)@.len() ==> is_move(#[trigger] final(out)@[k]@))
            && final(ids).next_id() == old(ids).next_id() && (forall|j: int|
            0 <= j < news@.len() ==> (#[trigger] res@[j]).live_eq(
                lives@[live_find_key(lives@, news@[j].spec_key()->0)->0],
            )),
    decreases VNode::seq_size(news@), 3int,
{
    let mut used: Vec<bool> = Vec::new();
    let mut i: usize = 0;
    while i < lives.len()
        invariant
            0 <= i <= lives@.len(),
            used@.len() == i,
            forall|i2: int| 0 <= i2 < i ==> !(#[trigger] used@[i2]),
        decreases lives@.len() - i,
    {
        used.push(false);
        i = i + 1;
    }
    let mut res: Vec<LiveNode> = Vec::new();
    let mut j: usize = 0;
    while j < news.len()
        invariant
            0 <= j <= news@.len(),
            used@.len() == lives@.len(),
            res@.len() == j,
            VNode::seq_wf(news@),
            crate::vtree::keys_unique(news@),
            LiveNode::seq_live_wf(lives@),
            live_keys_unique(lives@),
            old(ids).next_id() + VNode::seq_size(news@) <= u64::MAX,
            ids.next_id() >= old(ids).next_id(),
            ids.next_id() <= old(ids).next_id() + VNode::seq_size(news@.take(j as int)),
            extends(out@, old(out)@),
            forall|j2: int| 0 <= j2 < j ==> (#[trigger] res@[j2]).matches(news@[j2]),
            forall|i3: int|
                0 <= i3 < lives@.len() && (#[trigger] used@[i3]) && lives@[i3].spec_key() is Some
                    ==> key_matched_before(lives@, news@, i3, j as int),
            forall|j2: int|
                0 <= j2 < j && (#[trigger] news@[j2].spec_key()) is Some && live_find_key(
                    lives@,
                    news@[j2].spec_key()->0,
                ) is Some && in_place(
                    lives@[live_find_key(lives@, news@[j2].spec_key()->0)->0],
                    news@[j2],
                ) ==> res@[j2].id == lives@[live_find_key(lives@, news@[j2].spec_key()->0)->0].id,
            LiveNode::seq_matches(lives@, news@) ==> out@ == old(out)@ && ids.next_id() == old(
                ids,
            ).next_id() && (forall|j2: int| 0 <= j2 < j ==> (#[trigger] res@[j2]).live_eq(
                lives@[j2],
            )) && (forall|i3: int| 0 <= i3 < lives@.len() ==> #[trigger] used@[i3] == (i3 < j)),
            keyed_perm(lives@, news@) ==> (forall|k: int|
                old(out)@.len() <= k < out@.len() ==> is_move(#[trigger] out@[k]@))
                && ids.next_id() == old(ids).next_id() && (forall|j2: int|
                0 <= j2 < j ==> (#[trigger] res@[j2]).live_eq(
                    lives@[live_find_key(lives@, news@[j2].spec_key()->0)->0],
                )) && (forall|i3: int|
                0 <= i3 < lives@.len() ==> #[trigger] used@[i3] == key_matched_before(
                    lives@,
                    news@,
                    i3,
                    j as int,
                )),
        decreases news@.len() - j,
    {
        proof {
            crate::vtree::lemma_seq_wf_iff(news@);
            lemma_seq_live_wf_iff(lives@);
            crate::vtree::lemma_seq_size_prefix_step(news@, j as int);
            crate::vtree::lemma_seq_size_prefix_le(news@, j as int + 1);
            crate::vtree::lemma_seq_size_elem(news@, j as int);
            if LiveNode::seq_matches(lives@, news@) {
                lemma_seq_matches_iff(lives@, news@);
            }
        }
        let ghost prev_out = out@;
        let ghost prev_used = used@;
        let ghost prev_next = ids.next_id();
        let nk = node_key(&news[j]);
        match nk {
            Some(kv) => {
                proof {
                    lemma_live_find_key(lives@, kv);
                }
                match find_unused_key(lives, &used, kv) {
                    Some(i0) => {
                        proof {
                            let fi = live_find_key(lives@, kv)->0;
                            if fi < i0 {
                                assert(used@[fi]);
                                assert(key_matched_before(lives@, news@, fi, j as int));
                                let j2 = choose|j2: int|
                                    0 <= j2 < j && #[trigger] news@[j2].spec_key()
                                        == lives@[fi].spec_key();
                                assert(news@[j2].spec_key() == news@[j as int].spec_key());
                                assert(false);
                            }
                            assert(i0 as int == fi);
                        }
                        used[i0] = true;
                        let child = reconcile(parent, &lives[i0], &news[j], ids, out);
                        let moved = i0 != j;
                        if moved {
                            out.push(Patch::MoveChild { parent, index: j, child: child.id });
                            proof {
                                assert forall|k: int|
                                    0 <= k < out@.len() - 1 implies out@[k] == #[trigger] out@.take(
                                    out@.len() - 1,
                                )[k] by {}
                            }
                        }
                        res.push(child);
                        proof {
                            lemma_reconcile_children_step_keyed(
                                lives@,
                                news@,
                                prev_used,
                                used@,
                                j as int,
                                i0 as int,
                            );
                            if LiveNode::seq_matches(lives@, news@) {
                                assert(lives@[j as int].matches(news@[j as int]));
                                crate::live::lemma_matches_key(
                                    lives@[j as int],
                                    news@[j as int],
                                );
                                assert(lives@[j as int].spec_key() == Some(kv));
                                assert(!prev_used[j as int]);
                                assert(i0 as int == j as int);
                                assert forall|i3: int|
                                    0 <= i3 < lives@.len() implies #[trigger] used@[i3] == (i3 < j
                                    + 1) by {}
                            }
                            if keyed_perm(lives@, news@) {
                                lemma_step_keyed_perm(
                                    lives@,
                                    news@,
                                    prev_used,
                                    used@,
                                    j as int,
                                    i0 as int,
                                );
                            }
                        }
                    },
                    None => {
                        let child = create_node(&news[j], ids, out);
                        out.push(Patch::AttachChild { parent, index: j, child: child.id });
                        proof {
                            assert forall|k: int|
                                0 <= k < out@.len() - 1 implies out@[k] == #[trigger] out@.take(
                                out@.len() - 1,
                            )[k] by {}
                            if LiveNode::seq_matches(lives@, news@) {
                                assert(lives@[j as int].matches(news@[j as int]));
                                crate::live::lemma_matches_key(
                                    lives@[j as int],
                                    news@[j as int],
                                );
                                assert(!used@[j as int]);
                                assert(false);
                            }
                            if keyed_perm(lives@, news@) {
                                let fi = live_find_key(lives@, kv)->0;
                                assert(lives@[fi].matches(news@[j as int]));
                                assert(used@[fi]);
                                assert(key_matched_before(lives@, news@, fi, j as int));
                                let j2 = choose|j2: int|
                                    0 <= j2 < j && #[trigger] news@[j2].spec_key()
                                        == lives@[fi].spec_key();
                                crate::live::lemma_matches_key(lives@[fi], news@[j as int]);
                                assert(news@[j2].spec_key() == news@[j as int].spec_key());
                                assert(false);
                            }
                        }
                        res.push(child);
                    },
                }
            },
            None => {
                let reuse = j < lives.len() && !used[j] && live_key(&lives[j]).is_none();
                if reuse {
                    used[j] = true;
                    let child = reconcile(parent, &lives[j], &news[j], ids, out);
                    res.push(child);
                    proof {
                        if keyed_perm(lives@, news@) {
                            assert(news@[j as int].spec_key() is Some);
                            assert(false);
                        }
                    }
                } else {
                    let child = create_node(&news[j], ids, out);
                    out.push(Patch::AttachChild { parent, index: j, child: child.id });
                    proof {
                        assert forall|k: int|
                            0 <= k < out@.len() - 1 implies out@[k] == #[trigger] out@.take(
                            out@.len() - 1,
                        )[k] by {}
                        if LiveNode::seq_matches(lives@, news@) {
                            assert(lives@[j as int].matches(news@[j as int]));
                            crate::live::lemma_matches_key(lives@[j as int], news@[j as int]);
                            assert(!used@[j as int]);
                            assert(false);
                        }
                        if keyed_perm(lives@, news@) {
                            assert(news@[j as int].spec_key() is Some);
                            assert(false);
                        }
                    }
                    res.push(child);
                }
            },
        }
        j = j + 1;
    }
    proof {
        assert(news@.take(news@.len() as int) =~= news@);
        lemma_seq_matches_iff(res@, news@);
        if LiveNode::seq_matches(lives@, news@) {
            lemma_seq_matches_iff(lives@, news@);
            lemma_seq_live_eq_iff(res@, lives@);
        }
    }
    let ghost out_after = out@;
    let mut i2: usize = 0;
    while i2 < lives.len()
        invariant
            0 <= i2 <= lives@.len(),
            used@.len() == lives@.len(),
            extends(out@, out_after),
            extends(out_after, old(out)@),
            extends(out@, old(out)@),
            LiveNode::seq_matches(lives@, news@) ==> out@ == out_after,
            keyed_perm(lives@, news@) ==> out@ == out_after,
            (forall|i3: int|
                0 <= i3 < lives@.len() && (#[trigger] used@[i3]) && lives@[i3].spec_key() is Some
                    ==> key_matched_before(lives@, news@, i3, news@.len() as int)),
            LiveNode::seq_matches(lives@, news@) ==> (forall|i3: int|
                0 <= i3 < lives@.len() ==> #[trigger] used@[i3]),
            keyed_perm(lives@, news@) ==> (forall|i3: int|
                0 <= i3 < lives@.len() ==> #[trigger] used@[i3] == key_matched_before(
                    lives@,
                    news@,
                    i3,
                    news@.len() as int,
                )),
        decreases lives@.len() - i2,
    {
        if !used[i2] {
            out.push(Patch::RemoveChild { parent, child: lives[i2].id });
            proof {
                assert forall|k: int|
                    0 <= k < out@.len() - 1 implies out@[k] == #[trigger] out@.take(
                    out@.len() - 1,
                )[k] by {}
            }
            let is_comp = match &lives[i2].kind {
                LiveKind::Component(_) => true,
                _ => false,
            };
            if is_comp {
                out.push(Patch::DestroyComponent { id: lives[i2].id });
            }
            proof {
                if LiveNode::seq_matches(lives@, news@) {
                    assert(false);
                }
                if keyed_perm(lives@, news@) {
                    assert(key_matched_before(lives@, news@, i2 as int, news@.len() as int));
                    assert(false);
                }
                assert(extends(out@, out_after));
            }
        }
        i2 = i2 + 1;
    }
    res
}

/// Bookkeeping for one keyed match when the declared children are a keyed
/// permutation of the live children: the used flags track exactly which live
/// keys have been matched so far.
proof fn lemma_step_keyed_perm(
    lives: Seq<LiveNode>,
    news: Seq<VNode>,
    prev_used: Seq<bool>,
    now_used: Seq<bool>,
    j: int,
    i0: int,
)
    requires
        0 <= j < news.len(),
        0 <= i0 < lives.len(),
        prev_used.len() == lives.len(),
        now_used == prev_used.update(i0, true),
        news[j].spec_key() is Some,
        lives[i0].spec_key() == news[j].spec_key(),
        live_keys_unique(lives),
        crate::vtree::keys_unique(news),
        forall|i3: int|
            0 <= i3 < lives.len() ==> #[trigger] prev_used[i3] == key_matched_before(
                lives,
                news,
                i3,
                j,
            ),
    ensures
        forall|i3: int|
            0 <= i3 < lives.len() ==> #[trigger] now_used[i3] == key_matched_before(
                lives,
                news,
                i3,
                j + 1,
            ),
{
    assert forall|i3: int|
        0 <= i3 < lives.len() implies #[trigger] now_used[i3] == key_matched_before(
        lives,
        news,
        i3,
        j + 1,
    ) by {
        if i3 == i0 {
            assert(news[j].spec_key() == lives[i3].spec_key());
            assert(key_matched_before(lives, news, i3, j + 1));
        } else if prev_used[i3] {
            let j2 = choose|j2: int|
                0 <= j2 < j && #[trigger] news[j2].spec_key() == lives[i3].spec_key();
            assert(news[j2].spec_key() == lives[i3].spec_key());
            assert(key_matched_before(lives, news, i3, j + 1));
        } else {
            if key_matched_before(lives, news, i3, j + 1) {
                let j2 = choose|j2: int|
                    0 <= j2 < j + 1 && #[trigger] news[j2].spec_key() == lives[i3].spec_key();
                if j2 < j {
                    assert(key_matched_before(lives, news, i3, j));
                    assert(false);
                } else {
                    assert(lives[i3].spec_key() == news[j].spec_key());
                    if i3 < i0 {
                        assert(lives[i3].spec_key() != lives[i0].spec_key());
                    } else {
                        assert(lives[i0].spec_key() != lives[i3].spec_key());
                    }
                    assert(false);
                }
            }
        }
    }
}

/// Bookkeeping for one keyed match inside the child loop: marking the
/// matched live child as used keeps the used-flags invariants.
proof fn lemma_reconcile_children_step_keyed(
    lives: Seq<LiveNode>,
    news: Seq<VNode>,
    prev_used: Seq<bool>,
    now_used: Seq<bool>,
    j: int,
    i0: int,
)
    requires
        0 <= j < news.len(),
        0 <= i0 < lives.len(),
        prev_used.len() == lives.len(),
        now_used == prev_used.update(i0, true),
        news[j].spec_key() is Some,
        lives[i0].spec_key() == news[j].spec_key(),
        forall|i3: int|
            0 <= i3 < lives.len() && (#[trigger] prev_used[i3]) && lives[i3].spec_key() is Some
                ==> key_matched_before(lives, news, i3, j),
    ensures
        forall|i3: int|
            0 <= i3 < lives.len() && (#[trigger] now_used[i3]) && lives[i3].spec_key() is Some
                ==> key_matched_before(lives, news, i3, j + 1),
{
    assert forall|i3: int|
        0 <= i3 < lives.len() && (#[trigger] now_used[i3]) && lives[i3].spec_key() is Some
        implies key_matched_before(lives, news, i3, j + 1) by {
        if i3 == i0 {
            assert(news[j].spec_key() == lives[i3].spec_key());
        } else {
            assert(prev_used[i3]);
            let j2 = choose|j2: int|
                0 <= j2 < j && #[trigger] news[j2].spec_key() == lives[i3].spec_key();
            assert(news[j2].spec_key() == lives[i3].spec_key());
        }
    }
}

} // verus!
