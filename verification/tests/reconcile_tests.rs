use plaster::live::{IdGen, LiveKind, LiveNode};
use plaster::patch::Patch;
use plaster::reconcile::{create_node, diff_attrs, diff_listeners, reconcile, reconcile_children};
use plaster::vtree::{check_wf, node_count, Attr, VComponent, VElement, VNode};

fn attr(name: &str, value: &str) -> Attr {
    Attr {
        name: name.to_string(),
        value: value.to_string(),
    }
}

fn element(tag: &str, attrs: Vec<Attr>, listeners: Vec<&str>, key: Option<u64>, children: Vec<VNode>) -> VNode {
    VNode::Element(VElement {
        tag: tag.to_string(),
        attrs,
        listeners: listeners.into_iter().map(|s| s.to_string()).collect(),
        key,
        children,
    })
}

fn text(s: &str) -> VNode {
    VNode::Text(s.to_string())
}

/// Structural equality of two live trees, ignoring node identities.
fn same_shape(a: &LiveNode, b: &LiveNode) -> bool {
    match (&a.kind, &b.kind) {
        (LiveKind::Text(x), LiveKind::Text(y)) => x == y,
        (LiveKind::Element(x), LiveKind::Element(y)) => {
            x.tag == y.tag
                && x.key == y.key
                && x.attrs.len() == y.attrs.len()
                && x.attrs
                    .iter()
                    .zip(y.attrs.iter())
                    .all(|(p, q)| p.name == q.name && p.value == q.value)
                && x.listeners == y.listeners
                && x.children.len() == y.children.len()
                && x.children
                    .iter()
                    .zip(y.children.iter())
                    .all(|(p, q)| same_shape(p, q))
        }
        (LiveKind::List(x), LiveKind::List(y)) => {
            x.len() == y.len() && x.iter().zip(y.iter()).all(|(p, q)| same_shape(p, q))
        }
        (LiveKind::Component(x), LiveKind::Component(y)) => {
            x.type_id == y.type_id && x.props == y.props && x.key == y.key
        }
        _ => false,
    }
}

fn sample_tree() -> VNode {
    element(
        "div",
        vec![attr("class", "root"), attr("id", "main")],
        vec!["onclick"],
        None,
        vec![
            text("hello"),
            element("span", vec![attr("style", "bold")], vec![], None, vec![text("world")]),
        ],
    )
}

#[test]
fn idempotent_diff_emits_nothing() {
    let tree = sample_tree();
    let mut ids = IdGen::new(1);
    let mut out: Vec<Patch> = Vec::new();
    let live = create_node(&tree, &mut ids, &mut out);
    let created_patches = out.len();

    let tree_again = sample_tree();
    let live2 = reconcile(0, &live, &tree_again, &mut ids, &mut out);
    assert_eq!(out.len(), created_patches, "an equal tree must emit no patches");
    assert_eq!(live2.id, live.id);
    assert!(same_shape(&live, &live2));
}

#[test]
fn create_then_diff_equivalence() {
    let tree = sample_tree();

    // reconciling with no previous tree
    let mut ids_a = IdGen::new(1);
    let mut out_a: Vec<Patch> = Vec::new();
    let fresh = create_node(&tree, &mut ids_a, &mut out_a);

    // creating from empty, then reconciling (empty, tree)
    let mut ids_b = IdGen::new(1);
    let mut out_b: Vec<Patch> = Vec::new();
    let empty = create_node(&VNode::List(Vec::new()), &mut ids_b, &mut out_b);
    let stepped = reconcile(0, &empty, &sample_tree(), &mut ids_b, &mut out_b);

    assert!(same_shape(&fresh, &stepped), "both paths must yield the same live structure");
}

#[test]
fn attribute_diffing_exact() {
    // <x a="1" b="2"> reconciled to <x b="3" c="4">
    let olds = vec![attr("a", "1"), attr("b", "2")];
    let news = vec![attr("b", "3"), attr("c", "4")];
    let mut out: Vec<Patch> = Vec::new();
    diff_attrs(7, &olds, &news, &mut out);
    assert_eq!(out.len(), 3);
    match &out[0] {
        Patch::RemoveAttr { id, name } => {
            assert_eq!(*id, 7);
            assert_eq!(name, "a");
        }
        p => panic!("expected RemoveAttr, got {:?}", patch_tag(p)),
    }
    match &out[1] {
        Patch::SetAttr { id, name, value } => {
            assert_eq!(*id, 7);
            assert_eq!(name, "b");
            assert_eq!(value, "3");
        }
        p => panic!("expected SetAttr b, got {:?}", patch_tag(p)),
    }
    match &out[2] {
        Patch::SetAttr { id, name, value } => {
            assert_eq!(*id, 7);
            assert_eq!(name, "c");
            assert_eq!(value, "4");
        }
        p => panic!("expected SetAttr c, got {:?}", patch_tag(p)),
    }
}

fn patch_tag(p: &Patch) -> &'static str {
    match p {
        Patch::CreateText { .. } => "CreateText",
        Patch::CreateElement { .. } => "CreateElement",
        Patch::CreateList { .. } => "CreateList",
        Patch::MountComponent { .. } => "MountComponent",
        Patch::SetText { .. } => "SetText",
        Patch::SetAttr { .. } => "SetAttr",
        Patch::RemoveAttr { .. } => "RemoveAttr",
        Patch::Bind { .. } => "Bind",
        Patch::Unbind { .. } => "Unbind",
        Patch::AttachChild { .. } => "AttachChild",
        Patch::MoveChild { .. } => "MoveChild",
        Patch::RemoveChild { .. } => "RemoveChild",
        Patch::ReplaceChild { .. } => "ReplaceChild",
        Patch::DeliverProperties { .. } => "DeliverProperties",
        Patch::DestroyComponent { .. } => "DestroyComponent",
    }
}

#[test]
fn listener_diffing_unbinds_and_binds() {
    let olds = vec!["onclick".to_string(), "onkeydown".to_string()];
    let news = vec!["onkeydown".to_string(), "oninput".to_string()];
    let mut out: Vec<Patch> = Vec::new();
    diff_listeners(3, &olds, &news, &mut out);
    assert_eq!(out.len(), 2);
    match &out[0] {
        Patch::Unbind { id, kind } => {
            assert_eq!(*id, 3);
            assert_eq!(kind, "onclick");
        }
        p => panic!("expected Unbind, got {:?}", patch_tag(p)),
    }
    match &out[1] {
        Patch::Bind { id, kind } => {
            assert_eq!(*id, 3);
            assert_eq!(kind, "oninput");
        }
        p => panic!("expected Bind, got {:?}", patch_tag(p)),
    }
}

#[test]
fn keyed_reuse_preserves_identities() {
    // [A(key=1), B(key=2), C(key=3)] -> [C(key=3), A(key=1), B(key=2)]
    let before = vec![
        element("a", vec![], vec![], Some(1), vec![]),
        element("b", vec![], vec![], Some(2), vec![]),
        element("c", vec![], vec![], Some(3), vec![]),
    ];
    let mut ids = IdGen::new(1);
    let mut out: Vec<Patch> = Vec::new();
    let lives = {
        let mut ls = Vec::new();
        for child in &before {
            ls.push(create_node(child, &mut ids, &mut out));
        }
        ls
    };
    let id_a = lives[0].id;
    let id_b = lives[1].id;
    let id_c = lives[2].id;

    let after = vec![
        element("c", vec![], vec![], Some(3), vec![]),
        element("a", vec![], vec![], Some(1), vec![]),
        element("b", vec![], vec![], Some(2), vec![]),
    ];
    let marker = out.len();
    let res = reconcile_children(0, &lives, &after, &mut ids, &mut out);

    // identities are reused: no node destroyed and recreated
    assert_eq!(res[0].id, id_c);
    assert_eq!(res[1].id, id_a);
    assert_eq!(res[2].id, id_b);

    // only positions change: every emitted patch is a move
    for p in &out[marker..] {
        match p {
            Patch::MoveChild { .. } => {}
            other => panic!("expected only MoveChild, got {:?}", patch_tag(other)),
        }
    }
}

#[test]
fn text_update_in_place() {
    let mut ids = IdGen::new(1);
    let mut out: Vec<Patch> = Vec::new();
    let live = create_node(&text("old"), &mut ids, &mut out);
    let marker = out.len();
    let live2 = reconcile(0, &live, &text("new"), &mut ids, &mut out);
    assert_eq!(live2.id, live.id, "a text node is updated in place");
    assert_eq!(out.len(), marker + 1);
    match &out[marker] {
        Patch::SetText { id, text } => {
            assert_eq!(*id, live.id);
            assert_eq!(text, "new");
        }
        p => panic!("expected SetText, got {:?}", patch_tag(p)),
    }
}

#[test]
fn changed_tag_replaces_subtree() {
    let mut ids = IdGen::new(1);
    let mut out: Vec<Patch> = Vec::new();
    let live = create_node(&element("div", vec![], vec![], None, vec![]), &mut ids, &mut out);
    let live2 = reconcile(9, &live, &element("span", vec![], vec![], None, vec![]), &mut ids, &mut out);
    assert_ne!(live2.id, live.id, "a changed tag replaces the node");
    assert!(out.iter().any(|p| matches!(
        p,
        Patch::ReplaceChild { parent: 9, old_child, new_child }
            if *old_child == live.id && *new_child == live2.id
    )));
}

#[test]
fn component_placeholder_updates_through_properties() {
    let mut ids = IdGen::new(1);
    let mut out: Vec<Patch> = Vec::new();
    let comp = VNode::Component(VComponent {
        type_id: 42,
        props: "a".to_string(),
        key: None,
    });
    let live = create_node(&comp, &mut ids, &mut out);
    assert!(matches!(&out[0], Patch::MountComponent { type_id: 42, .. }));

    // same type: configuration delivered as a Properties job, scope reused
    let comp2 = VNode::Component(VComponent {
        type_id: 42,
        props: "b".to_string(),
        key: None,
    });
    let marker = out.len();
    let live2 = reconcile(0, &live, &comp2, &mut ids, &mut out);
    assert_eq!(live2.id, live.id);
    assert_eq!(out.len(), marker + 1);
    assert!(matches!(&out[marker], Patch::DeliverProperties { id, props }
        if *id == live.id && props == "b"));

    // different type: old scope destroyed, new one mounted
    let comp3 = VNode::Component(VComponent {
        type_id: 43,
        props: "c".to_string(),
        key: None,
    });
    let live3 = reconcile(0, &live2, &comp3, &mut ids, &mut out);
    assert_ne!(live3.id, live2.id);
    assert!(out.iter().any(|p| matches!(p, Patch::DestroyComponent { id } if *id == live2.id)));
}

#[test]
fn removed_children_are_removed_in_previous_order() {
    let before = vec![text("a"), text("b"), text("c")];
    let mut ids = IdGen::new(1);
    let mut out: Vec<Patch> = Vec::new();
    let mut lives = Vec::new();
    for child in &before {
        lives.push(create_node(child, &mut ids, &mut out));
    }
    let after = vec![text("a")];
    let marker = out.len();
    let res = reconcile_children(0, &lives, &after, &mut ids, &mut out);
    assert_eq!(res.len(), 1);
    assert_eq!(res[0].id, lives[0].id);
    let removed: Vec<u64> = out[marker..]
        .iter()
        .filter_map(|p| match p {
            Patch::RemoveChild { child, .. } => Some(*child),
            _ => None,
        })
        .collect();
    assert_eq!(removed, vec![lives[1].id, lives[2].id]);
}

#[test]
fn node_count_and_wf_checks() {
    let tree = sample_tree();
    assert_eq!(node_count(&tree), Some(4));
    assert!(check_wf(&tree));

    let dup_keys = element(
        "ul",
        vec![],
        vec![],
        None,
        vec![
            element("li", vec![], vec![], Some(1), vec![]),
            element("li", vec![], vec![], Some(1), vec![]),
        ],
    );
    assert!(!check_wf(&dup_keys), "a duplicate sibling key is a setup error");
}

#[test]
fn creation_emits_the_subtree_in_preorder() {
    let tree = element(
        "div",
        vec![attr("class", "root")],
        vec!["onclick"],
        None,
        vec![text("hi")],
    );
    let mut ids = IdGen::new(1);
    let mut out: Vec<Patch> = Vec::new();
    let live = create_node(&tree, &mut ids, &mut out);
    assert_eq!(live.id, 1);
    assert_eq!(out.len(), 5);
    assert!(matches!(&out[0], Patch::CreateElement { id: 1, tag } if tag == "div"));
    assert!(matches!(&out[1], Patch::SetAttr { id: 1, name, value }
        if name == "class" && value == "root"));
    assert!(matches!(&out[2], Patch::Bind { id: 1, kind } if kind == "onclick"));
    assert!(matches!(&out[3], Patch::CreateText { id: 2, text } if text == "hi"));
    assert!(matches!(&out[4], Patch::AttachChild { parent: 1, index: 0, child: 2 }));
}
