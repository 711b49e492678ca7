//! The primitive tree-mutation capability: reconciliation emits a sequence
//! of patch operations describing exactly how the live tree is changed.  A
//! platform binding replays them against the real screen; the model live
//! tree in this crate is kept in step with them by construction.

use vstd::prelude::*;

verus! {

/// One primitive mutation of the live tree.  Node identities refer to
/// [`crate::live::LiveNode`] identities.
pub enum Patch {
    /// Create a fresh, detached text node.
    CreateText { id: u64, text: String },
    /// Create a fresh, detached element with no attributes or listeners yet.
    CreateElement { id: u64, tag: String },
    /// Create a fresh, detached list (fragment) anchor.
    CreateList { id: u64 },
    /// Mount a new component scope for a placeholder node, with its initial
    /// configuration.
    MountComponent { id: u64, type_id: u64, props: String },
    /// Replace the content of a text node.
    SetText { id: u64, text: String },
    /// Set (add or change) one attribute of an element.
    SetAttr { id: u64, name: String, value: String },
    /// Remove one attribute of an element.
    RemoveAttr { id: u64, name: String },
    /// Bind a listener of the given kind to an element.
    Bind { id: u64, kind: String },
    /// Unbind the listener of the given kind from an element.
    Unbind { id: u64, kind: String },
    /// Attach a (fresh) child under `parent` at position `index`.
    AttachChild { parent: u64, index: usize, child: u64 },
    /// Move an existing child of `parent` to position `index`.
    MoveChild { parent: u64, index: usize, child: u64 },
    /// Detach a child (and with it its whole subtree) from `parent`.
    RemoveChild { parent: u64, child: u64 },
    /// Replace one child of `parent` with another node.
    ReplaceChild { parent: u64, old_child: u64, new_child: u64 },
    /// Deliver a new configuration to an already mounted component scope,
    /// as a Properties job through that scope's scheduler.
    DeliverProperties { id: u64, props: String },
    /// Destroy the component scope mounted for a placeholder node.
    DestroyComponent { id: u64 },
}

/// The mathematical value of a patch: strings are taken as character
/// sequences.
pub enum PatchV {
    CreateText { id: u64, text: Seq<char> },
    CreateElement { id: u64, tag: Seq<char> },
    CreateList { id: u64 },
    MountComponent { id: u64, type_id: u64, props: Seq<char> },
    SetText { id: u64, text: Seq<char> },
    SetAttr { id: u64, name: Seq<char>, value: Seq<char> },
    RemoveAttr { id: u64, name: Seq<char> },
    Bind { id: u64, kind: Seq<char> },
    Unbind { id: u64, kind: Seq<char> },
    AttachChild { parent: u64, index: int, child: u64 },
    MoveChild { parent: u64, index: int, child: u64 },
    RemoveChild { parent: u64, child: u64 },
    ReplaceChild { parent: u64, old_child: u64, new_child: u64 },
    DeliverProperties { id: u64, props: Seq<char> },
    DestroyComponent { id: u64 },
}

impl View for Patch {
    type V = PatchV;

    open spec fn view(&self) -> PatchV {
        match self {
            Patch::CreateText { id, text } => PatchV::CreateText { id: *id, text: text@ },
            Patch::CreateElement { id, tag } => PatchV::CreateElement { id: *id, tag: tag@ },
            Patch::CreateList { id } => PatchV::CreateList { id: *id },
            Patch::MountComponent { id, type_id, props } => PatchV::MountComponent {
                id: *id,
                type_id: *type_id,
                props: props@,
            },
            Patch::SetText { id, text } => PatchV::SetText { id: *id, text: text@ },
            Patch::SetAttr { id, name, value } => PatchV::SetAttr {
                id: *id,
                name: name@,
                value: value@,
            },
            Patch::RemoveAttr { id, name } => PatchV::RemoveAttr { id: *id, name: name@ },
            Patch::Bind { id, kind } => PatchV::Bind { id: *id, kind: kind@ },
            Patch::Unbind { id, kind } => PatchV::Unbind { id: *id, kind: kind@ },
            Patch::AttachChild { parent, index, child } => PatchV::AttachChild {
                parent: *parent,
                index: *index as int,
                child: *child,
            },
            Patch::MoveChild { parent, index, child } => PatchV::MoveChild {
                parent: *parent,
                index: *index as int,
                child: *child,
            },
            Patch::RemoveChild { parent, child } => PatchV::RemoveChild {
                parent: *parent,
                child: *child,
            },
            Patch::ReplaceChild { parent, old_child, new_child } => PatchV::ReplaceChild {
                parent: *parent,
                old_child: *old_child,
                new_child: *new_child,
            },
            Patch::DeliverProperties { id, props } => PatchV::DeliverProperties {
                id: *id,
                props: props@,
            },
            Patch::DestroyComponent { id } => PatchV::DestroyComponent { id: *id },
        }
    }
}

/// The view of a whole patch log.
pub open spec fn patches_view(s: Seq<Patch>) -> Seq<PatchV> {
    s.map_values(|p: Patch| p@)
}

/// The patch only moves an existing child; it neither creates nor destroys
/// nor rewrites any node.
pub open spec fn is_move(p: PatchV) -> bool {
    p is MoveChild
}

} // verus!
