//! A client-side UI runtime core: components describe their state as a
//! declarative tree; a cooperative scheduler orders lifecycle jobs, and a
//! reconciler patches a live tree to match each freshly rendered description
//! with minimal changes.
//!
//! The pieces: [`vtree`] holds the declarative tree a component's view
//! produces; [`live`] the mutable on-screen tree with its stable node
//! identities; [`patch`] the primitive mutations the reconciler emits;
//! [`reconcile`] the diff/patch engine; [`scope`] the lifecycle scheduler
//! that owns a component and drives create, update, change and destroy;
//! [`router`] path matching over the route-recognizer engine; and
//! [`validation`] user-supplied field validation.  A platform binding
//! replays the patch stream against the real screen and feeds events back
//! as messages.

pub mod prelude;
pub mod vtree;
pub mod live;
pub mod patch;
pub mod reconcile;
pub mod scope;
pub mod validation;
pub mod recognizer;
pub mod router;
