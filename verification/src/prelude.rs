//! The common imports for building on this runtime: the component
//! contract, the lifecycle handle, and the declarative tree types.

pub use crate::live::{IdGen, LiveElement, LiveKind, LiveNode};
pub use crate::patch::Patch;
pub use crate::router::{RouteMatch, Router};
pub use crate::scope::{Component, ComponentLink, ComponentUpdate, Renderable, Scope};
pub use crate::validation::ValidationFn;
pub use crate::vtree::{Attr, VComponent, VElement, VNode};
