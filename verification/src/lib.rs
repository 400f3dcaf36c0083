//! A verified bridge to a selector-dispatched, reference-counted object
//! runtime, together with the analyses that the binding generator runs
//! over the declarations of a header file.
//!
//! The bridge:
//!
//! - `encoding`, `encode`, `compat`, `layout`: the shapes of values, their
//!   text, their agreement, their sizes and the shape of a raw call;
//! - `selector`, `class`, `builder`: method names, registered classes and
//!   the registration of new ones;
//! - `dispatch`, `trampoline`: planning a send, performing it and
//!   decoding the result; calling a host implementation with decoded
//!   arguments;
//! - `heap`, `runtime`: the objects, their reference counts and the
//!   autorelease pools;
//! - `rc`, `weak`, `autorelease`: ownership handles, weak references and
//!   autorelease scopes.
//!
//! The binding generator:
//!
//! - `id`, `availability`, `rust_type`, `method`, `stmt`: the declarations;
//! - `global_analysis`: function names that clash, and a `typedef` with
//!   its enumeration;
//! - `property`: the methods of a property;
//! - `image`: an enumeration whose values depend on the target.

pub mod autorelease;
pub mod availability;
pub mod builder;
pub mod bytes;
pub mod class;
pub mod compat;
pub mod dispatch;
pub mod encode;
pub mod encoding;
pub mod error;
pub mod global_analysis;
pub mod heap;
pub mod id;
pub mod image;
pub mod layout;
pub mod method;
pub mod property;
pub mod rc;
pub mod runtime;
pub mod rust_type;
pub mod selector;
pub mod stmt;
pub mod trampoline;
pub mod weak;
