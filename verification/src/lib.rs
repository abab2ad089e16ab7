//! Focus-annotation session store with crash-safe persistence.
//!
//! The library keeps an in-memory, navigable collection of z-stacks (series
//! of photographs of one field taken at different focus depths) together
//! with two cursors, and persists the operator's focus choices through a
//! two-tier protocol: full-document checkpoints plus an append-only crash
//! log that survives abnormal exits.  The document format is a flat JSON
//! file; members the program does not understand are carried through a
//! load/save cycle unchanged.
//!
//! [`model`] holds the document shapes and [`raw`] the verbatim
//! unrecognized member values.  [`ser`] and [`parse`] are the document
//! text codec, and [`roundtrip`] proves that reading a written document
//! gives back the very document.  [`session`] is the session store with
//! its persistence operations, and [`dispatch`] maps the closed set of
//! user commands onto them.

pub mod dispatch;
pub mod model;
pub mod parse;
pub mod raw;
pub mod roundtrip;
pub mod ser;
pub mod session;
pub mod text;

pub use model::{AnnotationImage, AnnotationZStack, LightAnnotation};
pub use raw::RawJson;
pub use session::{PersistAction, PersistTarget, SessionError, State};
pub use dispatch::{Message, OpenedDocument, UIMessage};
