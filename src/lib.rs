//! Decision logic of a Windows file-association bridge: deriving the
//! association key of a path, ordering and searching the handlers that the
//! shell enumerates, interpreting launch status codes, and the one-time
//! initialisation of each execution context.
pub mod bridge;
pub mod handlers;
pub mod opener;
pub mod order;
pub mod path;
pub mod types;

pub use opener::WindowsFileOpener;
pub use types::{OpenResult, OpenWithApp};
