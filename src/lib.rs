//! Resource scanner for a grid world that an agent only partly knows.
//!
//! Given a scan pattern, the library computes which cells the pattern covers
//! around the agent, drops those that the agent already knows, decides how
//! the rest is to be disclosed, and picks the best cell holding the wanted
//! content among what was disclosed.

pub mod map_coordinate;
pub mod tool_errors;
pub mod content;
pub mod pattern;
pub mod resource_scanner;

pub use content::CellContent;
pub use map_coordinate::MapCoordinate;
pub use pattern::Pattern;
pub use resource_scanner::{Disclosed, Discovery, KnownMap, ResourceScanner};
pub use tool_errors::ToolError;
