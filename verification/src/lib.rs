//! Recovers the module-classification table from linearized PDF text:
//! locates the table between known prose markers, segments it into row
//! spans by a leading-code boundary heuristic, and parses each row into
//! a (program, offer) pair, tolerating per-row failures.

pub mod chars;
pub mod html;
pub mod locate;
pub mod module;
pub mod normalize;
pub mod parse;
pub mod row;
pub mod segment;

pub use chars::Span;
pub use chars::to_chars;
pub use locate::ParseModuleError;
pub use locate::locate_table;
pub use module::{Diagnostic, Module, ModuleReport, assemble, parse_module};
pub use parse::parse_row;
pub use row::{Bachelor, ModuleOffer, ModuleType};
pub use segment::segment;
