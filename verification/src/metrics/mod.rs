//! The metric families: each records, for the files that it is shown, the
//! observations of one kind of thing.

pub mod basic_enums;
pub mod basic_files;
pub mod basic_structs;
pub mod basic_traits;
pub mod complexity;
pub mod fn_arg_count;
pub mod fn_depth;
pub mod if_count;
pub mod macros;
pub mod methods;
pub mod stmt_size;

pub use basic_enums::Enums;
pub use basic_files::{FileStats, Files};
pub use basic_structs::Structs;
pub use basic_traits::TraitDefinitions;
pub use complexity::ComplexityStats;
pub use fn_arg_count::FnArgsCount;
pub use if_count::VisitorIfCount;
pub use fn_depth::VisitorAvgMethodDepth;
pub use macros::MacroStats;
pub use methods::ImplLcom4;
pub use stmt_size::StatementSize;
