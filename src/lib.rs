//! Hands out small, dense, reusable identifiers from a bounded range of an
//! unsigned integer type, tracking the free ones as a set of disjoint,
//! non-adjacent closed intervals.

mod error;
mod id_manager;
mod id_type;
mod interval;
mod intervals;
mod reuse_policy;
mod ranges;
mod text;

pub use error::IdError;
pub use id_manager::{IdManager, ManagerView};
pub use id_type::IdType;
pub use interval::Interval;
pub use intervals::Intervals;
pub use reuse_policy::ReusePolicy;
