//! A path-planning and grouping engine for reorganizing flat file collections
//! into nested directory trees: a small pattern language describes the shape
//! of the tree, a content-hash prefix fans files out across subdirectories,
//! and a per-prefix counter keeps every numbered group directory below a
//! configured threshold.

pub mod codec;
pub mod date;
pub mod digest;
pub mod executor;
pub mod group;
pub mod laws;
pub mod order;
pub mod planner;
pub mod record;
pub mod pattern;

use vstd::prelude::*;

verus! {

} // verus!
