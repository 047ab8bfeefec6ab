pub mod depth_first;
pub mod laws;
pub mod tree;

pub use depth_first::WhatRecursiveIter;
pub use tree::{What, WhatIter};
