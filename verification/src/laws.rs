//! What holds of the compiler as a whole: laws over the functions of the
//! other modules, each proved here.

pub mod dispatch;
pub mod failures;
pub mod inputs;
pub mod names;
pub mod nodes;
pub mod order;
pub mod paths;
pub mod shape;
pub mod template;
