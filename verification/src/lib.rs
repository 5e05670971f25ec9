pub mod outside;
pub mod cookie;
pub mod forms;
pub mod numeric;
pub mod path;
pub mod rule;
pub mod session;
pub mod tree;
pub mod vocab;
