pub mod program;
pub mod brackets;
pub mod input;
pub mod machine;
pub mod codec;
pub mod session;
pub mod resume;
