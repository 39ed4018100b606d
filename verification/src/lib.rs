pub mod engine;
pub mod hotkeys;
pub mod machine;
pub mod macros;
pub mod plan;
pub mod text;
