pub mod plan;
pub mod spans;
pub mod inline;
pub mod list;
pub mod code_block;
pub mod table;
pub mod engine;
pub mod widget;
pub mod block;
pub mod header_image;
