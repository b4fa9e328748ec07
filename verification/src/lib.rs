pub mod chars;
pub mod paths;
pub mod style;
pub mod theme;
pub mod editor;
pub mod render;
pub mod input;
pub mod filetree;
pub mod sidebar;
pub mod finder;
pub mod markdown;
pub mod session;
pub mod view;
