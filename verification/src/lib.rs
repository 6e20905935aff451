pub mod ai_instructions;
pub mod ansi_prefixes;
pub mod app;
pub mod args;
pub mod bytes_display_format;
pub mod bytes_format;
pub mod coloring;
pub mod data_tree;
pub mod device;
pub mod device_number;
pub mod fs_tree_builder;
pub mod get_size;
mod parallel;
pub mod path_ops;
pub mod text;
pub mod total_order;
