pub mod cmd_builder;
pub mod cmd_creator;
pub mod cmd_manager;
pub mod cmd_tree;
pub mod cmd_tree_builder;
pub mod cmd_tree_builder_ext;
pub mod cmd_walker;
pub mod error;
pub mod event_handler;
pub mod fragment;
pub mod fragment_iter;
pub mod mappers;
pub mod matchers;
pub mod text;
pub mod type_identity;
pub mod type_map;
