pub mod target_tree;
