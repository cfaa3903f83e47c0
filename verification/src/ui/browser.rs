//! The widgets of the vault browser.
pub mod breadcrumbs;
pub mod file_row;
pub mod folder_row;
pub mod file_tree;
pub mod file_details;
