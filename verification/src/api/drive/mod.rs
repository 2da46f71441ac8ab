pub mod delete;
pub mod details;
pub mod download;
pub mod info;
pub mod list;
pub mod move_item;
pub mod share;
pub mod upload;
