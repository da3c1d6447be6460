//! Core logic of a two- and three-way text, table and folder comparison tool.
pub mod text;
pub mod models;
pub mod three_way;
pub mod diff_engine;
pub mod csv;
pub mod encoding;
pub mod view;
pub mod names;
pub mod numfmt;
pub mod folder;
pub mod archive;
pub mod excel;
pub mod hex;
pub mod project;
pub mod pane_buffer;
pub mod export;
pub mod patch;
pub mod cli;
pub mod highlight;
pub mod image_compare;
pub mod table;
pub mod diff_view;
pub mod session;
pub mod three_way_edit;
pub mod history;
pub mod table_edit;
pub mod navigation;
pub mod detail;
pub mod folder_view;
pub mod text_edit;
pub mod options;
pub mod saving;
pub mod replace;
pub mod comments;
pub mod tabs;
