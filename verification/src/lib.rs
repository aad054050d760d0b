pub mod text;
pub mod epub_path;
pub mod models;
pub mod nav_builder;
pub mod converter;
pub mod opf_document;
pub mod parser;
pub mod storage;
pub mod toc_manager;
pub mod toc_tree;
pub mod toc_edit;
pub mod toc_groups;
pub mod toc_load;
pub mod library;
pub mod opf_builder;
pub mod pattern;
pub mod analyzer;
pub mod discovery;
pub mod resource_manager;
pub mod refactor;
pub mod image_handler;
pub mod image_run;
pub mod opf_parse;
pub mod resource_index;
pub mod extractor;
pub mod launch;
pub mod path_laws;
pub mod toc_sync;
