//! Verified core of a command-line client for the Zotero reference manager.

pub mod add_file;
pub mod app_launch;
pub mod analysis;
pub mod audit;
pub mod audit_tail;
pub mod attachment_plans;
pub mod attachment_upload;
pub mod bibtex_laws;
pub mod add_import;
pub mod bridge;
pub mod catalog;
pub mod cli;
pub mod commands;
pub mod clock;
pub mod credentials;
pub mod csl;
pub mod db;
pub mod doctor;
pub mod docx_body;
pub mod docx_citations;
pub mod docx_convert;
pub mod docx_inspect;
pub mod docx_render;
pub mod docx_validate;
pub mod docx_report;
pub mod docx_working;
pub mod error;
pub mod file_text;
pub mod hygiene;
pub mod import_core;
pub mod import_attachments;
pub mod import_json;
pub mod import_normalization;
pub mod import_target;
pub mod json;
pub mod laws;
pub mod lifecycle;
pub mod number;
pub mod operation_laws;
pub mod page_info;
pub mod paths;
pub mod pattern;
pub mod results;
pub mod select;
pub mod static_render;
pub mod styles;
pub mod text;
pub mod write_outcome;
pub mod xml;
pub mod xml_events;
pub mod xml_read;
