//! Verified core of the H7CAD file-I/O layer.

pub mod text;
pub mod string_map;
pub mod cui;
pub mod diagnostics;
pub mod open_error;
pub mod native_codes;
pub mod mtext;
pub mod svg_export;
pub mod pdf_export;
pub mod color_policy;
pub mod pid_store;
pub mod pid_verify;
pub mod pid_publish;
pub mod pid_report;
pub mod publish_xml;
pub mod leader_roots;
pub mod preview_index;
pub mod raster;
pub mod pid_layout;
pub mod pid_panels;
pub mod path_order;
