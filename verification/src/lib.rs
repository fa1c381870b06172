//! The logic of the Bugsee build tool.

pub mod build_env;
pub mod calendar;
pub mod cli;
pub mod compress;
pub mod debug_files;
pub mod decimals;
pub mod dep_entry;
pub mod dep_merge;
pub mod digest;
pub mod double;
pub mod dsym;
pub mod env;
pub mod error;
pub mod exclude;
pub mod exit_code;
pub mod ids;
pub mod inject;
pub mod inject_run;
pub mod intervals;
pub mod ios_deps;
pub mod json;
pub mod manifests;
pub mod numeral;
pub mod order;
pub mod pack;
pub mod path_order;
pub mod paths;
pub mod patterns;
pub mod plist;
pub mod podfile;
pub mod post_action;
pub mod registration;
pub mod size_check;
pub mod slf;
pub mod sorting;
pub mod sri;
pub mod symbol_run;
pub mod text;
pub mod timeline;
pub mod titles;
pub mod update;
pub mod upload;
pub mod vcs_metadata;
pub mod xcactivitylog;
pub mod xcode;
pub mod xcode_app;
pub mod xcode_ipa;
