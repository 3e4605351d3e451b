pub mod aggregator;
pub mod aterm;
pub mod aterm_reading;
pub mod bench_profile;
pub mod bench_report;
pub mod bootstrap;
pub mod build_output;
pub mod cargo_unit;
pub mod closure;
pub mod daemon;
pub mod decoupling;
pub mod derivation;
pub mod derivation_format;
pub mod diagnostics;
pub mod directive_laws;
pub mod doc_laws;
pub mod extract;
pub mod graph;
pub mod graph_laws;
pub mod hash;
pub mod json;
pub mod json_record;
pub mod json_text;
pub mod lists;
pub mod manifest;
pub mod manifest_laws;
pub mod merge_laws;
pub mod nar;
pub mod nar_reading;
pub mod nix_encoding;
pub mod path_deps;
pub mod paths;
pub mod pipeline;
pub mod placeholder;
pub mod plan;
pub mod planner;
pub mod profile_report;
pub mod registration;
pub mod report_laws;
pub mod resolution;
pub mod run_laws;
pub mod run_script;
pub mod runner;
pub mod sandbox_laws;
pub mod script_laws;
pub mod scripts;
pub mod setup;
pub mod shell;
pub mod skeleton;
pub mod slices;
pub mod sources;
pub mod store_laws;
pub mod strmap;
pub mod text;
pub mod toml_doc;
pub mod tool_laws;
pub mod toolchain;
pub mod toposort;
pub mod unify;
pub mod unit_key;
pub mod unit_laws;
pub mod units;
pub mod util;
pub mod wording;
pub mod work_laws;
