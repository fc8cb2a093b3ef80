//! Scene preparation: unpacking packaged Scenes, the source inventory, the
//! reference scan and the rules a staged Scene package must meet.

pub mod package_input;
pub mod references;
pub mod reference_closure;
pub mod source_tree;
pub mod compat_shader;
pub mod package;
pub mod manifest;
pub mod js_lex;
pub mod script_rules;
pub mod js_literal;
pub mod storage_rules;
pub mod script_rewrite;
pub mod mobile_input;
