use vstd::prelude::*;

pub mod text;
pub mod wit_common;
pub mod hashtools;
pub mod textkit;
pub mod ts_types;
pub mod ts_emit;
pub mod diagnostic;
pub mod ts_collect;
pub mod ts_syntax;
pub mod ts_branded;
pub mod ts_mapper;
pub mod rs_syntax;
pub mod rs_macros_extract;
pub mod rs_macros_wit;
pub mod rs_emit;
pub mod rs_auto;
pub mod ts_project;
pub mod ts_graph;
pub mod ts_parse;
pub mod ts_cli;
pub mod rs_resolve;
pub mod rs_discover;
pub mod rs_glue;
pub mod rs_glue_gen;
pub mod rs_wit_map;
pub mod cli;

verus! {

} // verus!
