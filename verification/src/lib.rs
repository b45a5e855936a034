//! Planning core of a synthetic dataset generator.
use vstd::prelude::*;

pub mod accumulate;
pub mod assembly;
pub mod bits;
pub mod check_laws;
pub mod column_laws;
pub mod columns;
pub mod constraints;
pub mod corrupt;
pub mod cover;
pub mod cover_laws;
pub mod dates;
pub mod dq;
pub mod draw_laws;
pub mod draws;
pub mod expand_variants;
pub mod expr_analysis;
pub mod expressions;
pub mod fakers;
pub mod gather_laws;
pub mod generator;
pub mod graph;
pub mod group;
pub mod import;
pub mod import_laws;
pub mod json;
pub mod layout_laws;
pub mod list_norm;
pub mod lists;
pub mod message;
pub mod model_laws;
pub mod models;
pub mod order;
pub mod output;
pub mod output_laws;
pub mod path_laws;
pub mod paths;
pub mod plan;
pub mod plan_laws;
pub mod quality_laws;
pub mod rewrite;
pub mod rewrite_laws;
pub mod row_plan;
pub mod run;
pub mod run_laws;
pub mod schema;
pub mod segment;
pub mod segment_laws;
pub mod shares;
pub mod table;
pub mod text;
pub mod text_laws;
pub mod text_map;
pub mod validate;
pub mod validate_field;
pub mod validate_flatten;
pub mod validate_links;
pub mod validate_quality;
pub mod variant_laws;

verus! {

} // verus!
