use vstd::prelude::*;

pub mod component_graphics;
pub mod drill;
pub mod excellon;
pub mod export_names;
pub mod footprint_import;
pub mod forward_annotation;
pub mod forward_annotation_apply;
pub mod forward_annotation_audit;
pub mod forward_annotation_select;
pub mod geometry;
pub mod ids;
pub mod imports;
pub mod inspect;
pub mod inventory;
pub mod inventory_csv;
pub mod journal;
pub mod library;
pub mod gerber;
pub mod gerber_entries;
pub mod manufacturing;
pub mod models;
pub mod object_updates;
pub mod ordering;
pub mod output_job_runs;
pub mod part_edits;
pub mod pin_pad_map;
pub mod pool;
pub mod pool_models;
pub mod pool_search;
pub mod render;
pub mod review_store;
pub mod silkscreen_primitives;
pub mod stackup;
pub mod tally;
pub mod text;

verus! {
}
