//! Verified core of a tool that exports the sprites of sliced Unity sprite
//! sheets, using the slicing data in each texture's `.meta` file.
//!
//! Everything here computes on plain values; reading files, walking
//! directories, decoding and saving images and running work in parallel are
//! left to the program around it, which passes in what it learns (for example
//! whether a path exists) and carries out what is decided here.
pub mod allocator;
pub mod cli;
pub mod discovery;
pub mod globs;
pub mod naming;
pub mod paths;
pub mod processor;
pub mod text;
pub mod unity_meta_file;

pub use allocator::{unique_candidate, Allocation, OutputAllocator};
pub use cli::{Cli, CollisionPolicy};
pub use discovery::{
    add_file, build_filters, discover_file, meta_path_for, select_entry, should_visit, slash_path,
    sort_sheets, Discovery, PathFilters, SpriteSheetFiles,
};
pub use naming::{render_output_path, sanitize_component, validate_templates, NamingContext};
pub use processor::{
    crop_sprite, plan_export, sheet_name, sprite_region, validate_rect, CropRegion, ExportOutcome,
    ExportPlan, SheetReport, SheetRun, SheetStep, Summary, Transition,
};
pub use unity_meta_file::{SpriteData, SpriteRect, SpriteSheet, TextureImporter, UnityMetaFile};
