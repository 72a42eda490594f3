//! The run's settings, as the command line gives them.
use vstd::prelude::*;

verus! {

/// What to do when an output path is already taken.
#[derive(Debug, Clone, Copy, PartialEq, Eq, Structural)]
pub enum CollisionPolicy {
    /// Stop writing the colliding sprite and report an error.
    Error,
    /// Keep the existing file and skip the new sprite.
    Skip,
    /// Replace a file that existed before this run.
    Overwrite,
    /// Append _2, _3, and so on until the name is unique.
    Rename,
}

impl Default for CollisionPolicy {
    fn default() -> (r: Self)
        ensures
            r == CollisionPolicy::Rename,
    {
        CollisionPolicy::Rename
    }
}

/// The settings of a run. Paths are text with `/` between components.
#[derive(Debug)]
pub struct Cli {
    /// PNG file or directory to scan.
    pub input: String,
    /// Root directory for exported sprites.
    pub output: String,
    /// Search all subdirectories under the input directory.
    pub recursive: bool,
    /// Number of worker threads; 0 uses the number of available CPU cores.
    pub jobs: usize,
    /// Globs of PNG paths to include, relative to the input directory.
    pub include_globs: Vec<String>,
    /// Globs of paths to exclude, relative to the input directory.
    pub exclude: Vec<String>,
    /// Do not apply the built-in Unity project directory exclusions.
    pub no_default_excludes: bool,
    /// Follow directory symlinks while scanning.
    pub follow_links: bool,
    /// Output directory template relative to the output root.
    pub path_template: String,
    /// Output filename template; `.png` is added when omitted.
    pub name_template: String,
    /// How to handle an output path that already exists.
    pub collision: CollisionPolicy,
    /// Plan output paths without creating files or directories.
    pub dry_run: bool,
    /// Stop starting new work after the first processing error.
    pub fail_fast: bool,
    /// Print every discovered sheet and exported sprite.
    pub verbose: bool,
}

} // verus!
