use vstd::prelude::*;

verus! {

/// Startup configuration: where the two record directories live.
pub struct Config {
    /// Directory holding the active records.
    pub polars_dir: String,
    /// Directory holding the archived (soft-deleted) records.
    pub archived_dir: String,
}

impl Default for Config {
    /// An empty configuration: both directory paths are empty strings.
    fn default() -> (c: Config)
        ensures
            c.polars_dir@ == Seq::<char>::empty(),
            c.archived_dir@ == Seq::<char>::empty(),
    {
        Config { polars_dir: String::new(), archived_dir: String::new() }
    }
}

} // verus!
