use vstd::prelude::*;

verus! {

/// Where the tracker keeps its document.
#[derive(Debug, Clone)]
pub struct AppConfig {
    /// Path of the JSON data file.
    pub data_file: String,
}

} // verus!
