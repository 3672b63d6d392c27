//! The configuration data structure and its defaults.

use vstd::prelude::*;

verus! {

/// The board parameters: the served board's name and its history size.
pub struct BoardParams {
    pub name: String,
    pub history_size: usize,
}

/// The storage parameters: where the data files are saved.
pub struct StorageParams {
    pub data_dir: String,
}

/// The root of the configuration structure.
pub struct Config {
    pub board: BoardParams,
    pub storage: StorageParams,
}

/// Builds the default configuration: a board named "oxyboard" keeping 512
/// posts, with its data under "data".
pub fn default() -> (r: Config)
    ensures
        r.board.name@ == "oxyboard"@,
        r.board.history_size == 512usize,
        r.storage.data_dir@ == "data"@,
{
    Config {
        board: BoardParams { name: "oxyboard".to_owned(), history_size: 512 },
        storage: StorageParams { data_dir: "data".to_owned() },
    }
}

} // verus!
