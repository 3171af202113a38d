use vstd::prelude::*;

use crate::text::with_text;

verus! {

/// Where chunks are kept on disk: `<base_dir>/chunks/<hash>.chunk`, with
/// scratch files under `<base_dir>/temp`. The files themselves are written and
/// read by the caller.
pub struct StorageEngine {
    base_dir: String,
}

impl StorageEngine {
    /// The base directory.
    pub closed spec fn dir(&self) -> Seq<char> {
        self.base_dir@
    }

    pub fn new(base_dir: String) -> (e: StorageEngine)
        ensures
            e.dir() == base_dir@,
    {
        StorageEngine { base_dir }
    }

    /// The base directory.
    pub fn base_dir(&self) -> (d: &String)
        ensures
            d@ == self.dir(),
    {
        &self.base_dir
    }

    /// The subdirectory of the chunks.
    pub fn chunks_dir_name() -> (s: &'static str)
        ensures
            s@ == "chunks"@,
    {
        "chunks"
    }

    /// The subdirectory of scratch files.
    pub fn temp_dir_name() -> (s: &'static str)
        ensures
            s@ == "temp"@,
    {
        "temp"
    }

    /// The file name of the chunk `chunk_hash`.
    pub fn chunk_file_name(chunk_hash: &str) -> (s: String)
        ensures
            s@ == chunk_hash@ + ".chunk"@,
    {
        let mut s = String::from_str(chunk_hash);
        s.append(".chunk");
        s
    }
}

} // verus!
