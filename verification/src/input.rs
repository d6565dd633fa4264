//! Descriptions of where a cast comes from.  Opening files and fetching
//! URLs happen outside the library; these types only carry the choice.

use vstd::prelude::*;

verus! {

/// Where a recording lives: a local file or a remote recording id.
#[derive(Debug)]
pub enum InputSource {
    File(String),
    RemoteId(String),
}

/// A local cast file.
#[derive(Debug)]
pub struct FileInput {
    pub path: String,
}

impl FileInput {
    pub fn new(path: String) -> (r: FileInput)
        ensures
            r.path == path,
    {
        FileInput { path }
    }
}

/// A recording on a remote server; the default server is asciinema.org.
#[derive(Debug)]
pub struct RemoteInput {
    pub id: String,
    pub server: String,
}

impl RemoteInput {
    pub fn new(id: String, server: Option<String>) -> (r: RemoteInput)
        ensures
            r.id == id,
            match server {
                Some(s) => r.server == s,
                None => r.server@ == "https://asciinema.org"@,
            },
    {
        let server = match server {
            Some(s) => s,
            None => String::from_str("https://asciinema.org"),
        };
        RemoteInput { id, server }
    }
}

} // verus!
