//! Where uploaded files are served from.
//!
//! Writing and reading the files themselves is done by the application; the
//! library holds the store's layout and the URL each key is served at.
use vstd::prelude::*;

use crate::text::string_of;
use vstd::string::StringExecFns;

verus! {

/// A store that can name the URL path serving each stored key.
pub trait ObjectStore {
    /// The URL path that serves the file stored under `key`.
    fn url_path(&self, key: &str) -> String;
}

/// Local filesystem object store: files live under `base_dir/{key}` and are
/// served under `serve_prefix/{key}`.
pub struct LocalFileStore {
    base_dir: String,
    serve_prefix: String,
}

impl LocalFileStore {
    /// A store rooted at `base_dir` (which the caller has created), serving
    /// paths under `serve_prefix` (e.g. `"/api/v1/uploads"`).
    pub fn from_parts(base_dir: String, serve_prefix: &str) -> (s: Self)
        ensures
            s.base_dir() == base_dir@,
            s.serve_prefix() == serve_prefix@,
    {
        LocalFileStore { base_dir, serve_prefix: string_of(serve_prefix) }
    }

    /// Directory the files are written under.
    pub closed spec fn base_dir(&self) -> Seq<char> {
        self.base_dir@
    }

    /// Prefix of the URL paths the files are served at.
    pub closed spec fn serve_prefix(&self) -> Seq<char> {
        self.serve_prefix@
    }

    /// Directory the files are written under.
    pub fn base_dir_str(&self) -> (r: &str)
        ensures
            r@ == self.base_dir(),
    {
        self.base_dir.as_str()
    }

    /// The URL path serving `key`: the prefix, a slash, then the key.
    pub fn served_at(&self, key: &str) -> (r: String)
        ensures
            r@ == self.serve_prefix() + "/"@ + key@,
    {
        let mut r = self.serve_prefix.clone();
        r.append("/");
        r.append(key);
        r
    }
}

impl ObjectStore for LocalFileStore {
    fn url_path(&self, key: &str) -> (r: String)
        ensures
            r@ == self.serve_prefix() + "/"@ + key@,
    {
        self.served_at(key)
    }
}

} // verus!
