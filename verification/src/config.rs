use vstd::prelude::*;

use crate::text::{chars_of, push_str};

verus! {

/// `base` joined with `name` as `Path::join` does on Unix: an absolute `name`
/// replaces `base`; otherwise a `/` separates them unless `base` is empty or
/// already ends with one.
pub open spec fn join_spec(base: Seq<char>, name: Seq<char>) -> Seq<char> {
    if name.len() > 0 && name[0] == '/' {
        name
    } else if base.len() == 0 || base.last() == '/' {
        base + name
    } else {
        base + seq!['/'] + name
    }
}

/// `base` joined with `name` as a path.
pub fn join_path(base: &str, name: &str) -> (r: String)
    ensures
        r@ == join_spec(base@, name@),
{
    let b = chars_of(base);
    let n = chars_of(name);
    let mut r = String::new();
    if n.len() > 0 && n[0] == '/' {
        push_str(&mut r, name);
        return r;
    }
    push_str(&mut r, base);
    if b.len() > 0 && b[b.len() - 1] != '/' {
        push_str(&mut r, "/");
        proof {
            reveal_strlit("/");
        }
    }
    push_str(&mut r, name);
    r
}

/// The service's settings.
#[derive(Clone, Debug)]
pub struct Config {
    /// Address to listen on.
    pub bind: String,
    /// Directory holding originals, cache and database.
    pub data_dir: String,
    /// SQLite database URL.
    pub database_url: String,
    /// Bytes the transform cache may hold.
    pub cache_max_bytes: u64,
    /// Largest accepted upload, in bytes.
    pub max_upload_bytes: usize,
    pub admin_user: String,
    pub admin_password: String,
}

impl Config {
    /// The directory of original files: `originals` under the data directory.
    pub fn originals_dir(&self) -> (d: String)
        ensures
            d@ == join_spec(self.data_dir@, "originals"@),
    {
        join_path(self.data_dir.as_str(), "originals")
    }

    /// The directory of transformed variants: `cache` under the data directory.
    pub fn cache_dir(&self) -> (d: String)
        ensures
            d@ == join_spec(self.data_dir@, "cache"@),
    {
        join_path(self.data_dir.as_str(), "cache")
    }
}

} // verus!
