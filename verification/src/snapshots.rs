use vstd::prelude::*;
use vstd::string::StringExecFns;
use crate::text::{append_str, chars_of, decimal, push_decimal, string_from_chars};

verus! {

/// Materializes read-only copies of the analytics store under a root directory.
#[derive(Debug, Clone)]
pub struct AnalyticsSnapshotManager {
    root: String,
}

/// `name` joined under the directory `root`, as `Path::join` joins a relative name on Unix.
pub open spec fn path_join(root: Seq<char>, name: Seq<char>) -> Seq<char> {
    if root.len() == 0 || root.last() == '/' {
        root + name
    } else {
        root + seq!['/'] + name
    }
}

/// The file a snapshot is written to.
pub open spec fn snapshot_file(root: Seq<char>, snapshot_id: u64) -> Seq<char> {
    path_join(root, "snapshot-"@ + decimal(snapshot_id as nat) + ".duckdb"@)
}

impl AnalyticsSnapshotManager {
    /// The directory snapshots are written under.
    pub closed spec fn root_dir(&self) -> Seq<char> {
        self.root@
    }

    pub fn new(root: &str) -> (r: Self)
        ensures
            r.root_dir() == root@,
    {
        AnalyticsSnapshotManager { root: String::from_str(root) }
    }

    /// Where the snapshot with this id is materialized.
    pub fn snapshot_target(&self, snapshot_id: u64) -> (r: String)
        ensures
            r@ == snapshot_file(self.root_dir(), snapshot_id),
    {
        let mut out = chars_of(self.root.as_str());
        let n = out.len();
        if n > 0 && out[n - 1] != '/' {
            out.push('/');
        }
        append_str(&mut out, "snapshot-");
        push_decimal(&mut out, snapshot_id);
        append_str(&mut out, ".duckdb");
        string_from_chars(&out)
    }
}

} // verus!
