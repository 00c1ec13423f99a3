//! The filesystem layout under the data root, built as plain strings.
//! The surrounding binary decides where the root is (environment, home
//! directory) and performs all directory creation.

use vstd::prelude::*;

use crate::numfmt::{format_u64_pad, spec_dec_pad};

verus! {

/// `a` and `b` joined with a single path separator.
pub open spec fn spec_join(a: Seq<char>, b: Seq<char>) -> Seq<char> {
    a + "/"@ + b
}

/// Joins two path fragments with a separator.
pub fn join(a: &str, b: &str) -> (r: String)
    ensures
        r@ == spec_join(a@, b@),
{
    let mut s = a.to_owned();
    s.append("/");
    s.append(b);
    s
}

/// The file locations the system uses under one data root.
pub struct DataPaths {
    pub root: String,
    pub versions: String,
    pub files: String,
    pub index: String,
    pub daemon_pid: String,
    pub daemon_log: String,
}

/// The fields a well-formed `DataPaths` holds for its root.
pub open spec fn paths_wf(p: DataPaths) -> bool {
    &&& p.versions@ == spec_join(p.root@, "versions"@)
    &&& p.files@ == spec_join(p.root@, "files"@)
    &&& p.index@ == spec_join(p.root@, "index.json"@)
    &&& p.daemon_pid@ == spec_join(p.root@, "daemon.pid"@)
    &&& p.daemon_log@ == spec_join(p.root@, "daemon.log"@)
}

/// The relative location of one immutable version blob: the slug's
/// directory under `versions/`, and a seven-digit zero-padded file name.
pub open spec fn spec_version_rel_path(slug: Seq<char>, v: int) -> Seq<char> {
    "versions/"@ + slug + "/"@ + spec_dec_pad(v, 7) + ".md"@
}

/// Builds the relative blob path for a version of a note.
pub fn version_rel_path(slug: &str, v: u32) -> (r: String)
    ensures
        r@ == spec_version_rel_path(slug@, v as int),
{
    let mut s = "versions/".to_owned();
    s.append(slug);
    s.append("/");
    let pad = format_u64_pad(v as u64, 7);
    s.append(pad.as_str());
    s.append(".md");
    s
}

impl DataPaths {
    /// Lays the fixed file names out under the given root directory.
    pub fn new(root: String) -> (r: DataPaths)
        ensures
            paths_wf(r),
            r.root@ == root@,
    {
        let versions = join(root.as_str(), "versions");
        let files = join(root.as_str(), "files");
        let index = join(root.as_str(), "index.json");
        let daemon_pid = join(root.as_str(), "daemon.pid");
        let daemon_log = join(root.as_str(), "daemon.log");
        DataPaths { root, versions, files, index, daemon_pid, daemon_log }
    }

    /// Where the mutable working copy of a note lives.
    pub fn working_file(&self, slug: &str) -> (r: String)
        ensures
            r@ == self.files@ + "/"@ + slug@ + ".md"@,
    {
        let mut s = self.files.clone();
        s.append("/");
        s.append(slug);
        s.append(".md");
        s
    }

    /// A version blob's absolute location under this root.
    pub fn blob_path(&self, rel: &str) -> (r: String)
        ensures
            r@ == spec_join(self.root@, rel@),
    {
        join(self.root.as_str(), rel)
    }

    /// The root of the bullet-journal sibling layout.
    pub fn journal_root(&self) -> (r: String)
        ensures
            r@ == spec_join(self.root@, "journal"@),
    {
        join(self.root.as_str(), "journal")
    }

    /// The journal's own index file.
    pub fn journal_index(&self) -> (r: String)
        ensures
            r@ == spec_join(spec_join(self.root@, "journal"@), "index.json"@),
    {
        let jr = self.journal_root();
        join(jr.as_str(), "index.json")
    }

    /// The directory of daily journal files.
    pub fn journal_daily_dir(&self) -> (r: String)
        ensures
            r@ == spec_join(spec_join(self.root@, "journal"@), "daily"@),
    {
        let jr = self.journal_root();
        join(jr.as_str(), "daily")
    }

    /// The directory of weekly journal files.
    pub fn journal_weekly_dir(&self) -> (r: String)
        ensures
            r@ == spec_join(spec_join(self.root@, "journal"@), "weekly"@),
    {
        let jr = self.journal_root();
        join(jr.as_str(), "weekly")
    }

    /// The directory of monthly journal files.
    pub fn journal_monthly_dir(&self) -> (r: String)
        ensures
            r@ == spec_join(spec_join(self.root@, "journal"@), "monthly"@),
    {
        let jr = self.journal_root();
        join(jr.as_str(), "monthly")
    }
}

} // verus!
