//! The persisted configuration record as the engine reads and updates it
//! in memory, and the header check a database file must pass before it
//! may become the active path. Loading and saving the record are plain
//! file I/O and live with the caller.

use vstd::prelude::*;
use vstd::string::StrSliceExecFns;
use vstd::string::StringExecFns;

use crate::domain::AppError;

verus! {

/// The configuration record: active database path, optional browser
/// source path, how many top sites to report, and when it last changed.
pub struct AppConfig {
    pub db_path: Option<String>,
    pub browser_db_path: Option<String>,
    pub top_sites_count: u32,
    pub last_updated: i64,
}

/// How many top sites are reported when nothing else is configured.
pub fn default_top_sites_count() -> (r: u32)
    ensures
        r == 6,
{
    6
}

impl AppConfig {
    /// A fresh record with no paths, stamped with the given time.
    pub fn new_at(now: i64) -> (c: AppConfig)
        ensures
            c.db_path is None,
            c.browser_db_path is None,
            c.top_sites_count == 6,
            c.last_updated == now,
    {
        AppConfig { db_path: None, browser_db_path: None, top_sites_count: 6, last_updated: now }
    }

    /// The active database path, if one is recorded.
    pub fn get_db_path(&self) -> (r: Option<String>)
        ensures
            r is Some <==> self.db_path is Some,
            r is Some ==> r->0@ == self.db_path->0@,
    {
        match &self.db_path {
            Some(p) => Some(p.clone()),
            None => None,
        }
    }

    /// Records a new active database path and stamps the change.
    pub fn set_db_path(&mut self, path: String, now: i64)
        ensures
            final(self).db_path == Some(path),
            final(self).browser_db_path == old(self).browser_db_path,
            final(self).top_sites_count == old(self).top_sites_count,
            final(self).last_updated == now,
    {
        self.db_path = Some(path);
        self.last_updated = now;
    }

    /// Records the browser source database path and stamps the change.
    pub fn set_browser_db_path(&mut self, path: String, now: i64)
        ensures
            final(self).browser_db_path == Some(path),
            final(self).db_path == old(self).db_path,
            final(self).top_sites_count == old(self).top_sites_count,
            final(self).last_updated == now,
    {
        self.browser_db_path = Some(path);
        self.last_updated = now;
    }

    /// Records how many top sites to report; only 1..=50 is accepted.
    pub fn set_top_sites_count(&mut self, count: u32, now: i64) -> (r: Result<(), AppError>)
        ensures
            ((count == 0 || count > 50) <==> r is Err),
            r is Err ==> r->Err_0 is Invalid && *final(self) == *old(self),
            r is Ok ==> final(self).top_sites_count == count && final(self).last_updated == now
                && final(self).db_path == old(self).db_path && final(self).browser_db_path == old(
                self,
            ).browser_db_path,
    {
        if count == 0 || count > 50 {
            return Err(AppError::Invalid(String::from_str("top site count must be in 1..=50")));
        }
        self.top_sites_count = count;
        self.last_updated = now;
        Ok(())
    }
}

/// The sixteen-byte signature every SQLite database file starts with.
pub open spec fn spec_valid_header(s: Seq<u8>) -> bool {
    s.len() >= 16 && s[0] == 83 && s[1] == 81 && s[2] == 76 && s[3] == 105 && s[4] == 116 && s[5]
        == 101 && s[6] == 32 && s[7] == 102 && s[8] == 111 && s[9] == 114 && s[10] == 109 && s[11]
        == 97 && s[12] == 116 && s[13] == 32 && s[14] == 51 && s[15] == 0
}

/// Whether file content begins with the SQLite signature. The caller
/// reads the file; this checks the bytes.
pub fn validate_db_header(content: &Vec<u8>) -> (r: bool)
    ensures
        r == spec_valid_header(content@),
{
    if content.len() < 16 {
        return false;
    }
    content[0] == 83 && content[1] == 81 && content[2] == 76 && content[3] == 105 && content[4]
        == 116 && content[5] == 101 && content[6] == 32 && content[7] == 102 && content[8] == 111
        && content[9] == 114 && content[10] == 109 && content[11] == 97 && content[12] == 116
        && content[13] == 32 && content[14] == 51 && content[15] == 0
}

/// Whether a sibling file is a stale database copy: it carries the `.db`
/// suffix with a nonempty stem, and is not the active file's name.
pub open spec fn spec_is_stale_db_file(name: Seq<char>, current: Seq<char>) -> bool {
    name.len() > 3 && name.skip(name.len() - 3) == ".db"@ && name != current
}

/// Exec counterpart of [`spec_is_stale_db_file`].
pub fn is_stale_db_file(name: &str, current: &str) -> (r: bool)
    ensures
        r == spec_is_stale_db_file(name@, current@),
{
    let len = name.unicode_len();
    if len <= 3 {
        return false;
    }
    proof {
        reveal_strlit(".db");
    }
    let suffix_ok = name.get_char(len - 3) == '.' && name.get_char(len - 2) == 'd'
        && name.get_char(len - 1) == 'b';
    if !suffix_ok {
        proof {
            assert(name@.skip(len - 3) != ".db"@) by {
                if name@.skip(len - 3) == ".db"@ {
                    assert(name@.skip(len - 3)[0] == name@[len - 3]);
                    assert(name@.skip(len - 3)[1] == name@[len - 2]);
                    assert(name@.skip(len - 3)[2] == name@[len - 1]);
                }
            }
        }
        return false;
    }
    proof {
        assert(name@.skip(len - 3) =~= ".db"@);
    }
    !crate::text::str_eq_str(name, current)
}

} // verus!
