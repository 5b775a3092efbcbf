//! `awsdiag cache`: inspect and clear the credential cache.
//!
//! Credentials on disk should never be a black box. `status` says what is
//! stored and when it expires; `clear` removes it. Entries are keyed by a
//! hash of the profile name, so `status` reports what it can see without
//! claiming to know which profile an entry belongs to.

use crate::cmd::records::count_tree;
use crate::common::credcache::{holds_entry, is_entry, usable_until, var_text, Entry};
use crate::common::envelope::Envelope;
use crate::common::time::Instant;
use crate::json::{self, fields_of, text_or_null, Json, JsonTree};
use crate::order::{names_are_ordered, ordered, sort, Ordered, Sortable};
use crate::output::{instant_opt, instant_or_null, valid_opt, Record};
use crate::text::{less_str, text_less};
use vstd::prelude::*;

verus! {

/// One file of the cache.
#[derive(Debug)]
pub struct CacheEntry {
    pub file: String,
    pub expires_at: Option<Instant>,
    pub usable: bool,
}

/// A file found in the cache directory, with what it holds; nothing where it
/// cannot be read as an entry.
#[derive(Debug)]
pub struct FoundFile {
    pub name: String,
    pub entry: Option<Entry>,
}

/// The expiry of what was read.
pub open spec fn expiry(entry: Option<Entry>) -> Option<Instant> {
    match entry {
        Some(e) => e.expires_at,
        None => None,
    }
}

/// Whether a row tells of a file. A malformed entry is still worth reporting:
/// it explains why a profile keeps missing the cache.
pub open spec fn tells_of(row: CacheEntry, file: FoundFile, now: Instant) -> bool {
    &&& row.file@ == file.name@
    &&& row.expires_at == expiry(file.entry)
    &&& row.usable == usable_until(expiry(file.entry), now)
}

/// The files that hold entries.
pub open spec fn entry_files(files: Seq<FoundFile>) -> Seq<FoundFile>
    decreases files.len(),
{
    if files.len() == 0 {
        Seq::empty()
    } else if holds_entry(files.last().name@) {
        entry_files(files.drop_last()).push(files.last())
    } else {
        entry_files(files.drop_last())
    }
}

impl Ordered for CacheEntry {
    /// By file.
    open spec fn before(self, other: CacheEntry) -> bool {
        text_less(self.file@, other.file@)
    }

    proof fn is_weak_order(a: CacheEntry, b: CacheEntry, c: CacheEntry) {
        names_are_ordered(a.file@, b.file@, c.file@);
    }
}

impl Sortable for CacheEntry {
    fn precedes(&self, other: &CacheEntry) -> (r: bool) {
        less_str(self.file.as_str(), other.file.as_str())
    }
}

/// Whether rows tell of the entry files, one each and in their sequence.
pub open spec fn tell_of(rows: Seq<CacheEntry>, files: Seq<FoundFile>, now: Instant) -> bool {
    &&& rows.len() == entry_files(files).len()
    &&& forall|i: int|
        0 <= i < rows.len() ==> tells_of(#[trigger] rows[i], entry_files(files)[i], now)
}

/// Describe the entry files of a directory.
pub fn describe(files: Vec<FoundFile>, now: Instant) -> (r: Vec<CacheEntry>)
    requires
        now.valid(),
    ensures
        tell_of(r@, files@, now),
{
    let mut rows: Vec<CacheEntry> = Vec::new();
    let mut i: usize = 0;
    while i < files.len()
        invariant
            i <= files@.len(),
            now.valid(),
            tell_of(rows@, files@.take(i as int), now),
        decreases files@.len() - i,
    {
        let file = &files[i];
        let ghost rows0 = rows@;
        proof {
            assert(files@.take(i + 1).drop_last() == files@.take(i as int));
            assert(files@.take(i + 1).last() == files@[i as int]);
        }
        if is_entry(file.name.as_str()) {
            let (expires_at, usable) = match &file.entry {
                Some(e) => (e.expires_at, e.is_usable_at(now)),
                None => (None, false),
            };
            rows.push(CacheEntry { file: file.name.as_str().to_owned(), expires_at, usable });
            proof {
                let told = entry_files(files@.take(i + 1));
                assert forall|k: int| 0 <= k < rows@.len() implies tells_of(
                    #[trigger] rows@[k],
                    told[k],
                    now,
                ) by {
                    if k < rows0.len() {
                        assert(rows@[k] == rows0[k]);
                        assert(told[k] == entry_files(files@.take(i as int))[k]);
                    }
                }
            }
        }
        i += 1;
    }
    proof {
        assert(files@.take(i as int) == files@);
    }
    rows
}

/// The parameters a status reports.
pub open spec fn status_params(dir: Option<Seq<char>>) -> JsonTree {
    JsonTree::Object(seq![("dir"@, text_or_null(dir))])
}

/// What `cache status` returns for the files found in the cache directory;
/// nothing where there is no such directory.
pub fn status(now: Instant, dir: Option<&str>, files: Vec<FoundFile>) -> (r: Envelope<CacheEntry>)
    requires
        now.valid(),
    ensures
        r.sound(),
        r.command@ == "cache status"@,
        !r.truncated,
        r.params@ == status_params(var_text(dir)),
        dir is None ==> r.data@.len() == 0,
        dir is Some ==> exists|rows: Seq<CacheEntry>| #[trigger]
            tell_of(rows, files@, now) && r.data@ == ordered(rows),
{
    let mut params: Vec<(String, Json)> = Vec::new();
    json::put(&mut params, "dir", json::text_opt(dir));
    proof {
        assert(fields_of(params@) =~= status_params(var_text(dir))->Object_0);
    }
    let params = json::object(params);
    match dir {
        Some(_) => {
            let rows = describe(files, now);
            Envelope::new("cache status", params, sort(rows))
        },
        None => Envelope::new("cache status", params, Vec::new()),
    }
}

/// How many rows are usable.
pub open spec fn usable(rows: Seq<CacheEntry>) -> nat
    decreases rows.len(),
{
    if rows.len() == 0 {
        0
    } else {
        usable(rows.drop_last()) + if rows.last().usable {
            1nat
        } else {
            0
        }
    }
}

/// Count the usable rows.
pub fn count_usable(rows: &Vec<CacheEntry>) -> (r: usize)
    ensures
        r == usable(rows@),
        r <= rows@.len(),
{
    let len = rows.len();
    let mut n: usize = 0;
    let mut i: usize = 0;
    while i < len
        invariant
            len == rows@.len(),
            i <= len,
            n <= i,
            n == usable(rows@.take(i as int)),
        decreases len - i,
    {
        proof {
            assert(rows@.take(i + 1).drop_last() == rows@.take(i as int));
            assert(rows@.take(i + 1).last() == rows@[i as int]);
        }
        if rows[i].usable {
            n += 1;
        }
        i += 1;
    }
    proof {
        assert(rows@.take(i as int) == rows@);
    }
    n
}

impl Record for CacheEntry {
    open spec fn presentable(&self) -> bool {
        valid_opt(self.expires_at)
    }

    open spec fn shape(&self) -> JsonTree {
        JsonTree::Object(
            seq![
                ("file"@, JsonTree::Text(self.file@)),
                ("expires_at"@, instant_or_null(self.expires_at)),
                ("usable"@, JsonTree::Bool(self.usable)),
            ],
        )
    }

    fn record(&self) -> (r: Json) {
        let mut fields: Vec<(String, Json)> = Vec::new();
        json::put(&mut fields, "file", json::text(self.file.as_str()));
        json::put(&mut fields, "expires_at", instant_opt(self.expires_at));
        json::put(&mut fields, "usable", Json::Bool(self.usable));
        proof {
            assert(fields_of(fields@) =~= self.shape()->Object_0);
        }
        json::object(fields)
    }
}

/// What a clearing removed, and from where.
#[derive(Debug)]
pub struct Cleared {
    pub removed: usize,
    pub dir: String,
}

impl Record for Cleared {
    open spec fn presentable(&self) -> bool {
        true
    }

    open spec fn shape(&self) -> JsonTree {
        JsonTree::Object(
            seq![("removed"@, count_tree(self.removed)), ("dir"@, JsonTree::Text(self.dir@))],
        )
    }

    fn record(&self) -> (r: Json) {
        let mut fields: Vec<(String, Json)> = Vec::new();
        json::put(&mut fields, "removed", json::count(self.removed));
        json::put(&mut fields, "dir", json::text(self.dir.as_str()));
        proof {
            assert(fields_of(fields@) =~= self.shape()->Object_0);
        }
        json::object(fields)
    }
}

/// What `cache clear` returns once so many files were removed.
pub fn clear(dir: &str, removed: usize) -> (r: Envelope<Cleared>)
    ensures
        r.sound(),
        r.command@ == "cache clear"@,
        !r.truncated,
        r.params@ == JsonTree::Object(Seq::empty()),
        r.data@.len() == 1,
        r.data@[0].removed == removed,
        r.data@[0].dir@ == dir@,
{
    let fields: Vec<(String, Json)> = Vec::new();
    proof {
        assert(fields_of(fields@) =~= Seq::empty());
    }
    let params = json::object(fields);
    let mut rows: Vec<Cleared> = Vec::new();
    rows.push(Cleared { removed, dir: dir.to_owned() });
    Envelope::new("cache clear", params, rows)
}

} // verus!
