//! The assessment cache: assessments keyed by repository path, each valid
//! while the repository's `.git` directory keeps the modification time it
//! had when the assessment was stored.
use vstd::prelude::*;
use crate::assess::Assessment;
use crate::config::spec_ward_home;
use crate::paths::{join, spec_join};
use crate::text::{chars_eq, chars_of};

verus! {

/// One cached assessment: the repository path it is keyed by, and the
/// `.git` modification time (seconds since the epoch) it was made at.
pub struct Entry {
    pub key: String,
    pub git_mtime_secs: u64,
    pub assessment: Assessment,
}

/// The cache. A later entry for a key stands over an earlier one.
pub struct Cache {
    entries: Vec<Entry>,
}

/// What a sequence of entries maps each key to: the last entry for it wins.
pub open spec fn entries_map(s: Seq<Entry>) -> Map<Seq<char>, (u64, Assessment)>
    decreases s.len(),
{
    if s.len() == 0 {
        Map::empty()
    } else {
        entries_map(s.drop_last()).insert(s.last().key@, (s.last().git_mtime_secs, s.last().assessment))
    }
}

impl View for Cache {
    type V = Map<Seq<char>, (u64, Assessment)>;

    closed spec fn view(&self) -> Map<Seq<char>, (u64, Assessment)> {
        entries_map(self.entries@)
    }
}

/// The cached assessment for `key` when its `.git` modification time is
/// `mtime`: a hit only when the stored time is that time.
pub open spec fn spec_lookup(c: Map<Seq<char>, (u64, Assessment)>, key: Seq<char>, mtime: Option<u64>) -> Option<
    Assessment,
> {
    match mtime {
        Some(m) => if c.contains_key(key) && c[key].0 == m {
            Some(c[key].1)
        } else {
            None
        },
        None => None,
    }
}

/// The cache after storing `a` for `key` at `mtime`; without a known
/// modification time nothing is stored.
pub open spec fn spec_store(
    c: Map<Seq<char>, (u64, Assessment)>,
    key: Seq<char>,
    mtime: Option<u64>,
    a: Assessment,
) -> Map<Seq<char>, (u64, Assessment)> {
    match mtime {
        Some(m) => c.insert(key, (m, a)),
        None => c,
    }
}

/// Where the last entry for `k` stands, if any entry has that key.
pub open spec fn last_with_key(s: Seq<Entry>, k: Seq<char>, i: int) -> bool {
    &&& 0 <= i < s.len()
    &&& s[i].key@ == k
    &&& forall|j: int| i < j < s.len() ==> (#[trigger] s[j]).key@ != k
}

proof fn lemma_map_last(s: Seq<Entry>, k: Seq<char>, i: int)
    requires
        last_with_key(s, k, i),
    ensures
        entries_map(s).contains_key(k),
        entries_map(s)[k] == (s[i].git_mtime_secs, s[i].assessment),
    decreases s.len(),
{
    if i < s.len() - 1 {
        assert(s[s.len() - 1].key@ != k);
        let t = s.drop_last();
        assert forall|j: int| i < j < t.len() implies (#[trigger] t[j]).key@ != k by {
            assert(t[j] == s[j]);
        }
        lemma_map_last(t, k, i);
    }
}

proof fn lemma_map_absent(s: Seq<Entry>, k: Seq<char>)
    requires
        forall|j: int| 0 <= j < s.len() ==> (#[trigger] s[j]).key@ != k,
    ensures
        !entries_map(s).contains_key(k),
    decreases s.len(),
{
    if s.len() > 0 {
        let t = s.drop_last();
        assert forall|j: int| 0 <= j < t.len() implies (#[trigger] t[j]).key@ != k by {
            assert(t[j] == s[j]);
        }
        lemma_map_absent(t, k);
    }
}

proof fn lemma_map_update(s: Seq<Entry>, i: int, e: Entry)
    requires
        last_with_key(s, e.key@, i),
    ensures
        entries_map(s.update(i, e)) == entries_map(s).insert(e.key@, (e.git_mtime_secs, e.assessment)),
    decreases s.len(),
{
    let u = s.update(i, e);
    if i == s.len() - 1 {
        assert(u.drop_last() =~= s.drop_last());
        assert(entries_map(u) =~= entries_map(s).insert(e.key@, (e.git_mtime_secs, e.assessment)));
    } else {
        let t = s.drop_last();
        assert forall|j: int| i < j < t.len() implies (#[trigger] t[j]).key@ != e.key@ by {
            assert(t[j] == s[j]);
        }
        lemma_map_update(t, i, e);
        assert(u.drop_last() =~= t.update(i, e));
        assert(s.last().key@ != e.key@);
        assert(entries_map(u) =~= entries_map(s).insert(e.key@, (e.git_mtime_secs, e.assessment)));
    }
}

/// The last position in `entries` whose key is `key`.
fn find_last(entries: &Vec<Entry>, key: &str) -> (r: Option<usize>)
    ensures
        match r {
            Some(i) => last_with_key(entries@, key@, i as int),
            None => forall|j: int| 0 <= j < entries.len() ==> (#[trigger] entries@[j]).key@ != key@,
        },
{
    let kc = chars_of(key);
    let mut i: usize = entries.len();
    while i > 0
        invariant
            i <= entries.len(),
            kc@ == key@,
            forall|j: int| i <= j < entries.len() ==> (#[trigger] entries@[j]).key@ != key@,
        decreases i,
    {
        let j = i - 1;
        if chars_eq(&chars_of(entries[j].key.as_str()), &kc) {
            return Some(j);
        }
        i = j;
    }
    None
}

impl Cache {
    /// An empty cache.
    pub fn new() -> (c: Cache)
        ensures
            c@ == Map::<Seq<char>, (u64, Assessment)>::empty(),
    {
        Cache { entries: Vec::new() }
    }

    /// The cache holding the given entries (a later entry for a key stands
    /// over an earlier one).
    pub fn from_entries(entries: Vec<Entry>) -> (c: Cache)
        ensures
            c@ == entries_map(entries@),
    {
        Cache { entries }
    }

    /// The entries, for writing the cache out.
    pub fn entries(&self) -> (r: &Vec<Entry>)
        ensures
            entries_map(r@) == self@,
    {
        &self.entries
    }

    /// Where the cache lives: `~/.ward/cache.json`.
    pub fn path(home: &str) -> (p: String)
        ensures
            p@ == spec_join(spec_ward_home(home@), "cache.json"@),
    {
        let ward = join(home, ".ward");
        join(ward.as_str(), "cache.json")
    }

    /// The cached assessment of the repository at `repo`, whose `.git`
    /// directory has modification time `mtime` (`None` when it could not be
    /// read, which never hits).
    pub fn lookup(&self, repo: &str, mtime: Option<u64>) -> (r: Option<&Assessment>)
        ensures
            match r {
                Some(a) => spec_lookup(self@, repo@, mtime) == Some(*a),
                None => spec_lookup(self@, repo@, mtime) is None,
            },
    {
        let m = match mtime {
            Some(m) => m,
            None => return None,
        };
        match find_last(&self.entries, repo) {
            Some(i) => {
                proof {
                    lemma_map_last(self.entries@, repo@, i as int);
                }
                if self.entries[i].git_mtime_secs == m {
                    Some(&self.entries[i].assessment)
                } else {
                    None
                }
            },
            None => {
                proof {
                    lemma_map_absent(self.entries@, repo@);
                }
                None
            },
        }
    }

    /// Stores the assessment of the repository at `repo`, whose `.git`
    /// directory has modification time `mtime`; without one, nothing changes.
    pub fn store(&mut self, repo: &str, mtime: Option<u64>, assessment: Assessment)
        ensures
            final(self)@ == spec_store(old(self)@, repo@, mtime, assessment),
    {
        let m = match mtime {
            Some(m) => m,
            None => return ,
        };
        let key = crate::text::string_of(chars_of(repo).as_slice());
        let e = Entry { key, git_mtime_secs: m, assessment };
        match find_last(&self.entries, repo) {
            Some(i) => {
                proof {
                    lemma_map_update(self.entries@, i as int, e);
                }
                self.entries.set(i, e);
            },
            None => {
                let ghost before = self.entries@;
                self.entries.push(e);
                assert(self.entries@.drop_last() =~= before);
            },
        }
    }
}

/// Reading back what was just stored gives it back, as long as the `.git`
/// directory keeps the same modification time.
pub proof fn law_lookup_after_store(
    c: Map<Seq<char>, (u64, Assessment)>,
    key: Seq<char>,
    mtime: u64,
    a: Assessment,
)
    ensures
        spec_lookup(spec_store(c, key, Some(mtime), a), key, Some(mtime)) == Some(a),
{
}

/// Storing under one key leaves every other key's lookups as they were.
pub proof fn law_store_keeps_other_keys(
    c: Map<Seq<char>, (u64, Assessment)>,
    key: Seq<char>,
    other: Seq<char>,
    mtime: Option<u64>,
    at: Option<u64>,
    a: Assessment,
)
    requires
        key != other,
    ensures
        spec_lookup(spec_store(c, key, mtime, a), other, at) == spec_lookup(c, other, at),
{
}

/// Once the `.git` directory's modification time changes, the stored
/// assessment is no longer used.
pub proof fn law_changed_repo_misses(
    c: Map<Seq<char>, (u64, Assessment)>,
    key: Seq<char>,
    stored: u64,
    now: u64,
    a: Assessment,
)
    requires
        stored != now,
    ensures
        spec_lookup(spec_store(c, key, Some(stored), a), key, Some(now)) is None,
{
}

} // verus!
