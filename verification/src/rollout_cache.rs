//! The caches a gateway keeps of its rollout files: how many lines each
//! file has, and the index of its line offsets. Each entry is tied to the
//! file's length and modification time, so a file that changed is read
//! again; an index is built once at a time, in the background. Reading the
//! files and holding the caches between requests stays with the caller.
use vstd::prelude::*;

use crate::keyed_list::{distinct_keys, keyed_map, set_key, take_key, find_key, lemma_keyed_at, lemma_keyed_absent};

verus! {

/// What a cache entry of a file is tied to: the file's length, and its
/// modification time in milliseconds when the system reports one.
#[derive(Debug, Clone, Copy, PartialEq, Eq, Structural)]
pub struct FileStamp {
    pub len: u64,
    pub modified: Option<u128>,
}

/// The line offsets of a rollout file: the offset of every line that
/// starts a stride, and how many lines the file has.
#[derive(Debug)]
pub struct LineIndex {
    pub stamp: FileStamp,
    pub stride: usize,
    pub offsets: Vec<u64>,
    pub total_lines: usize,
}

/// The line counts of files, by path.
pub struct LineCountCache {
    entries: Vec<(String, (FileStamp, usize))>,
}

impl LineCountCache {
    /// The stamp and line count of each file counted, by path.
    pub closed spec fn counts(&self) -> Map<Seq<char>, (FileStamp, usize)> {
        keyed_map(self.entries@)
    }

    /// No path is listed twice.
    pub closed spec fn wf(&self) -> bool {
        distinct_keys(self.entries@)
    }

    /// A cache that has counted nothing.
    pub fn new() -> (c: Self)
        ensures
            c.wf(),
            c.counts() == Map::<Seq<char>, (FileStamp, usize)>::empty(),
    {
        let c = LineCountCache { entries: Vec::new() };
        proof {
            assert(keyed_map(c.entries@) =~= Map::<Seq<char>, (FileStamp, usize)>::empty());
        }
        c
    }

    /// The line count of the file at `path`, when it was counted with the
    /// file as it is now.
    pub fn lookup(&self, path: &str, stamp: FileStamp) -> (r: Option<usize>)
        requires
            self.wf(),
        ensures
            r == if self.counts().contains_key(path@) && self.counts()[path@].0 == stamp {
                Some(self.counts()[path@].1)
            } else {
                None::<usize>
            },
    {
        match find_key(&self.entries, path) {
            Some(i) => {
                proof {
                    lemma_keyed_at(self.entries@, i as int);
                }
                let (found, lines) = self.entries[i].1;
                if found == stamp {
                    Some(lines)
                } else {
                    None
                }
            },
            None => {
                proof {
                    lemma_keyed_absent(self.entries@, path@);
                }
                None
            },
        }
    }

    /// Records the line count of the file at `path` as it is now.
    pub fn record(&mut self, path: String, stamp: FileStamp, lines: usize)
        requires
            old(self).wf(),
        ensures
            final(self).wf(),
            final(self).counts() == old(self).counts().insert(path@, (stamp, lines)),
    {
        set_key(&mut self.entries, path, (stamp, lines));
    }
}

/// What the index cache holds for a file: an index, or the note that one
/// is being built.
#[derive(Debug)]
pub enum IndexSlot {
    Ready(LineIndex),
    Building,
}

/// What a lookup in the index cache finds.
#[derive(Debug)]
pub enum IndexLookup {
    /// An index of the file as it is now.
    Ready(LineIndex),
    /// An index is being built; there is none to use yet.
    Pending,
    /// There is no index of the file as it is now: the caller builds one.
    StartBuild,
}

/// The line indexes of files, by path.
pub struct LineIndexCache {
    entries: Vec<(String, IndexSlot)>,
}

/// Whether a slot holds an index of the file as it is.
pub open spec fn fresh_slot(slot: IndexSlot, stamp: FileStamp) -> bool {
    slot matches IndexSlot::Ready(index) && index.stamp == stamp
}

/// What a lookup with this stamp leaves in the cache: a fresh index or a
/// build under way stays; otherwise a build is noted.
pub open spec fn after_lookup(slots: Map<Seq<char>, IndexSlot>, path: Seq<char>, stamp: FileStamp) -> Map<Seq<char>, IndexSlot> {
    if slots.contains_key(path) && (fresh_slot(slots[path], stamp) || slots[path] is Building) {
        slots
    } else {
        slots.insert(path, IndexSlot::Building)
    }
}

fn copy_offsets(v: &Vec<u64>) -> (r: Vec<u64>)
    ensures
        r@ == v@,
{
    let mut r: Vec<u64> = Vec::new();
    let mut i: usize = 0;
    while i < v.len()
        invariant
            i <= v@.len(),
            r@ == v@.take(i as int),
        decreases v@.len() - i,
    {
        r.push(v[i]);
        i = i + 1;
        proof {
            assert(r@ =~= v@.take(i as int));
        }
    }
    proof {
        assert(v@.take(v@.len() as int) =~= v@);
    }
    r
}

impl LineIndexCache {
    /// What the cache holds for each file, by path.
    pub closed spec fn slots(&self) -> Map<Seq<char>, IndexSlot> {
        keyed_map(self.entries@)
    }

    /// No path is listed twice.
    pub closed spec fn wf(&self) -> bool {
        distinct_keys(self.entries@)
    }

    /// A cache that holds nothing.
    pub fn new() -> (c: Self)
        ensures
            c.wf(),
            c.slots() == Map::<Seq<char>, IndexSlot>::empty(),
    {
        let c = LineIndexCache { entries: Vec::new() };
        proof {
            assert(keyed_map(c.entries@) =~= Map::<Seq<char>, IndexSlot>::empty());
        }
        c
    }

    /// Looks up the index of the file at `path` as it is now. A fresh index
    /// is handed out (a copy); while one is being built there is none; a
    /// missing or outdated index is noted as being built, and the caller
    /// is told to build it.
    pub fn lookup(&mut self, path: &str, stamp: FileStamp) -> (r: IndexLookup)
        requires
            old(self).wf(),
        ensures
            final(self).wf(),
            final(self).slots() == after_lookup(old(self).slots(), path@, stamp),
            old(self).slots().contains_key(path@) && fresh_slot(old(self).slots()[path@], stamp) ==> {
                &&& r matches IndexLookup::Ready(index)
                &&& old(self).slots()[path@] matches IndexSlot::Ready(cached)
                &&& index.stamp == cached.stamp && index.stride == cached.stride
                &&& index.offsets@ == cached.offsets@ && index.total_lines == cached.total_lines
            },
            old(self).slots().contains_key(path@) && old(self).slots()[path@] is Building ==> r is Pending,
            !(old(self).slots().contains_key(path@) && (fresh_slot(old(self).slots()[path@], stamp)
                || old(self).slots()[path@] is Building)) ==> r is StartBuild,
    {
        let ghost s0 = self.entries@;
        match find_key(&self.entries, path) {
            Some(i) => {
                proof {
                    lemma_keyed_at(s0, i as int);
                }
                match &self.entries[i].1 {
                    IndexSlot::Ready(index) => {
                        if index.stamp == stamp {
                            let copy = LineIndex {
                                stamp: index.stamp,
                                stride: index.stride,
                                offsets: copy_offsets(&index.offsets),
                                total_lines: index.total_lines,
                            };
                            return IndexLookup::Ready(copy);
                        }
                    },
                    IndexSlot::Building => {
                        return IndexLookup::Pending;
                    },
                }
                set_key(&mut self.entries, path.to_string(), IndexSlot::Building);
                IndexLookup::StartBuild
            },
            None => {
                proof {
                    lemma_keyed_absent(s0, path@);
                }
                set_key(&mut self.entries, path.to_string(), IndexSlot::Building);
                IndexLookup::StartBuild
            },
        }
    }

    /// Files the outcome of a build: the index it made, or, when it
    /// failed, nothing, so the next lookup builds again.
    pub fn finish_build(&mut self, path: String, built: Option<LineIndex>)
        requires
            old(self).wf(),
        ensures
            final(self).wf(),
            final(self).slots() == match built {
                Some(index) => old(self).slots().insert(path@, IndexSlot::Ready(index)),
                None => old(self).slots().remove(path@),
            },
    {
        match built {
            Some(index) => set_key(&mut self.entries, path, IndexSlot::Ready(index)),
            None => {
                let _ = take_key(&mut self.entries, path.as_str());
            },
        }
    }
}

/// A count recorded for a file is what a lookup gives back while the file
/// stays as it was, whatever else the cache held; once the file changes the
/// count is no longer given.
pub proof fn law_count_read_after_record(
    counts: Map<Seq<char>, (FileStamp, usize)>,
    path: Seq<char>,
    stamp: FileStamp,
    lines: usize,
    later: FileStamp,
)
    ensures
        ({
            let c = counts.insert(path, (stamp, lines));
            &&& c.contains_key(path) && c[path].0 == stamp && c[path].1 == lines
            &&& later != stamp ==> !(c.contains_key(path) && c[path].0 == later)
        }),
{
}

/// An index is built once at a time: a lookup that finds no fresh index
/// and no build under way notes a build, and every later lookup, whatever
/// the file's stamp, waits for it and changes nothing until the build is
/// filed.
pub proof fn law_index_built_once(
    slots: Map<Seq<char>, IndexSlot>,
    path: Seq<char>,
    stamp: FileStamp,
    later: FileStamp,
)
    requires
        !(slots.contains_key(path) && (fresh_slot(slots[path], stamp) || slots[path] is Building)),
    ensures
        after_lookup(slots, path, stamp).contains_key(path),
        after_lookup(slots, path, stamp)[path] is Building,
        after_lookup(after_lookup(slots, path, stamp), path, later) == after_lookup(slots, path, stamp),
{
}

} // verus!
