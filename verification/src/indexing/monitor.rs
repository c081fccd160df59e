//! The set of directories watched for changes, and change events.
use std::time::Duration;
use vstd::prelude::*;

use crate::utils::{path_eq, same_path};

verus! {

/// No two of the paths are the same path.
pub open spec fn distinct_paths(s: Seq<String>) -> bool {
    forall|i: int, j: int| 0 <= i < j < s.len() ==> !same_path(s[i]@, s[j]@)
}

/// `s` has an entry that is the same path as `p`.
pub open spec fn has_path(s: Seq<String>, p: Seq<char>) -> bool {
    exists|i: int| 0 <= i < s.len() && same_path((#[trigger] s[i])@, p)
}

/// The entries of `s` that are not the same path as `p`, in order.
pub open spec fn without_path(s: Seq<String>, p: Seq<char>) -> Seq<String>
    decreases s.len(),
{
    if s.len() == 0 {
        s
    } else if same_path(s.last()@, p) {
        without_path(s.drop_last(), p)
    } else {
        without_path(s.drop_last(), p).push(s.last())
    }
}

proof fn lemma_without_path(s: Seq<String>, p: Seq<char>)
    ensures
        !has_path(without_path(s, p), p),
        forall|i: int|
            0 <= i < without_path(s, p).len() ==> exists|j: int|
                0 <= j < s.len() && s[j] == #[trigger] without_path(s, p)[i],
        forall|j: int| 0 <= j < s.len() && !same_path(s[j]@, p) ==> without_path(s, p).contains(#[trigger] s[j]),
    decreases s.len(),
{
    if s.len() > 0 {
        let t = s.drop_last();
        lemma_without_path(t, p);
        let w = without_path(s, p);
        let wt = without_path(t, p);
        assert forall|i: int| 0 <= i < w.len() implies exists|j: int|
            0 <= j < s.len() && s[j] == #[trigger] w[i] by {
            if i < wt.len() {
                let j = choose|j: int| 0 <= j < t.len() && t[j] == wt[i];
                assert(s[j] == w[i]);
            } else {
                assert(s[s.len() - 1] == w[i]);
            }
        }
        assert forall|j: int| 0 <= j < s.len() && !same_path(s[j]@, p) implies w.contains(#[trigger] s[j]) by {
            if j < t.len() {
                assert(t[j] == s[j]);
                assert(wt.contains(t[j]));
                let k = choose|k: int| 0 <= k < wt.len() && wt[k] == t[j];
                assert(w[k] == s[j]);
            } else {
                assert(w[w.len() - 1] == s[j]);
            }
        }
        assert forall|i: int| 0 <= i < w.len() implies !same_path((#[trigger] w[i])@, p) by {
            if i < wt.len() {
                assert(w[i] == wt[i]);
            }
        }
    }
}

proof fn lemma_without_absent_path(s: Seq<String>, p: Seq<char>)
    requires
        !has_path(s, p),
    ensures
        without_path(s, p) == s,
    decreases s.len(),
{
    if s.len() > 0 {
        let t = s.drop_last();
        assert(!has_path(t, p)) by {
            if has_path(t, p) {
                let i = choose|i: int| 0 <= i < t.len() && same_path((#[trigger] t[i])@, p);
                assert(s[i] == t[i]);
            }
        }
        assert(!same_path(s[s.len() - 1]@, p));
        lemma_without_absent_path(t, p);
        assert(t.push(s.last()) == s);
    }
}

/// Removing a directory undoes adding it: watching a path that was not
/// watched and then removing it gives back the directories watched before.
pub proof fn lemma_remove_undoes_add(s: Seq<String>, path: String)
    requires
        !has_path(s, path@),
    ensures
        without_path(s.push(path), path@) == s,
{
    assert(s.push(path).drop_last() == s);
    assert(same_path(path@, path@));
    lemma_without_absent_path(s, path@);
}

/// Watches directories for changes, checking at a fixed interval.
pub struct FileMonitor {
    watched_directories: Vec<String>,
    check_interval: Duration,
}

impl FileMonitor {
    /// The watched directories.
    pub closed spec fn directories(&self) -> Seq<String> {
        self.watched_directories@
    }

    /// The interval between checks.
    pub closed spec fn interval(&self) -> Duration {
        self.check_interval
    }

    /// A monitor of the given directories.
    pub fn new(watched_directories: Vec<String>, check_interval: Duration) -> (m: Self)
        ensures
            m.directories() == watched_directories@,
            m.interval() == check_interval,
    {
        FileMonitor { watched_directories, check_interval }
    }

    /// The watched directories.
    pub fn watched_directories(&self) -> (d: &Vec<String>)
        ensures
            d@ == self.directories(),
    {
        &self.watched_directories
    }

    /// The interval between checks.
    pub fn check_interval(&self) -> (d: Duration)
        ensures
            d == self.interval(),
    {
        self.check_interval
    }

    /// Watches a directory, unless the same path is watched already.
    pub fn add_directory(&mut self, path: String)
        ensures
            has_path(old(self).directories(), path@) ==> final(self).directories() == old(
                self,
            ).directories(),
            !has_path(old(self).directories(), path@) ==> final(self).directories() == old(
                self,
            ).directories().push(path),
            has_path(final(self).directories(), path@),
            distinct_paths(old(self).directories()) ==> distinct_paths(final(self).directories()),
            final(self).interval() == old(self).interval(),
    {
        let mut i: usize = 0;
        while i < self.watched_directories.len()
            invariant
                self.watched_directories@ == old(self).watched_directories@,
                self.check_interval == old(self).check_interval,
                i <= self.watched_directories@.len(),
                forall|j: int|
                    0 <= j < i ==> !same_path((#[trigger] self.watched_directories@[j])@, path@),
            decreases self.watched_directories.len() - i,
        {
            if path_eq(self.watched_directories[i].as_str(), path.as_str()) {
                assert(same_path(self.watched_directories@[i as int]@, path@));
                return;
            }
            i = i + 1;
        }
        let ghost before = self.watched_directories@;
        self.watched_directories.push(path);
        assert(self.watched_directories@[before.len() as int] == path);
        assert forall|a: int, b: int|
            distinct_paths(before) && 0 <= a < b < self.watched_directories@.len() implies !same_path(
            self.watched_directories@[a]@,
            self.watched_directories@[b]@,
        ) by {
            if b == before.len() {
                assert(!same_path(before[a]@, path@));
            } else {
                assert(self.watched_directories@[a] == before[a]);
                assert(self.watched_directories@[b] == before[b]);
            }
        }
    }

    /// Stops watching every entry that is the same path as `path`.
    pub fn remove_directory(&mut self, path: &str)
        ensures
            final(self).directories() == without_path(old(self).directories(), path@),
            !has_path(final(self).directories(), path@),
            forall|j: int|
                0 <= j < old(self).directories().len() && !same_path(
                    old(self).directories()[j]@,
                    path@,
                ) ==> final(self).directories().contains(#[trigger] old(self).directories()[j]),
            final(self).interval() == old(self).interval(),
    {
        let mut kept: Vec<String> = Vec::new();
        let mut i: usize = 0;
        while i < self.watched_directories.len()
            invariant
                self.watched_directories@ == old(self).watched_directories@,
                self.check_interval == old(self).check_interval,
                i <= self.watched_directories@.len(),
                kept@ == without_path(self.watched_directories@.subrange(0, i as int), path@),
            decreases self.watched_directories.len() - i,
        {
            let ghost pre = self.watched_directories@.subrange(0, i as int);
            assert(self.watched_directories@.subrange(0, i + 1).drop_last() == pre);
            if !path_eq(self.watched_directories[i].as_str(), path) {
                kept.push(self.watched_directories[i].clone());
            }
            i = i + 1;
        }
        assert(self.watched_directories@.subrange(0, i as int) == old(self).watched_directories@);
        self.watched_directories = kept;
        proof {
            lemma_without_path(old(self).watched_directories@, path@);
        }
    }
}

/// A change to a file.
#[derive(Debug, Clone)]
pub enum FileChangeEvent {
    Created(String),
    Modified(String),
    Deleted(String),
}

/// The path of a change.
pub open spec fn event_path(e: FileChangeEvent) -> String {
    match e {
        FileChangeEvent::Created(p) => p,
        FileChangeEvent::Modified(p) => p,
        FileChangeEvent::Deleted(p) => p,
    }
}

/// The name of the kind of a change.
pub open spec fn event_type_name(e: FileChangeEvent) -> Seq<char> {
    match e {
        FileChangeEvent::Created(_) => "created"@,
        FileChangeEvent::Modified(_) => "modified"@,
        FileChangeEvent::Deleted(_) => "deleted"@,
    }
}

impl FileChangeEvent {
    /// The path that changed.
    pub fn path(&self) -> (p: &String)
        ensures
            *p == event_path(*self),
    {
        match self {
            FileChangeEvent::Created(path) => path,
            FileChangeEvent::Modified(path) => path,
            FileChangeEvent::Deleted(path) => path,
        }
    }

    /// The kind of change: `created`, `modified` or `deleted`.
    pub fn event_type(&self) -> (t: &'static str)
        ensures
            t@ == event_type_name(*self),
    {
        match self {
            FileChangeEvent::Created(_) => "created",
            FileChangeEvent::Modified(_) => "modified",
            FileChangeEvent::Deleted(_) => "deleted",
        }
    }
}

} // verus!
