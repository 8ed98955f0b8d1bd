//! The read-only root filesystem: an ordered list of paths with their contents.

use super::path::SLASH;
use crate::scan::{bytes_equal, position_of, prefix_of};
use vstd::prelude::*;
use vstd::string::StringSliceAdditionalSpecFns;

verus! {

#[derive(Clone, Copy, Debug, PartialEq, Eq, Structural)]
pub enum EntryKind {
    Dir,
    File,
    Link,
}

/// One entry: its absolute path, its kind, and its bytes (for a link, the target path).
#[derive(Debug)]
pub struct Entry {
    pub path: Vec<u8>,
    pub kind: EntryKind,
    pub data: Vec<u8>,
}

/// A root filesystem image.
#[derive(Debug)]
pub struct Image {
    pub entries: Vec<Entry>,
}

/// The least index at or above `from` of an entry with the given path.
pub open spec fn find_entry(entries: Seq<Entry>, path: Seq<u8>, from: int) -> Option<int>
    decreases entries.len() - from,
{
    if from < 0 || from >= entries.len() {
        None
    } else if entries[from].path@ == path {
        Some(from)
    } else {
        find_entry(entries, path, from + 1)
    }
}

/// Whether `path` names a direct child of the directory `dir`: `dir`, a separator (the root
/// directory brings its own), and a non-empty name without separators.
pub open spec fn is_child_path(dir: Seq<u8>, path: Seq<u8>) -> bool {
    let lead = if dir.len() > 0 && dir.last() == SLASH {
        dir
    } else {
        dir.push(SLASH)
    };
    &&& path.len() > lead.len()
    &&& path.take(lead.len() as int) == lead
    &&& forall|i: int| lead.len() <= i < path.len() ==> path[i] != SLASH
}

/// The indices at or above `from` of the direct children of `dir`, in order.
pub open spec fn child_indices(entries: Seq<Entry>, dir: Seq<u8>, from: int) -> Seq<usize>
    decreases entries.len() - from,
{
    if from < 0 || from >= entries.len() {
        seq![]
    } else if is_child_path(dir, entries[from].path@) {
        seq![from as usize] + child_indices(entries, dir, from + 1)
    } else {
        child_indices(entries, dir, from + 1)
    }
}

impl Image {
    /// Entries are indexed by 16-bit numbers.
    pub open spec fn wf(&self) -> bool {
        self.entries@.len() <= 0x1_0000
    }

    /// The index of the entry with the given path.
    pub open spec fn find(&self, path: Seq<u8>) -> Option<int> {
        find_entry(self.entries@, path, 0)
    }

    /// The number of entries.
    pub fn len(&self) -> (r: usize)
        ensures
            r == self.entries@.len(),
    {
        self.entries.len()
    }

    /// The entry at an index.
    pub fn entry(&self, index: usize) -> (r: Option<&Entry>)
        ensures
            index < self.entries@.len() ==> r == Some(&self.entries@[index as int]),
            index >= self.entries@.len() ==> r is None,
    {
        if index < self.entries.len() {
            Some(&self.entries[index])
        } else {
            None
        }
    }

    /// The index of the first entry with the given path.
    pub fn find_entry_index(&self, path: &[u8]) -> (r: Option<u16>)
        requires
            self.wf(),
        ensures
            match self.find(path@) {
                Some(i) => r == Some(i as u16) && 0 <= i < self.entries@.len(),
                None => r is None,
            },
    {
        let mut index: usize = 0;
        while index < self.entries.len()
            invariant
                0 <= index <= self.entries@.len(),
                self.wf(),
                self.find(path@) == find_entry(self.entries@, path@, index as int),
            decreases self.entries@.len() - index,
        {
            if bytes_equal(self.entries[index].path.as_slice(), path) {
                return Some(index as u16);
            }
            index += 1;
        }
        None
    }

    /// The first entry with the given path.
    pub fn lookup(&self, path: &[u8]) -> (r: Option<&Entry>)
        requires
            self.wf(),
        ensures
            match self.find(path@) {
                Some(i) => 0 <= i < self.entries@.len() && r == Some(&self.entries@[i]),
                None => r is None,
            },
    {
        match self.find_entry_index(path) {
            Some(index) => Some(&self.entries[index as usize]),
            None => None,
        }
    }

    /// The indices of the direct children of a directory, in image order.
    pub fn children(&self, dir: &[u8]) -> (r: Vec<usize>)
        ensures
            r@ == child_indices(self.entries@, dir@, 0),
            forall|k: int| 0 <= k < r@.len() ==> (#[trigger] r@[k]) < self.entries@.len(),
    {
        let mut out: Vec<usize> = Vec::new();
        let mut index: usize = 0;
        assert(out@ + child_indices(self.entries@, dir@, 0) =~= child_indices(
            self.entries@,
            dir@,
            0,
        ));
        while index < self.entries.len()
            invariant
                0 <= index <= self.entries@.len(),
                out@ + child_indices(self.entries@, dir@, index as int) == child_indices(
                    self.entries@,
                    dir@,
                    0,
                ),
                forall|k: int| 0 <= k < out@.len() ==> (#[trigger] out@[k]) < self.entries@.len(),
            decreases self.entries@.len() - index,
        {
            let ghost before = out@;
            if is_child_entry(self, dir, index) {
                out.push(index);
                assert(out@ + child_indices(self.entries@, dir@, index + 1) =~= before + (
                seq![index] + child_indices(self.entries@, dir@, index + 1)));
            }
            index += 1;
        }
        assert(out@ + Seq::<usize>::empty() =~= out@);
        out
    }
}

/// Whether the entry at `index` is a direct child of `dir`.
fn is_child_entry(image: &Image, dir: &[u8], index: usize) -> (r: bool)
    requires
        index < image.entries@.len(),
    ensures
        r == is_child_path(dir@, image.entries@[index as int].path@),
{
    let path = image.entries[index].path.as_slice();
    let slashed = dir.len() > 0 && dir[dir.len() - 1] == SLASH;
    let ghost lead = if dir@.len() > 0 && dir@.last() == SLASH {
        dir@
    } else {
        dir@.push(SLASH)
    };
    if path.len() <= dir.len() {
        return false;
    }
    if !bytes_equal(prefix_of(path, dir.len()), dir) {
        proof {
            assert(lead.take(dir@.len() as int) =~= dir@);
            if path@.take(lead.len() as int) == lead {
                assert(path@.take(dir@.len() as int) =~= path@.take(lead.len() as int).take(
                    dir@.len() as int,
                ));
            }
        }
        return false;
    }
    let start: usize = if slashed {
        dir.len()
    } else {
        if path[dir.len()] != SLASH {
            proof {
                assert(lead[dir@.len() as int] == SLASH);
                if path@.take(lead.len() as int) == lead {
                    assert(path@.take(lead.len() as int)[dir@.len() as int]
                        == path@[dir@.len() as int]);
                }
            }
            return false;
        }
        dir.len() + 1
    };
    assert(path@.take(lead.len() as int) =~= lead) by {
        assert forall|i: int| 0 <= i < dir@.len() implies path@[i] == dir@[i] by {
            assert(path@.take(dir@.len() as int)[i] == path@[i]);
        }
    }
    if path.len() == start {
        return false;
    }
    let tail = vstd::slice::slice_subrange(path, start, path.len());
    match position_of(tail, SLASH) {
        Some(i) => {
            assert(path@[start + i] == SLASH);
            false
        },
        None => {
            assert forall|i: int| lead.len() <= i < path@.len() implies path@[i] != SLASH by {
                assert(tail@[i - start] == path@[i]);
            }
            true
        },
    }
}

/// Why a root filesystem is not used.
#[derive(Clone, Copy, Debug, PartialEq, Eq, Structural)]
pub enum RootfsIntegrityError {
    BadPath,
    BadEntryKind,
}

/// What is reported of a root filesystem at the start.
#[derive(Clone, Copy, Debug, PartialEq, Eq, Structural)]
pub struct RootfsSummary {
    pub entries: usize,
    pub busybox_bytes: usize,
}

/// Checks that a root filesystem has its one program, a file.
pub fn check_rootfs(image: &Image) -> (r: Result<RootfsSummary, RootfsIntegrityError>)
    requires
        image.wf(),
    ensures
        r == match image.find("/bin/busybox".spec_bytes()) {
            None => Err::<RootfsSummary, RootfsIntegrityError>(RootfsIntegrityError::BadPath),
            Some(i) => if image.entries@[i].kind != EntryKind::File {
                Err(RootfsIntegrityError::BadEntryKind)
            } else {
                Ok(
                    RootfsSummary {
                        entries: image.entries@.len() as usize,
                        busybox_bytes: image.entries@[i].data@.len() as usize,
                    },
                )
            },
        },
{
    let busybox = match image.lookup("/bin/busybox".as_bytes()) {
        Some(entry) => entry,
        None => return Err(RootfsIntegrityError::BadPath),
    };
    if busybox.kind != EntryKind::File {
        return Err(RootfsIntegrityError::BadEntryKind);
    }
    Ok(RootfsSummary { entries: image.len(), busybox_bytes: busybox.data.len() })
}

} // verus!
