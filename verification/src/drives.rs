//! Volume lookup logic: which mounted disk a path belongs to (the matching
//! mount point of greatest length) and its space figures, plus the duplicate
//! check used when assembling the drive list.

use vstd::prelude::*;
use vstd::string::StrSliceExecFns;
use crate::text::str_eq;
use crate::types::{DiskRecord, DriveInfo};

verus! {

/// The disk's mount point is a prefix of the path.
pub open spec fn disk_matches(d: DiskRecord, path: Seq<char>) -> bool {
    d.mount_point@.is_prefix_of(path)
}

/// Whether `p` is a prefix of `s`.
pub fn str_prefix(p: &str, s: &str) -> (r: bool)
    ensures
        r == p@.is_prefix_of(s@),
{
    let np = p.unicode_len();
    let ns = s.unicode_len();
    if np > ns {
        return false;
    }
    let mut i: usize = 0;
    while i < np
        invariant
            np == p@.len(),
            ns == s@.len(),
            np <= ns,
            0 <= i <= np,
            forall|j: int| 0 <= j < i ==> p@[j] == s@[j],
        decreases np - i,
    {
        if p.get_char(i) != s.get_char(i) {
            proof {
                assert(p@[i as int] != s@.subrange(0, np as int)[i as int]);
            }
            return false;
        }
        i += 1;
    }
    proof {
        assert(p@ =~= s@.subrange(0, np as int));
    }
    true
}

/// Space figures of the disk whose mount point is the longest prefix of the
/// path: total, available, and used (total minus available, never below
/// zero). All zeroes when no mount point matches.
pub fn best_mount_space(path: &str, disks: &Vec<DiskRecord>) -> (r: (u64, u64, u64))
    ensures
        (forall|j: int| 0 <= j < disks@.len() ==> !disk_matches(#[trigger] disks@[j], path@)) ==> r
            == (0u64, 0u64, 0u64),
        (exists|j: int| 0 <= j < disks@.len() && disk_matches(#[trigger] disks@[j], path@))
            ==> exists|j: int|
            {
                &&& 0 <= j < disks@.len()
                &&& disk_matches(#[trigger] disks@[j], path@)
                &&& r.0 == disks@[j].total_space
                &&& r.1 == disks@[j].available_space
                &&& r.2 as int == (if disks@[j].total_space >= disks@[j].available_space {
                    disks@[j].total_space - disks@[j].available_space
                } else {
                    0
                })
                &&& forall|l: int|
                    0 <= l < disks@.len() && disk_matches(#[trigger] disks@[l], path@)
                        ==> disks@[l].mount_point@.len() <= disks@[j].mount_point@.len()
            },
{
    let n = disks.len();
    let mut best: Option<usize> = None;
    let mut i: usize = 0;
    while i < n
        invariant
            n == disks@.len(),
            0 <= i <= n,
            match best {
                Some(b) => {
                    &&& b < i
                    &&& disk_matches(disks@[b as int], path@)
                    &&& forall|l: int|
                        0 <= l < i && disk_matches(#[trigger] disks@[l], path@)
                            ==> disks@[l].mount_point@.len() <= disks@[b as int].mount_point@.len()
                },
                None => forall|l: int| 0 <= l < i ==> !disk_matches(#[trigger] disks@[l], path@),
            },
        decreases n - i,
    {
        if str_prefix(disks[i].mount_point.as_str(), path) {
            let take = match best {
                Some(b) => disks[i].mount_point.as_str().unicode_len() >= disks[b]
                    .mount_point
                    .as_str()
                    .unicode_len(),
                None => true,
            };
            if take {
                best = Some(i);
            }
        }
        i += 1;
    }
    match best {
        Some(b) => {
            let total = disks[b].total_space;
            let avail = disks[b].available_space;
            let used = if total >= avail {
                total - avail
            } else {
                0
            };
            (total, avail, used)
        },
        None => (0, 0, 0),
    }
}

/// Whether a drive with this path is already listed.
pub fn has_drive_path(drives: &Vec<DriveInfo>, path: &str) -> (r: bool)
    ensures
        r == exists|j: int| 0 <= j < drives@.len() && drives@[j].path@ == path@,
{
    let n = drives.len();
    let mut i: usize = 0;
    while i < n
        invariant
            n == drives@.len(),
            0 <= i <= n,
            forall|j: int| 0 <= j < i ==> drives@[j].path@ != path@,
        decreases n - i,
    {
        if str_eq(drives[i].path.as_str(), path) {
            return true;
        }
        i += 1;
    }
    false
}

} // verus!
