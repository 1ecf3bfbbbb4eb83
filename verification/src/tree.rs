//! Marker collection over a directory tree.
//!
//! The tree is modelled as its directories in depth-first order: each
//! directory is an index, the root stands first, and every other
//! directory names its parent by a smaller index — exactly the order a
//! depth-first walk yields, where a parent is visited before its
//! children. For each directory the collector resolves the nearest
//! ancestor-or-self that directly contains a marker file, or none when no
//! ancestor does.

use vstd::prelude::*;
use crate::matcher::COLON;
use crate::matcher::LOWER_E;
use crate::matcher::LOWER_P;
use crate::matcher::LOWER_S;
use crate::matcher::LOWER_Y;

verus! {

pub const DIGIT_0: u8 = 48;
pub const DOT: u8 = 46;
pub const LOWER_A: u8 = 97;
pub const LOWER_C: u8 = 99;
pub const LOWER_G: u8 = 103;
pub const LOWER_H: u8 = 104;
pub const LOWER_I: u8 = 105;
pub const LOWER_T: u8 = 116;
pub const LOWER_X: u8 = 120;

/// The fixed marker file name, `0types.txt`.
pub open spec fn marker_file_name() -> Seq<u8> {
    seq![DIGIT_0, LOWER_T, LOWER_Y, LOWER_P, LOWER_E, LOWER_S, DOT, LOWER_T, LOWER_X, LOWER_T]
}

/// Does a file name match the fixed marker file name exactly?
pub fn is_marker_file_name(name: &Vec<u8>) -> (r: bool)
    ensures
        r == (name@ == marker_file_name()),
{
    let r = name.len() == 10 && name[0] == DIGIT_0 && name[1] == LOWER_T && name[2] == LOWER_Y
        && name[3] == LOWER_P && name[4] == LOWER_E && name[5] == LOWER_S && name[6] == DOT
        && name[7] == LOWER_T && name[8] == LOWER_X && name[9] == LOWER_T;
    proof {
        if r {
            assert(name@ =~= marker_file_name());
        }
    }
    r
}

/// A file name carries the recognized transcript extension: it ends in
/// `.cha` with at least one byte before the dot, the only shape whose
/// extension is the bare `cha`.
pub open spec fn has_chat_extension(name: Seq<u8>) -> bool {
    name.len() >= 5 && name[name.len() - 4] == DOT && name[name.len() - 3] == LOWER_C
        && name[name.len() - 2] == LOWER_H && name[name.len() - 1] == LOWER_A
}

/// Does a file name carry the recognized transcript extension?
pub fn name_has_chat_extension(name: &Vec<u8>) -> (r: bool)
    ensures
        r == has_chat_extension(name@),
{
    name.len() >= 5 && name[name.len() - 4] == DOT && name[name.len() - 3] == LOWER_C
        && name[name.len() - 2] == LOWER_H && name[name.len() - 1] == LOWER_A
}

/// Is a directory name the fixed version-control name `.git`, whose whole
/// subtree the walk skips?
pub fn is_excluded_dir_name(name: &Vec<u8>) -> (r: bool)
    ensures
        r == (name@ == seq![DOT, LOWER_G, LOWER_I, LOWER_T]),
{
    let r = name.len() == 4 && name[0] == DOT && name[1] == LOWER_G && name[2] == LOWER_I
        && name[3] == LOWER_T;
    proof {
        if r {
            assert(name@ =~= seq![DOT, LOWER_G, LOWER_I, LOWER_T]);
        }
    }
    r
}

/// One directory of the walked tree: its parent's index (none only for
/// the root) and whether it directly contains a marker file.
#[derive(Clone, Copy, Debug, PartialEq, Eq, Structural)]
pub struct DirNode {
    pub parent: Option<usize>,
    pub has_marker: bool,
}

/// The parent link of the directory at `i` points strictly backwards, and
/// only the root, which stands first, has none.
pub open spec fn wf_dir_at(dirs: Seq<DirNode>, i: int) -> bool {
    match dirs[i].parent {
        Some(p) => p < i,
        None => i == 0,
    }
}

/// The directories stand in depth-first order: every parent before its
/// children.
pub open spec fn wf_dirs(dirs: Seq<DirNode>) -> bool {
    forall|i: int| 0 <= i < dirs.len() ==> wf_dir_at(dirs, i)
}

/// The owning directory of the directory at `i`: the nearest
/// ancestor-or-self that directly contains a marker file, or none when no
/// ancestor does.
pub open spec fn owner_of(dirs: Seq<DirNode>, i: int) -> Option<usize>
    decreases i,
{
    if 0 <= i < dirs.len() {
        if dirs[i].has_marker {
            Some(i as usize)
        } else {
            match dirs[i].parent {
                Some(p) => if p < i {
                    owner_of(dirs, p as int)
                } else {
                    None
                },
                None => None,
            }
        }
    } else {
        None
    }
}

/// Walk the directories once, in their depth-first order, and return the
/// marker set — the indices of the directories that directly contain a
/// marker file, in increasing order and without repetition — together
/// with the inheritance map, which resolves every directory to its owning
/// directory. A directory with a marker resolves to itself; one without
/// inherits exactly its parent's resolution, and the root without a
/// marker resolves to none.
pub fn collect_chat_types(dirs: &Vec<DirNode>) -> (r: (Vec<usize>, Vec<Option<usize>>))
    requires
        wf_dirs(dirs@),
    ensures
        r.1@.len() == dirs@.len(),
        forall|i: int| 0 <= i < dirs@.len() ==> r.1@[i] == owner_of(dirs@, i),
        forall|i: int|
            0 <= i < dirs@.len() && dirs@[i].has_marker ==> r.1@[i] == Some(i as usize),
        forall|i: int|
            0 <= i < dirs@.len() && !dirs@[i].has_marker ==> r.1@[i] == (match dirs@[i].parent {
                Some(p) => r.1@[p as int],
                None => None,
            }),
        forall|j: int|
            0 <= j < r.0@.len() ==> (r.0@[j] as int) < dirs@.len() && dirs@[r.0@[j] as int].has_marker,
        forall|i: int| 0 <= i < dirs@.len() && dirs@[i].has_marker ==> r.0@.contains(i as usize),
        forall|a: int, b: int| 0 <= a < b < r.0@.len() ==> r.0@[a] < r.0@[b],
{
    let mut markers: Vec<usize> = Vec::new();
    let mut owners: Vec<Option<usize>> = Vec::new();
    let mut i: usize = 0;
    while i < dirs.len()
        invariant
            i <= dirs.len(),
            wf_dirs(dirs@),
            owners@.len() == i,
            forall|j: int| 0 <= j < i ==> owners@[j] == owner_of(dirs@, j),
            forall|j: int|
                0 <= j < markers@.len() ==> (markers@[j] as int) < i && dirs@[markers@[j] as int].has_marker,
            forall|j: int| 0 <= j < i && dirs@[j].has_marker ==> markers@.contains(j as usize),
            forall|a: int, b: int| 0 <= a < b < markers@.len() ==> markers@[a] < markers@[b],
        decreases dirs.len() - i,
    {
        let ghost markers0 = markers@;
        let d = &dirs[i];
        proof {
            assert(wf_dir_at(dirs@, i as int));
        }
        if d.has_marker {
            markers.push(i);
            owners.push(Some(i));
        } else {
            match d.parent {
                Option::Some(p) => {
                    let o = owners[p];
                    owners.push(o);
                },
                Option::None => {
                    owners.push(None);
                },
            }
        }
        proof {
            assert forall|x: usize| markers0.contains(x) implies markers@.contains(x) by {
                let k = choose|k: int| 0 <= k < markers0.len() && markers0[k] == x;
                assert(markers@[k] == x);
            }
            if dirs@[i as int].has_marker {
                assert(markers@[markers@.len() - 1] == i as usize);
                assert(markers@.contains(i as usize));
            }
        }
        i += 1;
    }
    proof {
        assert forall|j: int| 0 <= j < dirs@.len() && !dirs@[j].has_marker implies owners@[j] == (
        match dirs@[j].parent {
            Some(p) => owners@[p as int],
            None => None,
        }) by {
            assert(wf_dir_at(dirs@, j));
            assert(owners@[j] == owner_of(dirs@, j));
        }
    }
    (markers, owners)
}

} // verus!
