//! The mounts of one file server.

use crate::config::{dir_views, DirParsedRecord, DirParsedRecordView};
use crate::table::{is_root, is_root_route};
use vstd::prelude::*;

verus! {

/// One mount of a file server.
#[derive(Clone, Debug, PartialEq, Eq)]
pub enum Mount {
    /// The directory `path` answers for every request that no nested mount
    /// takes.
    Fallback { path: String },
    /// The directory `path` answers for the requests under `route`.
    Nested { route: String, path: String },
}

/// What a [`Mount`] holds.
pub enum MountView {
    Fallback { path: Seq<char> },
    Nested { route: Seq<char>, path: Seq<char> },
}

impl View for Mount {
    type V = MountView;

    open spec fn view(&self) -> MountView {
        match self {
            Mount::Fallback { path } => MountView::Fallback { path: path@ },
            Mount::Nested { route, path } => MountView::Nested { route: route@, path: path@ },
        }
    }
}

/// What the mounts of `mounts` hold, in order.
pub open spec fn mount_views(mounts: Seq<Mount>) -> Seq<MountView> {
    mounts.map_values(|m: Mount| m@)
}

/// Whether one of `mounts` is a fallback.
pub open spec fn has_fallback(mounts: Seq<MountView>) -> bool {
    exists|m: int| 0 <= m < mounts.len() && #[trigger] mounts[m] is Fallback
}

/// The mounts that the first `n` records of a listener come to.  A record at
/// `/` becomes the fallback unless there is one already, in which case it is
/// left out; every other record becomes a nested mount.
pub open spec fn mounts_of(dirs: Seq<DirParsedRecordView>, n: int) -> Seq<MountView>
    decreases n,
{
    if n <= 0 || n > dirs.len() {
        Seq::empty()
    } else {
        let before = mounts_of(dirs, n - 1);
        let record = dirs[n - 1];
        if !is_root(record.route) {
            before.push(MountView::Nested { route: record.route, path: record.path })
        } else if has_fallback(before) {
            before
        } else {
            before.push(MountView::Fallback { path: record.path })
        }
    }
}

/// A file server never gets two fallbacks, and never a nested mount at `/`.
pub proof fn lemma_single_fallback(dirs: Seq<DirParsedRecordView>, n: int)
    ensures
        forall|a: int, b: int|
            0 <= a < b < mounts_of(dirs, n).len() ==> !(#[trigger] mounts_of(dirs, n)[a] is Fallback
                && #[trigger] mounts_of(dirs, n)[b] is Fallback),
        forall|m: int|
            0 <= m < mounts_of(dirs, n).len() ==> (#[trigger] mounts_of(dirs, n)[m]
                matches MountView::Nested { route, .. } ==> !is_root(route)),
    decreases n,
{
    if 0 < n <= dirs.len() {
        lemma_single_fallback(dirs, n - 1);
        let before = mounts_of(dirs, n - 1);
        let all = mounts_of(dirs, n);
        assert forall|a: int, b: int| 0 <= a < b < all.len() implies !(#[trigger] all[a] is Fallback
            && #[trigger] all[b] is Fallback) by {
            if b == before.len() && all[b] is Fallback && all[a] is Fallback {
                assert(before[a] is Fallback);
            }
        }
        assert forall|m: int| 0 <= m < all.len() implies (#[trigger] all[m]
            matches MountView::Nested { route, .. } ==> !is_root(route)) by {
            if m < before.len() {
                assert(all[m] == before[m]);
            }
        }
    }
}

/// Lays out the file server of one listener from its directory records.
pub fn dirs_router(dirs: Vec<DirParsedRecord>) -> (mounts: Vec<Mount>)
    ensures
        mount_views(mounts@) == mounts_of(dir_views(dirs@), dirs@.len() as int),
{
    let ghost records = dir_views(dirs@);
    let mut mounts: Vec<Mount> = Vec::new();
    let mut root_inited: bool = false;
    let mut i: usize = 0;
    assert(mount_views(mounts@) =~= mounts_of(records, 0));
    while i < dirs.len()
        invariant
            i <= dirs.len(),
            records == dir_views(dirs@),
            mount_views(mounts@) == mounts_of(records, i as int),
            root_inited == has_fallback(mounts_of(records, i as int)),
        decreases dirs.len() - i,
    {
        let ghost before = mount_views(mounts@);
        let ghost laid = mounts@;
        assert(records[i as int] == dirs@[i as int]@);
        if is_root_route(dirs[i].route.as_str()) {
            if !root_inited {
                let mount = Mount::Fallback { path: dirs[i].path.clone() };
                mounts.push(mount);
                root_inited = true;
                assert(mount_views(mounts@) =~= before.push(mount@));
                assert(mounts_of(records, i + 1)[before.len() as int] is Fallback);
            }
        } else {
            let mount = Mount::Nested { route: dirs[i].route.clone(), path: dirs[i].path.clone() };
            mounts.push(mount);
            assert(mount_views(mounts@) =~= before.push(mount@));
            proof {
                let all = mounts_of(records, i + 1);
                if has_fallback(before) {
                    let m = choose|m: int| 0 <= m < before.len() && #[trigger] before[m] is Fallback;
                    assert(all[m] is Fallback);
                }
                if has_fallback(all) {
                    let m = choose|m: int| 0 <= m < all.len() && #[trigger] all[m] is Fallback;
                    assert(before[m] is Fallback);
                }
            }
        }
        i += 1;
    }
    mounts
}

} // verus!
