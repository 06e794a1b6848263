use crate::resource::Resource;
use crate::store::{resource_views, snapshot_of, SnapshotView, Store};
use vstd::prelude::*;

pub mod git;

verus! {

/// Why the objects of the registry could not be loaded.
#[derive(Debug)]
pub struct LoadError {
    /// The file or directory that the failure is about.
    pub path: String,
    /// What went wrong with it.
    pub message: String,
}

/// A source of the registry's objects that follows an upstream. What an
/// update and a load of a source can give is for the source to say: a source
/// that reads the world outside says of them only what it can vouch for.
pub trait DataSource {
    /// Whether an update of this source can leave the source as `after` and
    /// report `changed`. A source that does not say can do anything.
    open spec fn can_update(&self, after: &Self, changed: bool) -> bool {
        true
    }

    /// Whether loading from this source can give `loaded`. A source that does
    /// not say can give anything.
    open spec fn can_load(&self, loaded: Result<Vec<Resource>, LoadError>) -> bool {
        true
    }

    /// Brings the local copy up to date. Returns whether it changed.
    fn update(&mut self) -> (changed: bool)
        ensures
            old(self).can_update(final(self), changed),
    ;

    /// The objects of the local copy, in the order in which they are to be
    /// taken into a snapshot.
    fn get_resources(&self) -> (loaded: Result<Vec<Resource>, LoadError>)
        ensures
            self.can_load(loaded),
    ;
}

/// How a refresh ended.
#[derive(Debug)]
pub enum RefreshOutcome {
    /// The source had not changed; the store was left as it was.
    Unchanged,
    /// A snapshot of the objects was published.
    Rebuilt,
    /// The objects could not be loaded; the store was left as it was.
    Failed(LoadError),
}

/// The snapshot of a store after a refresh in which the source reported
/// `changed` and loading gave `loaded`: that of the loaded objects where the
/// source changed and loading succeeded, else the one it had.
pub open spec fn snapshot_after(
    before: SnapshotView,
    changed: bool,
    loaded: Result<Vec<Resource>, LoadError>,
) -> SnapshotView {
    match loaded {
        Ok(resources) => if changed {
            snapshot_of(resource_views(resources@)).published()
        } else {
            before
        },
        Err(_) => before,
    }
}

/// How a refresh ends in which the source reported `changed` and loading gave
/// `loaded`: without a change, with a new snapshot, or with the failure of
/// the load.
pub open spec fn outcome_of(
    changed: bool,
    loaded: Result<Vec<Resource>, LoadError>,
) -> RefreshOutcome {
    if !changed {
        RefreshOutcome::Unchanged
    } else {
        match loaded {
            Ok(_) => RefreshOutcome::Rebuilt,
            Err(e) => RefreshOutcome::Failed(e),
        }
    }
}

/// Ends a refresh: publishes a snapshot of the loaded objects where the source
/// changed and loading succeeded, and leaves the store as it was otherwise.
pub fn apply<S: Store>(
    store: &mut S,
    changed: bool,
    loaded: Result<Vec<Resource>, LoadError>,
) -> (r: RefreshOutcome)
    ensures
        final(store).snapshot() == snapshot_after(old(store).snapshot(), changed, loaded),
        r == outcome_of(changed, loaded),
{
    if !changed {
        return RefreshOutcome::Unchanged;
    }
    match loaded {
        Ok(resources) => {
            store.set(&resources);
            RefreshOutcome::Rebuilt
        },
        Err(e) => RefreshOutcome::Failed(e),
    }
}

/// What holds after a source was updated and its objects were loaded: the
/// update took the source from `before` to `after` and reported `changed`,
/// loading from it then gave `loaded`, and the store, which held `held`,
/// holds the published snapshot of the loaded objects, or what it held where
/// loading failed; `outcome` says which, and hands back the failure.
pub open spec fn refreshed<D: DataSource>(
    before: D,
    after: D,
    held: SnapshotView,
    holds: SnapshotView,
    outcome: RefreshOutcome,
    changed: bool,
    loaded: Result<Vec<Resource>, LoadError>,
) -> bool {
    &&& before.can_update(&after, changed)
    &&& after.can_load(loaded)
    &&& holds == snapshot_after(held, true, loaded)
    &&& outcome == outcome_of(true, loaded)
}

/// One refresh: updates the source and, where it changed, loads its objects
/// and publishes a snapshot of them. Where the source did not change, nothing
/// is loaded and the store keeps its snapshot; where the objects could not be
/// loaded, the store keeps its snapshot too, and the failure is handed back.
pub fn refresh<D: DataSource, S: Store>(source: &mut D, store: &mut S) -> (r: RefreshOutcome)
    ensures
        r is Unchanged ==> old(source).can_update(final(source), false)
            && final(store).snapshot() == old(store).snapshot(),
        !(r is Unchanged) ==> exists|loaded: Result<Vec<Resource>, LoadError>| #[trigger]
            refreshed(
                *old(source),
                *final(source),
                old(store).snapshot(),
                final(store).snapshot(),
                r,
                true,
                loaded,
            ),
{
    if source.update() {
        let loaded = source.get_resources();
        let ghost seen = loaded;
        let r = apply(store, true, loaded);
        proof {
            assert(refreshed(
                *old(source),
                *source,
                old(store).snapshot(),
                store.snapshot(),
                r,
                true,
                seen,
            ));
        }
        r
    } else {
        RefreshOutcome::Unchanged
    }
}

/// The first load, at startup: updates the source, loads its objects whether it
/// changed or not, and publishes a snapshot of them. Where the objects could
/// not be loaded, the store keeps its snapshot and the failure is handed back.
pub fn load<D: DataSource, S: Store>(source: &mut D, store: &mut S) -> (r: RefreshOutcome)
    ensures
        exists|changed: bool, loaded: Result<Vec<Resource>, LoadError>| #[trigger]
            refreshed(
                *old(source),
                *final(source),
                old(store).snapshot(),
                final(store).snapshot(),
                r,
                changed,
                loaded,
            ),
{
    let changed = source.update();
    let loaded = source.get_resources();
    let ghost seen = loaded;
    let r = apply(store, true, loaded);
    proof {
        assert(refreshed(
            *old(source),
            *source,
            old(store).snapshot(),
            store.snapshot(),
            r,
            changed,
            seen,
        ));
    }
    r
}

} // verus!
