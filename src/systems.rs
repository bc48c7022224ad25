use crate::registry::WindowRegistry;
use vstd::prelude::*;

verus! {

/// How many live entities carry the primary marker.
pub struct PrimaryWindowCount(pub u64);

impl Default for PrimaryWindowCount {
    fn default() -> (r: PrimaryWindowCount)
        ensures
            r.0 == 0,
    {
        PrimaryWindowCount(0)
    }
}

/// Brings the primary count back to the entities that still carry the
/// marker: `live` holds the marked entities that were not newly marked since
/// the last pass. Run before `u_primary_window_check`, so that a primary
/// window that was despawned or unmarked no longer counts and a new one keeps
/// its marker.
pub fn u_primary_window_recount(primary_window_count: &mut PrimaryWindowCount, live: &Vec<u64>)
    ensures
        final(primary_window_count).0 == (if live@.len() == 0 {
            0u64
        } else {
            1u64
        }),
{
    primary_window_count.0 = if live.len() == 0 {
        0
    } else {
        1
    };
}

/// The entities, among those newly marked primary in arrival order, that
/// lose the marker: all of them when a primary window already exists, all
/// but the first otherwise.
pub open spec fn primary_stripped(count: u64, added: Seq<u64>) -> Seq<u64> {
    if count == 0 && added.len() > 0 {
        added.subrange(1, added.len() as int)
    } else {
        added
    }
}

/// The newly marked entities that keep the marker.
pub open spec fn primary_retained(count: u64, added: Seq<u64>) -> Seq<u64> {
    if count == 0 && added.len() > 0 {
        seq![added[0]]
    } else {
        Seq::<u64>::empty()
    }
}

/// The primary count once the newly marked entities have been seen.
pub open spec fn primary_count_after(count: u64, added: Seq<u64>) -> u64 {
    if count == 0 && added.len() > 0 {
        1
    } else {
        count
    }
}

/// Keeps at most one primary window. `added` holds the entities newly marked
/// primary since the last pass, in arrival order; the result holds those whose
/// marker is to be removed, each of which deserves a warning.
pub fn u_primary_window_check(primary_window_count: &mut PrimaryWindowCount, added: &Vec<u64>) -> (stripped: Vec<u64>)
    ensures
        stripped@ == primary_stripped(old(primary_window_count).0, added@),
        final(primary_window_count).0 == primary_count_after(old(primary_window_count).0, added@),
{
    let ghost start = primary_window_count.0;
    let mut stripped: Vec<u64> = Vec::new();
    let mut i: usize = 0;
    while i < added.len()
        invariant
            i <= added.len(),
            stripped@ == primary_stripped(start, added@.subrange(0, i as int)),
            primary_window_count.0 == primary_count_after(start, added@.subrange(0, i as int)),
        decreases added.len() - i,
    {
        if primary_window_count.0 == 0 {
            primary_window_count.0 = 1;
        } else {
            stripped.push(added[i]);
        }
        i = i + 1;
        proof {
            let s = added@.subrange(0, i as int);
            if start == 0 {
                assert(s.subrange(1, s.len() as int) =~= if i == 1 {
                    Seq::<u64>::empty()
                } else {
                    added@.subrange(0, i - 1).subrange(1, i - 1).push(added@[i - 1])
                });
            } else {
                assert(s =~= added@.subrange(0, i - 1).push(added@[i - 1]));
            }
        }
    }
    assert(added@.subrange(0, added.len() as int) =~= added@);
    stripped
}

/// After one pass that starts with no primary window, exactly `min(N, 1)` of
/// the `N` newly marked entities keep the marker, the kept one is the first
/// to arrive, and kept and stripped together are the arrivals in order. A pass
/// never takes the count above one.
pub proof fn lemma_single_primary(count: u64, added: Seq<u64>)
    requires
        count <= 1,
    ensures
        primary_count_after(count, added) <= 1,
        count == 0 ==> primary_retained(count, added).len() == (if added.len() == 0 {
            0nat
        } else {
            1nat
        }),
        count == 0 && added.len() > 0 ==> primary_retained(count, added)[0] == added[0],
        primary_retained(count, added) + primary_stripped(count, added) == added,
        primary_count_after(count, added) == (if count == 1 || added.len() > 0 {
            1u64
        } else {
            0u64
        }),
{
    assert(primary_retained(count, added) + primary_stripped(count, added) =~= added);
}

/// The entities to despawn for the close requests `requests`, in order: the
/// entity of each handle that is still registered; a request for a handle that
/// is gone is dropped.
pub open spec fn despawn_targets(handles: Map<u64, u64>, requests: Seq<u64>) -> Seq<u64>
    decreases requests.len(),
{
    if requests.len() == 0 {
        Seq::<u64>::empty()
    } else {
        let prev = despawn_targets(handles, requests.drop_last());
        if handles.contains_key(requests.last()) {
            prev.push(handles[requests.last()])
        } else {
            prev
        }
    }
}

/// Turns the pending close requests, each carrying a native window handle,
/// into the entities to despawn.
pub fn u_despawn_windows<W>(winit_windows: &WindowRegistry<W>, close_requests: &Vec<u64>) -> (despawn: Vec<u64>)
    ensures
        despawn@ == despawn_targets(winit_windows.handles(), close_requests@),
{
    let mut despawn: Vec<u64> = Vec::new();
    let mut i: usize = 0;
    while i < close_requests.len()
        invariant
            i <= close_requests.len(),
            despawn@ == despawn_targets(winit_windows.handles(), close_requests@.subrange(0, i as int)),
        decreases close_requests.len() - i,
    {
        assert(close_requests@.subrange(0, i + 1).drop_last() =~= close_requests@.subrange(0, i as int));
        match winit_windows.lookup_by_handle(close_requests[i]) {
            Some(entity) => despawn.push(entity),
            None => {},
        }
        i = i + 1;
    }
    assert(close_requests@.subrange(0, close_requests.len() as int) =~= close_requests@);
    despawn
}

/// The handles released when the entities `removed` lose their window
/// descriptor, in order: the handle of each registered entity, once.
pub open spec fn released_handles(by_entity: Map<u64, u64>, removed: Seq<u64>) -> Seq<u64>
    decreases removed.len(),
{
    if removed.len() == 0 {
        Seq::<u64>::empty()
    } else {
        let prev = released_handles(by_entity, removed.drop_last());
        let e = removed.last();
        if by_entity.contains_key(e) && !removed.drop_last().contains(e) {
            prev.push(by_entity[e])
        } else {
            prev
        }
    }
}

proof fn lemma_prefix_contains(s: Seq<u64>, i: int, x: u64)
    requires
        0 <= i < s.len(),
    ensures
        s.subrange(0, i + 1).contains(x) == (s.subrange(0, i).contains(x) || s[i] == x),
{
    let a = s.subrange(0, i + 1);
    let b = s.subrange(0, i);
    if a.contains(x) {
        let j = choose|j: int| 0 <= j < a.len() && a[j] == x;
        if j < i {
            assert(b[j] == x);
        }
    }
    if b.contains(x) {
        let j = choose|j: int| 0 <= j < b.len() && b[j] == x;
        assert(a[j] == x);
    }
    if s[i] == x {
        assert(a[i] == x);
    }
}

/// Destroys the native window of every entity whose window descriptor was
/// removed since the last pass, and returns the released handles.
pub fn u_close_windows<W>(winit_windows: &mut WindowRegistry<W>, removed: &Vec<u64>) -> (released: Vec<u64>)
    requires
        old(winit_windows).wf(),
    ensures
        final(winit_windows).wf(),
        forall|e: u64| #[trigger]
            final(winit_windows)@.contains_key(e) == (old(winit_windows)@.contains_key(e)
                && !removed@.contains(e)),
        forall|e: u64| #[trigger]
            final(winit_windows)@.contains_key(e) ==> final(winit_windows)@[e] == old(
                winit_windows,
            )@[e],
        forall|h: u64| #[trigger]
            final(winit_windows).natives().contains_key(h) ==> final(winit_windows).natives()[h]
                == old(winit_windows).natives()[h],
        released@ == released_handles(old(winit_windows)@, removed@),
{
    let ghost start = winit_windows@;
    let ghost start_natives = winit_windows.natives();
    let mut released: Vec<u64> = Vec::new();
    let mut i: usize = 0;
    while i < removed.len()
        invariant
            i <= removed.len(),
            winit_windows.wf(),
            forall|e: u64| #[trigger]
                winit_windows@.contains_key(e) == (start.contains_key(e)
                    && !removed@.subrange(0, i as int).contains(e)),
            forall|e: u64| #[trigger] winit_windows@.contains_key(e) ==> winit_windows@[e] == start[e],
            forall|h: u64| #[trigger]
                winit_windows.natives().contains_key(h) ==> winit_windows.natives()[h] == start_natives[h],
            released@ == released_handles(start, removed@.subrange(0, i as int)),
        decreases removed.len() - i,
    {
        let entity = removed[i];
        proof {
            assert(removed@.subrange(0, i + 1).drop_last() =~= removed@.subrange(0, i as int));
            assert forall|e: u64| #[trigger] removed@.subrange(0, i + 1).contains(e) == (removed@.subrange(0, i as int).contains(e) || e == entity) by {
                lemma_prefix_contains(removed@, i as int, e);
            }
        }
        match winit_windows.destroy(entity) {
            Some(h) => released.push(h),
            None => {},
        }
        i = i + 1;
    }
    assert(removed@.subrange(0, removed.len() as int) =~= removed@);
    released
}

/// Once the entities `removed` have been torn down, none of them has a
/// window any more, and every other entity keeps the one it had.
pub proof fn lemma_teardown_complete(before: Map<u64, u64>, after: Map<u64, u64>, removed: Seq<u64>)
    requires
        forall|e: u64| #[trigger] after.contains_key(e) == (before.contains_key(e) && !removed.contains(e)),
        forall|e: u64| #[trigger] after.contains_key(e) ==> after[e] == before[e],
    ensures
        forall|i: int| 0 <= i < removed.len() ==> !after.contains_key(#[trigger] removed[i]),
        after == before.remove_keys(removed.to_set()),
{
    assert forall|i: int| 0 <= i < removed.len() implies !after.contains_key(#[trigger] removed[i]) by {
        assert(removed.contains(removed[i]));
    }
    assert(after =~= before.remove_keys(removed.to_set()));
}

/// Requests exit once no entity has both a window and the primary marker.
/// `primary_windows` holds the entities that have both.
pub fn pu_exit_on_primary_closed(primary_windows: &Vec<u64>) -> (exit: bool)
    ensures
        exit == (primary_windows@.len() == 0),
{
    primary_windows.len() == 0
}

/// Requests exit once no entity has a window. `windows` holds the entities
/// that have one.
pub fn pu_exit_on_all_closed(windows: &Vec<u64>) -> (exit: bool)
    ensures
        exit == (windows@.len() == 0),
{
    windows.len() == 0
}

} // verus!
