use crate::registry::WindowRegistry;
use vstd::prelude::*;

verus! {

/// A native event, as far as the driver tells events apart.
#[derive(Clone, Copy, Debug, PartialEq, Eq, Structural)]
pub enum LoopEvent {
    /// The loop has started.
    Init,
    /// The user asked to close the native window with this handle.
    CloseRequested(u64),
    /// No native events are pending: time for a frame.
    AboutToWait,
    /// Any other native event.
    Other,
}

/// What the driver does for one dispatch.
#[derive(Clone, Copy, Debug, PartialEq, Eq, Structural)]
pub enum DispatchAction {
    /// Stop the native loop; nothing else runs.
    Terminate,
    /// Create native windows for the entities that still lack one.
    Reconcile,
    /// Emit a close-request signal for this handle, then reconcile.
    ForwardClose(u64),
    /// Run one application frame, then report through `after_frame`.
    RunFrame,
}

/// The action for one dispatch: once exit was observed (now or before),
/// the loop terminates; otherwise the event decides, and a frame runs only on
/// an idle event once the application has finished starting up.
pub open spec fn action_of(exited: bool, event: LoopEvent, exit_seen: bool, ready: bool) -> DispatchAction {
    if exited || exit_seen {
        DispatchAction::Terminate
    } else {
        match event {
            LoopEvent::Init => DispatchAction::Reconcile,
            LoopEvent::CloseRequested(h) => DispatchAction::ForwardClose(h),
            LoopEvent::AboutToWait => if ready {
                DispatchAction::RunFrame
            } else {
                DispatchAction::Reconcile
            },
            LoopEvent::Other => DispatchAction::Reconcile,
        }
    }
}

/// Whether the driver has exited after a dispatch.
pub open spec fn exited_after(exited: bool, exit_seen: bool) -> bool {
    exited || exit_seen
}

/// The actions taken for a run of dispatches, each given as the event,
/// whether a new exit signal was pending, and whether start-up is complete.
pub open spec fn trace(exited: bool, inputs: Seq<(LoopEvent, bool, bool)>) -> Seq<DispatchAction>
    decreases inputs.len(),
{
    if inputs.len() == 0 {
        Seq::<DispatchAction>::empty()
    } else {
        seq![action_of(exited, inputs[0].0, inputs[0].1, inputs[0].2)] + trace(
            exited_after(exited, inputs[0].1),
            inputs.drop_first(),
        )
    }
}

/// The event-loop driver's own state.
pub struct Runner {
    exited: bool,
}

impl Runner {
    pub closed spec fn exited(&self) -> bool {
        self.exited
    }

    /// A driver that has not exited.
    pub fn new() -> (r: Runner)
        ensures
            !r.exited(),
    {
        Runner { exited: false }
    }

    /// Whether the exit signal has been observed.
    pub fn has_exited(&self) -> (r: bool)
        ensures
            r == self.exited(),
    {
        self.exited
    }

    /// Decides one dispatch. `exit_seen` tells whether an exit signal arrived
    /// since the driver last looked; `ready` whether start-up is complete.
    pub fn dispatch(&mut self, event: LoopEvent, exit_seen: bool, ready: bool) -> (r: DispatchAction)
        ensures
            r == action_of(old(self).exited(), event, exit_seen, ready),
            final(self).exited() == exited_after(old(self).exited(), exit_seen),
    {
        if self.exited || exit_seen {
            self.exited = true;
            return DispatchAction::Terminate;
        }
        match event {
            LoopEvent::Init => DispatchAction::Reconcile,
            LoopEvent::CloseRequested(h) => DispatchAction::ForwardClose(h),
            LoopEvent::AboutToWait => if ready {
                DispatchAction::RunFrame
            } else {
                DispatchAction::Reconcile
            },
            LoopEvent::Other => DispatchAction::Reconcile,
        }
    }

    /// Decides what follows a frame: the exit signal is checked again at
    /// once, so a frame that requested exit is the last one.
    pub fn after_frame(&mut self, exit_seen: bool) -> (r: DispatchAction)
        ensures
            r == (if exit_seen {
                DispatchAction::Terminate
            } else {
                DispatchAction::Reconcile
            }),
            final(self).exited() == exited_after(old(self).exited(), exit_seen),
    {
        if exit_seen {
            self.exited = true;
            DispatchAction::Terminate
        } else {
            DispatchAction::Reconcile
        }
    }
}

/// Once the driver has exited, every later dispatch terminates, whatever
/// the events: no frame runs after the exit signal was observed.
pub proof fn lemma_exit_monotone(inputs: Seq<(LoopEvent, bool, bool)>)
    ensures
        trace(true, inputs).len() == inputs.len(),
        forall|i: int| 0 <= i < inputs.len() ==> #[trigger] trace(true, inputs)[i] == DispatchAction::Terminate,
    decreases inputs.len(),
{
    if inputs.len() > 0 {
        lemma_exit_monotone(inputs.drop_first());
        let t = trace(true, inputs);
        let rest = trace(true, inputs.drop_first());
        assert forall|i: int| 0 <= i < inputs.len() implies #[trigger] t[i] == DispatchAction::Terminate by {
            if i > 0 {
                assert(t[i] == rest[i - 1]);
            }
        }
    }
}

/// A dispatch that observes a new exit signal terminates the loop, and so
/// does every dispatch after it: the driver runs no frame once exit has been
/// observed.
pub proof fn lemma_exit_observed(inputs: Seq<(LoopEvent, bool, bool)>)
    requires
        inputs.len() > 0,
        inputs[0].1,
    ensures
        forall|exited: bool, i: int| 0 <= i < inputs.len() ==> #[trigger] trace(exited, inputs)[i] == DispatchAction::Terminate,
{
    lemma_exit_monotone(inputs.drop_first());
    assert forall|exited: bool, i: int| 0 <= i < inputs.len() implies #[trigger] trace(exited, inputs)[i] == DispatchAction::Terminate by {
        if i > 0 {
            assert(trace(exited, inputs)[i] == trace(true, inputs.drop_first())[i - 1]);
        }
    }
}

/// Reconciliation creates a window for each entity in `added` (those given a
/// window descriptor since the last pass) that has none yet, once each, in
/// arrival order.
pub open spec fn to_create(registered: Set<u64>, added: Seq<u64>) -> Seq<u64>
    decreases added.len(),
{
    if added.len() == 0 {
        Seq::<u64>::empty()
    } else {
        let prev = to_create(registered, added.drop_last());
        let e = added.last();
        if registered.contains(e) || prev.contains(e) {
            prev
        } else {
            prev.push(e)
        }
    }
}

fn vec_contains(v: &Vec<u64>, x: u64) -> (r: bool)
    ensures
        r == v@.contains(x),
{
    let mut i: usize = 0;
    while i < v.len()
        invariant
            i <= v.len(),
            forall|j: int| 0 <= j < i ==> v@[j] != x,
        decreases v.len() - i,
    {
        if v[i] == x {
            assert(v@[i as int] == x);
            return true;
        }
        i = i + 1;
    }
    false
}

/// The entities that need a native window: those of `added` that the
/// registry has no window for, once each, in arrival order. The caller
/// creates each window and registers it before the next dispatch.
pub fn create_windows<W>(winit_windows: &WindowRegistry<W>, added: &Vec<u64>) -> (r: Vec<u64>)
    ensures
        r@ == to_create(winit_windows@.dom(), added@),
{
    let mut r: Vec<u64> = Vec::new();
    let mut i: usize = 0;
    while i < added.len()
        invariant
            i <= added.len(),
            r@ == to_create(winit_windows@.dom(), added@.subrange(0, i as int)),
        decreases added.len() - i,
    {
        assert(added@.subrange(0, i + 1).drop_last() =~= added@.subrange(0, i as int));
        let entity = added[i];
        if !winit_windows.contains_entity(entity) && !vec_contains(&r, entity) {
            r.push(entity);
        }
        i = i + 1;
    }
    assert(added@.subrange(0, added.len() as int) =~= added@);
    r
}

/// Every entity given a window descriptor is, after reconciliation, either
/// already registered or among those whose window is created; reconciliation
/// creates windows only for entities just given a descriptor, never for one
/// that is still registered, and never twice for one entity.
pub proof fn lemma_creation_complete(registered: Set<u64>, added: Seq<u64>)
    ensures
        forall|i: int|
            0 <= i < added.len() ==> registered.contains(#[trigger] added[i]) || to_create(
                registered,
                added,
            ).contains(added[i]),
        forall|e: u64| #[trigger]
            to_create(registered, added).contains(e) ==> added.contains(e) && !registered.contains(e),
        to_create(registered, added).no_duplicates(),
    decreases added.len(),
{
    if added.len() > 0 {
        let prev_in = added.drop_last();
        lemma_creation_complete(registered, prev_in);
        let prev = to_create(registered, prev_in);
        let cur = to_create(registered, added);
        let e = added.last();
        assert forall|i: int|
            0 <= i < added.len() implies registered.contains(#[trigger] added[i]) || cur.contains(added[i]) by {
            if i < added.len() - 1 {
                assert(prev_in[i] == added[i]);
                if prev.contains(added[i]) {
                    let j = choose|j: int| 0 <= j < prev.len() && prev[j] == added[i];
                    assert(cur[j] == added[i]);
                }
            } else {
                if !registered.contains(e) && !prev.contains(e) {
                    assert(cur[cur.len() - 1] == e);
                }
            }
        }
        assert forall|x: u64| #[trigger] cur.contains(x) implies added.contains(x) && !registered.contains(x) by {
            let j = choose|j: int| 0 <= j < cur.len() && cur[j] == x;
            if j < prev.len() {
                assert(prev[j] == x);
                assert(prev.contains(x));
                let k = choose|k: int| 0 <= k < prev_in.len() && prev_in[k] == x;
                assert(added[k] == x);
            } else {
                assert(added[added.len() - 1] == x);
            }
        }
    }
}

} // verus!
