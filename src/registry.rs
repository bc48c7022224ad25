use vstd::hash_map::HashMapWithView;
use vstd::prelude::*;

verus! {

broadcast use vstd::std_specs::hash::group_hash_axioms;

/// Every entity with a handle is the entity of that handle, and every handle
/// with an entity is the handle of that entity.
pub open spec fn is_bijection(by_entity: Map<u64, u64>, by_handle: Map<u64, u64>) -> bool {
    &&& forall|e: u64|
        #[trigger] by_entity.contains_key(e) ==> by_handle.contains_key(by_entity[e])
            && by_handle[by_entity[e]] == e
    &&& forall|h: u64|
        #[trigger] by_handle.contains_key(h) ==> by_entity.contains_key(by_handle[h])
            && by_entity[by_handle[h]] == h
}

/// The two-way map between entities and the native windows created for them,
/// and the owner of those native windows (of type `W`).
///
/// Entities and native window handles are both identified by `u64` values.
#[verifier::reject_recursive_types(W)]
pub struct WindowRegistry<W> {
    entity_to_window: HashMapWithView<u64, u64>,
    window_to_entity: HashMapWithView<u64, u64>,
    natives: HashMapWithView<u64, W>,
}

impl<W> View for WindowRegistry<W> {
    type V = Map<u64, u64>;

    /// The handle of each registered entity.
    closed spec fn view(&self) -> Map<u64, u64> {
        self.entity_to_window@
    }
}

impl<W> WindowRegistry<W> {
    /// The entity of each registered handle.
    pub closed spec fn handles(&self) -> Map<u64, u64> {
        self.window_to_entity@
    }

    /// The native window owned for each registered handle.
    pub closed spec fn natives(&self) -> Map<u64, W> {
        self.natives@
    }

    pub open spec fn wf(&self) -> bool {
        &&& is_bijection(self@, self.handles())
        &&& self.natives().dom() == self.handles().dom()
    }

    /// An empty registry.
    pub fn new() -> (r: WindowRegistry<W>)
        ensures
            r.wf(),
            r@ == Map::<u64, u64>::empty(),
            r.handles() == Map::<u64, u64>::empty(),
    {
        let r = WindowRegistry {
            entity_to_window: HashMapWithView::new(),
            window_to_entity: HashMapWithView::new(),
            natives: HashMapWithView::new(),
        };
        assert(r.natives().dom() =~= r.handles().dom());
        r
    }

    /// The native window of `entity`, if one was created for it.
    pub fn native_window(&self, entity: u64) -> (r: Option<&W>)
        requires
            self.wf(),
        ensures
            r is Some == self@.contains_key(entity),
            r is Some ==> *r->0 == self.natives()[self@[entity]],
    {
        match self.entity_to_window.get(&entity) {
            Some(h) => self.natives.get(h),
            None => None,
        }
    }

    /// The handle of `entity`, if a window was created for it.
    pub fn lookup_by_entity(&self, entity: u64) -> (r: Option<u64>)
        ensures
            r == (if self@.contains_key(entity) {
                Some(self@[entity])
            } else {
                None::<u64>
            }),
    {
        match self.entity_to_window.get(&entity) {
            Some(h) => Some(*h),
            None => None,
        }
    }

    /// The entity that owns `handle`, if it is still registered.
    pub fn lookup_by_handle(&self, handle: u64) -> (r: Option<u64>)
        ensures
            r == (if self.handles().contains_key(handle) {
                Some(self.handles()[handle])
            } else {
                None::<u64>
            }),
    {
        match self.window_to_entity.get(&handle) {
            Some(e) => Some(*e),
            None => None,
        }
    }

    /// Whether a window was created for `entity`.
    pub fn contains_entity(&self, entity: u64) -> (r: bool)
        ensures
            r == self@.contains_key(entity),
    {
        self.entity_to_window.contains_key(&entity)
    }

    /// Takes ownership of the native window `native`, whose handle is
    /// `handle`, created for `entity`. Both entries are added together, or
    /// neither (and the window is dropped) when the entity already has a
    /// window or the handle already belongs to an entity.
    pub fn register(&mut self, entity: u64, handle: u64, native: W) -> (r: bool)
        requires
            old(self).wf(),
        ensures
            final(self).wf(),
            r == (!old(self)@.contains_key(entity) && !old(self).handles().contains_key(handle)),
            r ==> final(self)@ == old(self)@.insert(entity, handle) && final(self).handles()
                == old(self).handles().insert(handle, entity) && final(self).natives()
                == old(self).natives().insert(handle, native),
            !r ==> final(self)@ == old(self)@ && final(self).handles() == old(self).handles()
                && final(self).natives() == old(self).natives(),
    {
        if self.entity_to_window.contains_key(&entity) || self.window_to_entity.contains_key(
            &handle,
        ) {
            return false;
        }
        self.entity_to_window.insert(entity, handle);
        self.window_to_entity.insert(handle, entity);
        self.natives.insert(handle, native);
        assert(self.natives().dom() =~= self.handles().dom());
        true
    }

    /// Removes both entries of `entity`, releases its native window and
    /// returns that window's handle; an entity without a window is left alone.
    pub fn destroy(&mut self, entity: u64) -> (r: Option<u64>)
        requires
            old(self).wf(),
        ensures
            final(self).wf(),
            r == (if old(self)@.contains_key(entity) {
                Some(old(self)@[entity])
            } else {
                None::<u64>
            }),
            final(self)@ == old(self)@.remove(entity),
            r is Some ==> final(self).handles() == old(self).handles().remove(r->0)
                && final(self).natives() == old(self).natives().remove(r->0),
            r is None ==> final(self).handles() == old(self).handles() && final(self).natives()
                == old(self).natives(),
    {
        match self.entity_to_window.remove(&entity) {
            Some(h) => {
                self.window_to_entity.remove(&h);
                self.natives.remove(&h);
                assert(self.natives().dom() =~= self.handles().dom());
                Some(h)
            },
            None => None,
        }
    }
}

/// In a well-formed registry, looking up the handle of a registered entity
/// leads back to that entity, looking up the entity of a registered handle
/// leads back to that handle, and no handle or entity is shared.
pub proof fn lemma_registry_bijection<W>(reg: &WindowRegistry<W>)
    requires
        reg.wf(),
    ensures
        forall|e: u64| #[trigger]
            reg@.contains_key(e) ==> reg.handles().contains_key(reg@[e]) && reg.handles()[reg@[e]]
                == e,
        forall|h: u64| #[trigger]
            reg.handles().contains_key(h) ==> reg@.contains_key(reg.handles()[h])
                && reg@[reg.handles()[h]] == h,
        forall|e1: u64, e2: u64|
            reg@.contains_key(e1) && reg@.contains_key(e2) && #[trigger] reg@[e1]
                == #[trigger] reg@[e2] ==> e1 == e2,
        forall|h1: u64, h2: u64|
            reg.handles().contains_key(h1) && reg.handles().contains_key(h2)
                && #[trigger] reg.handles()[h1] == #[trigger] reg.handles()[h2] ==> h1 == h2,
{
    assert forall|e1: u64, e2: u64|
        reg@.contains_key(e1) && reg@.contains_key(e2) && #[trigger] reg@[e1]
            == #[trigger] reg@[e2] implies e1 == e2 by {
        assert(reg.handles()[reg@[e1]] == e1);
    }
    assert forall|h1: u64, h2: u64|
        reg.handles().contains_key(h1) && reg.handles().contains_key(h2)
            && #[trigger] reg.handles()[h1] == #[trigger] reg.handles()[h2] implies h1 == h2 by {
        assert(reg@[reg.handles()[h1]] == h1);
    }
}

} // verus!
