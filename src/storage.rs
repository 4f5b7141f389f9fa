//! The resource store: keyed singleton values with checked exclusive lending.

use std::collections::HashMap;
use vstd::prelude::*;

verus! {

broadcast use vstd::std_specs::hash::group_hash_axioms;

/// What `uuid::Uuid::new_v5` gives for the OID namespace and the UTF-8 bytes of a name.
pub uninterp spec fn oid_name_uuid(name: Seq<char>) -> u128;

/// Relies on `uuid::Uuid::new_v5` (with `NAMESPACE_OID`) and `Uuid::as_u128`: the
/// identifier is a function of the name alone.
#[verifier::external_body]
fn uuid_for_name(name: &str) -> (r: u128)
    ensures
        r == oid_name_uuid(name@),
{
    uuid::Uuid::new_v5(&uuid::Uuid::NAMESPACE_OID, name.as_bytes()).as_u128()
}

/// The key under which a resource lives in a store.
#[derive(Clone, Copy, PartialEq, Eq, Structural, Debug, Hash)]
pub struct ResourceId {
    pub id: u128,
}

impl ResourceId {
    /// A key given by its raw value.
    pub fn from_raw(id: u128) -> (r: ResourceId)
        ensures
            r.id == id,
    {
        ResourceId { id }
    }

    /// The stable key for a resource name: a version-5 UUID in the OID namespace.
    pub fn named(name: &str) -> (r: ResourceId)
        ensures
            r.id == oid_name_uuid(name@),
    {
        ResourceId { id: uuid_for_name(name) }
    }
}

/// A type that knows the key its values are stored under.
pub trait Resource {
    fn id() -> ResourceId;
}

/// The state of one key of the store: the value is held, or lent out exclusively.
pub enum Slot<V> {
    Held(V),
    Lent,
}

/// Refusal of an access that would alias an outstanding exclusive loan.
#[derive(Clone, Copy, PartialEq, Eq, Structural, Debug)]
pub struct BorrowError {
    pub id: ResourceId,
}

/// What a shared access to `k` yields in a store whose slots are `m`.
pub open spec fn shared_access<V>(m: Map<u128, Slot<V>>, k: ResourceId) -> Result<
    Option<V>,
    BorrowError,
> {
    if !m.contains_key(k.id) {
        Ok(None)
    } else {
        match m[k.id] {
            Slot::Held(v) => Ok(Some(v)),
            Slot::Lent => Err(BorrowError { id: k }),
        }
    }
}

/// The slots after `add(k, v)`.
pub open spec fn slots_after_add<V>(m: Map<u128, Slot<V>>, k: ResourceId, v: V) -> Map<
    u128,
    Slot<V>,
> {
    m.insert(k.id, Slot::Held(v))
}

/// The slots after `remove(k)`.
pub open spec fn slots_after_remove<V>(m: Map<u128, Slot<V>>, k: ResourceId) -> Map<
    u128,
    Slot<V>,
> {
    m.remove(k.id)
}

/// The slots after an exclusive access to `k`: a held value becomes lent.
pub open spec fn slots_after_lend<V>(m: Map<u128, Slot<V>>, k: ResourceId) -> Map<
    u128,
    Slot<V>,
> {
    if m.contains_key(k.id) && m[k.id] is Held {
        m.insert(k.id, Slot::Lent)
    } else {
        m
    }
}

/// The slots after a lent value `v` comes back to `k`.
pub open spec fn slots_after_restore<V>(m: Map<u128, Slot<V>>, k: ResourceId, v: V) -> Map<
    u128,
    Slot<V>,
> {
    if m.contains_key(k.id) && m[k.id] is Lent {
        m.insert(k.id, Slot::Held(v))
    } else {
        m
    }
}

/// After `add(k, v)` a shared access to `k` sees `v`; after a second `add(k, w)`
/// it sees `w`, never `v`.
pub proof fn lemma_add_then_get<V>(m: Map<u128, Slot<V>>, k: ResourceId, v: V, w: V)
    ensures
        shared_access(slots_after_add(m, k, v), k) == Ok::<Option<V>, BorrowError>(Some(v)),
        shared_access(slots_after_add(slots_after_add(m, k, v), k, w), k) == Ok::<
            Option<V>,
            BorrowError,
        >(Some(w)),
{
}

/// After `remove(k)` a shared access to `k` finds nothing.
pub proof fn lemma_remove_then_get<V>(m: Map<u128, Slot<V>>, k: ResourceId)
    ensures
        shared_access(slots_after_remove(m, k), k) == Ok::<Option<V>, BorrowError>(None),
{
}

/// While a value is lent out, neither a shared nor a second exclusive access
/// succeeds.
pub proof fn lemma_lent_refuses_access<V>(m: Map<u128, Slot<V>>, k: ResourceId)
    requires
        m.contains_key(k.id),
        m[k.id] is Held,
    ensures
        shared_access(slots_after_lend(m, k), k) == Err::<Option<V>, BorrowError>(BorrowError { id: k }),
        slots_after_lend(slots_after_lend(m, k), k) == slots_after_lend(m, k),
{
}

/// A shared view of a resource.
pub struct Res<'a, V> {
    id: ResourceId,
    value: &'a V,
}

impl<'a, V> Res<'a, V> {
    pub closed spec fn spec_id(&self) -> ResourceId {
        self.id
    }

    pub closed spec fn view_value(&self) -> V {
        *self.value
    }

    pub(crate) fn new(id: ResourceId, value: &'a V) -> (r: Res<'a, V>)
        ensures
            r.spec_id() == id,
            r.view_value() == *value,
    {
        Res { id, value }
    }

    pub fn id(&self) -> (r: ResourceId)
        ensures
            r == self.spec_id(),
    {
        self.id
    }

    pub fn get(&self) -> (r: &'a V)
        ensures
            *r == self.view_value(),
    {
        self.value
    }
}

/// An exclusive loan of a resource: the value travels with the loan until it is
/// restored to the store.
pub struct ResMut<V> {
    id: ResourceId,
    value: V,
}

impl<V> ResMut<V> {
    pub closed spec fn spec_id(&self) -> ResourceId {
        self.id
    }

    pub closed spec fn view_value(&self) -> V {
        self.value
    }

    pub(crate) fn new(id: ResourceId, value: V) -> (r: ResMut<V>)
        ensures
            r.spec_id() == id,
            r.view_value() == value,
    {
        ResMut { id, value }
    }

    pub fn id(&self) -> (r: ResourceId)
        ensures
            r == self.spec_id(),
    {
        self.id
    }

    pub fn get(&self) -> (r: &V)
        ensures
            *r == self.view_value(),
    {
        &self.value
    }

    pub fn set(&mut self, value: V)
        ensures
            final(self).spec_id() == old(self).spec_id(),
            final(self).view_value() == value,
    {
        self.value = value;
    }

    pub fn into_inner(self) -> (r: V)
        ensures
            r == self.view_value(),
    {
        self.value
    }
}

/// An owned copy of a resource, taken at the moment of access.
pub struct ResOwned<V> {
    inner: V,
}

impl<V> ResOwned<V> {
    pub closed spec fn view_value(&self) -> V {
        self.inner
    }

    pub fn new(inner: V) -> (r: ResOwned<V>)
        ensures
            r.view_value() == inner,
    {
        ResOwned { inner }
    }

    pub fn get(&self) -> (r: &V)
        ensures
            *r == self.view_value(),
    {
        &self.inner
    }

    pub fn into_inner(self) -> (r: V)
        ensures
            r == self.view_value(),
    {
        self.inner
    }
}

/// The store of singleton resources, one per key.
pub struct Resources<V> {
    slots: HashMap<u128, Slot<V>>,
}

impl<V> Resources<V> {
    pub closed spec fn slots(&self) -> Map<u128, Slot<V>> {
        self.slots@
    }

    pub fn new() -> (r: Resources<V>)
        ensures
            r.slots() == Map::<u128, Slot<V>>::empty(),
    {
        Resources { slots: HashMap::new() }
    }

    /// Inserts `value` under `id`, replacing whatever was there.
    pub fn add(&mut self, id: ResourceId, value: V)
        ensures
            final(self).slots() == slots_after_add(old(self).slots(), id, value),
    {
        self.slots.insert(id.id, Slot::Held(value));
    }

    /// Whether a slot exists for `id`, held or lent.
    pub fn contains(&self, id: ResourceId) -> (r: bool)
        ensures
            r == self.slots().contains_key(id.id),
    {
        self.slots.contains_key(&id.id)
    }

    /// Whether the slot of `id` exists and is lent out.
    pub fn is_lent(&self, id: ResourceId) -> (r: bool)
        ensures
            r == (self.slots().contains_key(id.id) && self.slots()[id.id] is Lent),
    {
        match self.slots.get(&id.id) {
            Some(Slot::Lent) => true,
            _ => false,
        }
    }

    /// Inserts `value` under `id` only when no slot exists for `id`.
    pub fn add_if_not_present(&mut self, id: ResourceId, value: V)
        ensures
            old(self).slots().contains_key(id.id) ==> final(self).slots() == old(self).slots(),
            !old(self).slots().contains_key(id.id) ==> final(self).slots() == slots_after_add(
                old(self).slots(),
                id,
                value,
            ),
    {
        if !self.slots.contains_key(&id.id) {
            self.add(id, value);
        }
    }

    /// Inserts a prepared key and value pair.
    pub fn add_entry(&mut self, entry: (ResourceId, V))
        ensures
            final(self).slots() == slots_after_add(old(self).slots(), entry.0, entry.1),
    {
        let (id, value) = entry;
        self.add(id, value);
    }

    /// Removes the slot of `id`; gives back its value when it was held, not lent.
    pub fn remove(&mut self, id: ResourceId) -> (r: Option<V>)
        ensures
            final(self).slots() == slots_after_remove(old(self).slots(), id),
            r == (match shared_access(old(self).slots(), id) {
                Ok(Some(v)) => Some(v),
                _ => None::<V>,
            }),
    {
        match self.slots.remove(&id.id) {
            Some(Slot::Held(v)) => Some(v),
            _ => None,
        }
    }

    /// A shared view of the value under `id`; `None` when there is none, an error
    /// when it is lent out.
    pub fn get(&self, id: ResourceId) -> (r: Result<Option<Res<'_, V>>, BorrowError>)
        ensures
            match (r, shared_access(self.slots(), id)) {
                (Ok(Some(res)), Ok(Some(v))) => res.view_value() == v && res.spec_id() == id,
                (Ok(None), Ok(None)) => true,
                (Err(e), Err(f)) => e == f,
                _ => false,
            },
    {
        match self.slots.get(&id.id) {
            None => Ok(None),
            Some(Slot::Held(v)) => Ok(Some(Res::new(id, v))),
            Some(Slot::Lent) => Err(BorrowError { id }),
        }
    }

    /// An exclusive loan of the value under `id`; the slot stays lent until the
    /// loan is restored.
    pub fn get_mut(&mut self, id: ResourceId) -> (r: Result<Option<ResMut<V>>, BorrowError>)
        ensures
            final(self).slots() == slots_after_lend(old(self).slots(), id),
            match (r, shared_access(old(self).slots(), id)) {
                (Ok(Some(res)), Ok(Some(v))) => res.view_value() == v && res.spec_id() == id,
                (Ok(None), Ok(None)) => true,
                (Err(e), Err(f)) => e == f,
                _ => false,
            },
    {
        match self.slots.remove(&id.id) {
            None => Ok(None),
            Some(Slot::Lent) => {
                self.slots.insert(id.id, Slot::Lent);
                Err(BorrowError { id })
            },
            Some(Slot::Held(v)) => {
                self.slots.insert(id.id, Slot::Lent);
                Ok(Some(ResMut::new(id, v)))
            },
        }
    }

    /// Ends an exclusive loan. The value returns to its slot when the slot is still
    /// lent; when the slot was replaced or removed meanwhile the value is dropped.
    pub fn restore(&mut self, loan: ResMut<V>)
        ensures
            final(self).slots() == slots_after_restore(
                old(self).slots(),
                loan.spec_id(),
                loan.view_value(),
            ),
    {
        let ResMut { id, value } = loan;
        match self.slots.remove(&id.id) {
            None => {},
            Some(Slot::Lent) => {
                self.slots.insert(id.id, Slot::Held(value));
            },
            Some(Slot::Held(v)) => {
                self.slots.insert(id.id, Slot::Held(v));
            },
        }
    }
}

} // verus!
