//! The parameters a system declares, the rules that decide whether they can be
//! bound against a store, and the arguments a bound system receives.

use crate::commands::{Command, Commands};
use crate::events::{ChannelResource, EventReader, EventWriter, TryRecvError, EVENT_CAPACITY};
use crate::storage::{ResMut, ResOwned, ResourceId, Resources, Slot, shared_access};
use vstd::prelude::*;

verus! {

/// One declared parameter of a system.
#[derive(Clone, Copy, PartialEq, Eq, Structural, Debug)]
pub enum SystemParam {
    /// A shared view of a resource that must exist.
    Res(ResourceId),
    /// An exclusive loan of a resource that must exist.
    ResMut(ResourceId),
    /// A shared view, or nothing when the resource is missing.
    OptionRes(ResourceId),
    /// An exclusive loan, or nothing when the resource is missing.
    OptionResMut(ResourceId),
    /// A copy of a resource that must exist, taken when the system starts.
    ResOwned(ResourceId),
    /// A copy, or nothing when the resource is missing.
    OptionResOwned(ResourceId),
    /// The handle that queues commands.
    Commands,
    /// A reader of an event kind.
    EventReader(ResourceId),
    /// A writer of an event kind.
    EventWriter(ResourceId),
}

/// How a parameter uses its resource while the system runs.
pub enum Access {
    /// Not at all.
    Untouched,
    /// Read once, when the system starts.
    Copied,
    /// Shared for the whole run.
    Shared,
    /// Exclusive for the whole run.
    Exclusive,
}

/// The resource a parameter reads, if it reads one.
pub open spec fn param_key(p: SystemParam) -> Option<ResourceId> {
    match p {
        SystemParam::Res(k) => Some(k),
        SystemParam::ResMut(k) => Some(k),
        SystemParam::OptionRes(k) => Some(k),
        SystemParam::OptionResMut(k) => Some(k),
        SystemParam::ResOwned(k) => Some(k),
        SystemParam::OptionResOwned(k) => Some(k),
        _ => None,
    }
}

/// Whether a missing resource makes the parameter fail rather than come out empty.
pub open spec fn param_required(p: SystemParam) -> bool {
    p is Res || p is ResMut || p is ResOwned
}

/// How the parameter uses its resource, when that resource is present.
pub open spec fn param_access(p: SystemParam) -> Access {
    match p {
        SystemParam::Res(_) => Access::Shared,
        SystemParam::OptionRes(_) => Access::Shared,
        SystemParam::ResMut(_) => Access::Exclusive,
        SystemParam::OptionResMut(_) => Access::Exclusive,
        SystemParam::ResOwned(_) => Access::Copied,
        SystemParam::OptionResOwned(_) => Access::Copied,
        _ => Access::Untouched,
    }
}

/// Whether a later parameter's access clashes with an earlier one's on the same
/// resource: an exclusive loan excludes any later access, and a shared view
/// excludes a later exclusive loan.
pub open spec fn accesses_clash(earlier: SystemParam, later: SystemParam) -> bool {
    (param_access(earlier) is Exclusive && !(param_access(later) is Untouched)) || (param_access(
        later,
    ) is Exclusive && param_access(earlier) is Shared)
}

/// Why a system's parameters could not be bound.
#[derive(Clone, Copy, PartialEq, Eq, Structural, Debug)]
pub enum BindError {
    /// A required resource is missing.
    Missing { index: usize, id: ResourceId },
    /// The access would alias an exclusive loan.
    Conflict { index: usize, id: ResourceId },
}

/// Whether parameter `j` of `ps` takes a resource that an earlier parameter
/// already holds in a clashing way.
pub open spec fn clashes_with_earlier(ps: Seq<SystemParam>, j: int) -> bool {
    exists|i: int|
        0 <= i < j && param_key(ps[i]) == param_key(ps[j]) && #[trigger] accesses_clash(
            ps[i],
            ps[j],
        )
}

/// The failure of parameter `j` of `ps` against the slots `m`, if it fails.
pub open spec fn param_error<V>(ps: Seq<SystemParam>, m: Map<u128, Slot<V>>, j: int) -> Option<
    BindError,
> {
    match param_key(ps[j]) {
        None => None,
        Some(k) => if !m.contains_key(k.id) {
            if param_required(ps[j]) {
                Some(BindError::Missing { index: j as usize, id: k })
            } else {
                None
            }
        } else if m[k.id] is Lent || clashes_with_earlier(ps, j) {
            Some(BindError::Conflict { index: j as usize, id: k })
        } else {
            None
        },
    }
}

/// The failure of the first failing parameter from index `j` on.
pub open spec fn first_bind_error_from<V>(ps: Seq<SystemParam>, m: Map<u128, Slot<V>>, j: int) -> Option<
    BindError,
>
    decreases ps.len() - j,
{
    if j < 0 || j >= ps.len() {
        None
    } else {
        match param_error(ps, m, j) {
            Some(e) => Some(e),
            None => first_bind_error_from(ps, m, j + 1),
        }
    }
}

/// The failure of the first failing parameter, in declaration order.
pub open spec fn bind_error<V>(ps: Seq<SystemParam>, m: Map<u128, Slot<V>>) -> Option<BindError> {
    first_bind_error_from(ps, m, 0)
}


/// Whether some parameter of `ps` takes the resource keyed `k` exclusively.
pub open spec fn exclusively_bound(ps: Seq<SystemParam>, k: u128) -> bool {
    exists|j: int|
        0 <= j < ps.len() && #[trigger] param_access(ps[j]) is Exclusive && param_key(ps[j])
            == Some(ResourceId { id: k })
}

/// The slots once every exclusive parameter of `ps` holds its loan.
pub open spec fn slots_after_binding<V>(ps: Seq<SystemParam>, m: Map<u128, Slot<V>>) -> Map<
    u128,
    Slot<V>,
> {
    Map::new(
        |k: u128| m.contains_key(k),
        |k: u128|
            if exclusively_bound(ps, k) {
                Slot::Lent
            } else {
                m[k]
            },
    )
}

/// The event kind a parameter reads or writes, if any.
pub open spec fn param_channel(p: SystemParam) -> Option<ResourceId> {
    match p {
        SystemParam::EventReader(k) => Some(k),
        SystemParam::EventWriter(k) => Some(k),
        _ => None,
    }
}

/// Whether some parameter of `ps` is the command handle.
pub open spec fn declares_commands(ps: Seq<SystemParam>) -> bool {
    exists|j: int| 0 <= j < ps.len() && #[trigger] ps[j] == SystemParam::Commands
}

/// The event kinds that the parameters of `ps` read or write.
pub open spec fn channel_kinds(ps: Seq<SystemParam>) -> Set<u128> {
    Set::new(
        |k: u128| exists|j: int| 0 <= j < ps.len() && #[trigger] param_channel(ps[j]) == Some(ResourceId { id: k }),
    )
}

/// The command queue once it has been prepared: created empty when missing.
pub open spec fn queue_after_prepare<V, C>(q: Option<Seq<Command<V, C>>>) -> Option<Seq<Command<V, C>>> {
    match q {
        Some(_) => q,
        None => Some(Seq::<Command<V, C>>::empty()),
    }
}

/// Whether `after` is `before` once the channel of kind `k` has been prepared:
/// created for kind `k` with the capacity `EVENT_CAPACITY` when missing, every
/// existing channel left as it was.
pub open spec fn channel_prepared<V>(
    before: Map<u128, ChannelResource<V>>,
    after: Map<u128, ChannelResource<V>>,
    k: u128,
) -> bool {
    &&& after.dom() == before.dom().insert(k)
    &&& forall|j: u128| #[trigger] before.contains_key(j) ==> after[j] == before[j]
    &&& !before.contains_key(k) ==> after[k].spec_kind().id == k && after[k].spec_capacity()
        == EVENT_CAPACITY
}

/// Whether every channel in `after` that `before` lacks was made for the kind it
/// is kept under, with the capacity `EVENT_CAPACITY`.
pub open spec fn new_channels_fit<V>(
    before: Map<u128, ChannelResource<V>>,
    after: Map<u128, ChannelResource<V>>,
) -> bool {
    forall|k: u128| #[trigger]
        after.contains_key(k) && !before.contains_key(k) ==> after[k].spec_kind().id == k
            && after[k].spec_capacity() == EVENT_CAPACITY
}

/// Whether every channel of `channels` carries the event kind it is kept under.
pub open spec fn keyed_by_kind<V>(channels: Map<u128, ChannelResource<V>>) -> bool {
    forall|k: u128| #[trigger] channels.contains_key(k) ==> channels[k].spec_kind().id == k
}

/// Preparing the command queue again changes nothing: there is never a second queue,
/// and what the first one holds stays.
pub proof fn lemma_queue_prepared_once<V, C>(q: Option<Seq<Command<V, C>>>)
    ensures
        queue_after_prepare(q) is Some,
        queue_after_prepare(queue_after_prepare(q)) == queue_after_prepare(q),
        q is Some ==> queue_after_prepare(q) == q,
{
}

/// Preparing the channel of a kind twice leaves the channels as the first
/// preparation made them: there is one channel per kind.
pub proof fn lemma_channel_prepared_once<V>(
    c0: Map<u128, ChannelResource<V>>,
    c1: Map<u128, ChannelResource<V>>,
    c2: Map<u128, ChannelResource<V>>,
    k: u128,
)
    requires
        channel_prepared(c0, c1, k),
        channel_prepared(c1, c2, k),
    ensures
        c2 == c1,
        c1.contains_key(k),
{
    assert(c2 =~= c1);
}

proof fn lemma_error_found_from<V>(ps: Seq<SystemParam>, m: Map<u128, Slot<V>>, i: int, j: int)
    requires
        0 <= i <= j < ps.len(),
        param_error(ps, m, j) is Some,
    ensures
        first_bind_error_from(ps, m, i) is Some,
        (forall|x: int| i <= x < j ==> #[trigger] param_error(ps, m, x) is None) ==> first_bind_error_from(ps, m, i)
            == param_error(ps, m, j),
    decreases j - i,
{
    if i < j {
        lemma_error_found_from(ps, m, i + 1, j);
    }
}

/// Asking for an exclusive loan of a resource while an earlier parameter holds a
/// shared view of it fails: the binding reports a failure, and when nothing before
/// fails, it is the conflict at the exclusive parameter.
pub proof fn lemma_exclusive_after_shared_fails<V>(
    ps: Seq<SystemParam>,
    m: Map<u128, Slot<V>>,
    i: int,
    j: int,
    k: ResourceId,
)
    requires
        0 <= i < j < ps.len(),
        ps[i] == SystemParam::Res(k) || ps[i] == SystemParam::OptionRes(k),
        ps[j] == SystemParam::ResMut(k) || ps[j] == SystemParam::OptionResMut(k),
        m.contains_key(k.id),
    ensures
        bind_error(ps, m) is Some,
        (forall|x: int| 0 <= x < j ==> #[trigger] param_error(ps, m, x) is None) ==> bind_error(ps, m)
            == Some(BindError::Conflict { index: j as usize, id: k }),
{
    assert(accesses_clash(ps[i], ps[j]));
    assert(clashes_with_earlier(ps, j));
    lemma_error_found_from(ps, m, 0, j);
}

/// A bound parameter, as the system receives it.
#[verifier::reject_recursive_types(V)]
pub enum Arg<V, C> {
    /// A shared view; the value is read from the store while the system runs.
    Res(ResourceId),
    /// An exclusive loan.
    ResMut(ResMut<V>),
    /// A copy taken when the system started.
    ResOwned(ResOwned<V>),
    /// An optional parameter whose resource is missing.
    Absent,
    /// The command handle.
    Commands(Commands<V, C>),
    /// An event reader.
    EventReader(EventReader<V>),
    /// An event writer.
    EventWriter(EventWriter<V>),
}

/// Whether `a` is what parameter `p` binds to against the slots `m` (which are
/// free of clashes for it) and the prepared channels `chans`: a reader or writer
/// belongs to the channel kept for its kind.
pub open spec fn arg_fits<V: Clone, C>(
    p: SystemParam,
    a: Arg<V, C>,
    m: Map<u128, Slot<V>>,
    chans: Map<u128, ChannelResource<V>>,
) -> bool {
    match param_key(p) {
        Some(k) => if !m.contains_key(k.id) {
            a is Absent
        } else {
            match param_access(p) {
                Access::Shared => a == Arg::<V, C>::Res(k),
                Access::Exclusive => match a {
                    Arg::ResMut(l) => l.spec_id() == k && Slot::Held(l.view_value()) == m[k.id],
                    _ => false,
                },
                _ => match a {
                    Arg::ResOwned(o) => cloned(m[k.id]->Held_0, o.view_value()),
                    _ => false,
                },
            }
        },
        None => match p {
            SystemParam::Commands => match a {
                Arg::Commands(c) => c.queued() == Seq::<Command<V, C>>::empty(),
                _ => false,
            },
            SystemParam::EventReader(k) => match a {
                Arg::EventReader(r) => chans.contains_key(k.id) && r.spec_kind() == chans[k.id].spec_kind(),
                _ => false,
            },
            SystemParam::EventWriter(k) => match a {
                Arg::EventWriter(w) => chans.contains_key(k.id) && w.spec_kind() == chans[k.id].spec_kind(),
                _ => false,
            },
            _ => false,
        },
    }
}

/// The commands the handles among `items` queued, in order.
pub open spec fn queued_by<V, C>(items: Seq<Arg<V, C>>) -> Seq<Command<V, C>>
    decreases items.len(),
{
    if items.len() == 0 {
        Seq::<Command<V, C>>::empty()
    } else {
        queued_by(items.drop_last()) + match items.last() {
            Arg::Commands(c) => c.queued(),
            _ => Seq::<Command<V, C>>::empty(),
        }
    }
}

/// The slots once every loan among `items` has been restored, in order.
pub open spec fn slots_after_settling<V, C>(m: Map<u128, Slot<V>>, items: Seq<Arg<V, C>>) -> Map<
    u128,
    Slot<V>,
>
    decreases items.len(),
{
    if items.len() == 0 {
        m
    } else {
        let before = slots_after_settling(m, items.drop_last());
        match items.last() {
            Arg::ResMut(l) => crate::storage::slots_after_restore(before, l.spec_id(), l.view_value()),
            _ => before,
        }
    }
}

/// The bound parameters of one run of a system.
#[verifier::reject_recursive_types(V)]
pub struct Args<V, C> {
    items: Vec<Arg<V, C>>,
}

fn key_of(p: SystemParam) -> (r: Option<ResourceId>)
    ensures
        r == param_key(p),
{
    match p {
        SystemParam::Res(k) => Some(k),
        SystemParam::ResMut(k) => Some(k),
        SystemParam::OptionRes(k) => Some(k),
        SystemParam::OptionResMut(k) => Some(k),
        SystemParam::ResOwned(k) => Some(k),
        SystemParam::OptionResOwned(k) => Some(k),
        _ => None,
    }
}

fn access_of(p: SystemParam) -> (r: Access)
    ensures
        r == param_access(p),
{
    match p {
        SystemParam::Res(_) => Access::Shared,
        SystemParam::OptionRes(_) => Access::Shared,
        SystemParam::ResMut(_) => Access::Exclusive,
        SystemParam::OptionResMut(_) => Access::Exclusive,
        SystemParam::ResOwned(_) => Access::Copied,
        SystemParam::OptionResOwned(_) => Access::Copied,
        _ => Access::Untouched,
    }
}

fn clash(earlier: SystemParam, later: SystemParam) -> (r: bool)
    ensures
        r == accesses_clash(earlier, later),
{
    let a = access_of(earlier);
    let b = access_of(later);
    let earlier_exclusive = match a {
        Access::Exclusive => true,
        _ => false,
    };
    let earlier_shared = match a {
        Access::Shared => true,
        _ => false,
    };
    let later_exclusive = match b {
        Access::Exclusive => true,
        _ => false,
    };
    let later_untouched = match b {
        Access::Untouched => true,
        _ => false,
    };
    (earlier_exclusive && !later_untouched) || (later_exclusive && earlier_shared)
}

/// The failure of parameter `j` of `ps` against the store, if it fails.
fn param_error_at<V>(ps: &Vec<SystemParam>, resources: &Resources<V>, j: usize) -> (r: Option<BindError>)
    requires
        j < ps@.len(),
    ensures
        r == param_error(ps@, resources.slots(), j as int),
{
    let p = ps[j];
    match key_of(p) {
        None => None,
        Some(k) => {
            if !resources.contains(k) {
                let required = match p {
                    SystemParam::Res(_) => true,
                    SystemParam::ResMut(_) => true,
                    SystemParam::ResOwned(_) => true,
                    _ => false,
                };
                if required {
                    Some(BindError::Missing { index: j, id: k })
                } else {
                    None
                }
            } else if resources.is_lent(k) {
                Some(BindError::Conflict { index: j, id: k })
            } else {
                let mut i: usize = 0;
                let mut found = false;
                while i < j
                    invariant
                        i <= j < ps@.len(),
                        p == ps@[j as int],
                        param_key(p) == Some(k),
                        found <==> exists|x: int|
                            0 <= x < i && param_key(ps@[x]) == param_key(ps@[j as int])
                                && #[trigger] accesses_clash(ps@[x], ps@[j as int]),
                    decreases j - i,
                {
                    let same = match key_of(ps[i]) {
                        Some(k2) => k2.id == k.id,
                        None => false,
                    };
                    if same && clash(ps[i], p) {
                        found = true;
                    }
                    proof {
                        if same {
                            assert(param_key(ps@[i as int]) == param_key(ps@[j as int]));
                        }
                    }
                    i = i + 1;
                }
                if found {
                    Some(BindError::Conflict { index: j, id: k })
                } else {
                    None
                }
            }
        },
    }
}

/// The failure of the first failing parameter, in declaration order.
pub fn find_bind_error<V>(ps: &Vec<SystemParam>, resources: &Resources<V>) -> (r: Option<BindError>)
    ensures
        r == bind_error(ps@, resources.slots()),
{
    let mut j: usize = 0;
    while j < ps.len()
        invariant
            j <= ps@.len(),
            bind_error(ps@, resources.slots()) == first_bind_error_from(ps@, resources.slots(), j as int),
        decreases ps@.len() - j,
    {
        let e = param_error_at(ps, resources, j);
        if e.is_some() {
            return e;
        }
        j = j + 1;
    }
    None
}

/// No failure from index `j` on means no parameter from `j` on fails.
pub(crate) proof fn lemma_no_error_from<V>(ps: Seq<SystemParam>, m: Map<u128, Slot<V>>, j: int, x: int)
    requires
        0 <= j <= x < ps.len(),
        first_bind_error_from(ps, m, j) is None,
    ensures
        param_error(ps, m, x) is None,
    decreases x - j,
{
    if j < x {
        lemma_no_error_from(ps, m, j + 1, x);
    }
}

/// Slots that are held, not lent, come through the restoring of loans unchanged.
proof fn lemma_settling_keeps_held<V, C>(m: Map<u128, Slot<V>>, items: Seq<Arg<V, C>>, k: u128)
    ensures
        slots_after_settling(m, items).dom() == m.dom(),
        m.contains_key(k) && m[k] is Held ==> slots_after_settling(m, items)[k] == m[k],
    decreases items.len(),
{
    if items.len() > 0 {
        lemma_settling_keeps_held(m, items.drop_last(), k);
    }
}

/// Restoring loans changes no key set and no held slot.
pub proof fn lemma_settling_keeps_held_all<V, C>(m: Map<u128, Slot<V>>, items: Seq<Arg<V, C>>)
    ensures
        slots_after_settling(m, items).dom() == m.dom(),
        forall|k: u128| #[trigger] m.contains_key(k) && m[k] is Held ==> slots_after_settling(m, items)[k] == m[k],
{
    assert forall|k: u128| #[trigger] m.contains_key(k) && m[k] is Held implies slots_after_settling(m, items)[k] == m[k] by {
        lemma_settling_keeps_held(m, items, k);
    }
    lemma_settling_keeps_held(m, items, 0);
}

impl<V, C> Args<V, C> {
    pub closed spec fn items(&self) -> Seq<Arg<V, C>> {
        self.items@
    }

    pub(crate) fn from_items(items: Vec<Arg<V, C>>) -> (r: Args<V, C>)
        ensures
            r.items() == items@,
    {
        Args { items }
    }

    pub(crate) fn into_items(self) -> (r: Vec<Arg<V, C>>)
        ensures
            r@ == self.items(),
    {
        self.items
    }

    pub fn len(&self) -> (r: usize)
        ensures
            r == self.items().len(),
    {
        self.items.len()
    }

    /// The value a shared parameter sees, read from `resources`.
    pub fn res<'b>(&self, i: usize, resources: &'b Resources<V>) -> (r: Option<&'b V>)
        ensures
            match r {
                Some(v) => i < self.items().len() && self.items()[i as int] is Res
                    && shared_access(resources.slots(), self.items()[i as int]->Res_0) == Ok::<Option<V>, crate::storage::BorrowError>(Some(*v)),
                None => true,
            },
            (i < self.items().len() && self.items()[i as int] is Res && shared_access(resources.slots(), self.items()[i as int]->Res_0) is Ok
              && shared_access(resources.slots(), self.items()[i as int]->Res_0)->Ok_0 is Some) ==> r is Some,
    {
        if i >= self.items.len() {
            return None;
        }
        match &self.items[i] {
            Arg::Res(k) => match resources.get(*k) {
                Ok(Some(res)) => Some(res.get()),
                _ => None,
            },
            _ => None,
        }
    }

    /// The value an exclusive parameter holds.
    pub fn res_mut(&self, i: usize) -> (r: Option<&V>)
        ensures
            match r {
                Some(v) => i < self.items().len() && self.items()[i as int] is ResMut
                    && *v == self.items()[i as int]->ResMut_0.view_value(),
                None => !(i < self.items().len() && self.items()[i as int] is ResMut),
            },
    {
        if i >= self.items.len() {
            return None;
        }
        match &self.items[i] {
            Arg::ResMut(l) => Some(l.get()),
            _ => None,
        }
    }

    /// Replaces the value an exclusive parameter holds; false when parameter `i`
    /// holds no loan.
    pub fn set(&mut self, i: usize, value: V) -> (r: bool)
        ensures
            r == (i < old(self).items().len() && old(self).items()[i as int] is ResMut),
            r ==> final(self).items().len() == old(self).items().len() && (forall|x: int| 0 <= x < old(self).items().len() && x != i ==> final(self).items()[x] == old(self).items()[x])
                && final(self).items()[i as int] is ResMut
                && final(self).items()[i as int]->ResMut_0.spec_id() == old(self).items()[i as int]->ResMut_0.spec_id()
                && final(self).items()[i as int]->ResMut_0.view_value() == value,
            !r ==> final(self).items() == old(self).items(),
    {
        if i >= self.items.len() {
            return false;
        }
        let is_loan = match &self.items[i] {
            Arg::ResMut(_) => true,
            _ => false,
        };
        if !is_loan {
            return false;
        }
        let item = self.items.remove(i);
        match item {
            Arg::ResMut(mut l) => {
                l.set(value);
                self.items.insert(i, Arg::ResMut(l));
            },
            other => {
                self.items.insert(i, other);
            },
        }
        proof {
            assert(forall|x: int| 0 <= x < old(self).items().len() && x != i ==> self.items()[x] == old(self).items()[x]);
        }
        true
    }

    /// The copy a copied parameter holds.
    pub fn owned(&self, i: usize) -> (r: Option<&V>)
        ensures
            match r {
                Some(v) => i < self.items().len() && self.items()[i as int] is ResOwned
                    && *v == self.items()[i as int]->ResOwned_0.view_value(),
                None => !(i < self.items().len() && self.items()[i as int] is ResOwned),
            },
    {
        if i >= self.items.len() {
            return None;
        }
        match &self.items[i] {
            Arg::ResOwned(o) => Some(o.get()),
            _ => None,
        }
    }

    /// Queues `command` through the command handle at `i`; false when parameter
    /// `i` is not the command handle.
    pub fn queue(&mut self, i: usize, command: Command<V, C>) -> (r: bool)
        ensures
            r == (i < old(self).items().len() && old(self).items()[i as int] is Commands),
            r ==> final(self).items().len() == old(self).items().len() && (forall|x: int| 0 <= x < old(self).items().len() && x != i ==> final(self).items()[x] == old(self).items()[x])
                && final(self).items()[i as int] is Commands
                && final(self).items()[i as int]->Commands_0.queued() == old(self).items()[i as int]->Commands_0.queued().push(command),
            !r ==> final(self).items() == old(self).items(),
    {
        if i >= self.items.len() {
            return false;
        }
        let is_handle = match &self.items[i] {
            Arg::Commands(_) => true,
            _ => false,
        };
        if !is_handle {
            return false;
        }
        let item = self.items.remove(i);
        match item {
            Arg::Commands(mut c) => {
                c.push(command);
                self.items.insert(i, Arg::Commands(c));
            },
            other => {
                self.items.insert(i, other);
            },
        }
        proof {
            assert(forall|x: int| 0 <= x < old(self).items().len() && x != i ==> self.items()[x] == old(self).items()[x]);
        }
        true
    }

    /// Sends `value` through the writer at `i`: the number of readers reached, or
    /// `None` when parameter `i` is not a writer.
    pub fn send(&self, i: usize, value: V) -> (r: Option<usize>)
        ensures
            r is Some == (i < self.items().len() && self.items()[i as int] is EventWriter),
    {
        if i >= self.items.len() {
            return None;
        }
        match &self.items[i] {
            Arg::EventWriter(w) => Some(w.send(value)),
            _ => None,
        }
    }
}

impl<V: Clone, C> Args<V, C> {
    /// Receives through the reader at `i` without waiting, or `None` when parameter
    /// `i` is not a reader.
    pub fn try_recv(&mut self, i: usize) -> (r: Option<Result<V, TryRecvError>>)
        ensures
            r is Some == (i < old(self).items().len() && old(self).items()[i as int] is EventReader),
            final(self).items().len() == old(self).items().len(),
            match r {
                Some(Err(TryRecvError::Lagged(n))) => n > 0,
                _ => true,
            },
    {
        if i >= self.items.len() {
            return None;
        }
        let is_reader = match &self.items[i] {
            Arg::EventReader(_) => true,
            _ => false,
        };
        if !is_reader {
            return None;
        }
        let item = self.items.remove(i);
        match item {
            Arg::EventReader(mut reader) => {
                let got = reader.try_recv();
                self.items.insert(i, Arg::EventReader(reader));
                Some(got)
            },
            other => {
                self.items.insert(i, other);
                None
            },
        }
    }
}

} // verus!
