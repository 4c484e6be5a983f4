//! The whole store in one place: the router, the index, the chain of every
//! application, and the storage units that wait to hold a bucket.
//!
//! Here the components answer each other at once, so every operation can be
//! replayed on plain values: a status query reads the record of a spare unit,
//! and an installation opens a bucket in it.

use vstd::prelude::*;
use crate::bucket::{BucketState, BucketView, InsertError, QueryError};
use crate::chain::{
    Chain,
    ChainView,
    law_extend_keeps_log,
    law_ids_are_positions,
    law_insert_appends,
};
use crate::event::{Event, EventView, IndefiniteEvent, IndefiniteEventView, events_view};
use crate::identity::Identity;
use crate::index::{
    GetContractRootError,
    Index,
    RootResolution,
    RootResolutionView,
    advance_with_index,
    resolve_root,
};
use crate::registry::{bindings_map, lemma_last_binding, lemma_replace_value, lemma_unbound};
use crate::router::{
    ConfigurationFault,
    ProvisionAction,
    ProvisionError,
    ProvisionEvent,
    ProvisionRequest,
    ProvisionStage,
    Router,
    UnitStatus,
    install_argument_of,
    check_unit,
    install_argument,
    unit_fault,
};

verus! {

/// A storage unit that waits to hold a bucket, with what the management
/// authority reports of it.
#[derive(Clone, Debug, PartialEq, Eq)]
pub struct Unit {
    pub id: Identity,
    pub status: UnitStatus,
}

/// The mathematical value of a [`Unit`]: its identity, and what is wrong with
/// it, if anything.
pub struct UnitView {
    pub id: Seq<u8>,
    pub fault: Option<ConfigurationFault>,
}

impl View for Unit {
    type V = UnitView;

    open spec fn view(&self) -> UnitView {
        UnitView { id: self.id@, fault: unit_fault(self.status) }
    }
}

/// The values of a list of storage units, in order.
pub open spec fn units_view(units: Seq<Unit>) -> Seq<UnitView> {
    units.map_values(|u: Unit| u@)
}

/// Each chain of a list under its application.
pub open spec fn chain_entries(chains: Seq<Chain>) -> Seq<(Seq<u8>, ChainView)> {
    chains.map_values(|c: Chain| (c@.application, c@))
}

/// Whether a bucket for `owner` can be installed into `unit`: the unit is
/// empty and under a single controller, and the owner can be written down as
/// the argument of the installation.
pub open spec fn usable(unit: UnitView, owner: Seq<u8>) -> bool {
    unit.fault is None && install_argument_of(owner) is Some
}

/// The chain of `application` as it is opened in the storage unit `unit`.
pub open spec fn fresh_chain(application: Seq<u8>, unit: Seq<u8>, capacity: u64) -> ChainView {
    ChainView {
        application,
        buckets: seq![
            BucketView {
                id: unit,
                owner: application,
                base: 0,
                capacity,
                log: Seq::empty(),
                successor: None,
            },
        ],
    }
}

/// The mathematical value of a [`History`].
pub struct HistoryView {
    /// The router's directory: each application's first bucket.
    pub registry: Map<Seq<u8>, Seq<u8>>,
    /// The index's directory: each application's root bucket.
    pub roots: Map<Seq<u8>, Seq<u8>>,
    /// The chain of each application.
    pub chains: Map<Seq<u8>, ChainView>,
    /// The storage units that wait to hold a bucket; the last is taken first.
    pub spare: Seq<UnitView>,
    /// The capacity that each new bucket gets.
    pub capacity: u64,
}

impl HistoryView {
    /// The invariant of the store: the index mirrors the router; exactly the
    /// registered applications have a chain; and each chain is a chain of its
    /// application whose root is the bucket that the router bound to it.
    pub open spec fn wf(self) -> bool {
        &&& self.roots == self.registry
        &&& forall|a: Seq<u8>|
            #![trigger self.registry.contains_key(a)]
            #![trigger self.chains.contains_key(a)]
            self.registry.contains_key(a) <==> self.chains.contains_key(a)
        &&& forall|a: Seq<u8>| #[trigger]
            self.chains.contains_key(a) ==> self.chains[a].wf() && self.chains[a].application == a
                && self.registry[a] == self.chains[a].buckets[0].id
    }

    /// The whole log of `application`: empty where it has no chain.
    pub open spec fn log(self, application: Seq<u8>) -> Seq<EventView> {
        if self.chains.contains_key(application) {
            self.chains[application].log()
        } else {
            Seq::empty()
        }
    }

    /// Page `page` of the log of `application`, where pages hold `width`
    /// events.
    pub open spec fn page(self, application: Seq<u8>, page: u32, width: u64) -> Seq<EventView> {
        if self.chains.contains_key(application) {
            self.chains[application].page(page, width)
        } else {
            Seq::empty()
        }
    }

    /// The store after `unit` was put with the spare storage units.
    pub open spec fn with_unit(self, unit: UnitView) -> HistoryView {
        HistoryView { spare: self.spare.push(unit), ..self }
    }

    /// The store after the last spare unit was taken.
    pub open spec fn without_unit(self) -> HistoryView {
        HistoryView { spare: self.spare.drop_last(), ..self }
    }

    /// The store after `caller` asked for a bucket, and what it was told. An
    /// application that has a bucket is turned away, and nothing changes.
    /// Otherwise the last spare unit is taken: where it is usable, a chain is
    /// opened in it and bound to the application in the router and in the
    /// index; where it is not, it is dropped and no binding is made.
    pub open spec fn provisioned(self, caller: Seq<u8>) -> (
        HistoryView,
        Result<(), ProvisionError>,
    ) {
        if self.registry.contains_key(caller) {
            (self, Err(ProvisionError::AlreadyRegistered))
        } else if self.spare.len() == 0 {
            (self, Err(ProvisionError::NoSpareUnit))
        } else {
            let unit = self.spare.last();
            match unit.fault {
                Some(fault) => (self.without_unit(), Err(ProvisionError::Configuration(fault))),
                None => if install_argument_of(caller) is None {
                    (self.without_unit(), Err(ProvisionError::ArgumentEncoding))
                } else {
                    (
                        HistoryView {
                            registry: self.registry.insert(caller, unit.id),
                            roots: self.roots.insert(caller, unit.id),
                            chains: self.chains.insert(
                                caller,
                                fresh_chain(caller, unit.id, self.capacity),
                            ),
                            spare: self.spare.drop_last(),
                            capacity: self.capacity,
                        },
                        Ok(()),
                    )
                },
            }
        }
    }

    /// The store after it was made sure, as far as that can be done, that
    /// `application` has a chain.
    pub open spec fn ensured(self, application: Seq<u8>) -> HistoryView {
        if self.roots.contains_key(application) {
            self
        } else {
            self.provisioned(application).0
        }
    }

    /// Whether the chain of `application` is to grow: it has one, its last
    /// bucket is full, the sequence ids of one more bucket fit in a `u64`,
    /// and a spare unit is at hand.
    pub open spec fn grows(self, application: Seq<u8>) -> bool {
        &&& self.chains.contains_key(application)
        &&& self.chains[application].can_extend(self.capacity)
        &&& self.spare.len() > 0
    }

    /// The store after the chain of `application` was given the chance to
    /// grow. Where it is to grow, the last spare unit is taken; where that
    /// unit is usable, the full bucket is closed with a new bucket in it as
    /// its successor.
    pub open spec fn grown(self, application: Seq<u8>) -> HistoryView {
        if self.grows(application) {
            let unit = self.spare.last();
            if usable(unit, application) {
                HistoryView {
                    chains: self.chains.insert(
                        application,
                        self.chains[application].extended(unit.id, self.capacity),
                    ),
                    spare: self.spare.drop_last(),
                    ..self
                }
            } else {
                self.without_unit()
            }
        } else {
            self
        }
    }

    /// Whether bucket `position` of the chain of `application` takes an event
    /// from the application: it is the last of the chain, and writable.
    pub open spec fn takes(self, application: Seq<u8>, position: int) -> bool {
        &&& self.chains.contains_key(application)
        &&& position == self.chains[application].buckets.len() - 1
        &&& self.chains[application].accepts(application)
    }

    /// Whether the chain of `application` takes an event from it.
    pub open spec fn writable(self, application: Seq<u8>) -> bool {
        self.chains.contains_key(application) && self.chains[application].accepts(application)
    }

    /// The store after the chain of `application` took `event` at `time`, and
    /// was then given the chance to grow: a bucket that the event filled is
    /// closed at once where a usable spare unit is at hand.
    pub open spec fn written(
        self,
        application: Seq<u8>,
        event: IndefiniteEventView,
        time: u64,
    ) -> HistoryView {
        self.inserted(application, event, time).grown(application)
    }

    /// The store after the chain of `application` took `event` at `time`.
    pub open spec fn inserted(
        self,
        application: Seq<u8>,
        event: IndefiniteEventView,
        time: u64,
    ) -> HistoryView {
        HistoryView {
            chains: self.chains.insert(
                application,
                self.chains[application].inserted(event, time),
            ),
            ..self
        }
    }
}

/// A chain as it is opened is a chain of its application, with an empty log.
pub proof fn lemma_fresh_chain(application: Seq<u8>, unit: Seq<u8>, capacity: u64)
    ensures
        fresh_chain(application, unit, capacity).wf(),
        fresh_chain(application, unit, capacity).log() == Seq::<EventView>::empty(),
{
    let c = fresh_chain(application, unit, capacity);
    assert(c.buckets.drop_last() =~= Seq::<BucketView>::empty());
    assert(crate::chain::joined_log(c.buckets.drop_last()) =~= Seq::<EventView>::empty());
    assert(c.log() =~= Seq::<EventView>::empty());
}

/// Provisioning keeps the invariant of the store, and leaves every log as it
/// is.
pub proof fn law_provision_keeps_invariant(h: HistoryView, caller: Seq<u8>)
    requires
        h.wf(),
    ensures
        h.provisioned(caller).0.wf(),
        forall|a: Seq<u8>| h.provisioned(caller).0.log(a) == h.log(a),
{
    let after = h.provisioned(caller).0;
    lemma_fresh_chain(caller, h.spare.last().id, h.capacity);
    assert(after.roots =~= after.registry);
    assert forall|a: Seq<u8>| after.log(a) == h.log(a) by {
        if a == caller && !h.registry.contains_key(caller) {
            assert(!h.chains.contains_key(caller));
        }
    }
}

/// Provisioning succeeds where nothing stands against it: the application has
/// no bucket and is a principal, and the unit that is taken is an empty unit
/// under a single controller. The application is then bound to that unit.
pub proof fn law_provision_succeeds(h: HistoryView, caller: Seq<u8>)
    requires
        h.wf(),
        !h.registry.contains_key(caller),
        caller.len() <= crate::router::MAX_PRINCIPAL_LEN,
        h.spare.len() > 0,
        h.spare.last().fault is None,
    ensures
        h.provisioned(caller).1 is Ok,
        h.provisioned(caller).0.registry[caller] == h.spare.last().id,
        h.provisioned(caller).0.roots[caller] == h.spare.last().id,
        h.provisioned(caller).0.chains[caller] == fresh_chain(
            caller,
            h.spare.last().id,
            h.capacity,
        ),
{
}

/// Idempotence of provisioning: an application that has a bucket is turned
/// away with `AlreadyRegistered`, and the store stays exactly as it is; so a
/// second request after one that succeeded makes no second bucket.
pub proof fn law_provision_once(h: HistoryView, caller: Seq<u8>)
    requires
        h.wf(),
    ensures
        h.registry.contains_key(caller) ==> h.provisioned(caller) == (
            h,
            Err::<(), ProvisionError>(ProvisionError::AlreadyRegistered),
        ),
        h.provisioned(caller).1 is Ok ==> h.provisioned(caller).0.provisioned(caller) == (
            h.provisioned(caller).0,
            Err::<(), ProvisionError>(ProvisionError::AlreadyRegistered),
        ),
        h.provisioned(caller).1 is Err ==> h.provisioned(caller).0.registry == h.registry,
{
}

/// Growing a chain keeps the invariant of the store, and leaves every log as
/// it is.
pub proof fn law_grow_keeps_invariant(h: HistoryView, application: Seq<u8>)
    requires
        h.wf(),
    ensures
        h.grown(application).wf(),
        h.grown(application).registry == h.registry,
        forall|a: Seq<u8>| h.grown(application).log(a) == h.log(a),
{
    let after = h.grown(application);
    if h.grows(application) && usable(h.spare.last(), application) {
        assert(h.chains[application].wf());
        law_extend_keeps_log(h.chains[application], h.spare.last().id, h.capacity);
        assert forall|a: Seq<u8>| #[trigger] after.chains.contains_key(a) implies after.chains[a].wf()
            && after.chains[a].application == a && after.registry[a] == after.chains[a].buckets[0].id by {
            if a != application {
                assert(h.chains.contains_key(a));
            }
        }
        assert forall|a: Seq<u8>| after.log(a) == h.log(a) by {}
    }
}

/// A store whose chain of `application` takes an event keeps its invariant;
/// the log of the application grows by exactly that event, stored under the
/// next sequence id, and every other log stays as it is.
pub proof fn law_insert_keeps_invariant(
    h: HistoryView,
    application: Seq<u8>,
    event: IndefiniteEventView,
    time: u64,
)
    requires
        h.wf(),
        h.writable(application),
    ensures
        h.inserted(application, event, time).wf(),
        h.inserted(application, event, time).registry == h.registry,
        h.inserted(application, event, time).log(application) == h.log(application).push(
            event.stored(
                h.log(application).len() as u64,
                h.chains[application].terminal().log.len() as u64,
                time,
            ),
        ),
        forall|a: Seq<u8>|
            a != application ==> h.inserted(application, event, time).log(a) == h.log(a),
{
    let after = h.inserted(application, event, time);
    let c = h.chains[application];
    assert(c.wf());
    law_insert_appends(c, event, time);
    law_ids_are_positions(c);
    assert forall|a: Seq<u8>| #[trigger] after.chains.contains_key(a) implies after.chains[a].wf()
        && after.chains[a].application == a && after.registry[a] == after.chains[a].buckets[0].id by {
        if a != application {
            assert(h.chains.contains_key(a));
        }
    }
}

/// A write keeps the invariant of the store; the log of the application grows
/// by exactly the event, and every other log stays as it is, whether or not
/// the chain grows after the write.
pub proof fn law_write_keeps_invariant(
    h: HistoryView,
    application: Seq<u8>,
    event: IndefiniteEventView,
    time: u64,
)
    requires
        h.wf(),
        h.writable(application),
    ensures
        h.written(application, event, time).wf(),
        h.written(application, event, time).registry == h.registry,
        h.written(application, event, time).log(application) == h.log(application).push(
            event.stored(
                h.log(application).len() as u64,
                h.chains[application].terminal().log.len() as u64,
                time,
            ),
        ),
        forall|a: Seq<u8>|
            a != application ==> h.written(application, event, time).log(a) == h.log(a),
{
    law_insert_keeps_invariant(h, application, event, time);
    law_grow_keeps_invariant(h.inserted(application, event, time), application);
}

/// Isolation: what one application asks of the store never shows in what the
/// store holds for another: not in the router's directory, not in the index,
/// not in the other's chain.
pub proof fn law_isolation(
    h: HistoryView,
    actor: Seq<u8>,
    other: Seq<u8>,
    event: IndefiniteEventView,
    time: u64,
)
    requires
        actor != other,
    ensures
        ({
            let p = h.provisioned(actor).0;
            &&& p.registry.contains_key(other) == h.registry.contains_key(other)
            &&& p.registry.contains_key(other) ==> p.registry[other] == h.registry[other]
            &&& p.roots.contains_key(other) == h.roots.contains_key(other)
            &&& p.roots.contains_key(other) ==> p.roots[other] == h.roots[other]
            &&& p.chains.contains_key(other) == h.chains.contains_key(other)
            &&& p.chains.contains_key(other) ==> p.chains[other] == h.chains[other]
        }),
        ({
            let g = h.grown(actor);
            &&& g.registry == h.registry
            &&& g.roots == h.roots
            &&& g.chains.contains_key(other) == h.chains.contains_key(other)
            &&& g.chains.contains_key(other) ==> g.chains[other] == h.chains[other]
        }),
        ({
            let w = h.written(actor, event, time);
            &&& w.registry == h.registry
            &&& w.roots == h.roots
            &&& w.chains.contains_key(other) == h.chains.contains_key(other)
            &&& w.chains.contains_key(other) ==> w.chains[other] == h.chains[other]
        }),
{
}

/// The boundary of a bucket as the store sees it. With a usable spare unit
/// at hand, the write that fills the last bucket of a chain closes it: the
/// chain has one bucket more, the filled bucket takes nothing further, and
/// the new last bucket is empty and writable, with the log as it was.
pub proof fn law_boundary(
    h: HistoryView,
    application: Seq<u8>,
    event: IndefiniteEventView,
    time: u64,
)
    requires
        h.wf(),
        h.writable(application),
        h.chains[application].terminal().log.len() + 1 == h.chains[application].terminal().capacity,
        h.capacity > 0,
        h.chains[application].next_id() + 1 + h.capacity <= u64::MAX,
        h.spare.len() > 0,
        usable(h.spare.last(), application),
    ensures
        ({
            let filled = h.inserted(application, event, time);
            let after = h.written(application, event, time);
            let last = h.chains[application].buckets.len() - 1;
            &&& !filled.writable(application)
            &&& after.chains[application].buckets.len() == last + 2
            &&& after.chains[application].buckets[last].state() == BucketState::Closed
            &&& after.chains[application].buckets[last].log == filled.chains[application].terminal().log
            &&& !after.takes(application, last)
            &&& after.takes(application, last + 1)
            &&& after.chains[application].terminal().log.len() == 0
            &&& after.log(application) == filled.log(application)
            &&& after.spare == h.spare.drop_last()
        }),
{
    let filled = h.inserted(application, event, time);
    law_insert_keeps_invariant(h, application, event, time);
    law_grow_keeps_invariant(filled, application);
    let c = filled.chains[application];
    assert(c.wf());
    assert(h.chains[application].wf());
    law_extend_keeps_log(c, filled.spare.last().id, filled.capacity);
}

/// The store: router, index, chains and spare storage units.
#[derive(Debug)]
pub struct History {
    router: Router,
    index: Index,
    chains: Vec<Chain>,
    spare: Vec<Unit>,
    capacity: u64,
}

impl View for History {
    type V = HistoryView;

    closed spec fn view(&self) -> HistoryView {
        HistoryView {
            registry: self.router@,
            roots: self.index@,
            chains: bindings_map(chain_entries(self.chains@)),
            spare: units_view(self.spare@),
            capacity: self.capacity,
        }
    }
}

impl History {
    /// Whether the digest of every bucket of every chain certifies its log.
    pub closed spec fn certified(&self) -> bool {
        forall|i: int| 0 <= i < self.chains@.len() ==> (#[trigger] self.chains@[i]).wf()
    }

    /// The invariant of the store, with that of each of its chains.
    pub open spec fn wf(&self) -> bool {
        &&& self@.wf()
        &&& self.certified()
    }

    /// An empty store whose buckets hold up to `capacity` events each.
    pub fn new(capacity: u64) -> (h: History)
        ensures
            h.wf(),
            h@ == (HistoryView {
                registry: Map::empty(),
                roots: Map::empty(),
                chains: Map::empty(),
                spare: Seq::empty(),
                capacity,
            }),
    {
        let h = History {
            router: Router::new(),
            index: Index::new(),
            chains: Vec::new(),
            spare: Vec::new(),
            capacity,
        };
        assert(h@.spare =~= Seq::empty());
        assert(h@.chains =~= Map::empty());
        h
    }

    /// The router of the store.
    pub fn router(&self) -> (r: &Router)
        ensures
            r@ == self@.registry,
    {
        &self.router
    }

    /// The index of the store.
    pub fn index(&self) -> (r: &Index)
        ensures
            r@ == self@.roots,
    {
        &self.index
    }

    /// The capacity that each new bucket gets.
    pub fn capacity(&self) -> (r: u64)
        ensures
            r == self@.capacity,
    {
        self.capacity
    }

    /// The number of storage units that wait to hold a bucket.
    pub fn spare_units(&self) -> (r: usize)
        ensures
            r == self@.spare.len(),
    {
        self.spare.len()
    }

    /// Puts `unit` with the spare storage units: it is the next to be taken.
    pub fn add_unit(&mut self, unit: Unit)
        requires
            old(self).wf(),
        ensures
            final(self).wf(),
            final(self)@ == old(self)@.with_unit(unit@),
    {
        self.spare.push(unit);
        assert(self@.spare =~= old(self)@.spare.push(unit@));
    }

    /// Where the chain of `application` stands in the list of chains.
    fn find(&self, application: &Identity) -> (r: Option<usize>)
        ensures
            match r {
                Some(i) => {
                    &&& i < self.chains@.len()
                    &&& self.chains@[i as int]@.application == application@
                    &&& self@.chains.contains_key(application@)
                    &&& self@.chains[application@] == self.chains@[i as int]@
                    &&& forall|j: int|
                        i < j < self.chains@.len() ==> (#[trigger] chain_entries(
                            self.chains@,
                        )[j]).0 != application@
                },
                None => !self@.chains.contains_key(application@),
            },
    {
        let ghost all = chain_entries(self.chains@);
        let mut i: usize = self.chains.len();
        while i > 0
            invariant
                i <= self.chains.len(),
                all == chain_entries(self.chains@),
                forall|j: int| i <= j < all.len() ==> (#[trigger] all[j]).0 != application@,
            decreases i,
        {
            i -= 1;
            if self.chains[i].application().same(application) {
                proof {
                    lemma_last_binding(all, application@, i as int);
                }
                return Some(i);
            }
        }
        proof {
            lemma_unbound(all, application@);
        }
        None
    }

    /// The chain of `application`, where it has one.
    pub fn chain(&self, application: &Identity) -> (r: Option<&Chain>)
        requires
            self.wf(),
        ensures
            self@.chains.contains_key(application@) <==> r is Some,
            r matches Some(c) ==> c.wf() && c@ == self@.chains[application@],
    {
        match self.find(application) {
            Some(i) => Some(&self.chains[i]),
            None => None,
        }
    }

    /// Provisions a bucket for `caller`. An application that has one is
    /// turned away. Otherwise the last spare unit is taken and looked at as
    /// the router asks; where all goes well, a chain is opened in it and bound
    /// to the application in the router and in the index.
    pub fn provision_bucket(&mut self, caller: &Identity) -> (r: Result<(), ProvisionError>)
        requires
            old(self).wf(),
        ensures
            final(self).wf(),
            (final(self)@, r) == old(self)@.provisioned(caller@),
    {
        proof {
            law_provision_keeps_invariant(self@, caller@);
        }
        if self.router.is_registered(caller) {
            return Err(ProvisionError::AlreadyRegistered);
        }
        if self.spare.len() == 0 {
            return Err(ProvisionError::NoSpareUnit);
        }
        let unit = self.spare.pop().unwrap();
        assert(unit@ == old(self)@.spare.last());
        assert(self@.spare =~= old(self)@.spare.drop_last());
        let Unit { id, status } = unit;
        let request = ProvisionRequest { caller: caller.duplicate(), unit: id };
        let (stage, _) = self.router.advance(
            &request,
            ProvisionStage::Requested,
            ProvisionEvent::Begin,
        );
        let (stage, action) = self.router.advance(&request, stage, ProvisionEvent::Status(status));
        match action {
            ProvisionAction::Fail(e) => {
                return Err(e);
            },
            _ => {},
        }
        let (_, action) = advance_with_index(
            &mut self.router,
            &mut self.index,
            &request,
            stage,
            ProvisionEvent::Installed,
        );
        match action {
            ProvisionAction::Done => {},
            ProvisionAction::Fail(e) => {
                return Err(e);
            },
            _ => {
                return Err(ProvisionError::OutOfOrder);
            },
        }
        let ghost before = chain_entries(self.chains@);
        let chain = Chain::open(caller.duplicate(), request.unit, self.capacity);
        self.chains.push(chain);
        proof {
            let after = chain_entries(self.chains@);
            assert(after.drop_last() =~= before);
            assert(chain@ == fresh_chain(caller@, unit@.id, self.capacity)) by {
                assert(chain@.buckets =~= fresh_chain(caller@, unit@.id, self.capacity).buckets);
            }
            assert forall|i: int| 0 <= i < self.chains@.len() implies (#[trigger] self.chains@[i]).wf() by {
                if i < self.chains@.len() - 1 {
                    assert(self.chains@[i] == old(self).chains@[i]);
                }
            }
        }
        Ok(())
    }

    /// The root bucket of `application`. Where the index knows none, one is
    /// provisioned if `create_if_missing` says so.
    pub fn get_token_contract_root_bucket(
        &mut self,
        application: &Identity,
        create_if_missing: bool,
    ) -> (r: Result<Identity, GetContractRootError>)
        requires
            old(self).wf(),
        ensures
            final(self).wf(),
            match resolve_root(old(self)@.roots, application@, create_if_missing) {
                RootResolutionView::Known(root) => final(self)@ == old(self)@ && r is Ok
                    && r->Ok_0@ == root,
                RootResolutionView::NotFound => final(self)@ == old(self)@ && r == Err::<
                    Identity,
                    GetContractRootError,
                >(GetContractRootError::NotFound),
                RootResolutionView::Provision => final(self)@ == old(self)@.provisioned(
                    application@,
                ).0 && match old(self)@.provisioned(application@).1 {
                    Ok(_) => r is Ok && final(self)@.roots.contains_key(application@) && r->Ok_0@
                        == final(self)@.roots[application@],
                    Err(e) => r == Err::<Identity, GetContractRootError>(
                        GetContractRootError::Provision(e),
                    ),
                },
            },
    {
        match self.index.resolve(application, create_if_missing) {
            RootResolution::Known(root) => Ok(root),
            RootResolution::NotFound => Err(GetContractRootError::NotFound),
            RootResolution::Provision => match self.provision_bucket(application) {
                Ok(_) => match self.index.root_of(application) {
                    Some(root) => Ok(root.duplicate()),
                    None => Err(GetContractRootError::NotFound),
                },
                Err(e) => Err(GetContractRootError::Provision(e)),
            },
        }
    }

    /// Gives the chain of `application` the chance to grow, and says which of
    /// its buckets is the last: the one to write to.
    pub fn resolve(&mut self, application: &Identity) -> (r: Option<usize>)
        requires
            old(self).wf(),
        ensures
            final(self).wf(),
            final(self)@ == old(self)@.grown(application@),
            match r {
                Some(position) => final(self)@.chains.contains_key(application@) && position
                    == final(self)@.chains[application@].buckets.len() - 1,
                None => !final(self)@.chains.contains_key(application@),
            },
    {
        proof {
            law_grow_keeps_invariant(self@, application@);
        }
        let i: usize = match self.find(application) {
            Some(i) => i,
            None => {
                return None;
            },
        };
        let ghost entries = chain_entries(self.chains@);
        assert(self.chains@[i as int].wf());
        let full = match self.chains[i].terminal().state() {
            BucketState::Full => true,
            _ => false,
        };
        let next: u64 = self.chains[i].next_id();
        if full && self.capacity <= u64::MAX - next && self.spare.len() > 0 {
            let unit = self.spare.pop().unwrap();
            assert(unit@ == old(self)@.spare.last());
            assert(self@.spare =~= old(self)@.spare.drop_last());
            if check_unit(&unit.status).is_none() && install_argument(application).is_some() {
                let _ = self.chains[i].extend(unit.id, self.capacity);
                proof {
                    let after = chain_entries(self.chains@);
                    assert(after =~= entries.update(i as int, (application@, self.chains@[i as int]@)));
                    lemma_replace_value(entries, i as int, self.chains@[i as int]@);
                    assert forall|j: int| 0 <= j < self.chains@.len() implies (
                    #[trigger] self.chains@[j]).wf() by {
                        if j != i {
                            assert(self.chains@[j] == old(self).chains@[j]);
                        }
                    }
                }
            }
        }
        Some(self.chains[i].len() - 1)
    }

    /// Writes `event`, at `now`, to bucket `position` of the chain of
    /// `application`, and returns the sequence id it got. The bucket takes it
    /// only if it is the last of the chain and writable; otherwise nothing
    /// changes. A bucket that the event fills gets its successor at once,
    /// where a usable spare unit is at hand.
    pub fn insert_at(
        &mut self,
        application: &Identity,
        position: usize,
        event: IndefiniteEvent,
        now: u64,
    ) -> (r: Result<u64, InsertError>)
        requires
            old(self).wf(),
        ensures
            final(self).wf(),
            old(self)@.takes(application@, position as int) ==> r == Ok::<u64, InsertError>(
                old(self)@.log(application@).len() as u64,
            ) && final(self)@ == old(self)@.written(application@, event@, now),
            !old(self)@.takes(application@, position as int) ==> r == Err::<u64, InsertError>(
                InsertError::CantWrite,
            ) && final(self)@ == old(self)@,
    {
        let i: usize = match self.find(application) {
            Some(i) => i,
            None => {
                return Err(InsertError::CantWrite);
            },
        };
        assert(self.chains@[i as int].wf());
        if self.chains[i].len() - 1 != position {
            return Err(InsertError::CantWrite);
        }
        let ghost entries = chain_entries(self.chains@);
        proof {
            law_ids_are_positions(self.chains@[i as int]@);
            if self@.takes(application@, position as int) {
                law_insert_keeps_invariant(self@, application@, event@, now);
            }
        }
        let r = self.chains[i].insert(application, event, now);
        proof {
            let after = chain_entries(self.chains@);
            assert(after =~= entries.update(i as int, (application@, self.chains@[i as int]@)));
            lemma_replace_value(entries, i as int, self.chains@[i as int]@);
            if !old(self)@.takes(application@, position as int) {
                assert(after =~= entries);
            }
            assert forall|j: int| 0 <= j < self.chains@.len() implies (#[trigger] self.chains@[j]).wf() by {
                if j != i {
                    assert(self.chains@[j] == old(self).chains@[j]);
                }
            }
        }
        if r.is_ok() {
            let _ = self.resolve(application);
        }
        r
    }

    /// The event of `application` with sequence id `id`.
    pub fn get_transaction(&self, application: &Identity, id: u64) -> (r: Result<
        &Event,
        QueryError,
    >)
        requires
            self.wf(),
        ensures
            id < self@.log(application@).len() ==> r is Ok && r->Ok_0@ == self@.log(
                application@,
            )[id as int],
            id >= self@.log(application@).len() ==> r == Err::<&Event, QueryError>(
                QueryError::InvalidId,
            ),
    {
        match self.find(application) {
            Some(i) => {
                assert(self.chains@[i as int].wf());
                self.chains[i].get_transaction(id)
            },
            None => Err(QueryError::InvalidId),
        }
    }

    /// Page `page` of the log of `application`, where pages hold `width`
    /// events.
    pub fn get_transactions(&self, application: &Identity, page: u32, width: u64) -> (r: Vec<Event>)
        requires
            self.wf(),
        ensures
            events_view(r@) == self@.page(application@, page, width),
    {
        match self.find(application) {
            Some(i) => {
                assert(self.chains@[i as int].wf());
                self.chains[i].get_transactions(page, width)
            },
            None => {
                let r: Vec<Event> = Vec::new();
                assert(events_view(r@) =~= Seq::<EventView>::empty());
                r
            },
        }
    }
}

} // verus!
