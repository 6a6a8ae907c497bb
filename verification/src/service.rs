//! Service supervision: the watch handle that observes one service
//! instance, and the keyed manager that holds at most one supervisor
//! per store key, each with a single-slot inbound configuration seat.

use vstd::prelude::*;

verus! {

/// The lifecycle of one service instance.
#[derive(Clone, Copy, Debug, PartialEq, Eq, Hash, Structural)]
pub enum ServiceState {
    Starting,
    Running,
    Stopping,
    Stopped,
}

/// The observable cell of one service instance: its lifecycle state and
/// a service-specific status payload.
#[derive(Debug)]
pub struct WatchService<T> {
    pub state: ServiceState,
    pub status: T,
}

impl<T> WatchService<T> {
    /// A fresh handle: it stands Stopped until a started instance
    /// adopts it.
    pub fn new(status: T) -> (r: WatchService<T>)
        ensures
            r.state == ServiceState::Stopped,
            r.status == status,
    {
        WatchService { state: ServiceState::Stopped, status }
    }

    /// The current lifecycle state.
    pub fn snapshot(&self) -> (r: ServiceState)
        ensures
            r == self.state,
    {
        self.state
    }

    /// Sets the lifecycle state; the payload stays.
    pub fn set_state(&mut self, state: ServiceState)
        ensures
            final(self).state == state,
            final(self).status == old(self).status,
    {
        self.state = state;
    }

    /// Asks the instance to stop: a live instance turns Stopping, a
    /// stopped one stays Stopped.
    pub fn request_stop(&mut self)
        ensures
            final(self).state == if old(self).state == ServiceState::Stopped {
                ServiceState::Stopped
            } else {
                ServiceState::Stopping
            },
            final(self).status == old(self).status,
    {
        if !matches!(self.state, ServiceState::Stopped) {
            self.state = ServiceState::Stopping;
        }
    }

    /// Whether the instance has reached its terminal state.
    pub fn is_stopped(&self) -> (r: bool)
        ensures
            r == (self.state == ServiceState::Stopped),
    {
        matches!(self.state, ServiceState::Stopped)
    }
}

/// A configuration that names the service instance it belongs to.
pub trait LandscapeStore: Sized {
    /// The store key, as a mathematical value.
    spec fn spec_store_key(&self) -> Seq<char>;

    /// The store key of this configuration.
    fn get_store_key(&self) -> (r: String)
        ensures
            r@ == self.spec_store_key(),
    ;
}

/// What starts one service instance from its configuration. Users of
/// the manager implement this; what a start returns is theirs to
/// choose.
pub trait ServiceStarterTrait: Sized {
    type Status: Default;

    type Config: LandscapeStore;

    /// Starts the service and hands back the handle that observes it.
    fn start(&self, config: Self::Config) -> WatchService<Self::Status>;
}

/// Why an update was refused.
#[derive(Clone, Copy, Debug, PartialEq, Eq, Structural)]
pub enum UpdateError {
    /// The supervisor's single seat already holds a configuration.
    Busy,
    /// The supervisor is gone.
    Closed,
}

/// What one supervision step did.
#[derive(Clone, Copy, Debug, PartialEq, Eq, Structural)]
pub enum ProcessStep {
    /// No configuration waits for this key.
    NoWork,
    /// The previous instance was asked to stop; it must reach Stopped
    /// before the waiting configuration is started.
    MustStop,
    /// The waiting configuration was started and its handle adopted.
    Started,
}

/// One key's supervisor: the instance handle, the single-seat inbound
/// configuration, and whether the supervisor has gone away.
pub struct ServiceSlot<H: ServiceStarterTrait> {
    pub key: String,
    pub handle: WatchService<H::Status>,
    pub pending: Option<H::Config>,
    pub closed: bool,
}

/// The keyed collection of supervisors: at most one per store key.
pub struct ServiceManager<H: ServiceStarterTrait> {
    pub services: Vec<ServiceSlot<H>>,
    pub starter: H,
}

impl<H: ServiceStarterTrait> ServiceManager<H> {
    /// Keys are pairwise distinct, and a waiting configuration carries
    /// its slot's key.
    pub open spec fn wf(&self) -> bool {
        &&& forall|i: int, j: int|
            0 <= i < j < self.services@.len() ==> (#[trigger] self.services@[i]).key@ != (
            #[trigger] self.services@[j]).key@
        &&& forall|i: int|
            0 <= i < self.services@.len() ==> match (#[trigger] self.services@[i]).pending {
                Some(c) => c.spec_store_key() == self.services@[i].key@,
                None => true,
            }
    }

    /// Some slot is kept for key `k`.
    pub open spec fn has_key(&self, k: Seq<char>) -> bool {
        exists|i: int| 0 <= i < self.services@.len() && (#[trigger] self.services@[i]).key@ == k
    }

    /// The position of the slot for key `k`.
    pub open spec fn key_pos(&self, k: Seq<char>) -> int {
        choose|i: int| 0 <= i < self.services@.len() && (#[trigger] self.services@[i]).key@ == k
    }

    /// A manager over `starter` with a supervisor for each initial
    /// configuration.
    pub fn init(init_config: Vec<H::Config>, starter: H) -> (r: ServiceManager<H>)
        ensures
            r.wf(),
            forall|i: int|
                0 <= i < init_config@.len() ==> r.has_key(
                    (#[trigger] init_config@[i]).spec_store_key(),
                ),
    {
        let mut manager = ServiceManager { services: Vec::new(), starter };
        let mut init_config = init_config;
        let ghost all: Seq<H::Config> = init_config@;
        let total: usize = init_config.len();
        let mut done: usize = 0;
        while init_config.len() > 0
            invariant
                manager.wf(),
                done + init_config@.len() == all.len(),
                total == all.len(),
                done <= total,
                init_config@ == all.skip(done as int),
                forall|i: int|
                    0 <= i < done ==> manager.has_key((#[trigger] all[i]).spec_store_key()),
            decreases init_config.len(),
        {
            let config = init_config.remove(0);
            proof {
                assert(config == all[done as int]);
                assert(all.skip(done as int).remove(0) =~= all.skip(done as int + 1));
            }
            let ghost pre = manager;
            let _ = manager.update_service(config);
            proof {
                assert(manager.has_key(all[done as int].spec_store_key()));
                assert forall|i: int| 0 <= i < done + 1 implies manager.has_key(
                    (#[trigger] all[i]).spec_store_key(),
                ) by {
                    if i < done {
                        assert(pre.has_key(all[i].spec_store_key()));
                    }
                }
            }
            done = done + 1;
        }
        manager
    }

    /// The position of the slot for `key`.
    fn find(&self, key: &String) -> (r: Option<usize>)
        ensures
            match r {
                Some(i) => i < self.services@.len() && self.services@[i as int].key@ == key@,
                None => !self.has_key(key@),
            },
    {
        let mut i: usize = 0;
        while i < self.services.len()
            invariant
                i <= self.services@.len(),
                forall|j: int| 0 <= j < i ==> (#[trigger] self.services@[j]).key@ != key@,
            decreases self.services.len() - i,
        {
            if self.services[i].key.eq(key) {
                return Some(i);
            }
            i = i + 1;
        }
        None
    }

    /// A supervisor for a key not yet kept: its handle starts Stopped
    /// and the configuration waits in the seat.
    fn spawn_service(&mut self, service_config: H::Config, status: H::Status)
        requires
            old(self).wf(),
            !old(self).has_key(service_config.spec_store_key()),
        ensures
            final(self).wf(),
            final(self).services@.len() == old(self).services@.len() + 1,
            final(self).services@.last().key@ == service_config.spec_store_key(),
            final(self).services@.last().handle.state == ServiceState::Stopped,
            final(self).services@.last().pending == Some(service_config),
            !final(self).services@.last().closed,
            forall|j: int|
                0 <= j < old(self).services@.len() ==> #[trigger] final(self).services@[j]
                    == old(self).services@[j],
            final(self).starter == old(self).starter,
    {
        let key = service_config.get_store_key();
        let slot = ServiceSlot {
            key,
            handle: WatchService::new(status),
            pending: Some(service_config),
            closed: false,
        };
        self.services.push(slot);
        proof {
            assert forall|i: int, j: int| 0 <= i < j < self.services@.len() implies (
            #[trigger] self.services@[i]).key@ != (#[trigger] self.services@[j]).key@ by {
                if j == self.services@.len() - 1 {
                    assert(old(self).has_key(self.services@[i].key@) == old(self).has_key(
                        old(self).services@[i].key@,
                    ));
                    assert(old(self).services@[i] == self.services@[i]);
                    assert(old(self).has_key(old(self).services@[i].key@));
                }
            }
        }
    }

    /// Routes a configuration to its key's supervisor: a known key's
    /// empty seat takes it, a full seat answers Busy, a gone supervisor
    /// answers Closed, and an unknown key gets a fresh supervisor, as
    /// if it were a first-time spawn.
    pub fn update_service(&mut self, config: H::Config) -> (r: Result<(), UpdateError>)
        requires
            old(self).wf(),
        ensures
            final(self).wf(),
            final(self).starter == old(self).starter,
            final(self).has_key(config.spec_store_key()),
            forall|k: Seq<char>|
                k != config.spec_store_key() ==> final(self).has_key(k) == old(self).has_key(k),
            ({
                let k = config.spec_store_key();
                if old(self).has_key(k) {
                    let p = old(self).key_pos(k);
                    let slot = old(self).services@[p];
                    &&& (forall|j: int|
                        0 <= j < old(self).services@.len() && j != p
                            ==> #[trigger] final(self).services@[j] == old(self).services@[j])
                    &&& final(self).services@.len() == old(self).services@.len()
                    &&& if slot.closed {
                        &&& r == Result::<(), UpdateError>::Err(UpdateError::Closed)
                        &&& final(self).services@[p] == slot
                    } else if slot.pending is Some {
                        &&& r == Result::<(), UpdateError>::Err(UpdateError::Busy)
                        &&& final(self).services@[p] == slot
                    } else {
                        &&& r == Result::<(), UpdateError>::Ok(())
                        &&& final(self).services@[p].pending == Some(config)
                        &&& final(self).services@[p].handle == slot.handle
                        &&& final(self).services@[p].key == slot.key
                        &&& final(self).services@[p].closed == slot.closed
                    }
                } else {
                    &&& r == Result::<(), UpdateError>::Ok(())
                    &&& final(self).services@.len() == old(self).services@.len() + 1
                    &&& final(self).services@.last().pending == Some(config)
                    &&& final(self).services@.last().handle.state == ServiceState::Stopped
                    &&& forall|j: int|
                        0 <= j < old(self).services@.len() ==> #[trigger] final(self).services@[j] == old(self).services@[j]
                }
            }),
    {
        let key = config.get_store_key();
        match self.find(&key) {
            Some(i) => {
                proof {
                    let p = old(self).key_pos(config.spec_store_key());
                    if p != i {
                        if p < i {
                            assert(self.services@[p].key@ != self.services@[i as int].key@);
                        } else {
                            assert(self.services@[i as int].key@ != self.services@[p].key@);
                        }
                    }
                }
                if self.services[i].closed {
                    Err(UpdateError::Closed)
                } else if self.services[i].pending.is_some() {
                    Err(UpdateError::Busy)
                } else {
                    let slot = &mut self.services[i];
                    slot.pending = Some(config);
                    proof {
                        assert(*final(slot) == (ServiceSlot::<H> {
                            pending: Some(config),
                            ..old(self).services@[i as int]
                        }));
                    }
                    proof {
                        assert forall|j: int| 0 <= j < self.services@.len() implies (
                        #[trigger] self.services@[j]).key@ == old(self).services@[j].key@ by {}
                        lemma_same_keys_has_key(*self, *old(self));
                    }
                    Ok(())
                }
            },
            None => {
                let status: H::Status = Default::default();
                self.spawn_service(config, status);
                proof {
                    assert forall|k: Seq<char>| k != config.spec_store_key() implies final(self).has_key(k) == old(self).has_key(k) by {
                        if old(self).has_key(k) {
                            let q = choose|q: int|
                                0 <= q < old(self).services@.len() && (#[trigger] old(self).services@[q]).key@ == k;
                            assert(self.services@[q].key@ == k);
                        }
                        if self.has_key(k) {
                            let q = choose|q: int|
                                0 <= q < self.services@.len() && (
                                #[trigger] self.services@[q]).key@ == k;
                            assert(q < old(self).services@.len());
                            assert(old(self).services@[q].key@ == k);
                        }
                    }
                }
                Ok(())
            },
        }
    }

    /// One supervision step for `key`: with a configuration waiting and
    /// the previous instance not yet Stopped, the instance is asked to
    /// stop; once it stands Stopped, the configuration is started and
    /// the new handle adopted. A new instance is started only when the
    /// previous one has reached Stopped.
    pub fn process_pending(&mut self, key: &String) -> (r: ProcessStep)
        requires
            old(self).wf(),
        ensures
            final(self).wf(),
            final(self).starter == old(self).starter,
            final(self).services@.len() == old(self).services@.len(),
            forall|k: Seq<char>| final(self).has_key(k) == old(self).has_key(k),
            ({
                if old(self).has_key(key@) {
                    let p = old(self).key_pos(key@);
                    let slot = old(self).services@[p];
                    &&& (forall|j: int|
                        0 <= j < old(self).services@.len() && j != p
                            ==> #[trigger] final(self).services@[j] == old(self).services@[j])
                    &&& match r {
                        ProcessStep::NoWork => slot.pending is None && final(self).services@[p]
                            == slot,
                        ProcessStep::MustStop => {
                            &&& slot.pending is Some
                            &&& slot.handle.state != ServiceState::Stopped
                            &&& final(self).services@[p].handle.state == ServiceState::Stopping
                            &&& final(self).services@[p].pending == slot.pending
                            &&& final(self).services@[p].key == slot.key
                            &&& final(self).services@[p].closed == slot.closed
                        },
                        ProcessStep::Started => {
                            &&& slot.pending is Some
                            &&& slot.handle.state == ServiceState::Stopped
                            &&& final(self).services@[p].pending is None
                            &&& final(self).services@[p].key == slot.key
                            &&& final(self).services@[p].closed == slot.closed
                        },
                    }
                } else {
                    r == ProcessStep::NoWork && *final(self) == *old(self)
                }
            }),
    {
        let i = match self.find(key) {
            Some(i) => i,
            None => {
                return ProcessStep::NoWork;
            },
        };
        proof {
            let p = old(self).key_pos(key@);
            if p != i {
                if p < i {
                    assert(self.services@[p].key@ != self.services@[i as int].key@);
                } else {
                    assert(self.services@[i as int].key@ != self.services@[p].key@);
                }
            }
        }
        if self.services[i].pending.is_none() {
            return ProcessStep::NoWork;
        }
        if !self.services[i].handle.is_stopped() {
            let slot = &mut self.services[i];
            slot.handle.request_stop();
            proof {
                assert(final(slot).key == old(self).services@[i as int].key);
                assert(final(slot).pending == old(self).services@[i as int].pending);
            }
            proof {
                assert forall|j: int| 0 <= j < self.services@.len() implies (
                #[trigger] self.services@[j]).key@ == old(self).services@[j].key@ by {}
                lemma_same_keys_has_key(*self, *old(self));
            }
            return ProcessStep::MustStop;
        }
        let slot = &mut self.services[i];
        let config = match slot.pending.take() {
            Some(c) => c,
            None => {
                proof {
                    assert(false);
                }
                return ProcessStep::NoWork;
            },
        };
        let handle = self.starter.start(config);
        let slot = &mut self.services[i];
        slot.handle = handle;
        proof {
            assert(final(slot).pending is None);
            assert(final(slot).key == old(self).services@[i as int].key);
        }
        proof {
            assert forall|j: int| 0 <= j < self.services@.len() implies (
            #[trigger] self.services@[j]).key@ == old(self).services@[j].key@ by {}
            lemma_same_keys_has_key(*self, *old(self));
        }
        ProcessStep::Started
    }

    /// The state of every kept instance, by key.
    pub fn get_all_status(&self) -> (r: Vec<(String, ServiceState)>)
        ensures
            r@.len() == self.services@.len(),
            forall|i: int|
                0 <= i < r@.len() ==> (#[trigger] r@[i]).0@ == self.services@[i].key@ && r@[i].1
                    == self.services@[i].handle.state,
    {
        let mut out: Vec<(String, ServiceState)> = Vec::new();
        let mut i: usize = 0;
        while i < self.services.len()
            invariant
                i <= self.services@.len(),
                out@.len() == i,
                forall|j: int|
                    0 <= j < i ==> (#[trigger] out@[j]).0@ == self.services@[j].key@ && out@[j].1
                        == self.services@[j].handle.state,
            decreases self.services.len() - i,
        {
            let key = self.services[i].key.clone();
            let state = self.services[i].handle.snapshot();
            out.push((key, state));
            i = i + 1;
        }
        out
    }

    /// Removes the supervisor for `name`, asks its instance to stop,
    /// and hands the handle out; its key is no longer kept.
    pub fn stop_service(&mut self, name: &String) -> (r: Option<WatchService<H::Status>>)
        requires
            old(self).wf(),
        ensures
            final(self).wf(),
            final(self).starter == old(self).starter,
            !final(self).has_key(name@),
            forall|k: Seq<char>|
                k != name@ ==> final(self).has_key(k) == old(self).has_key(k),
            r is Some <==> old(self).has_key(name@),
            r matches Some(h) ==> ({
                let slot = old(self).services@[old(self).key_pos(name@)];
                h.state == if slot.handle.state == ServiceState::Stopped {
                    ServiceState::Stopped
                } else {
                    ServiceState::Stopping
                }
            }),
    {
        let i = match self.find(name) {
            Some(i) => i,
            None => {
                return None;
            },
        };
        proof {
            let p = old(self).key_pos(name@);
            if p != i {
                if p < i {
                    assert(self.services@[p].key@ != self.services@[i as int].key@);
                } else {
                    assert(self.services@[i as int].key@ != self.services@[p].key@);
                }
            }
        }
        let slot = self.services.remove(i);
        let mut handle = slot.handle;
        handle.request_stop();
        proof {
            assert forall|k: Seq<char>| k != name@ implies final(self).has_key(k) == old(self).has_key(k) by {
                if old(self).has_key(k) {
                    let q = choose|q: int|
                        0 <= q < old(self).services@.len() && (#[trigger] old(self).services@[q]).key@ == k;
                    if q < i {
                        assert(self.services@[q] == old(self).services@[q]);
                    } else {
                        assert(q != i);
                        assert(self.services@[q - 1] == old(self).services@[q]);
                    }
                } else {
                    if final(self).has_key(k) {
                        let q = choose|q: int|
                            0 <= q < self.services@.len() && (#[trigger] self.services@[q]).key@
                                == k;
                        if q < i {
                            assert(old(self).services@[q].key@ == k);
                        } else {
                            assert(old(self).services@[q + 1].key@ == k);
                        }
                    }
                }
            }
            assert(!final(self).has_key(name@)) by {
                if final(self).has_key(name@) {
                    let q = choose|q: int|
                        0 <= q < self.services@.len() && (#[trigger] self.services@[q]).key@
                            == name@;
                    let p = old(self).key_pos(name@);
                    if q < i {
                        assert(old(self).services@[q].key@ == name@);
                        assert(q != i);
                        if q < i {
                            assert(old(self).services@[q].key@ != old(self).services@[i as int].key@);
                        }
                    } else {
                        assert(old(self).services@[q + 1].key@ == name@);
                        assert(old(self).services@[i as int].key@ != old(self).services@[q
                            + 1].key@);
                    }
                }
            }
        }
        Some(handle)
    }
}

/// The status payload of a service that reports nothing beyond its
/// lifecycle state.
#[derive(Clone, Copy, Debug, PartialEq, Eq, Structural)]
pub struct DefaultServiceStatus;

impl Default for DefaultServiceStatus {
    fn default() -> (r: DefaultServiceStatus)
        ensures
            r == DefaultServiceStatus,
    {
        DefaultServiceStatus
    }
}

/// A starter that adopts every configuration at once: each started
/// instance reports Running with an empty status.
pub struct PlainServiceStarter<C: LandscapeStore> {
    pub marker: core::marker::PhantomData<C>,
}

impl<C: LandscapeStore> PlainServiceStarter<C> {
    pub fn new() -> (r: PlainServiceStarter<C>) {
        PlainServiceStarter { marker: core::marker::PhantomData }
    }
}

impl<C: LandscapeStore> ServiceStarterTrait for PlainServiceStarter<C> {
    type Status = DefaultServiceStatus;

    type Config = C;

    fn start(&self, config: C) -> WatchService<DefaultServiceStatus> {
        let mut handle = WatchService::new(DefaultServiceStatus);
        handle.set_state(ServiceState::Running);
        handle
    }
}

/// Two managers whose slots carry the same keys keep the same keys.
proof fn lemma_same_keys_has_key<H: ServiceStarterTrait>(a: ServiceManager<H>, b: ServiceManager<H>)
    requires
        a.services@.len() == b.services@.len(),
        forall|j: int|
            0 <= j < a.services@.len() ==> (#[trigger] a.services@[j]).key@
                == b.services@[j].key@,
    ensures
        forall|k: Seq<char>| a.has_key(k) == b.has_key(k),
{
    assert forall|k: Seq<char>| a.has_key(k) == b.has_key(k) by {
        if a.has_key(k) {
            let q = choose|q: int|
                0 <= q < a.services@.len() && (#[trigger] a.services@[q]).key@ == k;
            assert(b.services@[q].key@ == k);
        }
        if b.has_key(k) {
            let q = choose|q: int|
                0 <= q < b.services@.len() && (#[trigger] b.services@[q]).key@ == k;
            assert(a.services@[q].key@ == k);
        }
    }
}

/// Law: the manager keeps at most one supervisor, and so at most one
/// instance that can stand in Running, for any key.
pub proof fn lemma_supervisor_mutex<H: ServiceStarterTrait>(
    m: &ServiceManager<H>,
    k: Seq<char>,
    i: int,
    j: int,
)
    requires
        m.wf(),
        0 <= i < m.services@.len(),
        0 <= j < m.services@.len(),
        m.services@[i].key@ == k,
        m.services@[j].key@ == k,
    ensures
        i == j,
{
    if i < j {
        assert(m.services@[i].key@ != m.services@[j].key@);
    }
    if j < i {
        assert(m.services@[j].key@ != m.services@[i].key@);
    }
}

} // verus!
