use crate::messages::{ClientMessage, InitializeProtocol, WebsocketMessage};
use vstd::prelude::*;
use vstd::string::StringExecFns;

verus! {

/// The modulus size, in bits, that party 0 is asked to generate its key for.
pub const SECURITY_BITS: usize = 2048;

/// How many attempts at starting the protocol are made before giving up.
pub const MAX_START_ATTEMPTS: u32 = 5;

/// The phases of a run, in the order they are passed through.
#[derive(Clone, Copy, Debug, PartialEq, Eq, Structural)]
pub enum MediatorState {
    AwaitingParties,
    FirstRound,
    SecondRound,
    Done,
}

/// A registered party: its sequence id and the address to connect to.
#[derive(Debug)]
pub struct PartyRegistry {
    pub sequence_id: u32,
    pub address: String,
}

/// The mediator as its contracts see it: the phase, the registered
/// addresses (the index of each is its sequence id) and, once connected, the
/// number of outbound sinks.
pub struct MediatorView {
    pub state: MediatorState,
    pub registry: Seq<Seq<char>>,
    pub sinks: Option<nat>,
}

impl MediatorView {
    /// Sinks exist exactly once the run has left `AwaitingParties`, one per
    /// registered party, and every sequence id fits in a `u32`.
    pub open spec fn wf(self) -> bool {
        &&& (self.sinks is Some) == (self.state != MediatorState::AwaitingParties)
        &&& self.sinks matches Some(k) ==> k == self.registry.len()
        &&& self.registry.len() <= u32::MAX
    }
}

/// The answer to a registration.
#[derive(Clone, Copy, Debug, PartialEq, Eq, Structural)]
pub enum RegisterOutcome {
    /// Registered under `sequence_id`; `arm_timer` is set for the first
    /// party, whose registration starts the quorum wait.
    Registered { sequence_id: u32, arm_timer: bool },
    /// The run has started: late parties are not admitted.
    NotAccepting,
    /// Every sequence id is taken.
    RegistryFull,
}

/// What the mediator decides when the quorum wait ends.
#[derive(Debug)]
pub enum StartDecision {
    /// Connect to these addresses, in sequence-id order, all at once.
    Connect(Vec<String>),
    /// The run has already started.
    NotAccepting,
    /// Fewer than two parties are registered.
    NotEnoughParties,
}

/// The result of the fan-out.
#[derive(Debug)]
pub enum FanOutOutcome {
    /// Every party is connected: send `message` to party `to`.
    Started { to: usize, message: ClientMessage },
    /// Some party could not be reached; nothing was kept.
    Aborted,
    /// The run had already started.
    NotAccepting,
}

/// Why a frame was dropped.
#[derive(Clone, Copy, Debug, PartialEq, Eq, Structural)]
pub enum RouteError {
    /// No party is connected yet.
    NotConnected,
    /// The recipient has no sink.
    UnknownRecipient,
    /// The envelope is not one the mediator routes.
    NotRoutable,
}

/// Where a frame goes.
#[derive(Debug)]
pub enum RouteAction {
    /// Write `data` to the sink of party `to`.
    Deliver { to: usize, data: ClientMessage },
    /// Write `data` to the sink of each of `recipients`.
    DeliverAll { recipients: Vec<usize>, data: ClientMessage },
    /// Drop the frame.
    Drop(RouteError),
}

/// The registry after registering `address` in `v`.
pub open spec fn register_spec(v: MediatorView, address: Seq<char>) -> MediatorView {
    if v.state == MediatorState::AwaitingParties && v.registry.len() < u32::MAX {
        MediatorView { registry: v.registry.push(address), ..v }
    } else {
        v
    }
}

/// The answer to a registration in `v`.
pub open spec fn register_result(v: MediatorView) -> RegisterOutcome {
    if v.state != MediatorState::AwaitingParties {
        RegisterOutcome::NotAccepting
    } else if v.registry.len() >= u32::MAX {
        RegisterOutcome::RegistryFull
    } else {
        RegisterOutcome::Registered {
            sequence_id: v.registry.len() as u32,
            arm_timer: v.registry.len() == 0,
        }
    }
}

/// Sequence ids `0..k` without `from`, in order.
pub open spec fn all_but(k: nat, from: nat) -> Seq<usize>
    decreases k,
{
    if k == 0 {
        Seq::empty()
    } else if k - 1 == from {
        all_but((k - 1) as nat, from)
    } else {
        all_but((k - 1) as nat, from).push((k - 1) as usize)
    }
}

/// Every registered party was reached, and there are at least two.
pub open spec fn fan_out_succeeded(v: MediatorView, connected: Seq<bool>) -> bool {
    &&& connected.len() == v.registry.len()
    &&& v.registry.len() >= 2
    &&& forall|i: int| 0 <= i < connected.len() ==> #[trigger] connected[i]
}

/// Where `msg` goes from a mediator in `v`.
pub open spec fn route_spec(v: MediatorView, msg: WebsocketMessage, r: RouteAction) -> bool {
    match v.sinks {
        None => r == RouteAction::Drop(RouteError::NotConnected),
        Some(k) => match msg {
            WebsocketMessage::Unicast(u) => if u.to < k {
                r == RouteAction::Deliver { to: u.to, data: u.data }
            } else {
                r == RouteAction::Drop(RouteError::UnknownRecipient)
            },
            WebsocketMessage::Broadcast(b) => r matches RouteAction::DeliverAll {
                recipients,
                data,
            } && recipients@ == all_but(k, b.from as nat) && data == b.data,
            WebsocketMessage::Relayer(_) => r == RouteAction::Drop(RouteError::NotRoutable),
        },
    }
}

/// What follows a failed attempt at starting the protocol.
#[derive(Clone, Copy, Debug, PartialEq, Eq, Structural)]
pub enum RetryAction {
    /// Make another attempt.
    Retry,
    /// Stop for good and report the failure.
    GiveUp,
}

/// The count of failed attempts after one more failure; it stops growing at
/// `MAX_START_ATTEMPTS`.
pub open spec fn next_failures(f: nat) -> nat {
    if f < MAX_START_ATTEMPTS {
        f + 1
    } else {
        f
    }
}

/// What follows once `f` attempts have failed.
pub open spec fn retry_action(f: nat) -> RetryAction {
    if f < MAX_START_ATTEMPTS {
        RetryAction::Retry
    } else {
        RetryAction::GiveUp
    }
}

/// The count of failed attempts after `k` failures from the start.
pub open spec fn failures_after(k: nat) -> nat
    decreases k,
{
    if k == 0 {
        0
    } else {
        next_failures(failures_after((k - 1) as nat))
    }
}

/// The attempts made by the time `k` failures have been reported: the first
/// one, and one more for every failure answered by `Retry`.
pub open spec fn attempts_made(k: nat) -> nat
    decreases k,
{
    if k == 0 {
        1
    } else {
        attempts_made((k - 1) as nat) + if retry_action(failures_after(k))
            == RetryAction::Retry {
            1nat
        } else {
            0nat
        }
    }
}

/// Bounded retry of the protocol start: the failure count.
pub struct StartRetry {
    failures: u32,
}

impl View for StartRetry {
    type V = nat;

    closed spec fn view(&self) -> nat {
        self.failures as nat
    }
}

impl StartRetry {
    /// No attempt has failed yet.
    pub fn new() -> (r: Self)
        ensures
            r@ == 0,
    {
        StartRetry { failures: 0 }
    }

    /// The number of failed attempts so far.
    pub fn failures(&self) -> (r: u32)
        ensures
            r == self@,
    {
        self.failures
    }

    /// Records a failed attempt and says whether to try again.
    pub fn on_failure(&mut self) -> (r: RetryAction)
        requires
            old(self)@ <= MAX_START_ATTEMPTS,
        ensures
            final(self)@ == next_failures(old(self)@),
            final(self)@ <= MAX_START_ATTEMPTS,
            r == retry_action(final(self)@),
    {
        if self.failures < MAX_START_ATTEMPTS {
            self.failures = self.failures + 1;
        }
        if self.failures < MAX_START_ATTEMPTS {
            RetryAction::Retry
        } else {
            RetryAction::GiveUp
        }
    }
}

/// When every attempt at starting the protocol fails, at most
/// `MAX_START_ATTEMPTS` attempts are made; from the failure of the last of
/// them on, the answer is `GiveUp` and no further attempt follows.
pub proof fn lemma_bounded_retry(k: nat)
    ensures
        failures_after(k) == if k < MAX_START_ATTEMPTS {
            k
        } else {
            MAX_START_ATTEMPTS as nat
        },
        attempts_made(k) == if k < MAX_START_ATTEMPTS {
            k + 1
        } else {
            MAX_START_ATTEMPTS as nat
        },
        attempts_made(k) <= MAX_START_ATTEMPTS,
        k >= MAX_START_ATTEMPTS ==> retry_action(failures_after(k)) == RetryAction::GiveUp,
    decreases k,
{
    if k > 0 {
        lemma_bounded_retry((k - 1) as nat);
    }
}

/// The registry after registering each of `addresses` in turn.
pub open spec fn register_all(v: MediatorView, addresses: Seq<Seq<char>>) -> MediatorView
    decreases addresses.len(),
{
    if addresses.len() == 0 {
        v
    } else {
        register_spec(register_all(v, addresses.drop_last()), addresses.last())
    }
}

/// Registering `k` parties into an empty registry that awaits parties gives
/// a registry of exactly those `k` addresses, the `i`-th of them answered
/// with sequence id `i`: the ids form the range `0..k`.
pub proof fn lemma_register_many(v: MediatorView, addresses: Seq<Seq<char>>)
    requires
        v.state == MediatorState::AwaitingParties,
        v.registry.len() == 0,
        addresses.len() <= u32::MAX,
    ensures
        register_all(v, addresses).registry == addresses,
        register_all(v, addresses).state == MediatorState::AwaitingParties,
        register_all(v, addresses).sinks == v.sinks,
        forall|i: int|
            0 <= i < addresses.len() ==> #[trigger] register_result(
                register_all(v, addresses.take(i)),
            ) == (RegisterOutcome::Registered { sequence_id: i as u32, arm_timer: i == 0 }),
    decreases addresses.len(),
{
    if addresses.len() > 0 {
        let prefix = addresses.drop_last();
        lemma_register_many(v, prefix);
        assert(register_all(v, addresses).registry =~= addresses);
        assert forall|i: int| 0 <= i < addresses.len() implies #[trigger] register_result(
            register_all(v, addresses.take(i)),
        ) == (RegisterOutcome::Registered { sequence_id: i as u32, arm_timer: i == 0 }) by {
            if i < prefix.len() {
                assert(addresses.take(i) =~= prefix.take(i));
            } else {
                assert(addresses.take(i) =~= prefix);
            }
        }
    } else {
        assert(v.registry =~= addresses);
    }
}

/// Once the run has started, registering leaves the mediator as it is and
/// answers `NotAccepting`.
pub proof fn lemma_register_after_start(v: MediatorView, address: Seq<char>)
    requires
        v.state == MediatorState::FirstRound,
    ensures
        register_spec(v, address) == v,
        register_result(v) == RegisterOutcome::NotAccepting,
{
}

/// The address a party's connection is opened to, from the origin it
/// registered with.
pub fn connect_endpoint(origin: &str) -> (r: String)
    ensures
        r@ == origin@ + seq!['/', 'c', 'o', 'n', 'n', 'e', 'c', 't'],
{
    proof {
        reveal_strlit("/connect");
    }
    let s = String::from_str(origin);
    s.concat("/connect")
}

/// Whether every connection attempt succeeded.
fn all_connected(connected: &Vec<bool>) -> (r: bool)
    ensures
        r == forall|i: int| 0 <= i < connected@.len() ==> #[trigger] connected@[i],
{
    let mut i: usize = 0;
    while i < connected.len()
        invariant
            i <= connected@.len(),
            forall|j: int| 0 <= j < i ==> #[trigger] connected@[j],
        decreases connected@.len() - i,
    {
        if !connected[i] {
            return false;
        }
        i = i + 1;
    }
    true
}

/// The mediator: the phase of the run, the registry and the number of
/// outbound sinks (the sinks themselves belong to the transport).
pub struct ServerActor {
    state: MediatorState,
    clients: Vec<PartyRegistry>,
    total_clients: u32,
    sinks: Option<usize>,
}

impl View for ServerActor {
    type V = MediatorView;

    closed spec fn view(&self) -> MediatorView {
        MediatorView {
            state: self.state,
            registry: self.clients@.map_values(|c: PartyRegistry| c.address@),
            sinks: match self.sinks {
                Some(k) => Some(k as nat),
                None => None,
            },
        }
    }
}

impl ServerActor {
    /// The fields agree with the view: `total_clients` counts the registry
    /// and each entry's sequence id is its index.
    pub closed spec fn wf(&self) -> bool {
        &&& self@.wf()
        &&& self.total_clients == self.clients@.len()
        &&& forall|i: int|
            0 <= i < self.clients@.len() ==> (#[trigger] self.clients@[i]).sequence_id == i
    }

    /// A mediator awaiting parties, with none registered.
    pub fn new() -> (r: Self)
        ensures
            r.wf(),
            r@.state == MediatorState::AwaitingParties,
            r@.registry == Seq::<Seq<char>>::empty(),
            r@.sinks is None,
    {
        let r = ServerActor {
            clients: Vec::new(),
            total_clients: 0,
            state: MediatorState::AwaitingParties,
            sinks: None,
        };
        assert(r@.registry =~= Seq::<Seq<char>>::empty());
        r
    }

    /// The phase of the run.
    pub fn state(&self) -> (r: MediatorState)
        ensures
            r == self@.state,
    {
        self.state
    }

    /// The number of registered parties.
    pub fn total_clients(&self) -> (r: u32)
        requires
            self.wf(),
        ensures
            r == self@.registry.len(),
    {
        self.total_clients
    }

    /// Decides, when the quorum wait ends, whether to open the connections:
    /// only while parties are awaited and at least two are registered.
    pub fn try_start_protocol(&self) -> (r: StartDecision)
        requires
            self.wf(),
        ensures
            self@.state != MediatorState::AwaitingParties ==> r is NotAccepting,
            self@.state == MediatorState::AwaitingParties && self@.registry.len() < 2
                ==> r is NotEnoughParties,
            self@.state == MediatorState::AwaitingParties && self@.registry.len() >= 2
                ==> (r matches StartDecision::Connect(addresses) && addresses@.map_values(
                |a: String| a@,
            ) == self@.registry),
    {
        if self.state != MediatorState::AwaitingParties {
            return StartDecision::NotAccepting;
        }
        if self.total_clients < 2 {
            return StartDecision::NotEnoughParties;
        }
        let mut addresses: Vec<String> = Vec::new();
        let mut i: usize = 0;
        while i < self.clients.len()
            invariant
                i <= self.clients@.len(),
                addresses@.map_values(|a: String| a@) =~= self@.registry.subrange(0, i as int),
                self@.registry == self.clients@.map_values(|c: PartyRegistry| c.address@),
            decreases self.clients@.len() - i,
        {
            let a = self.clients[i].address.clone();
            let ghost before = addresses@;
            addresses.push(a);
            proof {
                assert(addresses@ == before.push(a));
                assert(addresses@.map_values(|a: String| a@) =~= before.map_values(
                    |a: String| a@,
                ).push(a@));
                assert(self@.registry.subrange(0, i + 1) =~= self@.registry.subrange(
                    0,
                    i as int,
                ).push(self@.registry[i as int]));
            }
            i = i + 1;
        }
        assert(self@.registry.subrange(0, i as int) =~= self@.registry);
        StartDecision::Connect(addresses)
    }

    /// Completes the fan-out with the result of each connection attempt, in
    /// sequence-id order. All or nothing: only when every registered party
    /// was reached does the run move to `FirstRound`, with one sink per party,
    /// and party 0 is sent `InitializeProtocol`; otherwise nothing changes and
    /// the attempt is reported aborted.
    pub fn complete_fan_out(&mut self, connected: &Vec<bool>) -> (r: FanOutOutcome)
        requires
            old(self).wf(),
        ensures
            final(self).wf(),
            old(self)@.state != MediatorState::AwaitingParties ==> final(self)@ == old(self)@
                && r is NotAccepting,
            old(self)@.state == MediatorState::AwaitingParties && !fan_out_succeeded(
                old(self)@,
                connected@,
            ) ==> final(self)@ == old(self)@ && r is Aborted,
            old(self)@.state == MediatorState::AwaitingParties && fan_out_succeeded(
                old(self)@,
                connected@,
            ) ==> {
                &&& final(self)@ == MediatorView {
                    state: MediatorState::FirstRound,
                    sinks: Some(old(self)@.registry.len()),
                    ..old(self)@
                }
                &&& r matches FanOutOutcome::Started { to, message }
                &&& to == 0
                &&& message == ClientMessage::InitializeProtocol(
                    InitializeProtocol {
                        bits_security: SECURITY_BITS,
                        num_parties: old(self)@.registry.len() as usize,
                        sid: 0,
                    },
                )
            },
    {
        if self.state != MediatorState::AwaitingParties {
            return FanOutOutcome::NotAccepting;
        }
        if connected.len() != self.clients.len() || self.clients.len() < 2 {
            return FanOutOutcome::Aborted;
        }
        if !all_connected(connected) {
            return FanOutOutcome::Aborted;
        }
        let n = self.clients.len();
        self.state = MediatorState::FirstRound;
        self.sinks = Some(n);
        let message = ClientMessage::InitializeProtocol(
            InitializeProtocol { bits_security: SECURITY_BITS, num_parties: n, sid: 0 },
        );
        FanOutOutcome::Started { to: 0, message }
    }

    /// Routes an inbound frame: a unicast goes to its recipient's sink, a
    /// broadcast to every sink but the sender's; anything else, or a frame
    /// for a party without a sink, is dropped.
    pub fn handle_websocket_message(&self, msg: WebsocketMessage) -> (r: RouteAction)
        requires
            self.wf(),
        ensures
            route_spec(self@, msg, r),
    {
        let k = match self.sinks {
            Some(k) => k,
            None => {
                return RouteAction::Drop(RouteError::NotConnected);
            },
        };
        match msg {
            WebsocketMessage::Unicast(u) => {
                if u.to < k {
                    RouteAction::Deliver { to: u.to, data: u.data }
                } else {
                    RouteAction::Drop(RouteError::UnknownRecipient)
                }
            },
            WebsocketMessage::Broadcast(b) => {
                let mut recipients: Vec<usize> = Vec::new();
                let mut i: usize = 0;
                while i < k
                    invariant
                        i <= k,
                        recipients@ == all_but(i as nat, b.from as nat),
                    decreases k - i,
                {
                    if i != b.from {
                        recipients.push(i);
                    }
                    i = i + 1;
                }
                RouteAction::DeliverAll { recipients, data: b.data }
            },
            WebsocketMessage::Relayer(_) => RouteAction::Drop(RouteError::NotRoutable),
        }
    }

    /// Registers a party under the next sequence id while parties are
    /// awaited; afterwards the registry is left as it is. Sequence ids start
    /// at 0 and follow registration order, the numbering that `sid` in the
    /// round messages uses too.
    pub fn register_client(&mut self, url: String) -> (r: RegisterOutcome)
        requires
            old(self).wf(),
        ensures
            final(self).wf(),
            final(self)@ == register_spec(old(self)@, url@),
            r == register_result(old(self)@),
    {
        if self.state != MediatorState::AwaitingParties {
            return RegisterOutcome::NotAccepting;
        }
        if self.total_clients == u32::MAX {
            return RegisterOutcome::RegistryFull;
        }
        let id = self.total_clients;
        let ghost old_clients = self.clients@;
        self.clients.push(PartyRegistry { sequence_id: id, address: url });
        self.total_clients = id + 1;
        proof {
            assert(self.clients@ == old_clients.push(self.clients@.last()));
            assert(self@.registry =~= old(self)@.registry.push(url@));
        }
        RegisterOutcome::Registered { sequence_id: id, arm_timer: id == 0 }
    }
}

} // verus!
