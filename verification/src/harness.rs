//! A driver that runs a hub against an in-memory storage and a simulated
//! network: it loads the hub, feeds it events one by one, performs the
//! network I/O it asks for, and keeps what it reports.

use vstd::prelude::*;

use crate::ephemera::EphemeralSession;
use crate::hub::{
    connected_to, established_of, handshaking, hub_wf, join_message, DispatchedCommand, is_stop, no_pending_create, not_found_report, Command,
    Hub, HubEvent, HubInput, HubView, RunState,
};
use crate::hub_results::{lemma_command_id_eq, tasks_view, HubIoActionView, completed_view, events_view, CommandId, CommandResult, CommandResultView, HubIoAction, HubIoResult, HubResults};
use crate::ids::{DocumentId, PeerId, StorageId};
use crate::io::{IoResult, IoTask, StorageResult};
use crate::loader::{fresh_hub, storage_id_key, stored_id, LoaderStageView, LoaderState, SamodLoader};
use crate::memory_storage::{keys_distinct, lookup, store, MemoryStorage};
use crate::messages::{DocumentActorId, HubToDocMsgPayload, SpawnArgs};
use crate::network::{ConnDirection, ConnectionEvent, ConnectionEventView, ConnectionId, ConnectionInfo};
use crate::timestamp::UnixTimestamp;
use crate::connection::{spec_info, ConnectionView};
use crate::wire_protocol::spec_encode;
use vstd::utf8::encode_utf8;

verus! {

/// A new, empty automerge document.
#[verifier::external_body]
pub(crate) fn empty_document() -> (r: automerge::Automerge) {
    automerge::Automerge::new()
}

/// The IDs of a running document: the document and the actor that runs it.
#[derive(Debug)]
pub struct RunningDocIds {
    pub doc_id: DocumentId,
    pub actor_id: DocumentActorId,
}

/// No event in the queue asks the hub to stop.
pub open spec fn no_stop_queued(q: Seq<HubEvent>) -> bool {
    forall|i: int| 0 <= i < q.len() ==> !is_stop(#[trigger] q[i])
}

/// The event is never refused: it is no actor's report that its document
/// is missing.
pub open spec fn always_accepted(e: HubEvent) -> bool {
    forall|a: u64| !not_found_report(e, a)
}

/// The event is the command with ID `c` to open a connection.
pub open spec fn creates_connection(e: HubEvent, c: u64) -> bool {
    e matches HubEvent::Input(HubInput::Command { command_id, command: Command::CreateConnection { .. } })
        && command_id.value() == c
}

/// The event is the command with ID `c` to find document `d`.
pub open spec fn finds_document(e: HubEvent, c: CommandId, d: Seq<u8>) -> bool {
    e matches HubEvent::Input(HubInput::Command { command_id, command: Command::FindDocument { document_id } })
        && command_id == c && document_id@ == d
}

/// The event is the command with ID `c` to create a document.
pub open spec fn creates_document(e: HubEvent, c: CommandId) -> bool {
    e matches HubEvent::Input(HubInput::Command { command_id, command: Command::CreateDocument { .. } })
        && command_id == c
}

/// From position `n` on, the results hold a connection created for command
/// `c`.
pub open spec fn reported_after(s: Seq<(u64, CommandResultView)>, n: int, c: u64) -> bool {
    exists|j: int| 0 <= j && n <= j < s.len() && (#[trigger] s[j]).0 == c && s[j].1 is CreateConnection
}


/// The number of events in the queue that are not I/O completions.
pub open spec fn inputs_in(q: Seq<HubEvent>) -> nat
    decreases q.len(),
{
    if q.len() == 0 {
        0
    } else {
        (if q[0] is IoComplete { 0nat } else { 1nat }) + inputs_in(q.drop_first())
    }
}

proof fn lemma_inputs_push(q: Seq<HubEvent>, e: HubEvent)
    requires
        e is IoComplete,
    ensures
        inputs_in(q.push(e)) == inputs_in(q),
    decreases q.len(),
{
    if q.len() == 0 {
        assert(q.push(e).drop_first() =~= Seq::<HubEvent>::empty());
        assert(inputs_in(q.push(e).drop_first()) == 0);
    } else {
        assert(q.push(e).drop_first() =~= q.drop_first().push(e));
        assert(q.push(e)[0] == q[0]);
        lemma_inputs_push(q.drop_first(), e);
    }
}


/// The bytes that the sends among `acts` put on the wire, in order, with
/// their connections.
pub open spec fn sends_of(acts: Seq<HubIoActionView>) -> Seq<(u64, Seq<u8>)>
    decreases acts.len(),
{
    if acts.len() == 0 {
        Seq::empty()
    } else {
        sends_of(acts.drop_last()) + match acts.last() {
            HubIoActionView::Send { connection_id, msg } => seq![(connection_id, msg)],
            HubIoActionView::Disconnect { .. } => Seq::<(u64, Seq<u8>)>::empty(),
        }
    }
}

/// The command results of `rs` but those of receive commands, in order.
pub open spec fn without_receives(rs: Seq<(u64, CommandResultView)>) -> Seq<(u64, CommandResultView)>
    decreases rs.len(),
{
    if rs.len() == 0 {
        Seq::empty()
    } else {
        without_receives(rs.drop_last()) + if rs.last().1 is Receive {
            Seq::<(u64, CommandResultView)>::empty()
        } else {
            seq![rs.last()]
        }
    }
}

proof fn lemma_sends_of_append(a: Seq<HubIoActionView>, b: Seq<HubIoActionView>)
    ensures
        sends_of(a + b) == sends_of(a) + sends_of(b),
    decreases b.len(),
{
    if b.len() == 0 {
        assert(a + b =~= a);
        assert(sends_of(a) + sends_of(b) =~= sends_of(a));
    } else {
        lemma_sends_of_append(a, b.drop_last());
        assert((a + b).drop_last() =~= a + b.drop_last());
        assert((a + b).last() == b.last());
        assert(sends_of(a + b) =~= sends_of(a) + sends_of(b));
    }
}

/// What a create-connection command for connection `c` sent: the join
/// message of peer `peer` on an outgoing connection, nothing on an incoming
/// one.
pub open spec fn join_sent(direction: ConnDirection, c: u64, peer: Seq<char>) -> Seq<(u64, Seq<u8>)> {
    if direction == ConnDirection::Outgoing {
        seq![(c, spec_encode(join_message(peer)))]
    } else {
        Seq::empty()
    }
}

/// If `e` is a command to open a connection, then its result, for some
/// connection `c`, is the first of the results after `r0` in `rs`, and what
/// it sent for `c` follows `s0` in `sent`.
pub open spec fn opened_first(
    e: HubEvent,
    r0: Seq<(u64, CommandResultView)>,
    s0: Seq<(u64, Seq<u8>)>,
    peer: Seq<char>,
    rs: Seq<(u64, CommandResultView)>,
    sent: Seq<(u64, Seq<u8>)>,
) -> bool {
    e matches HubEvent::Input(HubInput::Command { command_id, command: Command::CreateConnection { direction } })
        ==> exists|c: u64| {
            &&& rs.len() > r0.len()
            &&& #[trigger] rs[r0.len() as int] == (command_id.value(), CommandResultView::CreateConnection { connection_id: c })
            &&& (s0 + join_sent(direction, c, peer)).is_prefix_of(sent)
        }
}

/// If `e` is a command to open a connection, then its result, for some
/// connection `c`, is the first of the results after `r0` in `rs`; what was
/// sent after `s0` is exactly what it sent for `c`; and the hub, with
/// connections `conns`, lists `c` as handshaking.
pub open spec fn opened_alone(
    e: HubEvent,
    r0: Seq<(u64, CommandResultView)>,
    s0: Seq<(u64, Seq<u8>)>,
    peer: Seq<char>,
    rs: Seq<(u64, CommandResultView)>,
    sent: Seq<(u64, Seq<u8>)>,
    conns: Seq<ConnectionView>,
) -> bool {
    e matches HubEvent::Input(HubInput::Command { command_id, command: Command::CreateConnection { direction } })
        ==> exists|c: u64| {
            &&& rs.len() > r0.len()
            &&& #[trigger] rs[r0.len() as int] == (command_id.value(), CommandResultView::CreateConnection { connection_id: c })
            &&& sent == s0 + join_sent(direction, c, peer)
            &&& handshaking(conns, c)
        }
}

proof fn lemma_without_receives_first(s: Seq<(u64, CommandResultView)>)
    requires
        s.len() > 0,
        !(s[0].1 is Receive),
    ensures
        without_receives(s).len() > 0,
        without_receives(s)[0] == s[0],
{
    let head = seq![s[0]];
    lemma_without_receives_append(head, s.skip(1));
    assert(head + s.skip(1) =~= s);
    assert(head.drop_last() =~= Seq::<(u64, CommandResultView)>::empty());
    assert(without_receives(Seq::<(u64, CommandResultView)>::empty()) =~= Seq::<(u64, CommandResultView)>::empty());
    assert(without_receives(head) == without_receives(head.drop_last()) + seq![head.last()]);
    assert(without_receives(head) =~= head);
}

proof fn lemma_without_receives_append(a: Seq<(u64, CommandResultView)>, b: Seq<(u64, CommandResultView)>)
    ensures
        without_receives(a + b) == without_receives(a) + without_receives(b),
    decreases b.len(),
{
    if b.len() == 0 {
        assert(a + b =~= a);
        assert(without_receives(a) + without_receives(b) =~= without_receives(a));
    } else {
        lemma_without_receives_append(a, b.drop_last());
        assert((a + b).drop_last() =~= a + b.drop_last());
        assert((a + b).last() == b.last());
        assert(without_receives(a + b) =~= without_receives(a) + without_receives(b));
    }
}

/// A hub together with the storage, network and clock it runs against.
pub struct SamodWrapper {
    hub: Hub,
    storage: MemoryStorage,
    inbox: Vec<HubEvent>,
    completed_commands: Vec<(CommandId, CommandResult)>,
    collected: Vec<bool>,
    now: UnixTimestamp,
    outbox: Vec<(ConnectionId, Vec<u8>)>,
    actors: Vec<SpawnArgs>,
    actor_inbox: Vec<(DocumentActorId, HubToDocMsgPayload)>,
    connection_events: Vec<ConnectionEvent>,
    given: Ghost<Seq<HubEvent>>,
    actions: Ghost<Seq<HubIoActionView>>,
    reports: Ghost<Seq<(u64, CommandResultView)>>,
}

impl SamodWrapper {
    /// The state of the hub.
    pub closed spec fn hub_view(&self) -> HubView {
        self.hub@
    }

    /// The entries of the storage.
    pub closed spec fn stored(&self) -> Seq<(Seq<Seq<char>>, Seq<u8>)> {
        self.storage@
    }

    /// The events waiting to be handled, oldest first.
    pub closed spec fn queued(&self) -> Seq<HubEvent> {
        self.inbox@
    }

    /// The results of finished commands, in the order they came; results
    /// of receive commands are not kept.
    pub closed spec fn results(&self) -> Seq<(u64, CommandResultView)> {
        completed_view(self.completed_commands@)
    }

    /// For each result, whether it has been collected.
    pub closed spec fn collected(&self) -> Seq<bool> {
        self.collected@
    }

    /// Every network action the hub asked for, in order.
    pub closed spec fn hub_actions(&self) -> Seq<HubIoActionView> {
        self.actions@
    }

    /// Every command result the hub reported, in order.
    pub closed spec fn hub_reports(&self) -> Seq<(u64, CommandResultView)> {
        self.reports@
    }

    /// The events handed to the hub so far, in order.
    pub closed spec fn given(&self) -> Seq<HubEvent> {
        self.given@
    }

    /// The actors the hub asked to start, with their documents.
    pub closed spec fn actors(&self) -> Seq<(u64, Seq<u8>)> {
        self.actors@.map_values(|a: SpawnArgs| (a.actor_id.value(), a.document_id@))
    }

    /// The connection events reported so far.
    pub closed spec fn events(&self) -> Seq<ConnectionEventView> {
        events_view(self.connection_events@)
    }

    /// The bytes sent so far, with their connections.
    pub closed spec fn sent(&self) -> Seq<(u64, Seq<u8>)> {
        self.outbox@.map_values(|e: (ConnectionId, Vec<u8>)| (e.0.value(), e.1@))
    }

    /// The clock, in milliseconds since the epoch.
    pub closed spec fn clock(&self) -> u128 {
        self.now.millis()
    }

    /// The hub is well formed, the storage holds one entry per key, and
    /// each result has its collected mark.
    pub closed spec fn wf(&self) -> bool {
        &&& hub_wf(self.hub@)
        &&& keys_distinct(self.storage@)
        &&& self.collected@.len() == self.completed_commands@.len()
    }

    /// Loads a hub for the peer `nickname` from an empty storage.
    pub fn new(nickname: String, now: UnixTimestamp) -> (r: SamodWrapper)
        ensures
            r.wf(),
            r.hub_view().peer_id == nickname@,
            r.hub_view().run_state == RunState::Running,
            r.hub_view().conns.len() == 0,
            r.hub_view().actors.len() == 0,
            r.hub_view().docs.len() == 0,
            r.hub_view().storage_id.len() == 32,
            r.stored() == seq![(storage_id_key(), encode_utf8(r.hub_view().storage_id))],
            r.queued().len() == 0,
            r.results().len() == 0,
            r.actors().len() == 0,
            r.events().len() == 0,
            r.sent().len() == 0,
            r.clock() == now.millis(),
    {
        let storage = MemoryStorage::new();
        let r = SamodWrapper::new_with_storage(nickname, storage, now);
        proof {
            assert(!crate::memory_storage::has_key(Seq::<(Seq<Seq<char>>, Seq<u8>)>::empty(), storage_id_key()));
            assert(r.stored() =~= seq![(storage_id_key(), encode_utf8(r.hub_view().storage_id))]);
        }
        r
    }

    /// Loads a hub for the peer `nickname` from `storage`: the storage ID
    /// kept there if it is text, else a new one, which is then stored.
    pub fn new_with_storage(nickname: String, storage: MemoryStorage, now: UnixTimestamp) -> (r: SamodWrapper)
        requires
            keys_distinct(storage@),
        ensures
            r.wf(),
            r.hub_view().peer_id == nickname@,
            r.hub_view().run_state == RunState::Running,
            r.hub_view().conns.len() == 0,
            r.hub_view().actors.len() == 0,
            r.hub_view().docs.len() == 0,
            match stored_id(lookup(storage@, storage_id_key())) {
                Some(id) => r.hub_view().storage_id == id && r.stored() == storage@,
                None => r.hub_view().storage_id.len() == 32
                    && r.stored() == store(storage@, storage_id_key(), encode_utf8(r.hub_view().storage_id)),
            },
            r.queued().len() == 0,
            r.results().len() == 0,
            r.actors().len() == 0,
            r.events().len() == 0,
            r.sent().len() == 0,
            r.clock() == now.millis(),
    {
        let mut storage = storage;
        let peer_id = PeerId::from_string(nickname);
        let mut loader = SamodLoader::new(peer_id);
        let ghost s0 = storage@;
        let ghost found = stored_id(lookup(s0, storage_id_key()));
        let mut loaded: Option<Hub> = None;
        loop
            invariant_except_break
                loaded is None,
                match loader.stage() {
                    LoaderStageView::Starting => storage@ == s0,
                    LoaderStageView::StorageIdLoaded(v) => storage@ == s0 && v == lookup(s0, storage_id_key()),
                    LoaderStageView::Done(id) => found is None && id.len() == 32
                        && storage@ == store(s0, storage_id_key(), encode_utf8(id)),
                    _ => false,
                },
            invariant
                keys_distinct(storage@),
                loader.peer_id() == nickname@,
                found == stored_id(lookup(s0, storage_id_key())),
            ensures
                keys_distinct(storage@),
                loaded matches Some(h) && fresh_hub(h, h@.storage_id, nickname@) && match found {
                    Some(id) => h@.storage_id == id && storage@ == s0,
                    None => h@.storage_id.len() == 32
                        && storage@ == store(s0, storage_id_key(), encode_utf8(h@.storage_id)),
                },
            decreases
                match loader.stage() {
                    LoaderStageView::Starting => 2int,
                    LoaderStageView::StorageIdLoaded(_) => 1int,
                    _ => 0int,
                },
        {
            let ghost before = loader.stage();
            let st = loader.step(now);
            match st {
                LoaderState::NeedIo(tasks) => {
                    let mut tasks = tasks;
                    if tasks.len() == 1 {
                        let task = tasks.pop().unwrap();
                        let ghost mid = loader.stage();
                        let ghost act = task.action@;
                        let ghost tid = task.task_id.value();
                        let ghost s1 = storage@;
                        let payload = storage.handle_task(task.action);
                        proof {
                            assert(s1 == s0);
                            match before {
                                LoaderStageView::Starting => {
                                    assert(act == (crate::io::StorageTaskView::Load { key: storage_id_key() }));
                                    assert(mid == LoaderStageView::LoadingStorageId(tid));
                                    assert(storage@ == s0);
                                    assert(payload is Load);
                                },
                                LoaderStageView::StorageIdLoaded(v) => {
                                    assert(stored_id(v) is None);
                                    let id = choose|id: Seq<char>| {
                                        &&& id.len() == 32
                                        &&& act == (crate::io::StorageTaskView::Put { key: storage_id_key(), value: encode_utf8(id) })
                                        &&& mid == LoaderStageView::PuttingStorageId(tid, id)
                                    };
                                    assert(payload is Put);
                                    assert(storage@ == store(s0, storage_id_key(), encode_utf8(id)));
                                },
                                _ => {},
                            }
                        }
                        let _ = loader.provide_io_result(IoResult { task_id: task.task_id, payload });
                    }
                },
                LoaderState::Loaded(h) => {
                    proof {
                        match before {
                            LoaderStageView::StorageIdLoaded(v) => {
                                assert(found == stored_id(v));
                            },
                            _ => {},
                        }
                    }
                    loaded = Some(*h);
                    break;
                },
            }
        }
        let hub = loaded.unwrap();
        SamodWrapper {
            hub,
            storage,
            inbox: Vec::new(),
            completed_commands: Vec::new(),
            collected: Vec::new(),
            now,
            outbox: Vec::new(),
            actors: Vec::new(),
            actor_inbox: Vec::new(),
            connection_events: Vec::new(),
            given: Ghost(Seq::empty()),
            actions: Ghost(Seq::empty()),
            reports: Ghost(Seq::empty()),
        }
    }
}

proof fn lemma_inputs_append(q: Seq<HubEvent>, ios: Seq<HubEvent>)
    requires
        forall|i: int| 0 <= i < ios.len() ==> (#[trigger] ios[i]) is IoComplete,
    ensures
        inputs_in(q + ios) == inputs_in(q),
    decreases ios.len(),
{
    if ios.len() == 0 {
        assert(q + ios =~= q);
    } else {
        let init = ios.drop_last();
        lemma_inputs_append(q, init);
        assert(q + ios =~= (q + init).push(ios.last()));
        lemma_inputs_push(q + init, ios.last());
    }
}

proof fn lemma_reported_grows(s: Seq<(u64, CommandResultView)>, t: Seq<(u64, CommandResultView)>, n: int, c: u64)
    requires
        s.is_prefix_of(t),
        reported_after(s, n, c),
    ensures
        reported_after(t, n, c),
{
    let j = choose|j: int| 0 <= j && n <= j < s.len() && (#[trigger] s[j]).0 == c && s[j].1 is CreateConnection;
    assert(t[j] == t.subrange(0, s.len() as int)[j]);
}

proof fn lemma_prefix_trans<A>(a: Seq<A>, b: Seq<A>, c: Seq<A>)
    requires
        a.is_prefix_of(b),
        b.is_prefix_of(c),
    ensures
        a.is_prefix_of(c),
{
    assert forall|i: int| 0 <= i < a.len() implies #[trigger] c[i] == a[i] by {
        assert(a[i] == b.subrange(0, a.len() as int)[i]);
        assert(b[i] == c.subrange(0, b.len() as int)[i]);
    }
    assert(a =~= c.subrange(0, a.len() as int));
}

proof fn lemma_prefix_append<A>(a: Seq<A>, b: Seq<A>)
    ensures
        a.is_prefix_of(a + b),
{
    assert(a =~= (a + b).subrange(0, a.len() as int));
}

impl SamodWrapper {
    /// Keeps the results of finished commands, but those of receive
    /// commands.
    fn keep_results(&mut self, done: Vec<(CommandId, CommandResult)>)
        requires
            old(self).collected@.len() == old(self).completed_commands@.len(),
        ensures
            final(self).hub == old(self).hub,
            final(self).storage == old(self).storage,
            final(self).inbox == old(self).inbox,
            final(self).now == old(self).now,
            final(self).outbox == old(self).outbox,
            final(self).actors == old(self).actors,
            final(self).actor_inbox == old(self).actor_inbox,
            final(self).connection_events == old(self).connection_events,
            final(self).given == old(self).given,
            final(self).actions == old(self).actions,
            final(self).reports == old(self).reports,
            final(self).collected@.len() == final(self).completed_commands@.len(),
            final(self).results() == old(self).results() + without_receives(completed_view(done@)),
            old(self).results().is_prefix_of(final(self).results()),
            old(self).collected@.is_prefix_of(final(self).collected@),
            forall|i: int| old(self).collected@.len() <= i < final(self).collected@.len() ==> !final(self).collected@[i],
            done@.len() > 0 && done@[0].1 is CreateConnection ==> reported_after(
                final(self).results(),
                old(self).results().len() as int,
                done@[0].0.value(),
            ),
    {
        let ghost dd = done@;
        let ghost dv = completed_view(dd);
        let mut done = done;
        let mut kept: Vec<(CommandId, CommandResult)> = Vec::new();
        let ghost mut p: int = 0;
        proof {
            assert(dv.take(0) =~= Seq::<(u64, CommandResultView)>::empty());
            assert(completed_view(kept@) =~= Seq::<(u64, CommandResultView)>::empty());
        }
        while done.len() > 0
            invariant
                0 <= p <= dd.len(),
                dv == completed_view(dd),
                done@ == dd.skip(p),
                kept@.len() <= p,
                completed_view(kept@) == without_receives(dv.take(p)),
                p > 0 && dd[0].1 is CreateConnection ==> kept@.len() > 0 && kept@[0].0 == dd[0].0
                    && kept@[0].1 is CreateConnection,
            decreases done@.len(),
        {
            let ghost kb = kept@;
            let (c, res) = done.remove(0);
            proof {
                assert(done@ =~= dd.skip(p + 1));
                assert((c, res) == dd[p]);
                assert(dv.take(p + 1).drop_last() =~= dv.take(p));
                assert(dv.take(p + 1).last() == (c.value(), res@));
            }
            let ghost rv = res@;
            match res {
                CommandResult::Receive { .. } => {
                    proof {
                        assert(completed_view(kept@) =~= without_receives(dv.take(p + 1)));
                    }
                },
                _ => {
                    kept.push((c, res));
                    proof {
                        assert(completed_view(kept@) =~= completed_view(kb).push((c.value(), rv)));
                        assert(completed_view(kept@) =~= without_receives(dv.take(p + 1)));
                    }
                },
            }
            proof {
                p = p + 1;
            }
        }
        proof {
            assert(dv.take(dv.len() as int) =~= dv);
        }
        let ghost r0 = self.results();
        let ghost k0 = self.collected@;
        let ghost kv = completed_view(kept@);
        let n = kept.len();
        let mut marks: Vec<bool> = Vec::new();
        while marks.len() < n
            invariant
                marks@.len() <= n,
                forall|i: int| 0 <= i < marks@.len() ==> !marks@[i],
            decreases n - marks@.len(),
        {
            marks.push(false);
        }
        let ghost mv = marks@;
        self.completed_commands.append(&mut kept);
        self.collected.append(&mut marks);
        proof {
            assert(self.results() =~= r0 + kv);
            lemma_prefix_append(r0, kv);
            assert(self.collected@ =~= k0 + mv);
            lemma_prefix_append(k0, mv);
            if dd.len() > 0 && dd[0].1 is CreateConnection {
                assert(self.results()[r0.len() as int] == kv[0]);
            }
        }
    }

    /// Performs network I/O: a send lands in the outbox; a disconnect does
    /// nothing more. Returns the completion event of each task, in order.
    fn perform_io(&mut self, tasks: Vec<IoTask<HubIoAction>>) -> (r: Vec<HubEvent>)
        ensures
            final(self).hub == old(self).hub,
            final(self).storage == old(self).storage,
            final(self).inbox == old(self).inbox,
            final(self).completed_commands == old(self).completed_commands,
            final(self).collected == old(self).collected,
            final(self).now == old(self).now,
            final(self).actors == old(self).actors,
            final(self).actor_inbox == old(self).actor_inbox,
            final(self).connection_events == old(self).connection_events,
            final(self).given == old(self).given,
            final(self).actions == old(self).actions,
            final(self).reports == old(self).reports,
            final(self).sent() == old(self).sent() + sends_of(tasks_view(tasks@)),
            old(self).sent().is_prefix_of(final(self).sent()),
            r@.len() == tasks@.len(),
            forall|i: int| 0 <= i < r@.len() ==> (#[trigger] r@[i]) is IoComplete,
    {
        let n = tasks.len();
        let ghost t0 = tasks@;
        let ghost tv = tasks_view(t0);
        let mut tasks = tasks;
        let mut events: Vec<HubEvent> = Vec::new();
        let mut sends: Vec<(ConnectionId, Vec<u8>)> = Vec::new();
        proof {
            assert(tv.take(0) =~= Seq::<HubIoActionView>::empty());
            assert(sends@.map_values(|e: (ConnectionId, Vec<u8>)| (e.0.value(), e.1@)) =~= Seq::<(u64, Seq<u8>)>::empty());
        }
        while tasks.len() > 0
            invariant
                n == t0.len(),
                tv == tasks_view(t0),
                tasks@ == t0.skip(events@.len() as int),
                sends@.map_values(|e: (ConnectionId, Vec<u8>)| (e.0.value(), e.1@)) == sends_of(tv.take(events@.len() as int)),
                events@.len() + tasks@.len() == n,
                forall|i: int| 0 <= i < events@.len() ==> (#[trigger] events@[i]) is IoComplete,
            decreases tasks@.len(),
        {
            let ghost p = events@.len() as int;
            let ghost sb = sends@.map_values(|e: (ConnectionId, Vec<u8>)| (e.0.value(), e.1@));
            let task = tasks.remove(0);
            proof {
                assert(tasks@ =~= t0.skip(p + 1));
                assert(task == t0[p]);
                assert(tv.take(p + 1).drop_last() =~= tv.take(p));
                assert(tv.take(p + 1).last() == task.action@);
            }
            let payload = match task.action {
                HubIoAction::Send { connection_id, msg } => {
                    let ghost mv = msg@;
                    sends.push((connection_id, msg));
                    proof {
                        assert(sends@.map_values(|e: (ConnectionId, Vec<u8>)| (e.0.value(), e.1@)) =~= sb.push((connection_id.value(), mv)));
                        assert(sends_of(tv.take(p + 1)) =~= sb + seq![(connection_id.value(), mv)]);
                    }
                    HubIoResult::Send
                },
                HubIoAction::Disconnect { connection_id: _ } => {
                    proof {
                        assert(sends_of(tv.take(p + 1)) =~= sb);
                    }
                    HubIoResult::Disconnect
                },
            };
            events.push(HubEvent::io_complete(IoResult { task_id: task.task_id, payload }));
        }
        proof {
            assert(tv.take(n as int) =~= tv);
        }
        let ghost s0 = self.sent();
        let ghost sv = sends@.map_values(|e: (ConnectionId, Vec<u8>)| (e.0.value(), e.1@));
        self.outbox.append(&mut sends);
        proof {
            assert(self.sent() =~= s0 + sv);
            lemma_prefix_append(s0, sv);
        }
        events
    }

    /// Hands one event to the hub and carries out what it asks for: keeps
    /// the command results and connection events, performs the network I/O
    /// and queues its completions, and records the actors to start and the
    /// messages for them. The clock moves on by ten milliseconds first,
    /// unless it is at its end.
    fn handle_one(&mut self, event: HubEvent)
        requires
            old(self).wf(),
            old(self).hub_view().run_state != RunState::Stopped,
            forall|a: u64| not_found_report(event, a) ==> no_pending_create(old(self).hub_view().pending, a),
        ensures
            final(self).wf(),
            final(self).hub_view().peer_id == old(self).hub_view().peer_id,
            final(self).hub_view().storage_id == old(self).hub_view().storage_id,
            final(self).stored() == old(self).stored(),
            final(self).given() == old(self).given().push(event),
            old(self).hub_actions().is_prefix_of(final(self).hub_actions()),
            final(self).sent() == old(self).sent() + sends_of(final(self).hub_actions().skip(old(self).hub_actions().len() as int)),
            old(self).hub_reports().is_prefix_of(final(self).hub_reports()),
            final(self).results() == old(self).results() + without_receives(
                final(self).hub_reports().skip(old(self).hub_reports().len() as int),
            ),
            old(self).results().is_prefix_of(final(self).results()),
            old(self).collected().is_prefix_of(final(self).collected()),
            forall|i: int| old(self).collected().len() <= i < final(self).collected().len() ==> !final(self).collected()[i],
            old(self).events().is_prefix_of(final(self).events()),
            old(self).sent().is_prefix_of(final(self).sent()),
            exists|ios: Seq<HubEvent>| {
                &&& final(self).queued() == old(self).queued() + ios
                &&& forall|i: int| 0 <= i < ios.len() ==> (#[trigger] ios[i]) is IoComplete
                &&& (event is IoComplete ==> ios.len() == 0)
            },
            old(self).hub_view().run_state == RunState::Running && !is_stop(event)
                ==> final(self).hub_view().run_state == RunState::Running,
            is_stop(event) && old(self).hub_view().actors.len() == 0 ==> final(self).hub_view().run_state == RunState::Stopped,
            old(self).hub_view().run_state == RunState::Running ==> (event matches HubEvent::Input(HubInput::Command {
                command_id,
                command: Command::CreateConnection { .. },
            }) ==> reported_after(final(self).results(), old(self).results().len() as int, command_id.value())),
            old(self).hub_view().run_state == RunState::Running ==> (event matches HubEvent::Input(HubInput::Command {
                command_id,
                command: Command::CreateConnection { direction },
            }) ==> exists|c: u64| {
                &&& final(self).results().len() > old(self).results().len()
                &&& #[trigger] final(self).results()[old(self).results().len() as int]
                    == (command_id.value(), CommandResultView::CreateConnection { connection_id: c })
                &&& final(self).sent() == old(self).sent() + join_sent(direction, c, old(self).hub_view().peer_id)
                &&& handshaking(final(self).hub_view().conns, c)
            }),
            event is IoComplete ==> final(self).sent() == old(self).sent(),
            event is IoComplete ==> forall|c: u64| handshaking(old(self).hub_view().conns, c)
                ==> #[trigger] handshaking(final(self).hub_view().conns, c),
    {
        if self.now.as_millis() <= u128::MAX - 10 {
            self.now = self.now.add_millis(10);
        }
        let ghost ev = event;
        let ghost h0 = self.hub@;
        let ghost r_before = self.results();
        let ghost sent_before = self.sent();
        let mut results = HubResults::new();
        self.hub.handle_event(self.now, event, &mut results);
        proof {
            self.given@ = self.given@.push(ev);
        }
        let ghost rv = results@;
        proof {
            assert(results.new_tasks@.len() == rv.tasks.len());
        }
        let HubResults { new_tasks, completed_commands, spawn_actors, actor_messages, connection_events, stopped: _ } = results;
        let ghost a0 = self.actions@;
        let ghost p0 = self.reports@;
        proof {
            self.actions@ = a0 + rv.tasks;
            self.reports@ = p0 + rv.completed;
            assert(self.actions@.skip(a0.len() as int) =~= rv.tasks);
            assert(self.reports@.skip(p0.len() as int) =~= rv.completed);
            lemma_prefix_append(a0, rv.tasks);
            lemma_prefix_append(p0, rv.completed);
        }
        self.keep_results(completed_commands);
        let ghost e0 = self.events();
        let mut connection_events = connection_events;
        self.connection_events.append(&mut connection_events);
        proof {
            assert(e0.is_prefix_of(self.events())) by {
                assert(e0 =~= self.events().subrange(0, e0.len() as int));
            }
        }
        let mut spawn_actors = spawn_actors;
        self.actors.append(&mut spawn_actors);
        let mut actor_messages = actor_messages;
        self.actor_inbox.append(&mut actor_messages);
        let ghost q0 = self.inbox@;
        let mut completions = self.perform_io(new_tasks);
        let ghost ios = completions@;
        self.inbox.append(&mut completions);
        proof {
            assert(self.inbox@ =~= q0 + ios);
            assert(ev is IoComplete ==> ios.len() == 0);
            assert(forall|i: int| 0 <= i < ios.len() ==> (#[trigger] ios[i]) is IoComplete);
        }
        proof {
            if h0.run_state == RunState::Running {
                match ev {
                    HubEvent::Input(HubInput::Command { command_id, command: Command::CreateConnection { direction } }) => {
                        let c = rv.completed[0].1->CreateConnection_connection_id;
                        lemma_without_receives_first(rv.completed);
                        assert(self.results()[r_before.len() as int] == without_receives(rv.completed)[0]);
                        if direction == ConnDirection::Outgoing {
                            let send = HubIoActionView::Send { connection_id: c, msg: spec_encode(join_message(h0.peer_id)) };
                            assert(rv.tasks =~= seq![send]);
                            assert(seq![send].drop_last() =~= Seq::<HubIoActionView>::empty());
                            assert(sends_of(Seq::<HubIoActionView>::empty()) =~= Seq::<(u64, Seq<u8>)>::empty());
                            assert(sends_of(rv.tasks) == sends_of(rv.tasks.drop_last()) + seq![
                                (c, spec_encode(join_message(h0.peer_id))),
                            ]);
                            assert(sends_of(rv.tasks) =~= join_sent(direction, c, h0.peer_id));
                        } else {
                            assert(rv.tasks =~= Seq::<HubIoActionView>::empty());
                            assert(sends_of(rv.tasks) =~= join_sent(direction, c, h0.peer_id));
                        }
                        assert(self.results()[r_before.len() as int]
                            == (command_id.value(), CommandResultView::CreateConnection { connection_id: c }));
                    },
                    _ => {},
                }
            }
            if ev is IoComplete {
                assert(rv.tasks =~= Seq::<HubIoActionView>::empty());
                assert(sends_of(rv.tasks) =~= Seq::<(u64, Seq<u8>)>::empty());
                assert(self.sent() =~= sent_before);
            }
        }
    }
}

impl SamodWrapper {
    /// Handles the queued events, oldest first, and the I/O completions
    /// they bring, until the queue is empty or the hub has stopped. An event
    /// the hub refuses (an actor reporting its document missing while a
    /// create command waits for it) is dropped.
    pub fn handle_events(&mut self)
        requires
            old(self).wf(),
        ensures
            final(self).wf(),
            final(self).hub_view().peer_id == old(self).hub_view().peer_id,
            final(self).hub_view().storage_id == old(self).hub_view().storage_id,
            final(self).stored() == old(self).stored(),
            final(self).queued().len() == 0 || final(self).hub_view().run_state == RunState::Stopped,
            old(self).results().is_prefix_of(final(self).results()),
            old(self).collected().is_prefix_of(final(self).collected()),
            forall|i: int| old(self).collected().len() <= i < final(self).collected().len() ==> !final(self).collected()[i],
            old(self).events().is_prefix_of(final(self).events()),
            old(self).sent().is_prefix_of(final(self).sent()),
            old(self).given().is_prefix_of(final(self).given()),
            old(self).hub_actions().is_prefix_of(final(self).hub_actions()),
            final(self).sent() == old(self).sent() + sends_of(final(self).hub_actions().skip(old(self).hub_actions().len() as int)),
            old(self).hub_reports().is_prefix_of(final(self).hub_reports()),
            final(self).results() == old(self).results() + without_receives(
                final(self).hub_reports().skip(old(self).hub_reports().len() as int),
            ),
            old(self).hub_view().run_state == RunState::Running && no_stop_queued(old(self).queued()) ==> {
                &&& final(self).hub_view().run_state == RunState::Running
                &&& final(self).queued().len() == 0
                &&& forall|k: int| 0 <= k < old(self).queued().len() && always_accepted(#[trigger] old(self).queued()[k])
                    ==> final(self).given().contains(old(self).queued()[k])
                &&& forall|k: int, c: u64| 0 <= k < old(self).queued().len() && #[trigger] creates_connection(old(self).queued()[k], c)
                    ==> reported_after(final(self).results(), old(self).results().len() as int, c)
                &&& old(self).queued().len() > 0 ==> opened_first(
                    old(self).queued()[0],
                    old(self).results(),
                    old(self).sent(),
                    old(self).hub_view().peer_id,
                    final(self).results(),
                    final(self).sent(),
                )
                &&& old(self).queued().len() == 1 ==> opened_alone(
                    old(self).queued()[0],
                    old(self).results(),
                    old(self).sent(),
                    old(self).hub_view().peer_id,
                    final(self).results(),
                    final(self).sent(),
                    final(self).hub_view().conns,
                )
            },
    {
        let ghost q0 = self.inbox@;
        let ghost n0 = q0.len() as int;
        let ghost running0 = self.hub@.run_state == RunState::Running && no_stop_queued(q0);
        let ghost r0 = self.results();
        let ghost k0 = self.collected@;
        let ghost e0 = self.events();
        let ghost s0 = self.sent();
        let ghost g0 = self.given();
        let ghost st0 = self.stored();
        let ghost pid = self.hub@.peer_id;
        let ghost sid = self.hub@.storage_id;
        let ghost a0 = self.hub_actions();
        let ghost p0 = self.hub_reports();
        let ghost mut p: int = 0;
        proof {
            assert(a0.skip(a0.len() as int) =~= Seq::<HubIoActionView>::empty());
            assert(p0.skip(p0.len() as int) =~= Seq::<(u64, CommandResultView)>::empty());
            assert(s0 + sends_of(Seq::<HubIoActionView>::empty()) =~= s0);
            assert(r0 + without_receives(Seq::<(u64, CommandResultView)>::empty()) =~= r0);
            assert(a0.is_prefix_of(a0)) by { assert(a0 =~= a0.subrange(0, a0.len() as int)); }
            assert(p0.is_prefix_of(p0)) by { assert(p0 =~= p0.subrange(0, p0.len() as int)); }
        }
        while self.inbox.len() > 0 && !self.hub.is_stopped()
            invariant
                a0.is_prefix_of(self.hub_actions()),
                self.sent() == s0 + sends_of(self.hub_actions().skip(a0.len() as int)),
                p0.is_prefix_of(self.hub_reports()),
                self.results() == r0 + without_receives(self.hub_reports().skip(p0.len() as int)),
                self.wf(),
                self.hub@.peer_id == pid,
                self.hub@.storage_id == sid,
                self.stored() == st0,
                r0.is_prefix_of(self.results()),
                k0.is_prefix_of(self.collected@),
                forall|i: int| k0.len() <= i < self.collected@.len() ==> !self.collected@[i],
                e0.is_prefix_of(self.events()),
                s0.is_prefix_of(self.sent()),
                g0.is_prefix_of(self.given()),
                0 <= p <= n0,
                n0 == q0.len(),
                p < n0 ==> self.inbox@.len() >= n0 - p && self.inbox@.subrange(0, n0 - p) == q0.subrange(p, n0),
                running0 ==> self.hub@.run_state == RunState::Running && no_stop_queued(self.inbox@),
                running0 ==> forall|k: int| 0 <= k < p && always_accepted(#[trigger] q0[k]) ==> self.given().contains(q0[k]),
                running0 ==> forall|k: int, c: u64| 0 <= k < p && #[trigger] creates_connection(q0[k], c)
                    ==> reported_after(self.results(), r0.len() as int, c),
                p == 0 && n0 > 0 ==> self.results() == r0 && self.sent() == s0,
                running0 && n0 > 0 && p > 0 ==> opened_first(q0[0], r0, s0, pid, self.results(), self.sent()),
                p == 0 && n0 > 0 ==> self.inbox@ == q0,
                running0 && n0 == 1 && p > 0 ==> opened_alone(q0[0], r0, s0, pid, self.results(), self.sent(), self.hub@.conns),
                running0 && n0 == 1 && p > 0 ==> forall|i: int| 0 <= i < self.inbox@.len() ==> (#[trigger] self.inbox@[i]) is IoComplete,
            decreases inputs_in(self.inbox@), self.inbox@.len(),
        {
            let ghost before = self.inbox@;
            let ghost res_b = self.results();
            let ghost given_b = self.given();
            let ghost col_b = self.collected@;
            let ghost act_b = self.hub_actions();
            let ghost rep_b = self.hub_reports();
            let ghost sent_b = self.sent();
            let ghost hub_b = self.hub@;
            let ghost np: int = if p < n0 { p + 1 } else { p };
            let event = self.inbox.remove(0);
            let ghost evg = event;
            proof {
                assert(event == before[0]);
                if p < n0 {
                    assert(before[0] == before.subrange(0, n0 - p)[0]);
                    assert(q0.subrange(p, n0)[0] == q0[p]);
                    assert(q0[p] == event);
                }
                assert(self.inbox@ =~= before.drop_first());
                assert(inputs_in(before) == (if before[0] is IoComplete { 0nat } else { 1nat }) + inputs_in(before.drop_first()));
            }
            let ghost rest = self.inbox@;
            if self.hub.accepts_event(&event) {
                self.handle_one(event);
                proof {
                    let xa = self.hub_actions().skip(act_b.len() as int);
                    assert(self.hub_actions().skip(a0.len() as int) =~= act_b.skip(a0.len() as int) + xa) by {
                        assert forall|k: int| 0 <= k < act_b.len() implies #[trigger] self.hub_actions()[k] == act_b[k] by {
                            assert(act_b[k] == self.hub_actions().subrange(0, act_b.len() as int)[k]);
                        }
                    }
                    lemma_sends_of_append(act_b.skip(a0.len() as int), xa);
                    lemma_prefix_trans(a0, act_b, self.hub_actions());
                    let xr = self.hub_reports().skip(rep_b.len() as int);
                    assert(self.hub_reports().skip(p0.len() as int) =~= rep_b.skip(p0.len() as int) + xr) by {
                        assert forall|k: int| 0 <= k < rep_b.len() implies #[trigger] self.hub_reports()[k] == rep_b[k] by {
                            assert(rep_b[k] == self.hub_reports().subrange(0, rep_b.len() as int)[k]);
                        }
                    }
                    lemma_without_receives_append(rep_b.skip(p0.len() as int), xr);
                    lemma_prefix_trans(p0, rep_b, self.hub_reports());
                }
                proof {
                    if running0 && n0 > 0 {
                        if p == 0 {
                            assert(evg == q0[0]);
                            match evg {
                                HubEvent::Input(HubInput::Command { command_id, command: Command::CreateConnection { direction } }) => {
                                    let c = choose|c: u64| {
                                        &&& self.results().len() > res_b.len()
                                        &&& #[trigger] self.results()[res_b.len() as int]
                                            == (command_id.value(), CommandResultView::CreateConnection { connection_id: c })
                                        &&& self.sent() == sent_b + join_sent(direction, c, pid)
                                    };
                                    assert((s0 + join_sent(direction, c, pid)).is_prefix_of(self.sent())) by {
                                        assert(self.sent().subrange(0, (s0 + join_sent(direction, c, pid)).len() as int)
                                            =~= s0 + join_sent(direction, c, pid));
                                    }
                                    assert(self.results()[r0.len() as int]
                                        == (command_id.value(), CommandResultView::CreateConnection { connection_id: c }));
                                },
                                _ => {},
                            }
                            assert(opened_first(q0[0], r0, s0, pid, self.results(), self.sent()));
                        } else {
                            match q0[0] {
                                HubEvent::Input(HubInput::Command { command_id, command: Command::CreateConnection { direction } }) => {
                                    let c = choose|c: u64| {
                                        &&& res_b.len() > r0.len()
                                        &&& #[trigger] res_b[r0.len() as int]
                                            == (command_id.value(), CommandResultView::CreateConnection { connection_id: c })
                                        &&& (s0 + join_sent(direction, c, pid)).is_prefix_of(sent_b)
                                    };
                                    assert(self.results()[r0.len() as int] == res_b[r0.len() as int]) by {
                                        assert(res_b[r0.len() as int] == self.results().subrange(0, res_b.len() as int)[r0.len() as int]);
                                    }
                                    lemma_prefix_trans(s0 + join_sent(direction, c, pid), sent_b, self.sent());
                                },
                                _ => {},
                            }
                            assert(opened_first(q0[0], r0, s0, pid, self.results(), self.sent()));
                        }
                    }
                }
                proof {
                    let ios = choose|ios: Seq<HubEvent>| {
                        &&& self.queued() == rest + ios
                        &&& forall|i: int| 0 <= i < ios.len() ==> (#[trigger] ios[i]) is IoComplete
                        &&& (event is IoComplete ==> ios.len() == 0)
                    };
                    if running0 && n0 == 1 {
                        if p == 0 {
                            assert(before == q0);
                            assert(rest.len() == 0);
                            assert forall|i: int| 0 <= i < self.inbox@.len() implies (#[trigger] self.inbox@[i]) is IoComplete by {
                                assert(self.inbox@[i] == ios[i]);
                            }
                            match evg {
                                HubEvent::Input(HubInput::Command { command_id, command: Command::CreateConnection { direction } }) => {
                                    let c = choose|c: u64| {
                                        &&& self.results().len() > res_b.len()
                                        &&& #[trigger] self.results()[res_b.len() as int]
                                            == (command_id.value(), CommandResultView::CreateConnection { connection_id: c })
                                        &&& self.sent() == sent_b + join_sent(direction, c, pid)
                                        &&& handshaking(self.hub@.conns, c)
                                    };
                                    assert(self.results()[r0.len() as int]
                                        == (command_id.value(), CommandResultView::CreateConnection { connection_id: c }));
                                },
                                _ => {},
                            }
                            assert(opened_alone(q0[0], r0, s0, pid, self.results(), self.sent(), self.hub@.conns));
                        } else {
                            assert(before[0] is IoComplete);
                            assert(evg is IoComplete);
                            assert(ios.len() == 0);
                            assert forall|i: int| 0 <= i < self.inbox@.len() implies (#[trigger] self.inbox@[i]) is IoComplete by {
                                assert(self.inbox@[i] == rest[i]);
                                assert(rest[i] == before[i + 1]);
                            }
                            match q0[0] {
                                HubEvent::Input(HubInput::Command { command_id, command: Command::CreateConnection { direction } }) => {
                                    let c = choose|c: u64| {
                                        &&& res_b.len() > r0.len()
                                        &&& #[trigger] res_b[r0.len() as int]
                                            == (command_id.value(), CommandResultView::CreateConnection { connection_id: c })
                                        &&& sent_b == s0 + join_sent(direction, c, pid)
                                        &&& handshaking(hub_b.conns, c)
                                    };
                                    assert(self.results()[r0.len() as int] == res_b[r0.len() as int]) by {
                                        assert(res_b[r0.len() as int] == self.results().subrange(0, res_b.len() as int)[r0.len() as int]);
                                    }
                                    assert(handshaking(self.hub@.conns, c));
                                },
                                _ => {},
                            }
                            assert(opened_alone(q0[0], r0, s0, pid, self.results(), self.sent(), self.hub@.conns));
                        }
                    }
                    lemma_inputs_append(rest, ios);
                    lemma_prefix_trans(r0, res_b, self.results());
                    lemma_prefix_trans(g0, given_b, self.given());
                    lemma_prefix_trans(k0, col_b, self.collected@);
                    assert forall|i: int| k0.len() <= i < self.collected@.len() implies !self.collected@[i] by {
                        if i < col_b.len() {
                            assert(self.collected@[i] == self.collected@.subrange(0, col_b.len() as int)[i]);
                        }
                    }
                    assert(self.given()[given_b.len() as int] == event);
                    if running0 {
                        assert forall|i: int| 0 <= i < self.inbox@.len() implies !is_stop(#[trigger] self.inbox@[i]) by {
                            if i < rest.len() {
                                assert(self.inbox@[i] == before[i + 1]);
                            } else {
                                assert(self.inbox@[i] == ios[i - rest.len()]);
                            }
                        }
                        assert(!is_stop(before[0]));
                        assert forall|k: int| 0 <= k < np && always_accepted(#[trigger] q0[k])
                            implies self.given().contains(q0[k]) by {
                            if k < p {
                                let i = choose|i: int| 0 <= i < given_b.len() && given_b[i] == q0[k];
                                assert(self.given()[i] == given_b.subrange(0, given_b.len() as int)[i]);
                                assert(self.given()[i] == q0[k]);
                            } else {
                                assert(q0[k] == event);
                            }
                        }
                        assert forall|k: int, c: u64| 0 <= k < np && #[trigger] creates_connection(q0[k], c)
                            implies reported_after(self.results(), r0.len() as int, c) by {
                            if k < p {
                                lemma_reported_grows(res_b, self.results(), r0.len() as int, c);
                            } else {
                                assert(q0[k] == event);
                                assert(reported_after(self.results(), res_b.len() as int, c));
                                assert(res_b.len() >= r0.len());
                            }
                        }
                    }
                    if p < n0 {
                        assert forall|i: int| 0 <= i < n0 - p - 1 implies #[trigger] self.inbox@[i] == q0[p + 1 + i] by {
                            assert(self.inbox@[i] == rest[i]);
                            assert(rest[i] == before[i + 1]);
                            assert(before[i + 1] == before.subrange(0, n0 - p)[i + 1]);
                            assert(q0.subrange(p, n0)[i + 1] == q0[p + 1 + i]);
                        }
                        assert(self.inbox@.subrange(0, n0 - p - 1) =~= q0.subrange(p + 1, n0));
                    }
                }
            } else {
                proof {
                    assert(!always_accepted(event));
                    assert(!(event is IoComplete));
                    if running0 {
                        assert forall|i: int| 0 <= i < self.inbox@.len() implies !is_stop(#[trigger] self.inbox@[i]) by {
                            assert(self.inbox@[i] == before[i + 1]);
                        }
                        assert forall|k: int, c: u64| 0 <= k < np && #[trigger] creates_connection(q0[k], c)
                            implies reported_after(self.results(), r0.len() as int, c) by {
                            if k == p {
                                assert(q0[k] == event);
                            }
                        }
                    }
                    if p < n0 {
                        assert forall|i: int| 0 <= i < n0 - p - 1 implies #[trigger] self.inbox@[i] == q0[p + 1 + i] by {
                            assert(self.inbox@[i] == rest[i]);
                            assert(rest[i] == before[i + 1]);
                            assert(before[i + 1] == before.subrange(0, n0 - p)[i + 1]);
                            assert(q0.subrange(p, n0)[i + 1] == q0[p + 1 + i]);
                        }
                        assert(self.inbox@.subrange(0, n0 - p - 1) =~= q0.subrange(p + 1, n0));
                    }
                }
            }
            proof {
                if p < n0 {
                    p = p + 1;
                }
            }
        }
    }
}

/// Position `j` holds a result of command `c` that is not collected.
pub open spec fn uncollected_at(s: Seq<(u64, CommandResultView)>, col: Seq<bool>, j: int, c: u64) -> bool {
    0 <= j < s.len() && j < col.len() && !col[j] && s[j].0 == c
}

impl SamodWrapper {
    /// Collects the first result, from position `n` on, that opened a
    /// connection for command `c`, and returns the connection.
    fn collect_created_connection(&mut self, c: CommandId, n: usize) -> (r: ConnectionId)
        requires
            old(self).wf(),
            reported_after(old(self).results(), n as int, c.value()),
            forall|i: int| n <= i < old(self).collected@.len() ==> !old(self).collected@[i],
        ensures
            final(self).wf(),
            final(self).hub == old(self).hub,
            final(self).storage == old(self).storage,
            final(self).inbox == old(self).inbox,
            final(self).outbox == old(self).outbox,
            final(self).actors == old(self).actors,
            final(self).connection_events == old(self).connection_events,
            final(self).given == old(self).given,
            final(self).results() == old(self).results(),
            exists|j: int| {
                &&& n <= j < old(self).results().len()
                &&& uncollected_at(old(self).results(), old(self).collected(), j, c.value())
                &&& old(self).results()[j].1 == (CommandResultView::CreateConnection { connection_id: r.value() })
                &&& final(self).collected() == old(self).collected().update(j, true)
                &&& forall|i: int| n <= i < j ==> !((#[trigger] old(self).results()[i]).0 == c.value()
                    && old(self).results()[i].1 is CreateConnection)
            },
    {
        let mut j: usize = n;
        while j < self.completed_commands.len()
            invariant
                *self == *old(self),
                self.wf(),
                n <= j,
                forall|i: int| n <= i < j ==> !((#[trigger] self.results()[i]).0 == c.value() && self.results()[i].1 is CreateConnection),
                reported_after(self.results(), j as int, c.value()),
                forall|i: int| n <= i < self.collected@.len() ==> !self.collected@[i],
            decreases self.completed_commands@.len() - j,
        {
            proof {
                lemma_command_id_eq(self.completed_commands@[j as int].0, c);
            }
            match &self.completed_commands[j].1 {
                CommandResult::CreateConnection { connection_id } => {
                    if self.completed_commands[j].0 == c {
                        let id = *connection_id;
                        proof {
                            assert(self.results()[j as int] == (c.value(), CommandResultView::CreateConnection { connection_id: id.value() }));
                            assert(uncollected_at(self.results(), self.collected(), j as int, c.value()));
                        }
                        self.collected.set(j, true);
                        proof {
                            assert(self.collected@ =~= old(self).collected@.update(j as int, true));
                        }
                        return id;
                    }
                },
                _ => {},
            }
            proof {
                let k = choose|k: int| 0 <= k && j <= k < self.results().len() && (#[trigger] self.results()[k]).0 == c.value()
                    && self.results()[k].1 is CreateConnection;
                assert(k != j);
            }
            j = j + 1;
        }
        proof {
            let k = choose|k: int| 0 <= k && j <= k < self.results().len() && (#[trigger] self.results()[k]).0 == c.value()
                && self.results()[k].1 is CreateConnection;
        }
        vstd::pervasive::unreached()
    }

    /// Queues a command to open a connection, handles the queue, and
    /// collects the command's result.
    fn open_connection(&mut self, direction: ConnDirection) -> (r: ConnectionId)
        requires
            old(self).wf(),
            old(self).hub_view().run_state == RunState::Running,
            no_stop_queued(old(self).queued()),
        ensures
            final(self).wf(),
            final(self).hub_view().run_state == RunState::Running,
            final(self).hub_view().peer_id == old(self).hub_view().peer_id,
            final(self).hub_view().storage_id == old(self).hub_view().storage_id,
            final(self).stored() == old(self).stored(),
            final(self).queued().len() == 0,
            old(self).results().is_prefix_of(final(self).results()),
            old(self).events().is_prefix_of(final(self).events()),
            old(self).sent().is_prefix_of(final(self).sent()),
            forall|i: int| 0 <= i < old(self).collected().len() ==> final(self).collected()[i] == old(self).collected()[i],
            exists|j: int| {
                &&& old(self).results().len() <= j < final(self).results().len()
                &&& final(self).results()[j].1 == (CommandResultView::CreateConnection { connection_id: r.value() })
                &&& final(self).collected()[j]
            },
            old(self).queued().len() == 0 ==> final(self).sent() == old(self).sent() + join_sent(direction, r.value(), old(self).hub_view().peer_id),
            old(self).queued().len() == 0 ==> handshaking(final(self).hub_view().conns, r.value()),
    {
        let n = self.completed_commands.len();
        let ghost k0 = self.collected@;
        let dispatched = HubEvent::create_connection(direction);
        let command_id = dispatched.command_id;
        let ghost ev = dispatched.event;
        let ghost q = self.inbox@;
        self.inbox.push(dispatched.event);
        proof {
            assert(self.inbox@ == q.push(ev));
            assert(self.inbox@[q.len() as int] == ev);
            assert(creates_connection(ev, command_id.value()));
            assert forall|i: int| 0 <= i < self.inbox@.len() implies !is_stop(#[trigger] self.inbox@[i]) by {
                if i < q.len() {
                    assert(self.inbox@[i] == q[i]);
                }
            }
        }
        let ghost mid_q = self.queued();
        let ghost mid_r = self.results();
        let ghost s_mid = self.sent();
        let ghost pid = self.hub@.peer_id;
        self.handle_events();
        let ghost after_k = self.collected@;
        let ghost after_r = self.results();
        let ghost after_s = self.sent();
        let ghost after_conns = self.hub@.conns;
        proof {
            assert(mid_q[q.len() as int] == ev);
            assert(creates_connection(mid_q[q.len() as int], command_id.value()));
            assert(mid_r.len() == n);
        }
        let r = self.collect_created_connection(command_id, n);
        proof {
            assert forall|i: int| 0 <= i < k0.len() implies self.collected()[i] == k0[i] by {
                assert(after_k[i] == after_k.subrange(0, k0.len() as int)[i]);
            }
            let j = choose|j: int| {
                &&& n <= j < after_r.len()
                &&& uncollected_at(after_r, after_k, j, command_id.value())
                &&& after_r[j].1 == (CommandResultView::CreateConnection { connection_id: r.value() })
                &&& self.collected() == after_k.update(j, true)
                &&& forall|i: int| n <= i < j ==> !((#[trigger] after_r[i]).0 == command_id.value()
                    && after_r[i].1 is CreateConnection)
            };
            assert(self.collected()[j]);
            if q.len() == 0 {
                assert(mid_q[0] == ev);
                assert(mid_q.len() == 1);
                let c = choose|c: u64| {
                    &&& after_r.len() > mid_r.len()
                    &&& #[trigger] after_r[mid_r.len() as int]
                        == (command_id.value(), CommandResultView::CreateConnection { connection_id: c })
                    &&& after_s == s_mid + join_sent(direction, c, pid)
                    &&& handshaking(after_conns, c)
                };
                if j > n {
                    assert(after_r[n as int].0 == command_id.value() && after_r[n as int].1 is CreateConnection);
                }
                assert(j == n);
                assert(c == r.value());
            }
        }
        r
    }

    /// Opens an outgoing connection and returns its ID. When nothing was
    /// queued, the hub lists it as handshaking, and the only bytes sent are
    /// the encoded join message on it.
    pub fn create_connection(&mut self) -> (r: ConnectionId)
        requires
            old(self).wf(),
            old(self).hub_view().run_state == RunState::Running,
            no_stop_queued(old(self).queued()),
        ensures
            final(self).wf(),
            final(self).hub_view().run_state == RunState::Running,
            final(self).hub_view().peer_id == old(self).hub_view().peer_id,
            final(self).hub_view().storage_id == old(self).hub_view().storage_id,
            final(self).stored() == old(self).stored(),
            final(self).queued().len() == 0,
            old(self).results().is_prefix_of(final(self).results()),
            old(self).events().is_prefix_of(final(self).events()),
            old(self).sent().is_prefix_of(final(self).sent()),
            forall|i: int| 0 <= i < old(self).collected().len() ==> final(self).collected()[i] == old(self).collected()[i],
            exists|j: int| {
                &&& old(self).results().len() <= j < final(self).results().len()
                &&& final(self).results()[j].1 == (CommandResultView::CreateConnection { connection_id: r.value() })
                &&& final(self).collected()[j]
            },
            old(self).queued().len() == 0 ==> final(self).sent() == old(self).sent() + join_sent(ConnDirection::Outgoing, r.value(), old(self).hub_view().peer_id),
            old(self).queued().len() == 0 ==> handshaking(final(self).hub_view().conns, r.value()),
    {
        self.open_connection(ConnDirection::Outgoing)
    }

    /// Accepts an incoming connection and returns its ID. When nothing was
    /// queued, the hub lists it as handshaking, and nothing is sent.
    pub fn create_incoming_connection(&mut self) -> (r: ConnectionId)
        requires
            old(self).wf(),
            old(self).hub_view().run_state == RunState::Running,
            no_stop_queued(old(self).queued()),
        ensures
            final(self).wf(),
            final(self).hub_view().run_state == RunState::Running,
            final(self).hub_view().peer_id == old(self).hub_view().peer_id,
            final(self).hub_view().storage_id == old(self).hub_view().storage_id,
            final(self).stored() == old(self).stored(),
            final(self).queued().len() == 0,
            old(self).results().is_prefix_of(final(self).results()),
            old(self).events().is_prefix_of(final(self).events()),
            old(self).sent().is_prefix_of(final(self).sent()),
            forall|i: int| 0 <= i < old(self).collected().len() ==> final(self).collected()[i] == old(self).collected()[i],
            exists|j: int| {
                &&& old(self).results().len() <= j < final(self).results().len()
                &&& final(self).results()[j].1 == (CommandResultView::CreateConnection { connection_id: r.value() })
                &&& final(self).collected()[j]
            },
            old(self).queued().len() == 0 ==> final(self).sent() == old(self).sent() + join_sent(ConnDirection::Incoming, r.value(), old(self).hub_view().peer_id),
            old(self).queued().len() == 0 ==> handshaking(final(self).hub_view().conns, r.value()),
    {
        self.open_connection(ConnDirection::Incoming)
    }
}

impl SamodWrapper {
    /// Queues a command, handles the queue, and returns the command's ID.
    fn run_command(&mut self, dispatched: DispatchedCommand) -> (r: CommandId)
        requires
            old(self).wf(),
            old(self).hub_view().run_state == RunState::Running,
            no_stop_queued(old(self).queued()),
            dispatched.event matches HubEvent::Input(HubInput::Command { command_id, .. })
                && command_id == dispatched.command_id,
        ensures
            final(self).wf(),
            final(self).hub_view().run_state == RunState::Running,
            final(self).hub_view().peer_id == old(self).hub_view().peer_id,
            final(self).hub_view().storage_id == old(self).hub_view().storage_id,
            final(self).stored() == old(self).stored(),
            final(self).queued().len() == 0,
            old(self).results().is_prefix_of(final(self).results()),
            old(self).collected().is_prefix_of(final(self).collected()),
            old(self).events().is_prefix_of(final(self).events()),
            old(self).sent().is_prefix_of(final(self).sent()),
            r == dispatched.command_id,
            final(self).given().contains(dispatched.event),
    {
        let command_id = dispatched.command_id;
        let ghost ev = dispatched.event;
        let ghost q = self.inbox@;
        self.inbox.push(dispatched.event);
        proof {
            assert forall|i: int| 0 <= i < self.inbox@.len() implies !is_stop(#[trigger] self.inbox@[i]) by {
                if i < q.len() {
                    assert(self.inbox@[i] == q[i]);
                }
            }
        }
        let ghost mid_q = self.queued();
        self.handle_events();
        proof {
            assert(mid_q[q.len() as int] == ev);
            assert(always_accepted(mid_q[q.len() as int]));
        }
        command_id
    }

    /// Asks the hub to find a document; returns the command's ID, under
    /// which the result can be collected.
    pub fn start_find_document(&mut self, document_id: &DocumentId) -> (r: CommandId)
        requires
            old(self).wf(),
            old(self).hub_view().run_state == RunState::Running,
            no_stop_queued(old(self).queued()),
        ensures
            final(self).wf(),
            final(self).hub_view().run_state == RunState::Running,
            final(self).hub_view().peer_id == old(self).hub_view().peer_id,
            final(self).hub_view().storage_id == old(self).hub_view().storage_id,
            final(self).stored() == old(self).stored(),
            final(self).queued().len() == 0,
            old(self).results().is_prefix_of(final(self).results()),
            old(self).collected().is_prefix_of(final(self).collected()),
            old(self).events().is_prefix_of(final(self).events()),
            old(self).sent().is_prefix_of(final(self).sent()),
            exists|i: int| 0 <= i < final(self).given().len() && #[trigger] finds_document(final(self).given()[i], r, document_id@),
    {
        let dispatched = HubEvent::find_document(document_id.duplicate());
        let ghost ev = dispatched.event;
        let r = self.run_command(dispatched);
        proof {
            let i = choose|i: int| 0 <= i < self.given().len() && self.given()[i] == ev;
            assert(finds_document(self.given()[i], r, document_id@));
        }
        r
    }

    /// Asks the hub to create an empty document; returns the command's ID,
    /// under which the result can be collected.
    pub fn start_create_document(&mut self) -> (r: CommandId)
        requires
            old(self).wf(),
            old(self).hub_view().run_state == RunState::Running,
            no_stop_queued(old(self).queued()),
        ensures
            final(self).wf(),
            final(self).hub_view().run_state == RunState::Running,
            final(self).hub_view().peer_id == old(self).hub_view().peer_id,
            final(self).hub_view().storage_id == old(self).hub_view().storage_id,
            final(self).stored() == old(self).stored(),
            final(self).queued().len() == 0,
            old(self).results().is_prefix_of(final(self).results()),
            old(self).collected().is_prefix_of(final(self).collected()),
            old(self).events().is_prefix_of(final(self).events()),
            old(self).sent().is_prefix_of(final(self).sent()),
            exists|i: int| 0 <= i < final(self).given().len() && #[trigger] creates_document(final(self).given()[i], r),
    {
        let dispatched = HubEvent::create_document(empty_document());
        let ghost ev = dispatched.event;
        let r = self.run_command(dispatched);
        proof {
            let i = choose|i: int| 0 <= i < self.given().len() && self.given()[i] == ev;
            assert(creates_document(self.given()[i], r));
        }
        r
    }
}

/// Position `j` holds an uncollected result of the find command `c`.
pub open spec fn find_at(s: Seq<(u64, CommandResultView)>, col: Seq<bool>, j: int, c: u64) -> bool {
    uncollected_at(s, col, j, c) && s[j].1 is FindDocument
}

/// Position `j` holds an uncollected result of the create command `c`.
pub open spec fn create_at(s: Seq<(u64, CommandResultView)>, col: Seq<bool>, j: int, c: u64) -> bool {
    uncollected_at(s, col, j, c) && s[j].1 is CreateDocument
}

impl SamodWrapper {
    /// Collects the result of a find command, if it has come: whether the
    /// document was found, and then the actor that runs it.
    pub fn check_find_document_result(&mut self, command_id: CommandId) -> (r: Option<Option<DocumentActorId>>)
        requires
            old(self).wf(),
        ensures
            final(self).wf(),
            final(self).hub_view() == old(self).hub_view(),
            final(self).stored() == old(self).stored(),
            final(self).queued() == old(self).queued(),
            final(self).results() == old(self).results(),
            final(self).events() == old(self).events(),
            final(self).sent() == old(self).sent(),
            final(self).actors() == old(self).actors(),
            match r {
                Some(x) => exists|j: int| {
                    &&& find_at(old(self).results(), old(self).collected(), j, command_id.value())
                    &&& final(self).collected() == old(self).collected().update(j, true)
                    &&& match x {
                        Some(a) => old(self).results()[j].1 == (CommandResultView::FindDocument { found: true, actor_id: a.value() }),
                        None => old(self).results()[j].1->FindDocument_found == false,
                    }
                },
                None => {
                    &&& forall|j: int| !find_at(old(self).results(), old(self).collected(), j, command_id.value())
                    &&& final(self).collected() == old(self).collected()
                },
            },
    {
        let mut j: usize = 0;
        while j < self.completed_commands.len()
            invariant
                *self == *old(self),
                self.wf(),
                forall|i: int| 0 <= i < j ==> !find_at(self.results(), self.collected(), i, command_id.value()),
            decreases self.completed_commands@.len() - j,
        {
            proof {
                lemma_command_id_eq(self.completed_commands@[j as int].0, command_id);
            }
            if !self.collected[j] && self.completed_commands[j].0 == command_id {
                match &self.completed_commands[j].1 {
                    CommandResult::FindDocument { found, actor_id } => {
                        let out = if *found { Some(*actor_id) } else { None };
                        proof {
                            assert(find_at(self.results(), self.collected(), j as int, command_id.value()));
                        }
                        self.collected.set(j, true);
                        proof {
                            assert(self.collected@ =~= old(self).collected@.update(j as int, true));
                        }
                        return Some(out);
                    },
                    _ => {},
                }
            }
            j = j + 1;
        }
        None
    }

    /// Collects the result of a create command, if it has come: the new
    /// document and the actor that runs it.
    pub fn check_create_document_result(&mut self, command_id: CommandId) -> (r: Option<RunningDocIds>)
        requires
            old(self).wf(),
        ensures
            final(self).wf(),
            final(self).hub_view() == old(self).hub_view(),
            final(self).stored() == old(self).stored(),
            final(self).queued() == old(self).queued(),
            final(self).results() == old(self).results(),
            final(self).events() == old(self).events(),
            final(self).sent() == old(self).sent(),
            final(self).actors() == old(self).actors(),
            match r {
                Some(ids) => exists|j: int| {
                    &&& create_at(old(self).results(), old(self).collected(), j, command_id.value())
                    &&& final(self).collected() == old(self).collected().update(j, true)
                    &&& old(self).results()[j].1 == (CommandResultView::CreateDocument {
                        document_id: ids.doc_id@,
                        actor_id: ids.actor_id.value(),
                    })
                },
                None => {
                    &&& forall|j: int| !create_at(old(self).results(), old(self).collected(), j, command_id.value())
                    &&& final(self).collected() == old(self).collected()
                },
            },
    {
        let mut j: usize = 0;
        while j < self.completed_commands.len()
            invariant
                *self == *old(self),
                self.wf(),
                forall|i: int| 0 <= i < j ==> !create_at(self.results(), self.collected(), i, command_id.value()),
            decreases self.completed_commands@.len() - j,
        {
            proof {
                lemma_command_id_eq(self.completed_commands@[j as int].0, command_id);
            }
            if !self.collected[j] && self.completed_commands[j].0 == command_id {
                match &self.completed_commands[j].1 {
                    CommandResult::CreateDocument { document_id, actor_id } => {
                        let ids = RunningDocIds { doc_id: document_id.duplicate(), actor_id: *actor_id };
                        proof {
                            assert(create_at(self.results(), self.collected(), j as int, command_id.value()));
                        }
                        self.collected.set(j, true);
                        proof {
                            assert(self.collected@ =~= old(self).collected@.update(j as int, true));
                        }
                        return Some(ids);
                    },
                    _ => {},
                }
            }
            j = j + 1;
        }
        None
    }
}

impl SamodWrapper {
    /// Stops the hub. No document actor may be running and no event may be
    /// waiting: the actors would have to confirm that they stopped, and
    /// none runs here.
    pub fn stop(&mut self)
        requires
            old(self).wf(),
            old(self).hub_view().run_state != RunState::Stopped,
            old(self).hub_view().actors.len() == 0,
            old(self).queued().len() == 0,
        ensures
            final(self).wf(),
            final(self).hub_view().run_state == RunState::Stopped,
            final(self).hub_view().peer_id == old(self).hub_view().peer_id,
            final(self).hub_view().storage_id == old(self).hub_view().storage_id,
            final(self).stored() == old(self).stored(),
            old(self).results().is_prefix_of(final(self).results()),
            old(self).events().is_prefix_of(final(self).events()),
            old(self).sent().is_prefix_of(final(self).sent()),
    {
        let event = HubEvent::stop();
        self.handle_one(event);
    }

    /// The ID of the storage the hub uses.
    pub fn storage_id(&self) -> (r: StorageId)
        ensures
            r@ == self.hub_view().storage_id,
    {
        self.hub.storage_id()
    }

    /// The peer ID of the hub.
    pub fn peer_id(&self) -> (r: PeerId)
        ensures
            r@ == self.hub_view().peer_id,
    {
        self.hub.peer_id().duplicate()
    }

    /// The storage.
    pub fn storage(&self) -> (r: &MemoryStorage)
        ensures
            r@ == self.stored(),
    {
        &self.storage
    }

    /// The storage, to change it; it must again hold one entry per key for
    /// the wrapper to stay well formed.
    pub fn storage_mut(&mut self) -> (r: &mut MemoryStorage)
        ensures
            r@ == old(self).stored(),
            final(self).stored() == final(r)@,
            final(self).hub_view() == old(self).hub_view(),
            final(self).queued() == old(self).queued(),
            final(self).results() == old(self).results(),
            final(self).collected() == old(self).collected(),
            final(self).events() == old(self).events(),
            final(self).sent() == old(self).sent(),
            final(self).actors() == old(self).actors(),
            old(self).wf() && keys_distinct(final(r)@) ==> final(self).wf(),
    {
        &mut self.storage
    }

    /// Queues an event, to be handled with the next batch.
    pub fn push_event(&mut self, event: HubEvent)
        ensures
            final(self).queued() == old(self).queued().push(event),
            final(self).hub_view() == old(self).hub_view(),
            final(self).stored() == old(self).stored(),
            final(self).results() == old(self).results(),
            final(self).collected() == old(self).collected(),
            final(self).events() == old(self).events(),
            final(self).sent() == old(self).sent(),
            final(self).actors() == old(self).actors(),
            old(self).wf() ==> final(self).wf(),
    {
        self.inbox.push(event);
    }

    /// The number of document actors the hub asked to start.
    pub fn actor_count(&self) -> (r: usize)
        ensures
            r == self.actors().len(),
    {
        self.actors.len()
    }

    /// Whether the hub asked to start the actor with this ID.
    pub fn has_actor(&self, actor_id: &DocumentActorId) -> (r: bool)
        ensures
            r == exists|i: int| 0 <= i < self.actors().len() && (#[trigger] self.actors()[i]).0 == actor_id.value(),
    {
        let mut i: usize = 0;
        while i < self.actors.len()
            invariant
                i <= self.actors@.len(),
                forall|k: int| 0 <= k < i ==> (#[trigger] self.actors()[k]).0 != actor_id.value(),
            decreases self.actors@.len() - i,
        {
            proof {
                crate::messages::lemma_actor_id_eq(self.actors@[i as int].actor_id, *actor_id);
            }
            if self.actors[i].actor_id == *actor_id {
                proof {
                    assert(self.actors()[i as int].0 == actor_id.value());
                }
                return true;
            }
            proof {
                assert(self.actors()[i as int].0 != actor_id.value());
            }
            i = i + 1;
        }
        false
    }

    /// The connection events reported so far.
    pub fn connection_events(&self) -> (r: &Vec<ConnectionEvent>)
        ensures
            events_view(r@) == self.events(),
    {
        &self.connection_events
    }

    /// Forgets the connection events reported so far.
    pub fn clear_connection_events(&mut self)
        ensures
            final(self).events().len() == 0,
            final(self).hub_view() == old(self).hub_view(),
            final(self).stored() == old(self).stored(),
            final(self).queued() == old(self).queued(),
            final(self).results() == old(self).results(),
            final(self).collected() == old(self).collected(),
            final(self).sent() == old(self).sent(),
            final(self).actors() == old(self).actors(),
            old(self).wf() ==> final(self).wf(),
    {
        self.connection_events.clear();
    }

    /// Takes the bytes sent so far, with their connections, oldest first.
    pub fn take_outbox(&mut self) -> (r: Vec<(ConnectionId, Vec<u8>)>)
        ensures
            r@.map_values(|e: (ConnectionId, Vec<u8>)| (e.0.value(), e.1@)) == old(self).sent(),
            final(self).sent().len() == 0,
            final(self).hub_view() == old(self).hub_view(),
            final(self).stored() == old(self).stored(),
            final(self).queued() == old(self).queued(),
            final(self).results() == old(self).results(),
            final(self).collected() == old(self).collected(),
            final(self).events() == old(self).events(),
            final(self).actors() == old(self).actors(),
            old(self).wf() ==> final(self).wf(),
    {
        let mut out: Vec<(ConnectionId, Vec<u8>)> = Vec::new();
        std::mem::swap(&mut out, &mut self.outbox);
        proof {
            assert(self.sent() =~= Seq::<(u64, Seq<u8>)>::empty());
        }
        out
    }

    /// The monitoring information of every connection of the hub.
    pub fn connections(&self) -> (r: Vec<ConnectionInfo>)
        ensures
            r@.map_values(|c: ConnectionInfo| c@) == self.hub_view().conns.map_values(|c: ConnectionView| spec_info(c)),
    {
        self.hub.connections()
    }

    /// The established connections of the hub, with their peers.
    pub fn established_peers(&self) -> (r: Vec<(ConnectionId, PeerId)>)
        ensures
            r@.map_values(|e: (ConnectionId, PeerId)| (e.0.value(), e.1@)) == established_of(self.hub_view().conns),
    {
        self.hub.established_peers()
    }

    /// Whether the hub has an established connection with this peer.
    pub fn is_connected_to(&self, peer_id: &PeerId) -> (r: bool)
        ensures
            r == connected_to(self.hub_view().conns, peer_id@),
    {
        self.hub.is_connected_to(peer_id)
    }
}

} // verus!
