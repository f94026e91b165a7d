//! Replicas as the master knows them, and the handshake a replica runs
//! against its master.
use vstd::prelude::*;
use vstd::utf8::{decode_utf8, encode_utf8, valid_utf8};
use crate::codec::{array_frame, parse_str_to_repl, utf8_items};
use crate::parser::{
    all_utf8, concat_frames, decode_stream, decoded_text, frame_fits, lemma_stream_in_order,
    normalize, stream_frames, token_views, upper_bytes,
};
use crate::memory::MemoryStore;
use crate::table::Table;

verus! {

/// What the master knows of one replica.
pub struct ReplicaInfo {
    pub port: Option<String>,
}

impl ReplicaInfo {
    pub fn new() -> (r: Self)
        ensures
            r.port is None,
    {
        ReplicaInfo { port: None }
    }

    pub fn set_port(&mut self, port: &str)
        ensures
            final(self).port matches Some(p) && p@ == port@,
    {
        self.port = Some(port.to_owned());
    }
}

/// The replicas that announced a listening port, and whether this process,
/// as a replica, has finished its handshake.
pub struct Replicas {
    replicas: Table<ReplicaInfo>,
    has_setup: bool,
    replicas_conn: Vec<String>,
}

impl Replicas {
    /// The known replicas, by port.
    pub closed spec fn known(&self) -> Map<Seq<char>, ReplicaInfo> {
        self.replicas@
    }

    /// The announced ports, in the order they came.
    pub closed spec fn ports(&self) -> Seq<Seq<char>> {
        self.replicas_conn@.map_values(|s: String| s@)
    }

    /// The handshake with the master is done.
    pub closed spec fn synced(&self) -> bool {
        self.has_setup
    }

    pub closed spec fn wf(&self) -> bool {
        self.replicas.wf()
    }

    pub fn new() -> (r: Self)
        ensures
            r.wf(),
            r.known() == Map::<Seq<char>, ReplicaInfo>::empty(),
            r.ports() == Seq::<Seq<char>>::empty(),
            !r.synced(),
    {
        let r = Replicas { replicas: Table::new(), has_setup: false, replicas_conn: Vec::new() };
        assert(r.ports() =~= Seq::<Seq<char>>::empty());
        r
    }

    pub fn status(&self) -> (r: bool)
        ensures
            r == self.synced(),
    {
        self.has_setup
    }

    pub fn set_status(&mut self, status: bool)
        ensures
            final(self).synced() == status,
            final(self).known() == old(self).known(),
            final(self).ports() == old(self).ports(),
            final(self).wf() == old(self).wf(),
    {
        self.has_setup = status;
    }

    /// How many ports were announced.
    pub fn available(&self) -> (r: usize)
        ensures
            r == self.ports().len(),
    {
        self.replicas_conn.len()
    }

    /// Records a replica that announced `port_id` as its listening port.
    pub fn add_replica(&mut self, port_id: &str)
        requires
            old(self).wf(),
        ensures
            final(self).wf(),
            final(self).known().dom() == old(self).known().dom().insert(port_id@),
            final(self).known()[port_id@].port matches Some(p) && p@ == port_id@,
            final(self).ports() == old(self).ports().push(port_id@),
            final(self).synced() == old(self).synced(),
    {
        let mut replica_data = ReplicaInfo::new();
        replica_data.set_port(port_id);
        self.replicas.insert(port_id.to_owned(), replica_data);
        self.replicas_conn.push(port_id.to_owned());
        assert(self.ports() =~= old(self).ports().push(port_id@));
    }

    /// The port announced last.
    pub fn latest(&self) -> (r: Option<&String>)
        ensures
            match r {
                Some(s) => self.ports().len() > 0 && s@ == self.ports().last(),
                None => self.ports().len() == 0,
            },
    {
        if self.replicas_conn.len() == 0 {
            None
        } else {
            Some(&self.replicas_conn[self.replicas_conn.len() - 1])
        }
    }
}

/// Where a replica stands in its handshake with the master. In each step
/// the replica has sent one command and waits for the reply.
#[derive(Debug, Clone, Copy, PartialEq, Eq, Structural)]
pub enum HandshakeState {
    Disconnected,
    SendPing,
    SendListeningPort,
    SendCapa,
    SendPsync,
    Streaming,
}

/// What happened on the connection to the master.
#[derive(Debug, Clone, Copy, PartialEq, Eq, Structural)]
pub enum HandshakeEvent {
    Connected,
    ConnectFailed,
    Reply,
    Closed,
}

/// What the replica does next.
pub enum HandshakeAction {
    /// Write these bytes to the master, then wait for its reply.
    Send(Vec<u8>),
    /// Mark this replica synced and apply what the master streams.
    StartStreaming,
    /// Give up this attempt; a later check starts over.
    Abandon,
    /// Nothing to do.
    Wait,
}

/// The state after `e` in state `s`.
pub open spec fn handshake_next(s: HandshakeState, e: HandshakeEvent) -> HandshakeState {
    match (s, e) {
        (_, HandshakeEvent::Closed) => HandshakeState::Disconnected,
        (HandshakeState::Disconnected, HandshakeEvent::Connected) => HandshakeState::SendPing,
        (HandshakeState::SendPing, HandshakeEvent::Reply) => HandshakeState::SendListeningPort,
        (HandshakeState::SendListeningPort, HandshakeEvent::Reply) => HandshakeState::SendCapa,
        (HandshakeState::SendCapa, HandshakeEvent::Reply) => HandshakeState::SendPsync,
        (HandshakeState::SendPsync, HandshakeEvent::Reply) => HandshakeState::Streaming,
        _ => s,
    }
}

/// The command sent on entering step `s`.
pub open spec fn handshake_command(s: HandshakeState, own_port: Seq<char>) -> Seq<Seq<char>> {
    match s {
        HandshakeState::SendPing => seq!["PING"@],
        HandshakeState::SendListeningPort => seq!["REPLCONF"@, "listening-port"@, own_port],
        HandshakeState::SendCapa => seq!["REPLCONF"@, "capa"@, "psync2"@],
        HandshakeState::SendPsync => seq!["PSYNC"@, "?"@, "-1"@],
        _ => Seq::empty(),
    }
}

/// The wire form of a command given as text tokens.
pub open spec fn text_frame(ts: Seq<Seq<char>>) -> Seq<u8> {
    array_frame(Seq::new(ts.len(), |i: int| encode_utf8(ts[i])))
}

/// What the replica does on `e` in state `s`.
pub open spec fn handshake_action(
    s: HandshakeState,
    e: HandshakeEvent,
    own_port: Seq<char>,
    a: HandshakeAction,
) -> bool {
    let n = handshake_next(s, e);
    if e == HandshakeEvent::Closed || (s == HandshakeState::Disconnected && e
        == HandshakeEvent::ConnectFailed) {
        a is Abandon
    } else if n == s {
        a is Wait
    } else if n == HandshakeState::Streaming {
        a is StartStreaming
    } else {
        a matches HandshakeAction::Send(b) && b@ == text_frame(handshake_command(n, own_port))
    }
}

fn command_frame(tokens: Vec<String>) -> (r: Vec<u8>)
    ensures
        r@ == text_frame(tokens@.map_values(|t: String| t@)),
{
    let r = parse_str_to_repl(&tokens);
    assert(utf8_items(tokens@) =~= Seq::new(
        tokens@.len(),
        |i: int| encode_utf8(tokens@.map_values(|t: String| t@)[i]),
    ));
    r
}

/// One step of the handshake: the next state, and what to do.
pub fn handshake_step(state: HandshakeState, event: HandshakeEvent, own_port: &str) -> (r: (
    HandshakeState,
    HandshakeAction,
))
    ensures
        r.0 == handshake_next(state, event),
        handshake_action(state, event, own_port@, r.1),
{
    match (state, event) {
        (_, HandshakeEvent::Closed) => (HandshakeState::Disconnected, HandshakeAction::Abandon),
        (HandshakeState::Disconnected, HandshakeEvent::ConnectFailed) => (
            HandshakeState::Disconnected,
            HandshakeAction::Abandon,
        ),
        (HandshakeState::Disconnected, HandshakeEvent::Connected) => {
            let v = vec!["PING".to_owned()];
            assert(v@.map_values(|t: String| t@) =~= seq!["PING"@]);
            let b = command_frame(v);
            (HandshakeState::SendPing, HandshakeAction::Send(b))
        },
        (HandshakeState::SendPing, HandshakeEvent::Reply) => {
            let v = vec!["REPLCONF".to_owned(), "listening-port".to_owned(), own_port.to_owned()];
            assert(v@.map_values(|t: String| t@)
                =~= seq!["REPLCONF"@, "listening-port"@, own_port@]);
            let b = command_frame(v);
            (HandshakeState::SendListeningPort, HandshakeAction::Send(b))
        },
        (HandshakeState::SendListeningPort, HandshakeEvent::Reply) => {
            let v = vec!["REPLCONF".to_owned(), "capa".to_owned(), "psync2".to_owned()];
            assert(v@.map_values(|t: String| t@) =~= seq!["REPLCONF"@, "capa"@, "psync2"@]);
            let b = command_frame(v);
            (HandshakeState::SendCapa, HandshakeAction::Send(b))
        },
        (HandshakeState::SendCapa, HandshakeEvent::Reply) => {
            let v = vec!["PSYNC".to_owned(), "?".to_owned(), "-1".to_owned()];
            assert(v@.map_values(|t: String| t@) =~= seq!["PSYNC"@, "?"@, "-1"@]);
            let b = command_frame(v);
            (HandshakeState::SendPsync, HandshakeAction::Send(b))
        },
        (HandshakeState::SendPsync, HandshakeEvent::Reply) => (
            HandshakeState::Streaming,
            HandshakeAction::StartStreaming,
        ),
        _ => (state, HandshakeAction::Wait),
    }
}

/// The values after a replica applies `cmd`: a `SET` with a key and a value
/// stores it; everything else is passed over.
pub open spec fn apply_one(values: Map<Seq<char>, Seq<char>>, cmd: Seq<Seq<char>>) -> Map<
    Seq<char>,
    Seq<char>,
> {
    if cmd.len() >= 3 && cmd[0] == "SET"@ {
        values.insert(cmd[1], cmd[2])
    } else {
        values
    }
}

/// The values after a replica applies `cmds` in order.
pub open spec fn apply_all(values: Map<Seq<char>, Seq<char>>, cmds: Seq<Seq<Seq<char>>>) -> Map<
    Seq<char>,
    Seq<char>,
>
    decreases cmds.len(),
{
    if cmds.len() == 0 {
        values
    } else {
        apply_one(apply_all(values, cmds.drop_last()), cmds.last())
    }
}

/// The commands that the master streamed, as text.
pub open spec fn stream_text(b: Seq<u8>) -> Seq<Seq<Seq<char>>> {
    Seq::new(stream_frames(b, 0).len(), |j: int| decoded_text(stream_frames(b, 0)[j]))
}

/// Applies decoded commands, in order, to a replica's store.
pub fn apply_commands(store: &mut MemoryStore, commands: &Vec<Vec<String>>)
    requires
        old(store).wf(),
    ensures
        final(store).wf(),
        final(store).values() == apply_all(
            old(store).values(),
            commands@.map_values(|c: Vec<String>| token_views(c@)),
        ),
        final(store).deadlines() == old(store).deadlines(),
{
    let ghost cmds = commands@.map_values(|c: Vec<String>| token_views(c@));
    let set_name: String = "SET".to_owned();
    let mut j: usize = 0;
    while j < commands.len()
        invariant
            store.wf(),
            j <= commands@.len(),
            cmds == commands@.map_values(|c: Vec<String>| token_views(c@)),
            set_name@ == "SET"@,
            store.values() == apply_all(old(store).values(), cmds.subrange(0, j as int)),
            store.deadlines() == old(store).deadlines(),
        decreases commands@.len() - j,
    {
        let cmd = &commands[j];
        assert(cmds.subrange(0, j + 1).drop_last() =~= cmds.subrange(0, j as int));
        assert(cmds.subrange(0, j + 1).last() == token_views(cmd@));
        if cmd.len() >= 3 && cmd[0] == set_name {
            store.set(cmd[1].clone(), cmd[2].clone());
        }
        j += 1;
    }
    assert(cmds.subrange(0, commands@.len() as int) =~= cmds);
}

/// Applies what the master streamed in `chunk` to a replica's store, and
/// tells how many commands it held.
pub fn apply_replication(store: &mut MemoryStore, chunk: &[u8]) -> (r: usize)
    requires
        old(store).wf(),
    ensures
        final(store).wf(),
        r == stream_frames(chunk@, 0).len(),
        final(store).values() == apply_all(old(store).values(), stream_text(chunk@)),
        final(store).deadlines() == old(store).deadlines(),
{
    let commands = decode_stream(chunk);
    assert(commands@.map_values(|c: Vec<String>| token_views(c@)) =~= stream_text(chunk@));
    apply_commands(store, &commands);
    commands.len()
}

/// The tokens of `SET k v` as they go over the wire.
pub open spec fn set_command(k: Seq<char>, v: Seq<char>) -> Seq<Seq<u8>> {
    seq![encode_utf8("SET"@), encode_utf8(k), encode_utf8(v)]
}

/// `SET` of each key and value, in order.
pub open spec fn set_commands(sets: Seq<(Seq<char>, Seq<char>)>) -> Seq<Seq<Seq<u8>>> {
    Seq::new(sets.len(), |i: int| set_command(sets[i].0, sets[i].1))
}

/// The values after storing each key and value of `sets`, in order.
pub open spec fn with_sets(
    values: Map<Seq<char>, Seq<char>>,
    sets: Seq<(Seq<char>, Seq<char>)>,
) -> Map<Seq<char>, Seq<char>>
    decreases sets.len(),
{
    if sets.len() == 0 {
        values
    } else {
        with_sets(values, sets.drop_last()).insert(sets.last().0, sets.last().1)
    }
}

proof fn lemma_set_name_bytes()
    ensures
        encode_utf8("SET"@) == seq![83u8, 69u8, 84u8],
        upper_bytes(encode_utf8("SET"@)) == encode_utf8("SET"@),
        decode_utf8(encode_utf8("SET"@)) == "SET"@,
{
    reveal_strlit("SET");
    let c = "SET"@;
    assert(c.len() == 3 && c[0] == 'S' && c[1] == 'E' && c[2] == 'T');
    assert(vstd::utf8::is_ascii_chars(c));
    vstd::utf8::is_ascii_chars_encode_utf8(c);
    assert(encode_utf8(c) =~= seq![83u8, 69u8, 84u8]);
    assert(upper_bytes(encode_utf8(c)) =~= encode_utf8(c));
    vstd::utf8::encode_utf8_decode_utf8(c);
}

proof fn lemma_apply_sets(values: Map<Seq<char>, Seq<char>>, sets: Seq<(Seq<char>, Seq<char>)>)
    ensures
        apply_all(values, Seq::new(sets.len(), |j: int| seq!["SET"@, sets[j].0, sets[j].1]))
            == with_sets(values, sets),
    decreases sets.len(),
{
    let t = Seq::new(sets.len(), |j: int| seq!["SET"@, sets[j].0, sets[j].1]);
    if sets.len() > 0 {
        let d = sets.drop_last();
        assert(t.drop_last() =~= Seq::new(d.len(), |j: int| seq!["SET"@, d[j].0, d[j].1]));
        lemma_apply_sets(values, d);
        let last = t.last();
        assert(last.len() == 3 && last[0] == "SET"@ && last[1] == sets.last().0 && last[2]
            == sets.last().1);
    }
}

/// A replica that applies what the master streamed after a run of `SET k v`
/// commands ends with those values stored in the order the master took them.
pub proof fn lemma_replica_applies_in_order(
    values: Map<Seq<char>, Seq<char>>,
    sets: Seq<(Seq<char>, Seq<char>)>,
)
    requires
        forall|i: int|
            0 <= i < sets.len() ==> encode_utf8((#[trigger] sets[i]).0).len() <= usize::MAX
                && encode_utf8(sets[i].1).len() <= usize::MAX,
    ensures
        apply_all(values, stream_text(concat_frames(set_commands(sets)))) == with_sets(
            values,
            sets,
        ),
{
    let cmds = set_commands(sets);
    lemma_set_name_bytes();
    assert forall|i: int| 0 <= i < cmds.len() implies frame_fits(#[trigger] cmds[i]) && normalize(
        cmds[i],
    ) == cmds[i] && all_utf8(normalize(cmds[i])) by {
        let c = cmds[i];
        assert(c == set_command(sets[i].0, sets[i].1));
        assert(c.len() == 3);
        assert(c[0] == encode_utf8("SET"@));
        assert(c.update(0, upper_bytes(c[0])) =~= c);
        vstd::utf8::encode_utf8_valid_utf8("SET"@);
        vstd::utf8::encode_utf8_valid_utf8(sets[i].0);
        vstd::utf8::encode_utf8_valid_utf8(sets[i].1);
        assert(forall|j: int| 0 <= j < 3 ==> valid_utf8(#[trigger] c[j]));
    }
    lemma_stream_in_order(cmds);
    let b = concat_frames(cmds);
    assert(stream_frames(b, 0) =~= cmds);
    let texts = Seq::new(sets.len(), |j: int| seq!["SET"@, sets[j].0, sets[j].1]);
    assert forall|j: int|
        0 <= j < sets.len() implies (#[trigger] stream_text(b)[j]) == texts[j] by {
        let c = cmds[j];
        assert(stream_frames(b, 0)[j] == c);
        vstd::utf8::encode_utf8_decode_utf8(sets[j].0);
        vstd::utf8::encode_utf8_decode_utf8(sets[j].1);
        assert(decoded_text(c) =~= seq!["SET"@, sets[j].0, sets[j].1]);
    }
    assert(stream_text(b) =~= texts);
    lemma_apply_sets(values, sets);
}

} // verus!
