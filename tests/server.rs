use rudis::codec::parse_str_to_repl;
use rudis::parser::parser_v3;
use rudis::commands::{process_commands, CommandOutcome};
use rudis::memory::MemoryStore;
use rudis::options::{load_basic_options, Options};
use rudis::replica::{
    apply_replication, handshake_step, HandshakeAction, HandshakeEvent, HandshakeState, Replicas,
};
use rudis::replication::Replication;

fn strings(v: &[&str]) -> Vec<String> {
    v.iter().map(|s| s.to_string()).collect()
}

struct Server {
    store: MemoryStore,
    options: Options,
    replicas: Replicas,
    replication: Replication,
    promoted: bool,
}

impl Server {
    fn new() -> Self {
        let mut options = Options::new();
        load_basic_options(&mut options);
        Server {
            store: MemoryStore::new(),
            options,
            replicas: Replicas::new(),
            replication: Replication::new(),
            promoted: false,
        }
    }

    fn run(&mut self, tokens: &[&str], now: u128) -> CommandOutcome {
        process_commands(
            &strings(tokens),
            now,
            &mut self.store,
            &self.options,
            &mut self.replicas,
            &self.replication,
            &mut self.promoted,
        )
    }

    fn reply(&mut self, tokens: &[&str], now: u128) -> Vec<Vec<u8>> {
        self.run(tokens, now).responses
    }
}

#[test]
fn ping_replies_pong() {
    let mut s = Server::new();
    assert_eq!(s.reply(&["PING"], 0), vec![b"+PONG\r\n".to_vec()]);
}

#[test]
fn echo_replies_argument() {
    let mut s = Server::new();
    assert_eq!(s.reply(&["ECHO", "hey"], 0), vec![b"+hey\r\n".to_vec()]);
}

#[test]
fn echo_without_argument_is_error() {
    let mut s = Server::new();
    assert_eq!(s.reply(&["ECHO"], 0), vec![b"-ERR wrong number of arguments\r\n".to_vec()]);
    assert_eq!(s.reply(&["GET"], 0), vec![b"-ERR wrong number of arguments\r\n".to_vec()]);
    assert_eq!(s.reply(&["SET", "k"], 0), vec![b"-ERR wrong number of arguments\r\n".to_vec()]);
}

#[test]
fn get_unset_key_is_null_bulk() {
    let mut s = Server::new();
    assert_eq!(s.reply(&["GET", "nothing"], 0), vec![b"$-1\r\n".to_vec()]);
}

#[test]
fn set_then_get_bulk() {
    let mut s = Server::new();
    let out = s.run(&["SET", "foo", "bar"], 0);
    assert_eq!(out.responses, vec![b"+OK\r\n".to_vec()]);
    assert!(out.propagate);
    assert_eq!(s.reply(&["GET", "foo"], 0), vec![b"$3\r\nbar\r\n".to_vec()]);
}

#[test]
fn set_px_expires_after_deadline() {
    let mut s = Server::new();
    let t0: u128 = 1_000;
    assert_eq!(s.reply(&["SET", "k", "v", "px", "100"], t0), vec![b"+OK\r\n".to_vec()]);
    s.store.remove_expired(t0 + 100 - 1);
    assert_eq!(s.reply(&["GET", "k"], t0 + 99), vec![b"$1\r\nv\r\n".to_vec()]);
    s.store.remove_expired(t0 + 100);
    assert_eq!(s.reply(&["GET", "k"], t0 + 100), vec![b"$1\r\nv\r\n".to_vec()]);
    s.store.remove_expired(t0 + 101);
    assert_eq!(s.reply(&["GET", "k"], t0 + 101), vec![b"$-1\r\n".to_vec()]);
}

#[test]
fn get_after_deadline_without_sweep() {
    let mut s = Server::new();
    assert_eq!(s.reply(&["SET", "k", "v", "PX", "5"], 10), vec![b"+OK\r\n".to_vec()]);
    assert_eq!(s.reply(&["GET", "k"], 14), vec![b"$1\r\nv\r\n".to_vec()]);
    assert_eq!(s.reply(&["GET", "k"], 15), vec![b"$1\r\nv\r\n".to_vec()]);
    assert_eq!(s.reply(&["GET", "k"], 16), vec![b"$-1\r\n".to_vec()]);
}

#[test]
fn set_keeps_old_deadline_through_dispatcher() {
    let mut s = Server::new();
    assert_eq!(s.reply(&["SET", "k", "a", "PX", "5"], 0), vec![b"+OK\r\n".to_vec()]);
    assert_eq!(s.reply(&["SET", "k", "b"], 1), vec![b"+OK\r\n".to_vec()]);
    assert_eq!(s.reply(&["GET", "k"], 5), vec![b"$1\r\nb\r\n".to_vec()]);
    assert_eq!(s.reply(&["GET", "k"], 6), vec![b"$-1\r\n".to_vec()]);
}

#[test]
fn set_px_saturates_deadline() {
    let mut s = Server::new();
    assert_eq!(s.reply(&["SET", "k", "v", "PX", "10"], u128::MAX - 1), vec![b"+OK\r\n".to_vec()]);
    s.store.remove_expired(u128::MAX);
    assert_eq!(s.reply(&["GET", "k"], u128::MAX), vec![b"$1\r\nv\r\n".to_vec()]);
}

#[test]
fn set_px_without_number_is_error() {
    let mut s = Server::new();
    let out = s.run(&["SET", "k", "v", "PX", "soon"], 0);
    assert_eq!(out.responses, vec![b"-ERR value is not an integer or out of range\r\n".to_vec()]);
    assert!(!out.propagate);
    assert_eq!(s.reply(&["SET", "k", "v", "PX"], 0), vec![b"-ERR value is not an integer or out of range\r\n".to_vec()]);
    assert_eq!(s.reply(&["GET", "k"], 0), vec![b"$-1\r\n".to_vec()]);
}

#[test]
fn set_unknown_option_ignored() {
    let mut s = Server::new();
    assert_eq!(s.reply(&["SET", "k", "v", "EX", "1"], 0), vec![b"+OK\r\n".to_vec()]);
    s.store.remove_expired(u128::MAX);
    assert_eq!(s.reply(&["GET", "k"], 0), vec![b"$1\r\nv\r\n".to_vec()]);
}

#[test]
fn info_reply_body() {
    let mut s = Server::new();
    let body = "role:master\n\rmaster_replid:8371b4fb1155b71f4a04d3e1bc3e18c4a990aeeb\n\rmaster_repl_offset:0\n\r";
    let expected = format!("${}\r\n{}\r\n", body.len(), body).into_bytes();
    assert_eq!(s.reply(&["INFO"], 0), vec![expected]);
}

#[test]
fn replconf_records_port() {
    let mut s = Server::new();
    assert_eq!(s.reply(&["REPLCONF", "listening-port", "6380"], 0), vec![b"+OK\r\n".to_vec()]);
    assert_eq!(s.reply(&["REPLCONF", "capa", "psync2"], 0), vec![b"+OK\r\n".to_vec()]);
    assert_eq!(s.replicas.available(), 1);
    assert_eq!(s.replicas.latest(), Some(&"6380".to_string()));
    assert!(!s.promoted);
}

#[test]
fn psync_promotes_and_sends_snapshot() {
    let mut s = Server::new();
    let out = s.run(&["PSYNC", "?", "-1"], 0);
    assert!(s.promoted);
    assert_eq!(out.responses.len(), 2);
    let line = String::from_utf8(out.responses[0].clone()).unwrap();
    assert!(line.starts_with("+FULLRESYNC "));
    assert!(line.ends_with(" 0\r\n"));
    assert_eq!(line.len(), "+FULLRESYNC ".len() + 40 + " 0\r\n".len());
    assert_eq!(out.responses[1], s.replication.get_latest_rdb());
    assert!(!out.propagate);
}

#[test]
fn unknown_command_no_reply() {
    let mut s = Server::new();
    assert_eq!(s.reply(&["FLUSHALL"], 0), Vec::<Vec<u8>>::new());
    assert_eq!(s.reply(&[], 0), Vec::<Vec<u8>>::new());
}

#[test]
fn handshake_sequence() {
    let (st, a) = handshake_step(HandshakeState::Disconnected, HandshakeEvent::Connected, "6380");
    assert_eq!(st, HandshakeState::SendPing);
    assert!(matches!(a, HandshakeAction::Send(ref b) if b == b"*1\r\n$4\r\nPING\r\n"));
    let (st, a) = handshake_step(st, HandshakeEvent::Reply, "6380");
    assert_eq!(st, HandshakeState::SendListeningPort);
    assert!(matches!(a, HandshakeAction::Send(ref b)
        if b == b"*3\r\n$8\r\nREPLCONF\r\n$14\r\nlistening-port\r\n$4\r\n6380\r\n"));
    let (st, a) = handshake_step(st, HandshakeEvent::Reply, "6380");
    assert_eq!(st, HandshakeState::SendCapa);
    assert!(matches!(a, HandshakeAction::Send(ref b)
        if b == b"*3\r\n$8\r\nREPLCONF\r\n$4\r\ncapa\r\n$6\r\npsync2\r\n"));
    let (st, a) = handshake_step(st, HandshakeEvent::Reply, "6380");
    assert_eq!(st, HandshakeState::SendPsync);
    assert!(matches!(a, HandshakeAction::Send(ref b) if b == b"*3\r\n$5\r\nPSYNC\r\n$1\r\n?\r\n$2\r\n-1\r\n"));
    let (st, a) = handshake_step(st, HandshakeEvent::Reply, "6380");
    assert_eq!(st, HandshakeState::Streaming);
    assert!(matches!(a, HandshakeAction::StartStreaming));
    let (st, a) = handshake_step(st, HandshakeEvent::Reply, "6380");
    assert_eq!(st, HandshakeState::Streaming);
    assert!(matches!(a, HandshakeAction::Wait));
}

#[test]
fn handshake_gives_up() {
    let (st, a) = handshake_step(HandshakeState::Disconnected, HandshakeEvent::ConnectFailed, "1");
    assert_eq!(st, HandshakeState::Disconnected);
    assert!(matches!(a, HandshakeAction::Abandon));
    let (st, a) = handshake_step(HandshakeState::SendCapa, HandshakeEvent::Closed, "1");
    assert_eq!(st, HandshakeState::Disconnected);
    assert!(matches!(a, HandshakeAction::Abandon));
}

#[test]
fn replica_applies_sets_in_order() {
    let mut replica = MemoryStore::new();
    let mut chunk = parse_str_to_repl(&strings(&["SET", "a", "1"]));
    chunk.extend(parse_str_to_repl(&strings(&["SET", "b", "2"])));
    chunk.extend(parse_str_to_repl(&strings(&["PING"])));
    chunk.extend(parse_str_to_repl(&strings(&["SET", "a", "3"])));
    assert_eq!(apply_replication(&mut replica, &chunk), 4);
    assert_eq!(replica.get("a"), Some(&"3".to_string()));
    assert_eq!(replica.get("b"), Some(&"2".to_string()));
}

#[test]
fn master_to_replica_scenario() {
    let mut master = Server::new();
    let ping = parse_str_to_repl(&strings(&["PING"]));
    assert_eq!(master.reply(&parser_v3(&ping).unwrap().iter().map(|s| s.as_str()).collect::<Vec<_>>(), 0), vec![b"+PONG\r\n".to_vec()]);
    assert_eq!(master.reply(&["SET", "foo", "bar"], 0), vec![b"+OK\r\n".to_vec()]);
    assert_eq!(master.reply(&["GET", "foo"], 0), vec![b"$3\r\nbar\r\n".to_vec()]);

    // The replica's handshake, answered by the master.
    let mut state = HandshakeState::Disconnected;
    let mut event = HandshakeEvent::Connected;
    loop {
        let (next, action) = handshake_step(state, event, "6380");
        state = next;
        match action {
            HandshakeAction::Send(bytes) => {
                let tokens = parser_v3(&bytes).unwrap();
                let refs: Vec<&str> = tokens.iter().map(|s| s.as_str()).collect();
                assert!(!master.reply(&refs, 0).is_empty());
                event = HandshakeEvent::Reply;
            }
            HandshakeAction::StartStreaming => break,
            _ => panic!("handshake stopped"),
        }
    }
    assert!(master.promoted);

    // A write on the master goes to the replica's stream as it was sent.
    let raw = parse_str_to_repl(&strings(&["SET", "foo", "baz"]));
    let tokens = parser_v3(&raw).unwrap();
    let refs: Vec<&str> = tokens.iter().map(|s| s.as_str()).collect();
    let out = master.run(&refs, 0);
    assert!(out.propagate);
    let mut replica = MemoryStore::new();
    apply_replication(&mut replica, &raw);
    assert_eq!(replica.get("foo"), Some(&"baz".to_string()));
}
