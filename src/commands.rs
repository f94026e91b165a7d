//! The command dispatcher: one decoded command against the store and the
//! replication state, giving the reply frames.
use vstd::prelude::*;
use vstd::string::{StrSliceExecFns, StringSliceAdditionalSpecFns};
use vstd::utf8::encode_utf8;
use crate::codec::{
    bulk_frame, bulk_reply, error_frame, error_reply, null_bulk_frame, null_bulk_reply, push_all,
    crlf, payload_frame, status_frame, status_reply,
};
use crate::parser::token_views;
use crate::memory::{MemoryStore, expired_keys};
use crate::options::{Options, default_options};
use crate::replica::Replicas;
use crate::replication::{Replication, rdb_snapshot};

verus! {

/// A command, as its tokens read.
pub enum Command {
    Ping,
    Echo(Seq<char>),
    Get(Seq<char>),
    /// Key, value, and the time to live in milliseconds if `PX` was given.
    SetKey(Seq<char>, Seq<char>, Option<u128>),
    Info,
    ReplconfListeningPort(Seq<char>),
    ReplconfOther,
    Psync,
    /// An argument that the command needs is not there.
    MissingArgument,
    /// `PX` is not followed by a number of milliseconds.
    BadExpiry,
    Unknown,
}

/// An ASCII decimal digit.
pub open spec fn is_digit_char(c: char) -> bool {
    '0' <= c <= '9'
}

/// The number that a run of decimal digits spells.
pub open spec fn chars_value(s: Seq<char>) -> nat
    decreases s.len(),
{
    if s.len() == 0 {
        0
    } else {
        chars_value(s.drop_last()) * 10 + (s.last() as u32 - 48) as nat
    }
}

/// A number of milliseconds: decimal digits whose value fits in a `u128`.
pub open spec fn parse_ms(s: Seq<char>) -> Option<u128> {
    if s.len() > 0 && (forall|i: int| 0 <= i < s.len() ==> is_digit_char(#[trigger] s[i]))
        && chars_value(s) <= u128::MAX {
        Some(chars_value(s) as u128)
    } else {
        None
    }
}

/// `PX`, in any case.
pub open spec fn is_px(t: Seq<char>) -> bool {
    t.len() == 2 && (t[0] == 'P' || t[0] == 'p') && (t[1] == 'X' || t[1] == 'x')
}

/// What the tokens ask for. The command name is already in upper case.
pub open spec fn parse_command(ts: Seq<Seq<char>>) -> Command {
    if ts.len() == 0 {
        Command::Unknown
    } else if ts[0] == "PING"@ {
        Command::Ping
    } else if ts[0] == "ECHO"@ {
        if ts.len() >= 2 {
            Command::Echo(ts[1])
        } else {
            Command::MissingArgument
        }
    } else if ts[0] == "GET"@ {
        if ts.len() >= 2 {
            Command::Get(ts[1])
        } else {
            Command::MissingArgument
        }
    } else if ts[0] == "SET"@ {
        if ts.len() < 3 {
            Command::MissingArgument
        } else if ts.len() > 3 && is_px(ts[3]) {
            if ts.len() > 4 && parse_ms(ts[4]) is Some {
                Command::SetKey(ts[1], ts[2], parse_ms(ts[4]))
            } else {
                Command::BadExpiry
            }
        } else {
            Command::SetKey(ts[1], ts[2], None)
        }
    } else if ts[0] == "INFO"@ {
        Command::Info
    } else if ts[0] == "REPLCONF"@ {
        if ts.len() < 2 {
            Command::MissingArgument
        } else if ts[1] == "listening-port"@ {
            if ts.len() >= 3 {
                Command::ReplconfListeningPort(ts[2])
            } else {
                Command::MissingArgument
            }
        } else {
            Command::ReplconfOther
        }
    } else if ts[0] == "PSYNC"@ {
        Command::Psync
    } else {
        Command::Unknown
    }
}

/// The setting `key`, or empty text where it is not set.
pub open spec fn setting(opts: Map<Seq<char>, Seq<char>>, key: Seq<char>) -> Seq<char> {
    if opts.contains_key(key) {
        opts[key]
    } else {
        Seq::empty()
    }
}

/// The body of the `INFO` reply.
pub open spec fn info_body(opts: Map<Seq<char>, Seq<char>>) -> Seq<u8> {
    encode_utf8("role:"@) + encode_utf8(setting(opts, "role"@)) + seq![10u8, 13u8] + encode_utf8(
        "master_replid:"@,
    ) + encode_utf8(setting(opts, "master_replid"@)) + seq![10u8, 13u8] + encode_utf8(
        "master_repl_offset:"@,
    ) + encode_utf8(setting(opts, "master_repl_offset"@)) + seq![10u8, 13u8]
}

/// The status line that opens a full resync.
pub open spec fn fullresync_line(opts: Map<Seq<char>, Seq<char>>) -> Seq<u8> {
    status_frame(
        encode_utf8("FULLRESYNC "@) + encode_utf8(setting(opts, "master_replid"@)) + encode_utf8(
            " 0"@,
        ),
    )
}

/// `k` holds a value whose deadline, if any, has not passed at `now`.
pub open spec fn is_live(
    values: Map<Seq<char>, Seq<char>>,
    deadlines: Map<Seq<char>, u128>,
    k: Seq<char>,
    now: u128,
) -> bool {
    values.contains_key(k) && !(deadlines.contains_key(k) && now > deadlines[k])
}

/// The reply frames to `c` at time `now`.
pub open spec fn replies(
    c: Command,
    values: Map<Seq<char>, Seq<char>>,
    deadlines: Map<Seq<char>, u128>,
    opts: Map<Seq<char>, Seq<char>>,
    now: u128,
) -> Seq<Seq<u8>> {
    match c {
        Command::Ping => seq![status_frame(encode_utf8("PONG"@))],
        Command::Echo(a) => seq![status_frame(encode_utf8(a))],
        Command::Get(k) => if is_live(values, deadlines, k, now) {
            seq![bulk_frame(encode_utf8(values[k]))]
        } else {
            seq![null_bulk_frame()]
        },
        Command::SetKey(_, _, _) => seq![status_frame(encode_utf8("OK"@))],
        Command::Info => seq![bulk_frame(info_body(opts))],
        Command::ReplconfListeningPort(_) => seq![status_frame(encode_utf8("OK"@))],
        Command::ReplconfOther => seq![status_frame(encode_utf8("OK"@))],
        Command::Psync => seq![fullresync_line(opts), payload_frame(rdb_snapshot())],
        Command::MissingArgument => seq![
            error_frame(encode_utf8("ERR wrong number of arguments"@)),
        ],
        Command::BadExpiry => seq![
            error_frame(encode_utf8("ERR value is not an integer or out of range"@)),
        ],
        Command::Unknown => Seq::empty(),
    }
}

/// `now + ttl`, or the largest time where that does not fit.
pub open spec fn deadline_after(now: u128, ttl: u128) -> u128 {
    if now + ttl > u128::MAX {
        u128::MAX
    } else {
        (now + ttl) as u128
    }
}

/// The stored values after `c`.
pub open spec fn values_after(c: Command, values: Map<Seq<char>, Seq<char>>) -> Map<
    Seq<char>,
    Seq<char>,
> {
    match c {
        Command::SetKey(k, v, _) => values.insert(k, v),
        _ => values,
    }
}

/// The deadlines after `c` at time `now`.
pub open spec fn deadlines_after(c: Command, d: Map<Seq<char>, u128>, now: u128) -> Map<
    Seq<char>,
    u128,
> {
    match c {
        Command::SetKey(k, _, Some(ttl)) => d.insert(k, deadline_after(now, ttl)),
        _ => d,
    }
}

/// The announced replica ports after `c`.
pub open spec fn ports_after(c: Command, ports: Seq<Seq<char>>) -> Seq<Seq<char>> {
    match c {
        Command::ReplconfListeningPort(p) => ports.push(p),
        _ => ports,
    }
}

/// The replies to one command, and whether its raw bytes go to every replica.
pub struct CommandOutcome {
    pub responses: Vec<Vec<u8>>,
    pub propagate: bool,
}

/// The views of the reply frames.
pub open spec fn frame_views(frames: Seq<Vec<u8>>) -> Seq<Seq<u8>> {
    frames.map_values(|f: Vec<u8>| f@)
}

/// Reads a number of milliseconds.
fn parse_ms_text(s: &str) -> (r: Option<u128>)
    ensures
        r == parse_ms(s@),
{
    let n = s.unicode_len();
    if n == 0 {
        return None;
    }
    let mut v: u128 = 0;
    let mut i: usize = 0;
    while i < n
        invariant
            n == s@.len(),
            i <= n,
            forall|j: int| 0 <= j < i ==> is_digit_char(#[trigger] s@[j]),
            v as nat == chars_value(s@.subrange(0, i as int)),
        decreases n - i,
    {
        let c = s.get_char(i);
        if !('0' <= c && c <= '9') {
            assert(!is_digit_char(s@[i as int]));
            return None;
        }
        let d: u128 = (c as u32 - 48) as u128;
        assert(s@.subrange(0, i + 1).drop_last() =~= s@.subrange(0, i as int));
        if v > (u128::MAX - d) / 10 {
            assert(v * 10 + d > u128::MAX) by (nonlinear_arith)
                requires
                    v > (u128::MAX - d) / 10,
                    d <= 9,
            ;
            proof {
                lemma_chars_prefix(s@, i + 1);
            }
            return None;
        }
        assert(v * 10 + d <= u128::MAX) by (nonlinear_arith)
            requires
                v <= (u128::MAX - d) / 10,
                d <= 9,
        ;
        v = v * 10 + d;
        i += 1;
    }
    assert(s@.subrange(0, n as int) =~= s@);
    Some(v)
}

proof fn lemma_chars_prefix(s: Seq<char>, j: int)
    requires
        0 <= j <= s.len(),
    ensures
        chars_value(s.subrange(0, j)) <= chars_value(s),
    decreases s.len(),
{
    if j < s.len() {
        assert(s.subrange(0, j) =~= s.drop_last().subrange(0, j));
        lemma_chars_prefix(s.drop_last(), j);
    } else {
        assert(s.subrange(0, j) =~= s);
    }
}

/// `PX`, in any case.
fn is_px_text(s: &str) -> (r: bool)
    ensures
        r == is_px(s@),
{
    if s.unicode_len() != 2 {
        return false;
    }
    let a = s.get_char(0);
    let b = s.get_char(1);
    (a == 'P' || a == 'p') && (b == 'X' || b == 'x')
}

/// The text of the setting `key`, or empty text.
fn setting_text(options: &Options, key: &str) -> (r: String)
    requires
        options.wf(),
    ensures
        r@ == setting(options@, key@),
{
    match options.get(key) {
        Some(v) => v.clone(),
        None => String::new(),
    }
}

/// Appends the UTF-8 bytes of `s`.
fn push_text(out: &mut Vec<u8>, s: &str)
    ensures
        final(out)@ == old(out)@ + encode_utf8(s@),
{
    push_all(out, s.as_bytes());
}

fn info_reply(options: &Options) -> (r: Vec<u8>)
    requires
        options.wf(),
    ensures
        r@ == bulk_frame(info_body(options@)),
{
    let role = setting_text(options, "role");
    let id = setting_text(options, "master_replid");
    let offset = setting_text(options, "master_repl_offset");
    let mut body: Vec<u8> = Vec::new();
    push_text(&mut body, "role:");
    push_text(&mut body, role.as_str());
    body.push(10);
    body.push(13);
    push_text(&mut body, "master_replid:");
    push_text(&mut body, id.as_str());
    body.push(10);
    body.push(13);
    push_text(&mut body, "master_repl_offset:");
    push_text(&mut body, offset.as_str());
    body.push(10);
    body.push(13);
    assert(body@ =~= info_body(options@));
    bulk_reply(body.as_slice())
}

fn fullresync_reply(options: &Options) -> (r: Vec<u8>)
    requires
        options.wf(),
    ensures
        r@ == fullresync_line(options@),
{
    let id = setting_text(options, "master_replid");
    let mut line: Vec<u8> = Vec::new();
    push_text(&mut line, "FULLRESYNC ");
    push_text(&mut line, id.as_str());
    push_text(&mut line, " 0");
    assert(line@ =~= encode_utf8("FULLRESYNC "@) + encode_utf8(id@) + encode_utf8(" 0"@));
    status_reply(line.as_slice())
}

fn text_status(s: &str) -> (r: Vec<u8>)
    ensures
        r@ == status_frame(encode_utf8(s@)),
{
    status_reply(s.as_bytes())
}

fn text_error(s: &str) -> (r: Vec<u8>)
    ensures
        r@ == error_frame(encode_utf8(s@)),
{
    error_reply(s.as_bytes())
}

/// `t` reads `lit`.
fn token_is(t: &String, lit: &str) -> (r: bool)
    ensures
        r == (t@ == lit@),
{
    let s: String = lit.to_owned();
    *t == s
}

/// Runs one decoded command (name in upper case) at time `now`.
///
/// `SET` stores the value, arms its deadline if `PX` came with it, and asks
/// for the raw command to be propagated to every replica. `REPLCONF
/// listening-port` records the port. `PSYNC` turns the connection into a
/// replica stream (`replica_status`) and replies with the `FULLRESYNC` line
/// and the snapshot. A missing argument gives an error reply and changes
/// nothing; an unknown command gives no reply.
pub fn process_commands(
    commands: &Vec<String>,
    now: u128,
    store: &mut MemoryStore,
    options: &Options,
    replicas: &mut Replicas,
    replication: &Replication,
    replica_status: &mut bool,
) -> (r: CommandOutcome)
    requires
        old(store).wf(),
        options.wf(),
        old(replicas).wf(),
    ensures
        ({
            let c = parse_command(token_views(commands@));
            &&& frame_views(r.responses@) == replies(
                c,
                old(store).values(),
                old(store).deadlines(),
                options@,
                now,
            )
            &&& final(store).wf()
            &&& final(store).values() == values_after(c, old(store).values())
            &&& final(store).deadlines() == deadlines_after(c, old(store).deadlines(), now)
            &&& final(replicas).wf()
            &&& final(replicas).ports() == ports_after(c, old(replicas).ports())
            &&& final(replicas).synced() == old(replicas).synced()
            &&& *final(replica_status) == (*old(replica_status) || c is Psync)
            &&& r.propagate == c is SetKey
        }),
{
    let ghost c = parse_command(token_views(commands@));
    let n = commands.len();
    let mut responses: Vec<Vec<u8>> = Vec::new();
    let mut propagate = false;
    if n == 0 {
    } else if token_is(&commands[0], "PING") {
        responses.push(text_status("PONG"));
    } else if token_is(&commands[0], "ECHO") {
        if n >= 2 {
            responses.push(status_reply(commands[1].as_str().as_bytes()));
        } else {
            responses.push(text_error("ERR wrong number of arguments"));
        }
    } else if token_is(&commands[0], "GET") {
        if n >= 2 {
            let expired = match store.deadline_of(commands[1].as_str()) {
                Some(t) => now > t,
                None => false,
            };
            match store.get(commands[1].as_str()) {
                Some(v) if !expired => {
                    responses.push(bulk_reply(v.as_str().as_bytes()));
                },
                _ => {
                    responses.push(null_bulk_reply());
                },
            }
        } else {
            responses.push(text_error("ERR wrong number of arguments"));
        }
    } else if token_is(&commands[0], "SET") {
        if n < 3 {
            responses.push(text_error("ERR wrong number of arguments"));
        } else {
            let mut ttl: Option<u128> = None;
            let mut valid = true;
            if n > 3 && is_px_text(commands[3].as_str()) {
                if n > 4 {
                    ttl = parse_ms_text(commands[4].as_str());
                }
                valid = ttl.is_some();
            }
            if valid {
                store.set(commands[1].clone(), commands[2].clone());
                match ttl {
                    Some(ms) => {
                        let deadline = if ms > u128::MAX - now {
                            u128::MAX
                        } else {
                            now + ms
                        };
                        store.expire(commands[1].clone(), deadline);
                    },
                    None => {},
                }
                propagate = true;
                responses.push(text_status("OK"));
            } else {
                responses.push(text_error("ERR value is not an integer or out of range"));
            }
        }
    } else if token_is(&commands[0], "INFO") {
        responses.push(info_reply(options));
    } else if token_is(&commands[0], "REPLCONF") {
        if n < 2 {
            responses.push(text_error("ERR wrong number of arguments"));
        } else if token_is(&commands[1], "listening-port") {
            if n >= 3 {
                replicas.add_replica(commands[2].as_str());
                responses.push(text_status("OK"));
            } else {
                responses.push(text_error("ERR wrong number of arguments"));
            }
        } else {
            responses.push(text_status("OK"));
        }
    } else if token_is(&commands[0], "PSYNC") {
        *replica_status = true;
        responses.push(fullresync_reply(options));
        responses.push(replication.get_latest_rdb());
    }
    assert(frame_views(responses@) =~= replies(
        c,
        old(store).values(),
        old(store).deadlines(),
        options@,
        now,
    ));
    CommandOutcome { responses, propagate }
}

/// `GET` of a key that was never set gives the null bulk reply.
pub proof fn lemma_get_unset(
    values: Map<Seq<char>, Seq<char>>,
    deadlines: Map<Seq<char>, u128>,
    opts: Map<Seq<char>, Seq<char>>,
    k: Seq<char>,
    now: u128,
)
    requires
        !values.contains_key(k),
    ensures
        replies(parse_command(seq!["GET"@, k]), values, deadlines, opts, now) == seq![
            null_bulk_frame(),
        ],
{
    lemma_get_parses(k);
}

proof fn lemma_get_parses(k: Seq<char>)
    ensures
        parse_command(seq!["GET"@, k]) == Command::Get(k),
{
    reveal_strlit("GET");
    reveal_strlit("PING");
    reveal_strlit("ECHO");
    let ts = seq!["GET"@, k];
    assert(ts[0] == "GET"@);
    assert("GET"@.len() == 3);
    assert("PING"@.len() == 4);
    assert("ECHO"@.len() == 4);
    assert(ts[0] != "PING"@);
    assert(ts[0] != "ECHO"@);
}

/// After `SET k v`, `GET k` gives `v` as a bulk reply, unless a deadline that
/// an earlier `SET ... PX` armed for `k` has passed.
pub proof fn lemma_set_then_get(
    values: Map<Seq<char>, Seq<char>>,
    deadlines: Map<Seq<char>, u128>,
    opts: Map<Seq<char>, Seq<char>>,
    k: Seq<char>,
    v: Seq<char>,
    t0: u128,
    t: u128,
)
    requires
        !(deadlines.contains_key(k) && t > deadlines[k]),
    ensures
        ({
            let set = parse_command(seq!["SET"@, k, v]);
            replies(
                parse_command(seq!["GET"@, k]),
                values_after(set, values),
                deadlines_after(set, deadlines, t0),
                opts,
                t,
            ) == seq![bulk_frame(encode_utf8(v))]
        }),
{
    lemma_set_name();
    let ts = seq!["SET"@, k, v];
    assert(ts[0] == "SET"@);
    assert(parse_command(ts) == Command::SetKey(k, v, None));
    lemma_get_parses(k);
}

/// `SET` is none of the names tested before it.
proof fn lemma_set_name()
    ensures
        "SET"@ != "PING"@,
        "SET"@ != "ECHO"@,
        "SET"@ != "GET"@,
{
    reveal_strlit("SET");
    reveal_strlit("GET");
    reveal_strlit("PING");
    reveal_strlit("ECHO");
    assert("SET"@.len() == 3);
    assert("PING"@.len() == 4);
    assert("ECHO"@.len() == 4);
    assert("SET"@[0] == 'S');
    assert("GET"@[0] == 'G');
}

/// After `SET k v PX ttl` at time `t0`, `GET k` at time `t` gives `v` while
/// `t <= t0 + ttl`, and the null bulk reply once `t > t0 + ttl`, whether or not
/// a sweep at `t` ran before it.
pub proof fn lemma_set_px_then_get(
    values: Map<Seq<char>, Seq<char>>,
    deadlines: Map<Seq<char>, u128>,
    opts: Map<Seq<char>, Seq<char>>,
    k: Seq<char>,
    v: Seq<char>,
    ttl_text: Seq<char>,
    ttl: u128,
    t0: u128,
    t: u128,
)
    requires
        parse_ms(ttl_text) == Some(ttl),
    ensures
        ({
            let set = parse_command(seq!["SET"@, k, v, "PX"@, ttl_text]);
            let d1 = deadlines_after(set, deadlines, t0);
            let v1 = values_after(set, values);
            let gone = expired_keys(d1, t);
            let get = parse_command(seq!["GET"@, k]);
            let reply = replies(get, v1, d1, opts, t);
            let swept = replies(get, v1.remove_keys(gone), d1.remove_keys(gone), opts, t);
            &&& t <= t0 + ttl ==> reply == seq![bulk_frame(encode_utf8(v))]
            &&& t > t0 + ttl ==> reply == seq![null_bulk_frame()]
            &&& swept == reply
        }),
{
    reveal_strlit("PX");
    lemma_set_name();
    let toks = seq!["SET"@, k, v, "PX"@, ttl_text];
    assert(toks[0] == "SET"@);
    assert(toks[3] == "PX"@);
    assert("PX"@.len() == 2 && "PX"@[0] == 'P' && "PX"@[1] == 'X');
    assert(is_px(toks[3]));
    assert(toks[4] == ttl_text);
    assert(parse_command(toks) == Command::SetKey(k, v, Some(ttl)));
    lemma_get_parses(k);
}

/// `PSYNC ? -1` is answered first by `+FULLRESYNC <replid> 0`, then by the
/// snapshot; with the default settings the replication id has 40 characters.
pub proof fn lemma_psync_reply(
    values: Map<Seq<char>, Seq<char>>,
    deadlines: Map<Seq<char>, u128>,
    opts: Map<Seq<char>, Seq<char>>,
    now: u128,
)
    requires
        opts.contains_key("master_replid"@),
    ensures
        replies(parse_command(seq!["PSYNC"@, "?"@, "-1"@]), values, deadlines, opts, now)[0]
            == seq![43u8]
            + encode_utf8("FULLRESYNC "@) + encode_utf8(opts["master_replid"@]) + encode_utf8(
            " 0"@,
        ) + crlf(),
        replies(parse_command(seq!["PSYNC"@, "?"@, "-1"@]), values, deadlines, opts, now)[1]
            == payload_frame(
            rdb_snapshot(),
        ),
        default_options()["master_replid"@].len() == 40,
{
    reveal_strlit("PSYNC");
    reveal_strlit("PING");
    reveal_strlit("ECHO");
    reveal_strlit("GET");
    reveal_strlit("SET");
    reveal_strlit("INFO");
    reveal_strlit("REPLCONF");
    reveal_strlit("master_replid");
    reveal_strlit("role");
    reveal_strlit("port");
    reveal_strlit("master_repl_offset");
    reveal_strlit("8371b4fb1155b71f4a04d3e1bc3e18c4a990aeeb");
    let ts = seq!["PSYNC"@, "?"@, "-1"@];
    assert(ts[0] == "PSYNC"@);
    assert("PSYNC"@.len() == 5);
    assert("PING"@.len() == 4);
    assert("ECHO"@.len() == 4);
    assert("GET"@.len() == 3);
    assert("SET"@.len() == 3);
    assert("INFO"@.len() == 4);
    assert("REPLCONF"@.len() == 8);
    assert(parse_command(ts) == Command::Psync);
    assert(default_options()["master_replid"@] == "8371b4fb1155b71f4a04d3e1bc3e18c4a990aeeb"@);
}

} // verus!
