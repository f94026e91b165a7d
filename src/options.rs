//! Server configuration: text settings by name.
use vstd::prelude::*;
use crate::table::Table;

verus! {

/// The settings, by name.
pub struct Options {
    options: Table<String>,
}

/// Why the command line could not be read.
#[derive(Debug, Clone, Copy, PartialEq, Eq, Structural)]
pub enum OptionsError {
    /// `--port` is the last argument.
    MissingPort,
    /// `--replicaof` is not followed by a host and a port.
    MissingReplicaOf,
}

/// The settings after reading the arguments from position `i` on.
pub open spec fn options_after(
    m: Map<Seq<char>, Seq<char>>,
    args: Seq<Seq<char>>,
    i: int,
) -> Result<Map<Seq<char>, Seq<char>>, OptionsError>
    decreases args.len() - i,
{
    if i < 0 || i >= args.len() {
        Ok(m)
    } else if args[i] == "--port"@ {
        if i + 1 < args.len() {
            options_after(m.insert("port"@, args[i + 1]), args, i + 1)
        } else {
            Err(OptionsError::MissingPort)
        }
    } else if args[i] == "--replicaof"@ {
        if i + 2 < args.len() {
            options_after(
                m.insert("role"@, "slave"@).insert("master-host"@, args[i + 1]).insert(
                    "master-port"@,
                    args[i + 2],
                ),
                args,
                i + 1,
            )
        } else {
            Err(OptionsError::MissingReplicaOf)
        }
    } else {
        options_after(m, args, i + 1)
    }
}

/// The settings before the command line is read.
pub open spec fn default_options() -> Map<Seq<char>, Seq<char>> {
    Map::empty().insert("role"@, "master"@).insert("port"@, "6379"@).insert(
        "master_repl_offset"@,
        "0"@,
    ).insert("master_replid"@, "8371b4fb1155b71f4a04d3e1bc3e18c4a990aeeb"@)
}

impl View for Options {
    type V = Map<Seq<char>, Seq<char>>;

    closed spec fn view(&self) -> Map<Seq<char>, Seq<char>> {
        self.options@.map_values(|v: String| v@)
    }
}

impl Options {
    pub closed spec fn wf(&self) -> bool {
        self.options.wf()
    }

    pub fn new() -> (r: Self)
        ensures
            r.wf(),
            r@ == Map::<Seq<char>, Seq<char>>::empty(),
    {
        let r = Options { options: Table::new() };
        assert(r@ =~= Map::<Seq<char>, Seq<char>>::empty());
        r
    }

    /// The setting named `key`.
    pub fn get(&self, key: &str) -> (r: Option<&String>)
        requires
            self.wf(),
        ensures
            match r {
                Some(v) => self@.contains_key(key@) && v@ == self@[key@],
                None => !self@.contains_key(key@),
            },
    {
        let k: String = key.to_owned();
        self.options.get(&k)
    }

    /// Sets `key` to `value`.
    pub fn set(&mut self, key: &str, value: &str)
        requires
            old(self).wf(),
        ensures
            final(self).wf(),
            final(self)@ == old(self)@.insert(key@, value@),
    {
        let k: String = key.to_owned();
        let v: String = value.to_owned();
        self.options.insert(k, v);
        assert(self@ =~= old(self)@.insert(key@, value@));
    }
}

/// Puts the default settings in place: a master on port 6379 with its
/// replication id and offset 0.
pub fn load_basic_options(options: &mut Options)
    requires
        old(options).wf(),
    ensures
        final(options).wf(),
        final(options)@ == old(options)@.union_prefer_right(default_options()),
{
    options.set("role", "master");
    options.set("port", "6379");
    options.set("master_repl_offset", "0");
    options.set("master_replid", "8371b4fb1155b71f4a04d3e1bc3e18c4a990aeeb");
    assert(options@ =~= old(options)@.union_prefer_right(default_options()));
}

/// Reads the command line `args` (the program's name first): `--port <n>`
/// and `--replicaof <host> <port>`. Other arguments are passed over.
pub fn apply_args(options: &mut Options, args: &Vec<String>) -> (r: Result<(), OptionsError>)
    requires
        old(options).wf(),
    ensures
        final(options).wf(),
        match options_after(old(options)@, args@.map_values(|a: String| a@), 0) {
            Ok(m) => r is Ok && final(options)@ == m,
            Err(e) => r == Err::<(), OptionsError>(e),
        },
{
    let ghost sargs = args@.map_values(|a: String| a@);
    let port_flag: String = "--port".to_owned();
    let replica_flag: String = "--replicaof".to_owned();
    let mut i: usize = 0;
    while i < args.len()
        invariant
            options.wf(),
            i <= args@.len(),
            sargs == args@.map_values(|a: String| a@),
            port_flag@ == "--port"@,
            replica_flag@ == "--replicaof"@,
            options_after(old(options)@, sargs, 0) == options_after(options@, sargs, i as int),
        decreases args@.len() - i,
    {
        if args[i] == port_flag {
            if args.len() - i <= 1 {
                return Err(OptionsError::MissingPort);
            }
            options.set("port", args[i + 1].as_str());
        } else if args[i] == replica_flag {
            if args.len() - i <= 2 {
                return Err(OptionsError::MissingReplicaOf);
            }
            options.set("role", "slave");
            options.set("master-host", args[i + 1].as_str());
            options.set("master-port", args[i + 2].as_str());
        }
        i += 1;
    }
    Ok(())
}

} // verus!
