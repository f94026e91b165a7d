//! Master side of replication: the snapshot sent on a full resync, and the
//! payloads waiting for each replica.
use vstd::prelude::*;
use vstd::string::StringSliceAdditionalSpecFns;
use crate::codec::{payload_frame, payload_reply};
use crate::table::Table;

verus! {

#[verifier::external_type_specification]
#[verifier::external_body]
pub struct ExFromHexError(hex::FromHexError);

/// A hexadecimal digit, in either case.
pub open spec fn is_hex_digit(c: u8) -> bool {
    (48 <= c <= 57) || (65 <= c <= 70) || (97 <= c <= 102)
}

/// The value of a hexadecimal digit.
pub open spec fn hex_value(c: u8) -> int {
    if 65 <= c <= 70 {
        c - 55
    } else if 97 <= c <= 102 {
        c - 87
    } else {
        c - 48
    }
}

/// An even number of hexadecimal digits.
pub open spec fn hex_valid(s: Seq<u8>) -> bool {
    s.len() % 2 == 0 && forall|i: int| 0 <= i < s.len() ==> is_hex_digit(#[trigger] s[i])
}

/// The bytes that pairs of hexadecimal digits spell, high digit first.
pub open spec fn hex_decoded(s: Seq<u8>) -> Seq<u8> {
    Seq::new(s.len() / 2, |i: int| (hex_value(s[2 * i]) * 16 + hex_value(s[2 * i + 1])) as u8)
}

/// Relies on hex::decode: it accepts exactly an even number of hex digits
/// (either case) and turns each pair into one byte.
#[verifier::external_body]
fn decode_hex(text: &str) -> (r: Result<Vec<u8>, hex::FromHexError>)
    ensures
        match r {
            Ok(b) => hex_valid(text.spec_bytes()) && b@ == hex_decoded(text.spec_bytes()),
            Err(_) => !hex_valid(text.spec_bytes()),
        },
{
    hex::decode(text)
}

/// The snapshot sent on every full resync, an empty RDB file, in hexadecimal.
pub const RDB_HEX: &'static str = "524544495330303131fa0972656469732d76657205372e322e30fa0a72656469732d62697473c040fa056374696d65c26d08bc65fa08757365642d6d656dc2b0c41000fa08616f662d62617365c000fff06e3bfec0ff5aa2";

/// The snapshot's bytes.
pub open spec fn rdb_snapshot() -> Seq<u8> {
    if hex_valid(RDB_HEX.spec_bytes()) {
        hex_decoded(RDB_HEX.spec_bytes())
    } else {
        Seq::empty()
    }
}

/// The payloads waiting for each replica, by the replica's address.
pub struct Replication {
    pending: Table<Vec<u8>>,
}

impl Replication {
    /// The waiting payloads.
    pub closed spec fn pending(&self) -> Map<Seq<char>, Seq<u8>> {
        self.pending@.map_values(|v: Vec<u8>| v@)
    }

    pub closed spec fn wf(&self) -> bool {
        self.pending.wf()
    }

    pub fn new() -> (r: Self)
        ensures
            r.wf(),
            r.pending() == Map::<Seq<char>, Seq<u8>>::empty(),
    {
        let r = Replication { pending: Table::new() };
        assert(r.pending() =~= Map::<Seq<char>, Seq<u8>>::empty());
        r
    }

    /// The snapshot with its length in front, ready to follow the `FULLRESYNC` line.
    pub fn get_latest_rdb(&self) -> (r: Vec<u8>)
        ensures
            r@ == payload_frame(rdb_snapshot()),
    {
        match decode_hex(RDB_HEX) {
            Ok(bytes) => payload_reply(bytes.as_slice()),
            Err(_) => {
                let empty: Vec<u8> = Vec::new();
                assert(empty@ =~= rdb_snapshot());
                payload_reply(empty.as_slice())
            },
        }
    }

    /// Queues the snapshot for the replica at `to`.
    pub fn fullresync(&mut self, to: &str)
        requires
            old(self).wf(),
        ensures
            final(self).wf(),
            final(self).pending() == old(self).pending().insert(to@, payload_frame(rdb_snapshot())),
    {
        let data = self.get_latest_rdb();
        self.add_to_queue(to, data);
    }

    /// Queues `data` for the replica at `to`, in place of what waited for it.
    pub fn add_to_queue(&mut self, to: &str, data: Vec<u8>)
        requires
            old(self).wf(),
        ensures
            final(self).wf(),
            final(self).pending() == old(self).pending().insert(to@, data@),
    {
        let ghost d = data@;
        let k: String = to.to_owned();
        self.pending.insert(k, data);
        assert(self.pending() =~= old(self).pending().insert(to@, d));
    }

    /// The waiting payloads, by address.
    pub fn get(&self) -> (r: &Table<Vec<u8>>)
        requires
            self.wf(),
        ensures
            r.wf(),
            r@.map_values(|v: Vec<u8>| v@) == self.pending(),
    {
        &self.pending
    }

    /// Drops what waits for the replica at `key`.
    pub fn remove(&mut self, key: &str)
        requires
            old(self).wf(),
        ensures
            final(self).wf(),
            final(self).pending() == old(self).pending().remove(key@),
    {
        let k: String = key.to_owned();
        self.pending.remove(&k);
        assert(self.pending() =~= old(self).pending().remove(key@));
    }
}

} // verus!
