//! Encoding: replies and commands as length-prefixed frames terminated by CR LF.
use vstd::prelude::*;
use vstd::utf8::encode_utf8;

verus! {

/// Carriage return.
pub const CR: u8 = 13;

/// Line feed.
pub const LF: u8 = 10;

/// The line terminator, CR LF.
pub open spec fn crlf() -> Seq<u8> {
    seq![13u8, 10u8]
}

/// The decimal digits of `n`, most significant first, without leading zeros.
pub open spec fn decimal(n: nat) -> Seq<u8>
    decreases n,
{
    if n < 10 {
        seq![(48 + n) as u8]
    } else {
        decimal(n / 10).push((48 + n % 10) as u8)
    }
}

/// `+<text>\r\n`
pub open spec fn status_frame(text: Seq<u8>) -> Seq<u8> {
    seq![43u8] + text + crlf()
}

/// `-<text>\r\n`
pub open spec fn error_frame(text: Seq<u8>) -> Seq<u8> {
    seq![45u8] + text + crlf()
}

/// `$<byte-length>\r\n<bytes>\r\n`
pub open spec fn bulk_frame(payload: Seq<u8>) -> Seq<u8> {
    seq![36u8] + decimal(payload.len()) + crlf() + payload + crlf()
}

/// `$<byte-length>\r\n<bytes>`, a payload that is not followed by a terminator,
/// as a snapshot is sent on a full resync.
pub open spec fn payload_frame(payload: Seq<u8>) -> Seq<u8> {
    seq![36u8] + decimal(payload.len()) + crlf() + payload
}

/// `$-1\r\n`, the reply for an absent value.
pub open spec fn null_bulk_frame() -> Seq<u8> {
    seq![36u8, 45u8, 49u8, 13u8, 10u8]
}

/// The bulk frames of `items`, one after the other.
pub open spec fn bulk_frames(items: Seq<Seq<u8>>) -> Seq<u8>
    decreases items.len(),
{
    if items.len() == 0 {
        Seq::empty()
    } else {
        bulk_frame(items[0]) + bulk_frames(items.drop_first())
    }
}

/// `*<count>\r\n` followed by each item as a bulk frame.
pub open spec fn array_frame(items: Seq<Seq<u8>>) -> Seq<u8> {
    seq![42u8] + decimal(items.len()) + crlf() + bulk_frames(items)
}

/// Appends the decimal digits of `n` to `out`.
pub fn push_decimal(out: &mut Vec<u8>, n: usize)
    ensures
        final(out)@ == old(out)@ + decimal(n as nat),
    decreases n,
{
    if n >= 10 {
        push_decimal(out, n / 10);
    }
    let d: u8 = (n % 10) as u8;
    out.push(48 + d);
    proof {
        assert(old(out)@ + decimal(n as nat) =~= final(out)@) by {
            if n < 10 {
                assert(decimal(n as nat) =~= seq![(48 + n) as u8]);
            }
        }
    }
}

/// Appends every byte of `bytes` to `out`.
pub fn push_all(out: &mut Vec<u8>, bytes: &[u8])
    ensures
        final(out)@ == old(out)@ + bytes@,
{
    let mut i: usize = 0;
    while i < bytes.len()
        invariant
            i <= bytes@.len(),
            out@ == old(out)@ + bytes@.subrange(0, i as int),
        decreases bytes@.len() - i,
    {
        out.push(bytes[i]);
        i += 1;
        assert(out@ =~= old(out)@ + bytes@.subrange(0, i as int));
    }
    assert(bytes@.subrange(0, bytes@.len() as int) =~= bytes@);
}

/// Encodes `text` as a status reply.
pub fn status_reply(text: &[u8]) -> (r: Vec<u8>)
    ensures
        r@ == status_frame(text@),
{
    let mut r: Vec<u8> = Vec::new();
    r.push(43);
    push_all(&mut r, text);
    r.push(CR);
    r.push(LF);
    assert(r@ =~= status_frame(text@));
    r
}

/// Encodes `text` as an error reply.
pub fn error_reply(text: &[u8]) -> (r: Vec<u8>)
    ensures
        r@ == error_frame(text@),
{
    let mut r: Vec<u8> = Vec::new();
    r.push(45);
    push_all(&mut r, text);
    r.push(CR);
    r.push(LF);
    assert(r@ =~= error_frame(text@));
    r
}

/// Appends `payload` to `out` as a bulk frame.
pub fn push_bulk(out: &mut Vec<u8>, payload: &[u8])
    ensures
        final(out)@ == old(out)@ + bulk_frame(payload@),
{
    out.push(36);
    push_decimal(out, payload.len());
    out.push(CR);
    out.push(LF);
    push_all(out, payload);
    out.push(CR);
    out.push(LF);
    assert(final(out)@ =~= old(out)@ + bulk_frame(payload@));
}

/// Encodes `payload` as a bulk reply.
pub fn bulk_reply(payload: &[u8]) -> (r: Vec<u8>)
    ensures
        r@ == bulk_frame(payload@),
{
    let mut r: Vec<u8> = Vec::new();
    push_bulk(&mut r, payload);
    assert(r@ =~= bulk_frame(payload@));
    r
}

/// Encodes `payload` with its length in front and no terminator after it.
pub fn payload_reply(payload: &[u8]) -> (r: Vec<u8>)
    ensures
        r@ == payload_frame(payload@),
{
    let mut r: Vec<u8> = Vec::new();
    r.push(36);
    push_decimal(&mut r, payload.len());
    r.push(CR);
    r.push(LF);
    push_all(&mut r, payload);
    assert(r@ =~= payload_frame(payload@));
    r
}

/// The null bulk reply, `$-1\r\n`.
pub fn null_bulk_reply() -> (r: Vec<u8>)
    ensures
        r@ == null_bulk_frame(),
{
    let r: Vec<u8> = vec![36, 45, 49, CR, LF];
    assert(r@ =~= null_bulk_frame());
    r
}

/// The UTF-8 bytes of each string.
pub open spec fn utf8_items(v: Seq<String>) -> Seq<Seq<u8>> {
    Seq::new(v.len(), |i: int| encode_utf8(v[i]@))
}

proof fn lemma_bulk_frames_push(items: Seq<Seq<u8>>, x: Seq<u8>)
    ensures
        bulk_frames(items.push(x)) == bulk_frames(items) + bulk_frame(x),
    decreases items.len(),
{
    if items.len() == 0 {
        assert(items.push(x).drop_first() =~= Seq::<Seq<u8>>::empty());
        assert(items.push(x)[0] == x);
        assert(bulk_frames(Seq::<Seq<u8>>::empty()) == Seq::<u8>::empty());
        assert(bulk_frames(items.push(x)) =~= bulk_frames(items) + bulk_frame(x));
    } else {
        assert(items.push(x).drop_first() =~= items.drop_first().push(x));
        assert(items.push(x)[0] == items[0]);
        lemma_bulk_frames_push(items.drop_first(), x);
        assert(bulk_frames(items.push(x)) =~= bulk_frames(items) + bulk_frame(x));
    }
}

/// Encodes `data` as an array of bulk strings, the form in which a replica
/// sends its handshake commands.
pub fn parse_str_to_repl(data: &Vec<String>) -> (r: Vec<u8>)
    ensures
        r@ == array_frame(utf8_items(data@)),
{
    let mut r: Vec<u8> = Vec::new();
    r.push(42);
    push_decimal(&mut r, data.len());
    r.push(CR);
    r.push(LF);
    let ghost head = r@;
    let mut i: usize = 0;
    while i < data.len()
        invariant
            i <= data@.len(),
            head == seq![42u8] + decimal(data@.len()) + crlf(),
            r@ == head + bulk_frames(utf8_items(data@).subrange(0, i as int)),
        decreases data@.len() - i,
    {
        let item: &str = data[i].as_str();
        proof {
            let items = utf8_items(data@);
            assert(items.subrange(0, i + 1) =~= items.subrange(0, i as int).push(items[i as int]));
            lemma_bulk_frames_push(items.subrange(0, i as int), items[i as int]);
        }
        push_bulk(&mut r, item.as_bytes());
        i += 1;
    }
    assert(utf8_items(data@).subrange(0, data@.len() as int) =~= utf8_items(data@));
    assert(r@ =~= array_frame(utf8_items(data@)));
    r
}

} // verus!
