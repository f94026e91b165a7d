//! Decoding: command frames out of received bytes.
use vstd::prelude::*;
use vstd::utf8::{decode_utf8, encode_utf8, valid_utf8};
use crate::codec::{CR, LF, array_frame, bulk_frame, bulk_frames, crlf, decimal};

verus! {

/// An ASCII decimal digit.
pub open spec fn is_digit(b: u8) -> bool {
    48 <= b <= 57
}

/// The number that a run of decimal digits spells, most significant first.
pub open spec fn digits_value(s: Seq<u8>) -> nat
    decreases s.len(),
{
    if s.len() == 0 {
        0
    } else {
        digits_value(s.drop_last()) * 10 + (s.last() - 48) as nat
    }
}

/// A header's number: one or more decimal digits whose value fits in a `usize`.
pub open spec fn parse_decimal(s: Seq<u8>) -> Option<nat> {
    if s.len() > 0 && (forall|i: int| 0 <= i < s.len() ==> is_digit(#[trigger] s[i]))
        && digits_value(s) <= usize::MAX {
        Some(digits_value(s))
    } else {
        None
    }
}

/// The first position at or after `from` where CR LF starts.
pub open spec fn find_crlf(b: Seq<u8>, from: int) -> Option<int>
    decreases b.len() - from,
{
    if from < 0 || from + 1 >= b.len() {
        None
    } else if b[from] == CR && b[from + 1] == LF {
        Some(from)
    } else {
        find_crlf(b, from + 1)
    }
}

/// The header line that starts with its marker byte at `c`: the number it
/// announces, and the position just past its terminator.
pub open spec fn header_at(b: Seq<u8>, c: int) -> Option<(nat, int)> {
    match find_crlf(b, c + 1) {
        Some(e) => match parse_decimal(b.subrange(c + 1, e)) {
            Some(n) => Some((n, e + 2)),
            None => None,
        },
        None => None,
    }
}

/// `k` length-prefixed tokens read from position `c`.
pub open spec fn decode_tokens(b: Seq<u8>, c: int, k: nat) -> Option<Seq<Seq<u8>>>
    decreases k,
{
    if k == 0 {
        Some(Seq::empty())
    } else {
        match header_at(b, c) {
            Some((n, p)) => if p + n + 2 <= b.len() && b[p + n] == CR && b[p + n + 1] == LF {
                match decode_tokens(b, p + n + 2, (k - 1) as nat) {
                    Some(rest) => Some(seq![b.subrange(p, p + n)] + rest),
                    None => None,
                }
            } else {
                None
            },
            None => None,
        }
    }
}

/// Where `k` tokens read from position `c` end.
pub open spec fn tokens_end(b: Seq<u8>, c: int, k: nat) -> int
    decreases k,
{
    if k == 0 {
        c
    } else {
        match header_at(b, c) {
            Some((n, p)) => tokens_end(b, p + n + 2, (k - 1) as nat),
            None => c,
        }
    }
}

/// The tokens of the frame at position `c`: a count header, then as many tokens.
pub open spec fn decode_frame_at(b: Seq<u8>, c: int) -> Option<Seq<Seq<u8>>> {
    match header_at(b, c) {
        Some((k, p)) => decode_tokens(b, p, k),
        None => None,
    }
}

/// Where the frame at position `c` ends.
pub open spec fn frame_end_at(b: Seq<u8>, c: int) -> int {
    match header_at(b, c) {
        Some((k, p)) => tokens_end(b, p, k),
        None => c,
    }
}

/// The tokens of the frame at the start of `b`.
pub open spec fn decode_frame(b: Seq<u8>) -> Option<Seq<Seq<u8>>> {
    decode_frame_at(b, 0)
}

/// ASCII upper case of one byte; every other byte is kept.
pub open spec fn upper_byte(x: u8) -> u8 {
    if 97 <= x <= 122 {
        (x - 32) as u8
    } else {
        x
    }
}

pub open spec fn upper_bytes(s: Seq<u8>) -> Seq<u8> {
    Seq::new(s.len(), |i: int| upper_byte(s[i]))
}

/// The first token, the command name, in upper case; the others as they are.
pub open spec fn normalize(ts: Seq<Seq<u8>>) -> Seq<Seq<u8>> {
    if ts.len() == 0 {
        ts
    } else {
        ts.update(0, upper_bytes(ts[0]))
    }
}

/// The byte tokens of the command frame at the start of `b`, command name normalized.
pub open spec fn command_tokens(b: Seq<u8>) -> Option<Seq<Seq<u8>>> {
    match decode_frame(b) {
        Some(ts) => Some(normalize(ts)),
        None => None,
    }
}

/// Every token is well-formed UTF-8.
pub open spec fn all_utf8(ts: Seq<Seq<u8>>) -> bool {
    forall|i: int| 0 <= i < ts.len() ==> valid_utf8(#[trigger] ts[i])
}

/// Why a buffer is not a command frame.
#[derive(Debug, Clone, Copy, PartialEq, Eq, Structural)]
pub enum FrameError {
    /// A terminator is missing, a length header is not an unsigned integer,
    /// or a token reaches past the buffer.
    Malformed,
    /// A token is not UTF-8 text.
    NotUtf8,
}

/// What decoding the buffer `b` gives.
pub open spec fn decode_result(b: Seq<u8>, r: Result<Vec<String>, FrameError>) -> bool {
    match command_tokens(b) {
        None => r == Err::<Vec<String>, FrameError>(FrameError::Malformed),
        Some(ts) => if all_utf8(ts) {
            r matches Ok(v) && v@.len() == ts.len() && forall|i: int|
                0 <= i < ts.len() ==> (#[trigger] v@[i])@ == decode_utf8(ts[i])
        } else {
            r == Err::<Vec<String>, FrameError>(FrameError::NotUtf8)
        },
    }
}

proof fn lemma_digits_prefix(s: Seq<u8>, j: int)
    requires
        0 <= j <= s.len(),
    ensures
        digits_value(s.subrange(0, j)) <= digits_value(s),
    decreases s.len(),
{
    if j < s.len() {
        assert(s.subrange(0, j) =~= s.drop_last().subrange(0, j));
        lemma_digits_prefix(s.drop_last(), j);
    } else {
        assert(s.subrange(0, j) =~= s);
    }
}

proof fn lemma_find_crlf(b: Seq<u8>, from: int)
    ensures
        find_crlf(b, from) matches Some(e) ==> from <= e && e + 1 < b.len() && b[e] == CR && b[e
            + 1] == LF,
    decreases b.len() - from,
{
    if !(from < 0 || from + 1 >= b.len()) && !(b[from] == CR && b[from + 1] == LF) {
        lemma_find_crlf(b, from + 1);
    }
}

/// Reads the decimal number in `b[from..to]`.
fn parse_decimal_range(b: &[u8], from: usize, to: usize) -> (r: Option<usize>)
    requires
        from <= to <= b@.len(),
    ensures
        match r {
            Some(n) => parse_decimal(b@.subrange(from as int, to as int)) == Some(n as nat),
            None => parse_decimal(b@.subrange(from as int, to as int)) is None,
        },
{
    let ghost s = b@.subrange(from as int, to as int);
    if from == to {
        return None;
    }
    let mut v: usize = 0;
    let mut i: usize = from;
    while i < to
        invariant
            from <= i <= to <= b@.len(),
            s == b@.subrange(from as int, to as int),
            forall|j: int| 0 <= j < i - from ==> is_digit(#[trigger] s[j]),
            v as nat == digits_value(s.subrange(0, i - from)),
        decreases to - i,
    {
        let c = b[i];
        if c < 48 || c > 57 {
            assert(!is_digit(s[i - from]));
            return None;
        }
        let d: usize = (c - 48) as usize;
        assert(s.subrange(0, i - from + 1).drop_last() =~= s.subrange(0, i - from));
        if v > (usize::MAX - d) / 10 {
            assert(v * 10 + d > usize::MAX) by (nonlinear_arith)
                requires
                    v > (usize::MAX - d) / 10,
                    d <= 9,
            ;
            proof {
                lemma_digits_prefix(s, i - from + 1);
            }
            return None;
        }
        assert(v * 10 + d <= usize::MAX) by (nonlinear_arith)
            requires
                v <= (usize::MAX - d) / 10,
                d <= 9,
        ;
        v = v * 10 + d;
        i += 1;
    }
    assert(s.subrange(0, s.len() as int) =~= s);
    Some(v)
}

/// The first CR LF at or after `from`.
fn find_terminator(b: &[u8], from: usize) -> (r: Option<usize>)
    ensures
        match r {
            Some(e) => find_crlf(b@, from as int) == Some(e as int),
            None => find_crlf(b@, from as int) is None,
        },
        r matches Some(e) ==> from <= e && e + 1 < b@.len(),
{
    proof {
        lemma_find_crlf(b@, from as int);
    }
    let mut i: usize = from;
    while i < b.len() && i + 1 < b.len()
        invariant
            from <= i,
            find_crlf(b@, from as int) == find_crlf(b@, i as int),
        decreases b@.len() - i,
    {
        if b[i] == CR && b[i + 1] == LF {
            return Some(i);
        }
        i += 1;
    }
    None
}

/// Reads the header line whose marker byte is at `cursor`.
fn get_header(buff: &[u8], cursor: usize) -> (r: Option<(usize, usize)>)
    ensures
        match r {
            Some((n, p)) => header_at(buff@, cursor as int) == Some((n as nat, p as int)),
            None => header_at(buff@, cursor as int) is None,
        },
{
    proof {
        lemma_find_crlf(buff@, cursor + 1);
    }
    let _len = buff.len();
    if cursor >= usize::MAX - 1 {
        return None;
    }
    match find_terminator(buff, cursor + 1) {
        Some(e) => match parse_decimal_range(buff, cursor + 1, e) {
            Some(n) => Some((n, e + 2)),
            None => None,
        },
        None => None,
    }
}

/// A copy of `b[from..to]`.
fn copy_range(b: &[u8], from: usize, to: usize) -> (r: Vec<u8>)
    requires
        from <= to <= b@.len(),
    ensures
        r@ == b@.subrange(from as int, to as int),
{
    let mut r: Vec<u8> = Vec::new();
    let mut i: usize = from;
    while i < to
        invariant
            from <= i <= to <= b@.len(),
            r@ == b@.subrange(from as int, i as int),
        decreases to - i,
    {
        r.push(b[i]);
        i += 1;
        assert(r@ =~= b@.subrange(from as int, i as int));
    }
    r
}

/// The byte tokens of the frame at position `at`, and where it ends.
fn frame_tokens(buff: &[u8], at: usize) -> (r: Option<(Vec<Vec<u8>>, usize)>)
    ensures
        match decode_frame_at(buff@, at as int) {
            Some(ts) => r matches Some((v, end)) && v@.len() == ts.len() && (forall|i: int|
                0 <= i < ts.len() ==> (#[trigger] v@[i])@ == ts[i]) && end == frame_end_at(
                buff@,
                at as int,
            ),
            None => r is None,
        },
{
    let _len = buff.len();
    let (count, start) = match get_header(buff, at) {
        Some(h) => h,
        None => return None,
    };
    let ghost b = buff@;
    let mut toks: Vec<Vec<u8>> = Vec::new();
    let ghost mut acc: Seq<Seq<u8>> = Seq::empty();
    let mut cur: usize = start;
    let mut i: usize = 0;
    while i < count
        invariant
            b == buff@,
            i <= count,
            header_at(b, at as int) == Some((count as nat, start as int)),
            toks@.len() == acc.len(),
            forall|j: int| 0 <= j < acc.len() ==> (#[trigger] toks@[j])@ == acc[j],
            decode_frame_at(b, at as int) == (match decode_tokens(
                b,
                cur as int,
                (count - i) as nat,
            ) {
                Some(rest) => Some(acc + rest),
                None => None::<Seq<Seq<u8>>>,
            }),
            frame_end_at(b, at as int) == tokens_end(b, cur as int, (count - i) as nat),
        decreases count - i,
    {
        let ghost k = (count - i) as nat;
        let (n, p) = match get_header(buff, cur) {
            Some(h) => h,
            None => return None,
        };
        if p > buff.len() || n > buff.len() - p || buff.len() - p - n < 2 {
            return None;
        }
        if buff[p + n] != CR || buff[p + n + 1] != LF {
            return None;
        }
        let tok = copy_range(buff, p, p + n);
        proof {
            let t = b.subrange(p as int, p + n);
            assert(decode_tokens(b, cur as int, k) == (match decode_tokens(
                b,
                p + n + 2,
                (k - 1) as nat,
            ) {
                Some(rest) => Some(seq![t] + rest),
                None => None::<Seq<Seq<u8>>>,
            }));
            match decode_tokens(b, p + n + 2, (k - 1) as nat) {
                Some(rest) => {
                    assert(acc + (seq![t] + rest) =~= acc.push(t) + rest);
                },
                None => {},
            }
            acc = acc.push(t);
        }
        toks.push(tok);
        cur = p + n + 2;
        i += 1;
    }
    proof {
        assert(acc + Seq::<Seq<u8>>::empty() =~= acc);
    }
    Some((toks, cur))
}

/// ASCII upper case of `s`, in place.
fn make_upper(s: &mut Vec<u8>)
    ensures
        final(s)@ == upper_bytes(old(s)@),
{
    let mut i: usize = 0;
    while i < s.len()
        invariant
            i <= s@.len(),
            s@.len() == old(s)@.len(),
            forall|j: int| 0 <= j < i ==> s@[j] == upper_byte(#[trigger] old(s)@[j]),
            forall|j: int| i <= j < s@.len() ==> s@[j] == old(s)@[j],
        decreases s@.len() - i,
    {
        let x = s[i];
        if 97 <= x && x <= 122 {
            s.set(i, x - 32);
        }
        i += 1;
    }
    assert(s@ =~= upper_bytes(old(s)@));
}

/// Relies on String::from_utf8: it succeeds exactly on well-formed UTF-8 and
/// the text it returns is made of the given bytes.
#[verifier::external_body]
fn string_from_utf8(bytes: Vec<u8>) -> (r: Option<String>)
    ensures
        r is Some <==> valid_utf8(bytes@),
        r matches Some(s) ==> encode_utf8(s@) == bytes@,
{
    String::from_utf8(bytes).ok()
}

/// The frame at position `c` as a command: its tokens, command name normalized.
pub open spec fn command_tokens_at(b: Seq<u8>, c: int) -> Option<Seq<Seq<u8>>> {
    match decode_frame_at(b, c) {
        Some(ts) => Some(normalize(ts)),
        None => None,
    }
}

/// What decoding the frame at position `c` of `b` gives.
pub open spec fn decode_at_result(
    b: Seq<u8>,
    c: int,
    r: Result<(Vec<String>, usize), FrameError>,
) -> bool {
    match command_tokens_at(b, c) {
        None => r == Err::<(Vec<String>, usize), FrameError>(FrameError::Malformed),
        Some(ts) => if all_utf8(ts) {
            r matches Ok((v, end)) && end == frame_end_at(b, c) && v@.len() == ts.len()
                && forall|i: int| 0 <= i < ts.len() ==> (#[trigger] v@[i])@ == decode_utf8(ts[i])
        } else {
            r == Err::<(Vec<String>, usize), FrameError>(FrameError::NotUtf8)
        },
    }
}

/// Decodes the command frame at the start of `buff` into its tokens, the
/// first one (the command name) in ASCII upper case.
pub fn decode_command(buff: &[u8]) -> (r: Result<Vec<String>, FrameError>)
    ensures
        decode_result(buff@, r),
{
    match decode_command_at(buff, 0) {
        Ok((v, _)) => Ok(v),
        Err(e) => Err(e),
    }
}

/// Decodes the command frame at position `at` of `buff`, and tells where it ends.
pub fn decode_command_at(buff: &[u8], at: usize) -> (r: Result<(Vec<String>, usize), FrameError>)
    ensures
        decode_at_result(buff@, at as int, r),
{
    let (mut toks, end) = match frame_tokens(buff, at) {
        Some(t) => t,
        None => return Err(FrameError::Malformed),
    };
    let ghost ts = decode_frame_at(buff@, at as int)->Some_0;
    let ghost nts = normalize(ts);
    if toks.len() > 0 {
        let mut first = toks[0].clone();
        make_upper(&mut first);
        toks.set(0, first);
    }
    assert(toks@.len() == nts.len());
    assert forall|j: int| 0 <= j < nts.len() implies (#[trigger] toks@[j])@ == nts[j] by {}
    let mut out: Vec<String> = Vec::new();
    let mut i: usize = 0;
    while i < toks.len()
        invariant
            i <= toks@.len() == nts.len(),
            command_tokens_at(buff@, at as int) == Some(nts),
            end == frame_end_at(buff@, at as int),
            forall|j: int| 0 <= j < nts.len() ==> (#[trigger] toks@[j])@ == nts[j],
            forall|j: int| 0 <= j < i ==> valid_utf8(#[trigger] nts[j]),
            out@.len() == i,
            forall|j: int| 0 <= j < i ==> (#[trigger] out@[j])@ == decode_utf8(nts[j]),
        decreases toks@.len() - i,
    {
        match string_from_utf8(toks[i].clone()) {
            Some(s) => {
                proof {
                    vstd::utf8::encode_utf8_decode_utf8(s@);
                }
                out.push(s);
            },
            None => {
                return Err(FrameError::NotUtf8);
            },
        }
        i += 1;
    }
    Ok((out, end))
}

/// Decodes the command frame at the start of a receive buffer.
pub fn parser(buff: [u8; 255]) -> (r: Result<Vec<String>, FrameError>)
    ensures
        decode_result(buff@, r),
{
    decode_command(buff.as_slice())
}

/// Decodes the command frame at the start of `buff`.
pub fn parser_v3(buff: &Vec<u8>) -> (r: Result<Vec<String>, FrameError>)
    ensures
        decode_result(buff@, r),
{
    decode_command(buff.as_slice())
}

proof fn lemma_decimal(n: nat)
    ensures
        decimal(n).len() > 0,
        forall|i: int| 0 <= i < decimal(n).len() ==> is_digit(#[trigger] decimal(n)[i]),
        digits_value(decimal(n)) == n,
    decreases n,
{
    if n < 10 {
        assert(decimal(n).drop_last() =~= Seq::<u8>::empty());
        assert(digits_value(Seq::<u8>::empty()) == 0);
        assert(decimal(n).last() - 48 == n);
    } else {
        lemma_decimal(n / 10);
        assert(decimal(n).drop_last() =~= decimal(n / 10));
        assert(decimal(n).last() == (48 + n % 10) as u8);
        assert(decimal(n).last() - 48 == n % 10);
        assert(n == (n / 10) * 10 + n % 10) by (nonlinear_arith);
    }
}

proof fn lemma_find_crlf_skip(b: Seq<u8>, from: int, to: int)
    requires
        0 <= from <= to,
        forall|i: int| from <= i < to ==> b[i] != CR,
        to + 1 < b.len(),
    ensures
        find_crlf(b, from) == find_crlf(b, to),
    decreases to - from,
{
    if from < to {
        lemma_find_crlf_skip(b, from + 1, to);
    }
}

proof fn lemma_header_at(pre: Seq<u8>, m: u8, n: nat, post: Seq<u8>)
    requires
        n <= usize::MAX,
    ensures
        header_at(pre + (seq![m] + decimal(n) + crlf()) + post, pre.len() as int) == Some(
            (n, pre.len() + decimal(n).len() + 3int),
        ),
{
    let d = decimal(n);
    let b = pre + (seq![m] + d + crlf()) + post;
    let c = pre.len() as int;
    lemma_decimal(n);
    assert forall|i: int| c + 1 <= i < c + 1 + d.len() implies b[i] != CR by {
        assert(b[i] == d[i - c - 1]);
        assert(is_digit(d[i - c - 1]));
    }
    lemma_find_crlf_skip(b, c + 1, c + 1 + d.len());
    assert(b[c + 1 + d.len()] == CR);
    assert(b[c + 2 + d.len()] == LF);
    assert(b.subrange(c + 1, c + 1 + d.len()) =~= d);
}

proof fn lemma_decode_bulk_frames(pre: Seq<u8>, items: Seq<Seq<u8>>, post: Seq<u8>)
    requires
        forall|i: int| 0 <= i < items.len() ==> (#[trigger] items[i]).len() <= usize::MAX,
    ensures
        decode_tokens(pre + bulk_frames(items) + post, pre.len() as int, items.len()) == Some(
            items,
        ),
        tokens_end(pre + bulk_frames(items) + post, pre.len() as int, items.len()) == pre.len()
            + bulk_frames(items).len(),
    decreases items.len(),
{
    if items.len() == 0 {
        assert(Seq::<Seq<u8>>::empty() =~= items);
    } else {
        let x = items[0];
        let rest = items.drop_first();
        let b = pre + bulk_frames(items) + post;
        let n: int = x.len() as int;
        assert(items[0].len() <= usize::MAX);
        let post1 = x + crlf() + bulk_frames(rest) + post;
        assert(b =~= pre + (seq![36u8] + decimal(n as nat) + crlf()) + post1);
        lemma_header_at(pre, 36u8, n as nat, post1);
        let p: int = pre.len() + decimal(n as nat).len() + 3int;
        let pre2 = pre + bulk_frame(x);
        assert(b =~= pre2 + bulk_frames(rest) + post);
        assert(pre2.len() == p + n + 2);
        assert(b[p + n] == CR);
        assert(b[p + n + 1] == LF);
        assert(b.subrange(p, p + n) =~= x);
        assert forall|i: int| 0 <= i < rest.len() implies (#[trigger] rest[i]).len()
            <= usize::MAX by {
            assert(rest[i] == items[i + 1]);
        }
        lemma_decode_bulk_frames(pre2, rest, post);
        assert(seq![x] + rest =~= items);
    }
}

/// Tokens that an array frame can carry: their number and each length fit a `usize`.
pub open spec fn frame_fits(items: Seq<Seq<u8>>) -> bool {
    items.len() <= usize::MAX && forall|i: int|
        0 <= i < items.len() ==> (#[trigger] items[i]).len() <= usize::MAX
}

proof fn lemma_frame_at(pre: Seq<u8>, items: Seq<Seq<u8>>, post: Seq<u8>)
    requires
        frame_fits(items),
    ensures
        decode_frame_at(pre + array_frame(items) + post, pre.len() as int) == Some(items),
        frame_end_at(pre + array_frame(items) + post, pre.len() as int) == pre.len()
            + array_frame(items).len(),
{
    let b = pre + array_frame(items) + post;
    let head = seq![42u8] + decimal(items.len()) + crlf();
    lemma_header_at(pre, 42u8, items.len(), bulk_frames(items) + post);
    assert(b =~= pre + head + (bulk_frames(items) + post));
    let pre2 = pre + head;
    assert(b =~= pre2 + bulk_frames(items) + post);
    lemma_decode_bulk_frames(pre2, items, post);
}

/// Encoding tokens as an array of bulk strings and decoding the result gives
/// the same tokens back; as a command, only the first token is put in upper case.
pub proof fn lemma_frame_round_trip(items: Seq<Seq<u8>>)
    requires
        frame_fits(items),
    ensures
        decode_frame(array_frame(items)) == Some(items),
        command_tokens(array_frame(items)) == Some(normalize(items)),
{
    let b = array_frame(items);
    lemma_frame_at(Seq::empty(), items, Seq::empty());
    assert(Seq::<u8>::empty() + b + Seq::<u8>::empty() =~= b);
}

/// The views of the strings.
pub open spec fn token_views(v: Seq<String>) -> Seq<Seq<char>> {
    v.map_values(|t: String| t@)
}

/// The text of each token.
pub open spec fn decoded_text(ts: Seq<Seq<u8>>) -> Seq<Seq<char>> {
    Seq::new(ts.len(), |i: int| decode_utf8(ts[i]))
}

/// The commands that follow one another from position `c`, each normalized,
/// up to a zero byte, the end of the buffer, or what is not a frame of text.
pub open spec fn stream_frames(b: Seq<u8>, c: int) -> Seq<Seq<Seq<u8>>>
    decreases b.len() - c,
{
    if c < 0 || c >= b.len() || b[c] == 0 {
        Seq::empty()
    } else {
        match command_tokens_at(b, c) {
            Some(ts) => if all_utf8(ts) && c < frame_end_at(b, c) <= b.len() {
                seq![ts] + stream_frames(b, frame_end_at(b, c))
            } else {
                Seq::empty()
            },
            None => Seq::empty(),
        }
    }
}

/// Decodes the commands that follow one another from the start of `buff`,
/// up to a zero byte, the end, or the first thing that is not a command frame.
pub fn decode_stream(buff: &[u8]) -> (r: Vec<Vec<String>>)
    ensures
        r@.len() == stream_frames(buff@, 0).len(),
        forall|j: int|
            0 <= j < r@.len() ==> token_views((#[trigger] r@[j])@) == decoded_text(
                stream_frames(buff@, 0)[j],
            ),
{
    let ghost b = buff@;
    let mut out: Vec<Vec<String>> = Vec::new();
    let ghost mut acc: Seq<Seq<Seq<u8>>> = Seq::empty();
    let mut c: usize = 0;
    while c < buff.len() && buff[c] != 0
        invariant
            b == buff@,
            stream_frames(b, 0) == acc + stream_frames(b, c as int),
            out@.len() == acc.len(),
            forall|j: int|
                0 <= j < out@.len() ==> token_views((#[trigger] out@[j])@) == decoded_text(acc[j]),
        ensures
            stream_frames(b, c as int) == Seq::<Seq<Seq<u8>>>::empty(),
        decreases b.len() - c,
    {
        match decode_command_at(buff, c) {
            Ok((v, end)) => {
                if end <= c || end > buff.len() {
                    break;
                }
                let ghost ts = command_tokens_at(b, c as int)->Some_0;
                proof {
                    assert(token_views(v@) =~= decoded_text(ts));
                    assert(acc + stream_frames(b, c as int) =~= acc.push(ts) + stream_frames(
                        b,
                        end as int,
                    ));
                    acc = acc.push(ts);
                }
                out.push(v);
                c = end;
            },
            Err(_) => {
                break;
            },
        }
    }
    assert(acc + Seq::<Seq<Seq<u8>>>::empty() =~= acc);
    out
}

/// Decodes the commands in a receive buffer, in the order they came.
pub fn parser_v2(bytes: [u8; 255]) -> (r: Vec<Vec<String>>)
    ensures
        r@.len() == stream_frames(bytes@, 0).len(),
        forall|j: int|
            0 <= j < r@.len() ==> token_views((#[trigger] r@[j])@) == decoded_text(
                stream_frames(bytes@, 0)[j],
            ),
{
    decode_stream(bytes.as_slice())
}

/// The frames of `cmds`, one after the other.
pub open spec fn concat_frames(cmds: Seq<Seq<Seq<u8>>>) -> Seq<u8>
    decreases cmds.len(),
{
    if cmds.len() == 0 {
        Seq::empty()
    } else {
        array_frame(cmds[0]) + concat_frames(cmds.drop_first())
    }
}

proof fn lemma_stream_after(pre: Seq<u8>, cmds: Seq<Seq<Seq<u8>>>)
    requires
        forall|i: int| 0 <= i < cmds.len() ==> frame_fits(#[trigger] cmds[i]),
        forall|i: int| 0 <= i < cmds.len() ==> all_utf8(normalize(#[trigger] cmds[i])),
    ensures
        stream_frames(pre + concat_frames(cmds), pre.len() as int) == Seq::new(
            cmds.len(),
            |i: int| normalize(cmds[i]),
        ),
    decreases cmds.len(),
{
    let b = pre + concat_frames(cmds);
    let c = pre.len() as int;
    if cmds.len() == 0 {
        assert(b =~= pre);
        assert(Seq::new(cmds.len(), |i: int| normalize(cmds[i])) =~= Seq::<Seq<Seq<u8>>>::empty());
    } else {
        let x = cmds[0];
        let rest = cmds.drop_first();
        assert(frame_fits(cmds[0]));
        assert(all_utf8(normalize(cmds[0])));
        lemma_frame_at(pre, x, concat_frames(rest));
        assert(b =~= pre + array_frame(x) + concat_frames(rest));
        assert(b[c] == 42u8);
        let pre2 = pre + array_frame(x);
        assert(b =~= pre2 + concat_frames(rest));
        assert forall|i: int| 0 <= i < rest.len() implies frame_fits(#[trigger] rest[i]) by {
            assert(rest[i] == cmds[i + 1]);
        }
        assert forall|i: int|
            0 <= i < rest.len() implies all_utf8(normalize(#[trigger] rest[i])) by {
            assert(rest[i] == cmds[i + 1]);
        }
        lemma_stream_after(pre2, rest);
        assert(seq![normalize(x)] + Seq::new(rest.len(), |i: int| normalize(rest[i])) =~= Seq::new(
            cmds.len(),
            |i: int| normalize(cmds[i]),
        ));
    }
}

/// Commands sent one after the other, each as an array frame, are decoded
/// from the stream in the same order, each once, each with its command name
/// in upper case.
pub proof fn lemma_stream_in_order(cmds: Seq<Seq<Seq<u8>>>)
    requires
        forall|i: int| 0 <= i < cmds.len() ==> frame_fits(#[trigger] cmds[i]),
        forall|i: int| 0 <= i < cmds.len() ==> all_utf8(normalize(#[trigger] cmds[i])),
    ensures
        stream_frames(concat_frames(cmds), 0) == Seq::new(cmds.len(), |i: int| normalize(cmds[i])),
{
    lemma_stream_after(Seq::empty(), cmds);
    assert(Seq::<u8>::empty() + concat_frames(cmds) =~= concat_frames(cmds));
}

/// The position of the first zero byte, or the length where there is none.
pub open spec fn first_zero(b: Seq<u8>) -> int
    decreases b.len(),
{
    if b.len() == 0 {
        0
    } else if b[0] == 0 {
        0
    } else {
        1 + first_zero(b.drop_first())
    }
}

proof fn lemma_first_zero(b: Seq<u8>, i: int)
    requires
        0 <= i <= b.len(),
        forall|j: int| 0 <= j < i ==> b[j] != 0,
    ensures
        first_zero(b) == i + first_zero(b.subrange(i, b.len() as int)),
    decreases i,
{
    if i > 0 {
        lemma_first_zero(b.drop_first(), i - 1);
        assert(b.drop_first().subrange(i - 1, b.len() - 1) =~= b.subrange(i, b.len() as int));
    } else {
        assert(b.subrange(0, b.len() as int) =~= b);
    }
}

/// How many bytes of a receive buffer came in: the position of its first zero byte.
pub fn find_last_zero(buff: [u8; 255]) -> (r: i32)
    ensures
        r as int == first_zero(buff@),
{
    let mut index: i32 = 0;
    let mut i: usize = 0;
    while i < 255
        invariant
            i <= 255,
            buff@.len() == 255,
            index as int == i,
            forall|j: int| 0 <= j < i ==> buff@[j] != 0,
        decreases 255 - i,
    {
        if buff[i] == 0 {
            proof {
                lemma_first_zero(buff@, i as int);
            }
            return index;
        }
        index += 1;
        i += 1;
    }
    proof {
        lemma_first_zero(buff@, 255);
    }
    index
}

/// The first `size` bytes end with the terminator: a whole command frame came in.
pub open spec fn ends_with_crlf(b: Seq<u8>, size: int) -> bool {
    2 <= size <= b.len() && b[size - 2] == CR && b[size - 1] == LF
}

/// Whether the `size` bytes received into `buff` end with CR LF, and so are
/// taken for a command frame rather than a part of a payload.
pub fn is_command_chunk(buff: &[u8], size: usize) -> (r: bool)
    ensures
        r == ends_with_crlf(buff@, size as int),
{
    size >= 2 && size <= buff.len() && buff[size - 2] == CR && buff[size - 1] == LF
}

} // verus!
