//! The wire-message codec: a message is a block of `Key: Value` header lines
//! closed by a blank line, followed by exactly `Content-Length` bytes of a
//! JSON payload. The payload's optional numeric `id` member correlates a
//! request with its response; a payload without one is a notification.

use vstd::prelude::*;

use crate::bytes::{
    dec_spec, digits_value, is_digit, is_digit_seq, is_ws, parse_trimmed_decimal, push_all,
    render_decimal, trim_spec,
};

verus! {

/// Whether the `json` crate parses these payload bytes (decoded as lossy
/// UTF-8) as a JSON document.
pub uninterp spec fn parses(content: Seq<u8>) -> bool;

/// The numeric `id` member the `json` crate reads from these payload bytes:
/// `Some` exactly when the payload is an object whose `id` member is a
/// number that fits in `u64`.
pub uninterp spec fn id_in(content: Seq<u8>) -> Option<u64>;

/// The payload bytes after the `json` crate re-serializes the parsed
/// payload with its `id` member set to the given value, or with the member
/// removed when `None` is given.
pub uninterp spec fn with_id(content: Seq<u8>, id: Option<u64>) -> Seq<u8>;

/// Relies on `json::parse` (on the lossy UTF-8 decoding of the bytes),
/// `JsonValue`'s `Index<&str>` (the member, or `Null` when absent or when
/// the document is not an object) and `JsonValue::as_u64` (the numeric
/// value, when it fits): returns the payload's numeric `id`, or `None` when
/// the bytes are not JSON at all.
#[verifier::external_body]
fn json_read_id(content: &Vec<u8>) -> (r: Option<Option<u64>>)
    ensures
        r is Some <==> parses(content@),
        parses(content@) ==> r == Some(id_in(content@)),
{
    match json::parse(&String::from_utf8_lossy(content)) {
        Ok(v) => Some(v["id"].as_u64()),
        Err(_) => None,
    }
}

/// Relies on `json::parse`, `JsonValue`'s `IndexMut<&str>` (member
/// assignment on an object), `JsonValue::remove` and `JsonValue::dump`: the
/// result is the re-serialized payload, which is again JSON, and its `id`
/// member is exactly the one assigned. The payload must already carry a
/// numeric `id`, so it is an object and the assignment cannot replace it.
#[verifier::external_body]
fn json_rewrite_id(content: &Vec<u8>, id: Option<u64>) -> (r: Vec<u8>)
    requires
        parses(content@),
        id_in(content@) is Some,
    ensures
        r@ == with_id(content@, id),
        parses(r@),
        id_in(r@) == id,
{
    let mut v = json::parse(&String::from_utf8_lossy(content)).unwrap();
    match id {
        Some(n) => {
            v["id"] = json::JsonValue::Number(n.into());
        },
        None => {
            v.remove("id");
        },
    }
    v.dump().into_bytes()
}

/// Why a wire message could not be read.
#[derive(Debug, PartialEq, Eq, Structural, Clone, Copy)]
pub enum ProtocolError {
    /// No header line names `Content-Length`.
    MissingContentLength,
    /// A `Content-Length` header's value is not a decimal numeral that fits.
    InvalidContentLength,
    /// The payload bytes are not JSON.
    BodyParse,
}

/// The two bytes that close every header line, and alone form the blank
/// line that closes the header block.
pub open spec fn crlf() -> Seq<u8> {
    seq![13u8, 10u8]
}

/// The bytes of `Content-Length:`.
pub open spec fn cl_prefix() -> Seq<u8> {
    seq![
        67u8,
        111u8,
        110u8,
        116u8,
        101u8,
        110u8,
        116u8,
        45u8,
        76u8,
        101u8,
        110u8,
        103u8,
        116u8,
        104u8,
        58u8,
    ]
}

/// A header line that names `Content-Length`.
pub open spec fn is_cl_line(l: Seq<u8>) -> bool {
    l.len() >= 15 && (forall|j: int| 0 <= j < 15 ==> #[trigger] l[j] == cl_prefix()[j])
}

/// The value a `Content-Length` line declares, when its trimmed remainder
/// is a decimal numeral.
pub open spec fn cl_value(l: Seq<u8>) -> Option<nat> {
    let t = trim_spec(l.skip(15));
    if is_digit_seq(t) {
        Some(digits_value(t))
    } else {
        None
    }
}

/// A `Content-Length` line whose value is a numeral that fits in `usize`.
pub open spec fn valid_cl(l: Seq<u8>) -> bool {
    cl_value(l) matches Some(v) && v <= usize::MAX
}

/// The last `Content-Length` line of the block, if any: when the header is
/// duplicated, the last occurrence wins.
pub open spec fn last_cl(hs: Seq<Seq<u8>>) -> Option<Seq<u8>>
    decreases hs.len(),
{
    if hs.len() == 0 {
        None
    } else if is_cl_line(hs.last()) {
        Some(hs.last())
    } else {
        last_cl(hs.drop_last())
    }
}

/// A block with a `Content-Length` line somewhere has a last one.
proof fn lemma_last_cl_some(hs: Seq<Seq<u8>>, i: int)
    requires
        0 <= i < hs.len(),
        is_cl_line(hs[i]),
    ensures
        last_cl(hs) is Some,
    decreases hs.len(),
{
    if !is_cl_line(hs.last()) {
        assert(i < hs.len() - 1);
        assert(hs.drop_last()[i] == hs[i]);
        lemma_last_cl_some(hs.drop_last(), i);
    }
}

/// True exactly when the line names `Content-Length`.
pub fn is_content_length_line(l: &Vec<u8>) -> (r: bool)
    ensures
        r == is_cl_line(l@),
{
    if l.len() < 15 {
        return false;
    }
    let p: [u8; 15] = [67, 111, 110, 116, 101, 110, 116, 45, 76, 101, 110, 103, 116, 104, 58];
    let mut j: usize = 0;
    while j < 15
        invariant
            j <= 15,
            l@.len() >= 15,
            p@ == cl_prefix(),
            forall|i: int| 0 <= i < j ==> #[trigger] l@[i] == cl_prefix()[i],
        decreases 15 - j,
    {
        if l[j] != p[j] {
            return false;
        }
        j = j + 1;
    }
    true
}

/// True exactly when the line is the blank line that ends a header block.
pub fn is_terminator_line(l: &Vec<u8>) -> (r: bool)
    ensures
        r == (l@ == crlf()),
{
    let r = l.len() == 2 && l[0] == 13 && l[1] == 10;
    proof {
        if r {
            assert(l@ =~= crlf());
        }
        if l@ == crlf() {
            assert(l@.len() == 2 && l@[0] == 13 && l@[1] == 10);
        }
    }
    r
}

/// Scans a header block for its `Content-Length`: every line that names the
/// header must carry a decimal numeral that fits, and the last such line
/// gives the payload's exact byte count. Fails when the header is missing
/// or a numeral is malformed, exactly as the contract states.
pub fn content_length(headers: &Vec<Vec<u8>>) -> (r: Result<usize, ProtocolError>)
    ensures
        ({
            let hs = headers.deep_view();
            &&& (r == Err::<usize, ProtocolError>(ProtocolError::MissingContentLength) <==> last_cl(
                hs,
            ) is None)
            &&& (r == Err::<usize, ProtocolError>(ProtocolError::InvalidContentLength) <==> exists|
                i: int,
            |
                0 <= i < hs.len() && is_cl_line(#[trigger] hs[i]) && !valid_cl(hs[i]))
            &&& (r matches Ok(n) ==> last_cl(hs) matches Some(l) && cl_value(l) == Some(
                n as nat,
            ))
            &&& (r is Err ==> r == Err::<usize, ProtocolError>(ProtocolError::MissingContentLength)
                || r == Err::<usize, ProtocolError>(ProtocolError::InvalidContentLength))
        }),
{
    let ghost hs = headers.deep_view();
    let mut found: Option<usize> = None;
    let mut i: usize = 0;
    while i < headers.len()
        invariant
            i <= hs.len(),
            hs == headers.deep_view(),
            hs.len() == headers@.len(),
            forall|j: int| 0 <= j < i && is_cl_line(#[trigger] hs[j]) ==> valid_cl(hs[j]),
            found is None <==> last_cl(hs.take(i as int)) is None,
            found matches Some(n) ==> last_cl(hs.take(i as int)) matches Some(l) && cl_value(l)
                == Some(n as nat),
        decreases hs.len() - i,
    {
        proof {
            assert(hs[i as int] == headers@[i as int]@);
            assert(hs.take(i as int + 1).drop_last() =~= hs.take(i as int));
            assert(hs.take(i as int + 1).last() == hs[i as int]);
        }
        let line = &headers[i];
        if is_content_length_line(line) {
            match parse_trimmed_decimal(line, 15) {
                Some(n) => {
                    found = Some(n);
                },
                None => {
                    proof {
                        assert(is_cl_line(hs[i as int]) && !valid_cl(hs[i as int]));
                        lemma_last_cl_some(hs, i as int);
                    }
                    return Err(ProtocolError::InvalidContentLength);
                },
            }
        }
        i = i + 1;
    }
    proof {
        assert(hs.take(hs.len() as int) =~= hs);
    }
    match found {
        Some(n) => Ok(n),
        None => Err(ProtocolError::MissingContentLength),
    }
}

/// One wire message: its header lines as read (each closed by the CRLF
/// terminator), the payload bytes, and the payload's numeric `id`, already
/// extracted so that the routing logic works on a plain value.
#[derive(Clone)]
pub struct Message {
    /// The header lines, verbatim and in original order.
    pub headers: Vec<Vec<u8>>,
    /// The payload bytes, exactly as they go on the wire.
    pub content: Vec<u8>,
    /// The payload's numeric `id`; `None` marks a notification.
    pub id: Option<u64>,
}

/// The header lines that are re-emitted verbatim: everything except
/// `Content-Length` (recomputed from the payload when writing) and the
/// blank terminator line.
pub open spec fn kept_headers(hs: Seq<Seq<u8>>) -> Seq<Seq<u8>>
    decreases hs.len(),
{
    if hs.len() == 0 {
        Seq::empty()
    } else {
        kept_headers(hs.drop_last()) + (if is_cl_line(hs.last()) || hs.last() == crlf() {
            Seq::<Seq<u8>>::empty()
        } else {
            seq![hs.last()]
        })
    }
}

/// The concatenation of a sequence of byte sequences.
pub open spec fn flat(hs: Seq<Seq<u8>>) -> Seq<u8>
    decreases hs.len(),
{
    if hs.len() == 0 {
        Seq::empty()
    } else {
        flat(hs.drop_last()) + hs.last()
    }
}

/// The exact bytes a message puts on the wire: its other header lines
/// verbatim and in order, then a `Content-Length` recomputed from the
/// payload as it now is, the blank line, and the payload.
pub open spec fn encoded(m: Message) -> Seq<u8> {
    flat(kept_headers(m.headers.deep_view())) + cl_prefix() + seq![32u8] + dec_spec(
        m.content@.len() as nat,
    ) + crlf() + crlf() + m.content@
}

/// The `Content-Length` line the codec writes — the one `encoded` embeds —
/// declares exactly the payload byte count it was computed from: the header
/// scan reads back the very number `encode` wrote, so a rewritten payload
/// can never travel under a stale length.
pub proof fn lemma_written_length_is_exact(n: nat)
    ensures
        is_cl_line(cl_prefix() + seq![32u8] + dec_spec(n) + crlf()),
        cl_value(cl_prefix() + seq![32u8] + dec_spec(n) + crlf()) == Some(n),
{
    let l = cl_prefix() + seq![32u8] + dec_spec(n) + crlf();
    assert(forall|j: int| 0 <= j < 15 ==> #[trigger] l[j] == cl_prefix()[j]);
    crate::bytes::lemma_dec_spec_value(n);
    let d = dec_spec(n);
    let rest = l.skip(15);
    assert(rest =~= seq![32u8] + d + crlf());
    // Trimming strips the leading space, then the closing CRLF, and stops
    // at the digits on both sides.
    assert(rest.drop_first() =~= d + crlf());
    assert(trim_spec(rest) == trim_spec(d + crlf()));
    assert(is_digit((d + crlf()).first()));
    assert((d + crlf()).last() == 10);
    assert((d + crlf()).drop_last() =~= d + seq![13u8]);
    assert(trim_spec(d + crlf()) == trim_spec(d + seq![13u8]));
    assert(is_digit((d + seq![13u8]).first()));
    assert((d + seq![13u8]).last() == 13);
    assert((d + seq![13u8]).drop_last() =~= d);
    assert(trim_spec(d + seq![13u8]) == trim_spec(d));
    assert(!is_ws(d.first()) && !is_ws(d.last()));
    assert(trim_spec(d) == d);
    assert(trim_spec(rest) == d);
}

impl Message {
    /// A message is well formed when its payload is JSON and `id` is
    /// exactly the payload's numeric `id` member.
    pub open spec fn wf(&self) -> bool {
        &&& parses(self.content@)
        &&& self.id == id_in(self.content@)
    }

    /// The message's correlation id; `None` for a notification.
    pub fn get_id(&self) -> (r: Option<u64>)
        ensures
            r == self.id,
    {
        self.id
    }

    /// Rewrites the payload's `id` member (or strips it, given `None`),
    /// leaving the headers untouched.
    pub fn patch_id(&mut self, id: Option<u64>)
        requires
            old(self).wf(),
            old(self).id is Some,
        ensures
            final(self).wf(),
            final(self).id == id,
            final(self).content@ == with_id(old(self).content@, id),
            final(self).headers == old(self).headers,
    {
        self.content = json_rewrite_id(&self.content, id);
        self.id = id;
    }

    /// Builds a message from a header block and the payload bytes that
    /// followed it, extracting the payload's `id`; fails exactly when the
    /// payload is not JSON.
    pub fn from_parts(headers: Vec<Vec<u8>>, content: Vec<u8>) -> (r: Result<Message, ProtocolError>)
        ensures
            r is Ok <==> parses(content@),
            r matches Ok(m) ==> m.wf() && m.headers == headers && m.content == content && m.id
                == id_in(content@),
            r is Err ==> r == Err::<Message, ProtocolError>(ProtocolError::BodyParse),
    {
        match json_read_id(&content) {
            Some(id) => Ok(Message { headers, content, id }),
            None => Err(ProtocolError::BodyParse),
        }
    }

    /// Serializes the message for the wire, recomputing `Content-Length`
    /// from the payload as it now is, so that an id rewrite that changed
    /// the payload's length can never leave a stale count behind.
    pub fn encode(&self) -> (r: Vec<u8>)
        ensures
            r@ == encoded(*self),
    {
        let ghost hs = self.headers.deep_view();
        let mut out: Vec<u8> = Vec::new();
        let mut i: usize = 0;
        while i < self.headers.len()
            invariant
                i <= hs.len(),
                hs == self.headers.deep_view(),
                hs.len() == self.headers@.len(),
                out@ == flat(kept_headers(hs.take(i as int))),
            decreases hs.len() - i,
        {
            proof {
                assert(hs[i as int] == self.headers@[i as int]@);
                assert(hs.take(i as int + 1).drop_last() =~= hs.take(i as int));
                assert(hs.take(i as int + 1).last() == hs[i as int]);
            }
            let line = &self.headers[i];
            if !is_content_length_line(line) && !is_terminator_line(line) {
                push_all(&mut out, line);
                proof {
                    let k0 = kept_headers(hs.take(i as int));
                    let k1 = kept_headers(hs.take(i as int + 1));
                    assert(k1 =~= k0.push(hs[i as int]));
                    assert(k1.drop_last() =~= k0);
                    assert(flat(k1) == flat(k0) + hs[i as int]);
                }
            } else {
                proof {
                    assert(kept_headers(hs.take(i as int + 1)) =~= kept_headers(hs.take(i as int)));
                }
            }
            i = i + 1;
        }
        proof {
            assert(hs.take(hs.len() as int) =~= hs);
        }
        let prefix: [u8; 15] = [67, 111, 110, 116, 101, 110, 116, 45, 76, 101, 110, 103, 116, 104, 58];
        let mut j: usize = 0;
        while j < 15
            invariant
                j <= 15,
                prefix@ == cl_prefix(),
                out@ == flat(kept_headers(hs)) + cl_prefix().take(j as int),
                hs == self.headers.deep_view(),
        decreases 15 - j,
        {
            out.push(prefix[j]);
            proof {
                assert(flat(kept_headers(hs)) + cl_prefix().take(j as int + 1) =~= (flat(
                    kept_headers(hs),
                ) + cl_prefix().take(j as int)).push(cl_prefix()[j as int]));
            }
            j = j + 1;
        }
        proof {
            assert(cl_prefix().take(15) =~= cl_prefix());
        }
        out.push(32);
        let digits = render_decimal(self.content.len());
        push_all(&mut out, &digits);
        out.push(13);
        out.push(10);
        out.push(13);
        out.push(10);
        push_all(&mut out, &self.content);
        proof {
            assert(out@ =~= encoded(*self));
        }
        out
    }
}

} // verus!
