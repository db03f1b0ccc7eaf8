//! Framing, correlation and the request/response steps of a call.
//!
//! A frame is a signed 32-bit big-endian length followed by that many bytes.
//! Every outbound request gets a correlation id from a `Tagger`; a waiter is
//! registered under it in the `InFlight` table, and each arriving response is
//! routed to the waiter registered under its id, whatever the arrival order.
use crate::api::{ApiKey, ApiRequest};
use crate::buffer;
use crate::buffer::{contents, mut_contents};
use crate::error::Error;
use crate::header::RequestHeader;
use crate::primitive::{int_bytes, int_encoding, parse_int, read_int, lemma_byte_ranges};
use crate::tagged::{TagBuffer, parse_tag_buffer};
use crate::text::text_model;
use crate::wire::{Parsed, WireRead, WireWrite, Wired};
use bytes::{Bytes, BytesMut};
use std::collections::HashMap;
use vstd::prelude::*;

verus! {

broadcast use vstd::std_specs::hash::group_hash_axioms;

/// A request ready for framing: its header, the mode its body was encoded
/// in, and the encoded body.
pub struct RawRequest {
    pub header: RequestHeader,
    pub flexible: bool,
    pub data: Bytes,
}

/// A response frame: its correlation id and the bytes after it.
pub struct RawResponse {
    pub corr_id: i32,
    pub data: Bytes,
}

/// The header version used with a body in the given mode.
pub open spec fn header_version(flexible: bool) -> nat {
    if flexible {
        2
    } else {
        1
    }
}

/// The largest frame payload.
pub open spec fn max_frame() -> nat {
    0x7fff_ffff
}

impl RawRequest {
    /// The bytes a frame carries for this request: header, then body.
    pub open spec fn payload(&self) -> Seq<u8> {
        RequestHeader::encoding(self.header.model(), header_version(self.flexible), false) + contents(
            self.data,
        )
    }

    /// Whether the request can be framed: its header can be written and the
    /// payload fits a frame.
    pub open spec fn wf(&self) -> bool {
        &&& RequestHeader::writable(self.header.model(), header_version(self.flexible), false)
        &&& self.payload().len() <= max_frame()
    }
}

/// A frame: the payload's length, then the payload.
pub open spec fn frame(payload: Seq<u8>) -> Seq<u8> {
    int_encoding(payload.len() as int, 4) + payload
}

/// Splitting the front of a byte stream into a frame: `Ok(None)` while the
/// frame is incomplete; otherwise the correlation id and the rest of the
/// payload, and the number of bytes the frame takes. A negative declared
/// length breaks the framing at once; a complete frame too short to hold a
/// correlation id breaks it once it has fully arrived.
pub open spec fn parse_frame(buf: Seq<u8>) -> Result<Option<(i32, Seq<u8>, nat)>, Error> {
    if buf.len() < 4 {
        Ok(None)
    } else {
        let len = parse_int(buf, 4)->Ok_0.0;
        if len < 0 {
            Err(Error::TransportFailure)
        } else if buf.len() < 4 + len {
            Ok(None)
        } else if len < 4 {
            Err(Error::TransportFailure)
        } else {
            let corr = parse_int(buf.skip(4), 4)->Ok_0.0;
            Ok(Some((corr as i32, buf.subrange(8, 4 + len), (4 + len) as nat)))
        }
    }
}

/// Turns requests into frames and frames into responses.
pub struct Codec {}

impl Codec {
    pub fn new() -> Codec {
        Codec {  }
    }

    /// Appends the frame of `item` to `dst`: the payload length, the header
    /// (at header version 2 in compact mode, 1 otherwise), then the body.
    /// Fails with `TransportFailure`, leaving `dst` as it was, only when the
    /// frame would not fit in memory.
    pub fn encode(&mut self, item: RawRequest, dst: &mut BytesMut) -> (r: Result<(), Error>)
        requires
            item.wf(),
        ensures
            mut_contents(*old(dst)).len() + 4 + item.payload().len() <= usize::MAX ==> r is Ok
                && mut_contents(*final(dst)) == mut_contents(*old(dst)) + frame(item.payload()),
            mut_contents(*old(dst)).len() + 4 + item.payload().len() > usize::MAX ==> r
                == Err::<(), Error>(Error::TransportFailure) && mut_contents(*final(dst))
                == mut_contents(*old(dst)),
    {
        let hv: usize = if item.flexible {
            2
        } else {
            1
        };
        let mut w = WireWrite::new(hv);
        item.header.to_wire(&mut w);
        let body = buffer::as_slice(&item.data);
        w.put(body);
        let payload = buffer::mut_as_slice(&w.buffer);
        let len = payload.len();
        if buffer::mut_len(dst) > usize::MAX - 4 - len {
            return Err(Error::TransportFailure);
        }
        proof {
            lemma_byte_ranges();
        }
        let prefix = int_bytes(len as i64, 4);
        buffer::mut_append(dst, prefix.as_slice());
        buffer::mut_append(dst, payload);
        proof {
            assert(mut_contents(*old(dst)) + prefix@ + payload@ == mut_contents(*old(dst)) + (prefix@
                + payload@));
        }
        Ok(())
    }

    /// Takes the next complete frame off the front of `src`. While fewer
    /// bytes than the frame declares are buffered it returns `Ok(None)` and
    /// leaves `src` as it was; a frame is never delivered in part.
    pub fn decode(&mut self, src: &mut BytesMut) -> (r: Result<Option<RawResponse>, Error>)
        ensures
            match parse_frame(mut_contents(*old(src))) {
                Ok(None) => r matches Ok(None) && mut_contents(*final(src)) == mut_contents(*old(src)),
                Ok(Some((corr, body, n))) => (r matches Ok(Some(resp)) && resp.corr_id == corr
                    && contents(resp.data) == body) && n <= mut_contents(*old(src)).len()
                    && mut_contents(*final(src)) == mut_contents(*old(src)).skip(n as int),
                Err(e) => r == Err::<Option<RawResponse>, Error>(e),
            },
    {
        let ghost buf = mut_contents(*src);
        let s = buffer::mut_as_slice(src);
        if s.len() < 4 {
            return Ok(None);
        }
        let len = read_int(s, 4);
        proof {
            lemma_byte_ranges();
        }
        if len < 0 {
            return Err(Error::TransportFailure);
        }
        if s.len() - 4 < len as usize {
            return Ok(None);
        }
        if len < 4 {
            return Err(Error::TransportFailure);
        }
        let total = len as usize + 4;
        let frame = buffer::mut_split_to(src, total);
        let frame = buffer::freeze(frame);
        let mut rd = WireRead::new(0, frame);
        let _ = rd.take(4);
        let fs = buffer::as_slice(&rd.buffer);
        proof {
            assert(buf.take(total as int).skip(4).take(4) == buf.skip(4).take(4));
            assert(parse_int(fs@, 4) == parse_int(buf.skip(4), 4));
        }
        let corr = read_int(fs, 4);
        let _ = rd.take(4);
        proof {
            assert(buf.take(total as int).skip(4).skip(4) == buf.subrange(8, total as int));
        }
        Ok(Some(RawResponse { corr_id: corr as i32, data: rd.buffer }))
    }
}

/// The correlation id that follows `counter`; after `i32::MAX` the counter
/// wraps around to `i32::MIN`.
pub open spec fn next_tag(counter: i32) -> i32 {
    if counter == i32::MAX {
        i32::MIN
    } else {
        (counter + 1) as i32
    }
}

/// Assigns each outbound request the next value of a per-connection counter
/// as its correlation id, and reads the id back out of responses.
pub struct Tagger {
    pub counter: i32,
}

impl Tagger {
    /// A fresh counter: the first id it hands out is 1.
    pub fn new() -> (r: Tagger)
        ensures
            r.counter == 0,
    {
        Tagger { counter: 0 }
    }

    /// Advances the counter and stamps the new value on the request.
    pub fn assign_tag(&mut self, r: &mut RawRequest) -> (tag: i32)
        ensures
            tag == next_tag(old(self).counter),
            final(self).counter == tag,
            final(r).header.correlation_id == tag,
            final(r).header.api_key == old(r).header.api_key,
            final(r).header.api_version == old(r).header.api_version,
            final(r).header.client_id == old(r).header.client_id,
            final(r).header.tag_buffer == old(r).header.tag_buffer,
            final(r).flexible == old(r).flexible,
            final(r).data == old(r).data,
    {
        self.counter = if self.counter == i32::MAX {
            i32::MIN
        } else {
            self.counter + 1
        };
        r.header.correlation_id = self.counter;
        self.counter
    }

    /// The correlation id of a response.
    pub fn finish_tag(&self, r: &RawResponse) -> (tag: i32)
        ensures
            tag == r.corr_id,
    {
        r.corr_id
    }
}

/// A typed request and the version negotiated for it.
pub struct CallReq<Req> {
    pub api_ver: usize,
    pub req: Req,
}

impl<Req> CallReq<Req> {
    pub fn new(ver: usize, req: Req) -> (r: CallReq<Req>)
        ensures
            r.api_ver == ver,
            r.req == req,
    {
        CallReq { api_ver: ver, req }
    }
}

/// The calls awaiting a response, each under its correlation id. Every
/// waiter leaves the table exactly once: when its response arrives, or when
/// the connection fails and all are failed together.
pub struct InFlight<W> {
    pub waiting: HashMap<i32, W>,
}

impl<W> InFlight<W> {
    /// The waiters by correlation id.
    pub open spec fn pending(&self) -> Map<i32, W> {
        self.waiting@
    }

    pub fn new() -> (r: InFlight<W>)
        ensures
            r.pending() == Map::<i32, W>::empty(),
    {
        InFlight { waiting: HashMap::new() }
    }

    /// Registers a waiter under `tag`. A tag whose waiter is still pending
    /// cannot be reused: the waiter is handed back and nothing changes.
    pub fn register(&mut self, tag: i32, waiter: W) -> (r: Result<(), W>)
        ensures
            old(self).pending().contains_key(tag) ==> r == Err::<(), W>(waiter) && final(self).pending()
                == old(self).pending(),
            !old(self).pending().contains_key(tag) ==> r is Ok && final(self).pending() == old(
                self,
            ).pending().insert(tag, waiter),
    {
        if self.waiting.contains_key(&tag) {
            Err(waiter)
        } else {
            self.waiting.insert(tag, waiter);
            Ok(())
        }
    }

    /// Takes out the waiter registered under `tag`; a response for a tag
    /// nobody waits on is an `UnexpectedResponse`.
    pub fn resolve(&mut self, tag: i32) -> (r: Result<W, Error>)
        ensures
            old(self).pending().contains_key(tag) ==> r == Ok::<W, Error>(old(self).pending()[tag])
                && final(self).pending() == old(self).pending().remove(tag),
            !old(self).pending().contains_key(tag) ==> r == Err::<W, Error>(Error::UnexpectedResponse)
                && final(self).pending() == old(self).pending(),
    {
        match self.waiting.remove(&tag) {
            Some(w) => Ok(w),
            None => Err(Error::UnexpectedResponse),
        }
    }

    /// Empties the table and hands back every pending waiter, so that all
    /// of them can be failed together.
    pub fn fail_all(&mut self) -> (r: HashMap<i32, W>)
        ensures
            r@ == old(self).pending(),
            final(self).pending() == Map::<i32, W>::empty(),
    {
        let mut taken = HashMap::new();
        std::mem::swap(&mut self.waiting, &mut taken);
        taken
    }

    /// The number of pending calls.
    pub fn len(&self) -> (r: usize)
        ensures
            r == self.pending().len(),
    {
        self.waiting.len()
    }
}

/// Whether a call at `version` uses the compact mode.
pub open spec fn is_flexible<R: ApiRequest>(version: nat) -> bool {
    version >= R::flexible_from()
}

/// The header of a call: correlation id 0 until the tag store assigns one,
/// and an empty tag buffer exactly when the compact mode is in use.
pub open spec fn call_header<R: ApiRequest>(version: nat, client_id: Option<Seq<char>>) -> (
    ApiKey,
    (i16, (i32, (Option<Option<Seq<char>>>, Option<Seq<(nat, Seq<u8>)>>))),
) {
    (
        R::key(),
        (
            version as i16,
            (
                0,
                (
                    Some(client_id),
                    if is_flexible::<R>(version) {
                        Some(Seq::<(nat, Seq<u8>)>::empty())
                    } else {
                        None
                    },
                ),
            ),
        ),
    )
}

/// Encodes the body of a call in the mode its version dictates and puts the
/// request header in front of it. Fails with `TransportFailure` only when
/// the resulting frame would exceed the largest frame size.
pub fn encode_request<R: ApiRequest>(call: &CallReq<R>, client_id: Option<String>) -> (r: Result<RawRequest, Error>)
    requires
        call.api_ver <= 0x7fff,
        R::writable(call.req.model(), call.api_ver as nat, is_flexible::<R>(call.api_ver as nat)),
        <Option<String>>::writable(text_model(client_id), 1, false),
        RequestHeader::encoding(
            call_header::<R>(call.api_ver as nat, text_model(client_id)),
            header_version(is_flexible::<R>(call.api_ver as nat)),
            false,
        ).len() + R::encoding(
            call.req.model(),
            call.api_ver as nat,
            is_flexible::<R>(call.api_ver as nat),
        ).len() <= usize::MAX,
    ensures
        match r {
            Ok(raw) => {
                &&& raw.wf()
                &&& raw.flexible == is_flexible::<R>(call.api_ver as nat)
                &&& raw.header.model() == call_header::<R>(call.api_ver as nat, text_model(client_id))
                &&& contents(raw.data) == R::encoding(call.req.model(), call.api_ver as nat, raw.flexible)
            },
            Err(e) => e == Error::TransportFailure,
        },
        r is Err <==> RequestHeader::encoding(
            call_header::<R>(call.api_ver as nat, text_model(client_id)),
            header_version(is_flexible::<R>(call.api_ver as nat)),
            false,
        ).len() + R::encoding(
            call.req.model(),
            call.api_ver as nat,
            is_flexible::<R>(call.api_ver as nat),
        ).len() > max_frame(),
{
    let flexible = call.api_ver >= R::flexible_version();
    let ghost body_len = R::encoding(call.req.model(), call.api_ver as nat, flexible).len();
    let header = RequestHeader {
        api_key: R::api_key(),
        api_version: call.api_ver as i16,
        correlation_id: 0,
        client_id: Some(client_id),
        tag_buffer: if flexible {
            Some(TagBuffer::new())
        } else {
            None
        },
    };
    let ghost hv = header_version(flexible);
    let ghost header_len = RequestHeader::encoding(header.model(), hv, false).len();
    proof {
        assert(header.model() == call_header::<R>(call.api_ver as nat, text_model(client_id)));
        crate::compose::lemma_items_round_trip::<crate::tagged::TaggedField>(Seq::empty(), hv, false, Seq::empty());
    }
    let mut w = WireWrite::new(call.api_ver);
    crate::compose::put(&call.req, &mut w, flexible);
    let body = buffer::mut_as_slice(&w.buffer);
    let data = buffer::from_slice(body);
    let raw = RawRequest { header, flexible, data };
    let mut hw = WireWrite::new(if flexible { 2 } else { 1 });
    raw.header.to_wire(&mut hw);
    let header_len = buffer::mut_len(&hw.buffer);
    if header_len > 0x7fff_ffff || body.len() > 0x7fff_ffff - header_len {
        return Err(Error::TransportFailure);
    }
    Ok(raw)
}

/// Reading a response body: in compact mode a tagged buffer precedes it.
pub open spec fn parse_response<T: Wired>(data: Seq<u8>, version: nat, flexible: bool) -> Parsed<T::Model> {
    if flexible {
        match parse_tag_buffer(data, version, false) {
            Ok((_, k)) => match T::parse(data.skip(k as int), version, true) {
                Ok((m, j)) => Ok((m, k + j)),
                Err(e) => Err(e),
            },
            Err(e) => Err(e),
        }
    } else {
        T::parse(data, version, false)
    }
}

/// Decodes a response body with the response schema, in the same mode and
/// at the same version as its request.
pub fn decode_response<T: Wired>(data: Bytes, version: usize, flexible: bool) -> (r: Result<T, Error>)
    ensures
        match parse_response::<T>(contents(data), version as nat, flexible) {
            Ok((m, _)) => r matches Ok(v) && v.model() == m,
            Err(e) => r == Err::<T, Error>(e),
        },
{
    let mut rd = WireRead::new(version, data);
    if flexible {
        let _ = TagBuffer::from_wire(&mut rd)?;
        T::from_wire_compact(&mut rd)
    } else {
        T::from_wire(&mut rd)
    }
}

} // verus!
