//! What the listeners do with bytes: limits, truncation, and framing.
use vstd::prelude::*;
use vstd::slice::*;

use crate::dns::message;
use crate::dns::message::dns_head;
use crate::dns::types;
use crate::dns::types::{be16, question_section_end};

verus! {

/// The largest datagram that is received or sent.
pub const MAX_UDP_PAYLOAD: usize = 4096;

/// The largest datagram for clients that say nothing about it.
pub const DEFAULT_UDP_PAYLOAD: usize = 512;

/// How large a datagram a client accepts.
pub open spec fn accepted_payload(query: Seq<u8>) -> int {
    match dns_head(query) {
        Some(h) => if h.max_payload < MAX_UDP_PAYLOAD {
            h.max_payload as int
        } else {
            MAX_UDP_PAYLOAD as int
        },
        None => DEFAULT_UDP_PAYLOAD as int,
    }
}

/// How large a datagram a client accepts: what its query says, within limits.
pub fn client_udp_payload(query: &[u8]) -> (r: usize)
    ensures
        r == accepted_payload(query@),
        DEFAULT_UDP_PAYLOAD <= r <= MAX_UDP_PAYLOAD,
{
    match message::decode_head(query) {
        Some(h) => {
            let size: usize = h.max_payload as usize;
            if size < MAX_UDP_PAYLOAD {
                size
            } else {
                MAX_UDP_PAYLOAD
            }
        },
        None => DEFAULT_UDP_PAYLOAD,
    }
}

/// The header of a truncated message: with the mark of truncation, and with no
/// records.
pub open spec fn truncated_head(resp: Seq<u8>) -> Seq<u8> {
    seq![resp[0], resp[1], resp[2] | 2, resp[3], resp[4], resp[5], 0, 0, 0, 0, 0, 0]
}

/// A message cut down to its header and its questions, or to a header without
/// questions where these are not complete.
pub open spec fn truncated(resp: Seq<u8>) -> Seq<u8> {
    if resp.len() < 12 {
        resp
    } else {
        match question_section_end(resp) {
            Some(end) => truncated_head(resp) + resp.subrange(12, end),
            None => truncated_head(resp).update(4, 0).update(5, 0),
        }
    }
}

/// Cuts a response down to its header and its questions, and marks it as truncated,
/// so that the client asks again over TCP.
pub fn truncate_response(resp: &[u8]) -> (r: Vec<u8>)
    ensures
        r@ == truncated(resp@),
        resp@.len() >= 12 ==> r@.len() >= 12 && r@[2] & 2 == 2 && be16(r@, 0) == be16(resp@, 0),
{
    if resp.len() < 12 {
        return slice_to_vec(resp);
    }
    let flags: u8 = resp[2];
    assert((flags | 2) & 2 == 2) by (bit_vector);
    let mut out: Vec<u8> = slice_to_vec(slice_subrange(resp, 0, 12));
    out.set(2, flags | 2);
    out.set(6, 0);
    out.set(7, 0);
    out.set(8, 0);
    out.set(9, 0);
    out.set(10, 0);
    out.set(11, 0);
    assert(out@ =~= truncated_head(resp@));
    match types::section_end(resp) {
        Some(end) => {
            let questions = slice_subrange(resp, 12, end);
            let mut i: usize = 0;
            while i < questions.len()
                invariant
                    i <= questions@.len(),
                    out@ == truncated_head(resp@) + questions@.take(i as int),
                decreases questions@.len() - i,
            {
                out.push(questions[i]);
                i = i + 1;
                assert(out@ =~= truncated_head(resp@) + questions@.take(i as int));
            }
            assert(questions@.take(questions@.len() as int) =~= questions@);
        },
        None => {
            out.set(4, 0);
            out.set(5, 0);
        },
    }
    out
}

/// The datagram for a response: the response itself where the client accepts its
/// size, else a truncated one.
pub fn datagram(response: Vec<u8>, max_udp: usize) -> (r: Vec<u8>)
    ensures
        r@ == (if response@.len() > max_udp {
            truncated(response@)
        } else {
            response@
        }),
{
    if response.len() > max_udp {
        truncate_response(response.as_slice())
    } else {
        response
    }
}

/// The failure that is sent while too many queries are being handled. It needs only
/// the id of the query, and repeats its wish for recursion.
pub open spec fn overload_failure(raw: Seq<u8>) -> Option<Seq<u8>> {
    if raw.len() < 2 {
        None
    } else {
        let flags: u8 = if raw.len() >= 3 && raw[2] % 2 == 1 {
            129
        } else {
            128
        };
        Some(seq![raw[0], raw[1], flags, 2, 0, 0, 0, 0, 0, 0, 0, 0])
    }
}

/// The failure to send while too many queries are being handled; none for bytes
/// without an id.
pub fn overload_reply(raw: &[u8]) -> (r: Option<Vec<u8>>)
    ensures
        message::bytes_view(r) == overload_failure(raw@),
{
    if raw.len() < 2 {
        return None;
    }
    let flags: u8 = if raw.len() >= 3 && raw[2] % 2 == 1 {
        129
    } else {
        128
    };
    let out: Vec<u8> = vec![raw[0], raw[1], flags, 2, 0, 0, 0, 0, 0, 0, 0, 0];
    assert(out@ =~= overload_failure(raw@)->0);
    Some(out)
}

/// The length of the message that a length prefix announces. An empty message is
/// invalid.
pub fn framed_len(hi: u8, lo: u8) -> (r: Option<usize>)
    ensures
        r == (if hi == 0 && lo == 0 {
            None::<usize>
        } else {
            Some((hi * 256 + lo) as usize)
        }),
{
    let len: usize = (hi as usize) * 256 + lo as usize;
    if len == 0 {
        None
    } else {
        Some(len)
    }
}

/// The two bytes that stand before a message in a stream: its length, as far as
/// two bytes can hold it.
pub open spec fn length_prefix(len: nat) -> Seq<u8> {
    seq![(len / 256 % 256) as u8, (len % 256) as u8]
}

/// A response as it is sent in a stream: after its length.
pub fn frame(response: &[u8]) -> (r: Vec<u8>)
    ensures
        r@ == length_prefix(response@.len()) + response@,
{
    let len: usize = response.len();
    let mut out: Vec<u8> = Vec::new();
    out.push((len / 256 % 256) as u8);
    out.push((len % 256) as u8);
    let mut i: usize = 0;
    assert(out@ =~= length_prefix(response@.len()) + response@.take(0));
    while i < response.len()
        invariant
            i <= response@.len(),
            out@ == length_prefix(response@.len()) + response@.take(i as int),
        decreases response@.len() - i,
    {
        out.push(response[i]);
        i = i + 1;
        assert(out@ =~= length_prefix(response@.len()) + response@.take(i as int));
    }
    assert(response@.take(response@.len() as int) =~= response@);
    out
}

/// A message of a stream is announced by its own length.
pub proof fn frames_announce_their_length(response: Seq<u8>)
    requires
        0 < response.len() <= 65535,
    ensures
        ({
            let p = length_prefix(response.len());
            !(p[0] == 0 && p[1] == 0) && p[0] * 256 + p[1] == response.len()
        }),
{
}

}
