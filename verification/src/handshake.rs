//! The handshake responder: derive the accept key from the client key and
//! lay out the fixed 101 response around it.  The SHA-1 digest comes from an
//! outside crate and is named, not restated; the base64 step is pinned to
//! the standard alphabet with padding, so the response bytes are exact up to
//! that named digest.

use vstd::prelude::*;

use base64::Engine;

use crate::ErrorKind;
use crate::parser::{KeyQuery, key_extraction, extract_websocket_key, ExtractOutcome};
use crate::scan::{CR, LF};

verus! {

/// The digest that SHA-1 assigns to `data`; 20 bytes, a function of the fed
/// bytes alone.  Stated only through the wrapper below.
pub uninterp spec fn sha1_of(data: Seq<u8>) -> Seq<u8>;

/// Relies on sha1_smol::Sha1: update/digest computes the SHA-1 of all fed
/// bytes, a 20-byte value depending on those bytes alone.
#[verifier::external_body]
fn sha1_digest(data: &Vec<u8>) -> (r: Vec<u8>)
    ensures
        r@ == sha1_of(data@),
        r@.len() == 20,
{
    let mut h = sha1_smol::Sha1::new();
    h.update(data.as_slice());
    h.digest().bytes().to_vec()
}

/// The byte standard base64 writes for one 6-bit value.
pub open spec fn b64_digit(v: int) -> u8 {
    if 0 <= v && v < 26 {
        (65 + v) as u8  // 'A'..'Z'
    } else if 26 <= v && v < 52 {
        (71 + v) as u8  // 'a'..'z'
    } else if 52 <= v && v < 62 {
        (v - 4) as u8  // '0'..'9'
    } else if v == 62 {
        43u8  // '+'
    } else {
        47u8  // '/'
    }
}

/// Standard base64 with `=` padding: four output bytes for every opened
/// group of three input bytes.
pub open spec fn base64_of(s: Seq<u8>) -> Seq<u8>
    decreases s.len(),
{
    if s.len() == 0 {
        Seq::empty()
    } else if s.len() == 1 {
        seq![
            b64_digit(s[0] as int / 4),
            b64_digit((s[0] as int % 4) * 16),
            61u8,  // '='
            61u8,
        ]
    } else if s.len() == 2 {
        seq![
            b64_digit(s[0] as int / 4),
            b64_digit((s[0] as int % 4) * 16 + s[1] as int / 16),
            b64_digit((s[1] as int % 16) * 4),
            61u8,
        ]
    } else {
        seq![
            b64_digit(s[0] as int / 4),
            b64_digit((s[0] as int % 4) * 16 + s[1] as int / 16),
            b64_digit((s[1] as int % 16) * 4 + s[2] as int / 64),
            b64_digit(s[2] as int % 64),
        ] + base64_of(s.skip(3))
    }
}

/// Base64 output length: four bytes per started triple.
pub proof fn lemma_base64_len(s: Seq<u8>)
    ensures
        base64_of(s).len() == 4 * ((s.len() + 2) / 3),
    decreases s.len(),
{
    if s.len() >= 3 {
        lemma_base64_len(s.skip(3));
    }
}

/// Relies on base64::engine::general_purpose::STANDARD (via Engine::encode):
/// standard alphabet, `=` padding, four output bytes per started input
/// triple.
#[verifier::external_body]
fn base64_encode(data: &Vec<u8>) -> (r: Vec<u8>)
    ensures
        r@ == base64_of(data@),
{
    base64::engine::general_purpose::STANDARD.encode(data.as_slice()).into_bytes()
}

/// The fixed GUID the accept key is derived with:
/// `258EAFA5-E914-47DA-95CA-C5AB0DC85B11`, as ASCII bytes.
pub open spec fn ws_guid() -> Seq<u8> {
    seq![
        50u8, 53u8, 56u8, 69u8, 65u8, 70u8, 65u8, 53u8, 45u8, 69u8, 57u8, 49u8,
        52u8, 45u8, 52u8, 55u8, 68u8, 65u8, 45u8, 57u8, 53u8, 67u8, 65u8, 45u8,
        67u8, 53u8, 65u8, 66u8, 48u8, 68u8, 67u8, 56u8, 53u8, 66u8, 49u8, 49u8,
    ]
}

/// The accept key owed for a client key: standard base64 of the SHA-1 of
/// the client key bytes followed at once by the fixed GUID.
pub open spec fn accept_key_of(key: Seq<u8>) -> Seq<u8> {
    base64_of(sha1_of(key + ws_guid()))
}

/// Deriving the accept key is pure: it depends on the client key bytes and
/// on nothing else, so equal keys always yield equal accept keys.
pub proof fn lemma_accept_key_deterministic(k1: Seq<u8>, k2: Seq<u8>)
    requires
        k1 == k2,
    ensures
        accept_key_of(k1) == accept_key_of(k2),
{
}

/// Append all of `src` to `dst`.
fn append_bytes(dst: &mut Vec<u8>, src: &[u8])
    ensures
        final(dst)@ == old(dst)@ + src@,
{
    let mut i: usize = 0;
    while i < src.len()
        invariant
            i <= src@.len(),
            dst@ == old(dst)@ + src@.take(i as int),
        decreases src@.len() - i,
    {
        dst.push(src[i]);
        assert(old(dst)@ + src@.take(i + 1) =~= (old(dst)@ + src@.take(i as int)).push(
            src@[i as int],
        ));
        i = i + 1;
    }
    proof {
        assert(dst@ =~= old(dst)@ + src@);
    }
}

/// The GUID as a vector.
fn guid_vec() -> (v: Vec<u8>)
    ensures
        v@ == ws_guid(),
{
    let mut v: Vec<u8> = Vec::new();
    v.push(50u8);
    v.push(53u8);
    v.push(56u8);
    v.push(69u8);
    v.push(65u8);
    v.push(70u8);
    v.push(65u8);
    v.push(53u8);
    v.push(45u8);
    v.push(69u8);
    v.push(57u8);
    v.push(49u8);
    v.push(52u8);
    v.push(45u8);
    v.push(52u8);
    v.push(55u8);
    v.push(68u8);
    v.push(65u8);
    v.push(45u8);
    v.push(57u8);
    v.push(53u8);
    v.push(67u8);
    v.push(65u8);
    v.push(45u8);
    v.push(67u8);
    v.push(53u8);
    v.push(65u8);
    v.push(66u8);
    v.push(48u8);
    v.push(68u8);
    v.push(67u8);
    v.push(56u8);
    v.push(53u8);
    v.push(66u8);
    v.push(49u8);
    v.push(49u8);
    proof {
        assert(v@ =~= ws_guid());
    }
    v
}

/// Derive the accept key owed for `key`: always exactly 28 bytes, the same
/// bytes for the same key, no matter how the key reached us.
pub fn derive_response_key(key: &[u8]) -> (r: Vec<u8>)
    ensures
        r@ == accept_key_of(key@),
        r@.len() == 28,
{
    let mut data: Vec<u8> = Vec::new();
    append_bytes(&mut data, key);
    let g = guid_vec();
    append_bytes(&mut data, g.as_slice());
    assert(data@ == key@ + ws_guid());
    let digest = sha1_digest(&data);
    let out = base64_encode(&digest);
    proof {
        lemma_base64_len(digest@);
    }
    out
}

/// The response bytes up to where the accept key goes:
/// `HTTP/1.1 101 Switching Protocols` and the `Upgrade`, `Connection` and
/// opened `Sec-WebSocket-Accept` header lines.
pub open spec fn response_prefix() -> Seq<u8> {
    seq![
        72u8, 84u8, 84u8, 80u8, 47u8, 49u8, 46u8, 49u8, 32u8, 49u8, 48u8, 49u8,
        32u8, 83u8, 119u8, 105u8, 116u8, 99u8, 104u8, 105u8, 110u8, 103u8, 32u8, 80u8,
        114u8, 111u8, 116u8, 111u8, 99u8, 111u8, 108u8, 115u8, 13u8, 10u8, 85u8, 112u8,
        103u8, 114u8, 97u8, 100u8, 101u8, 58u8, 32u8, 119u8, 101u8, 98u8, 115u8, 111u8,
        99u8, 107u8, 101u8, 116u8, 13u8, 10u8, 67u8, 111u8, 110u8, 110u8, 101u8, 99u8,
        116u8, 105u8, 111u8, 110u8, 58u8, 32u8, 85u8, 112u8, 103u8, 114u8, 97u8, 100u8,
        101u8, 13u8, 10u8, 83u8, 101u8, 99u8, 45u8, 87u8, 101u8, 98u8, 83u8, 111u8,
        99u8, 107u8, 101u8, 116u8, 45u8, 65u8, 99u8, 99u8, 101u8, 112u8, 116u8, 58u8,
        32u8,
    ]
}

/// The whole 101 response owed for an accept key: the fixed prefix, the key,
/// and the closing blank line.
pub open spec fn handshake_response_of(accept: Seq<u8>) -> Seq<u8> {
    response_prefix() + accept + seq![CR, LF, CR, LF]
}

/// The fixed response prefix as a vector.
fn response_prefix_vec() -> (v: Vec<u8>)
    ensures
        v@ == response_prefix(),
{
    let mut v: Vec<u8> = Vec::new();
    v.push(72u8);
    v.push(84u8);
    v.push(84u8);
    v.push(80u8);
    v.push(47u8);
    v.push(49u8);
    v.push(46u8);
    v.push(49u8);
    v.push(32u8);
    v.push(49u8);
    v.push(48u8);
    v.push(49u8);
    v.push(32u8);
    v.push(83u8);
    v.push(119u8);
    v.push(105u8);
    v.push(116u8);
    v.push(99u8);
    v.push(104u8);
    v.push(105u8);
    v.push(110u8);
    v.push(103u8);
    v.push(32u8);
    v.push(80u8);
    v.push(114u8);
    v.push(111u8);
    v.push(116u8);
    v.push(111u8);
    v.push(99u8);
    v.push(111u8);
    v.push(108u8);
    v.push(115u8);
    v.push(13u8);
    v.push(10u8);
    v.push(85u8);
    v.push(112u8);
    v.push(103u8);
    v.push(114u8);
    v.push(97u8);
    v.push(100u8);
    v.push(101u8);
    v.push(58u8);
    v.push(32u8);
    v.push(119u8);
    v.push(101u8);
    v.push(98u8);
    v.push(115u8);
    v.push(111u8);
    v.push(99u8);
    v.push(107u8);
    v.push(101u8);
    v.push(116u8);
    v.push(13u8);
    v.push(10u8);
    v.push(67u8);
    v.push(111u8);
    v.push(110u8);
    v.push(110u8);
    v.push(101u8);
    v.push(99u8);
    v.push(116u8);
    v.push(105u8);
    v.push(111u8);
    v.push(110u8);
    v.push(58u8);
    v.push(32u8);
    v.push(85u8);
    v.push(112u8);
    v.push(103u8);
    v.push(114u8);
    v.push(97u8);
    v.push(100u8);
    v.push(101u8);
    v.push(13u8);
    v.push(10u8);
    v.push(83u8);
    v.push(101u8);
    v.push(99u8);
    v.push(45u8);
    v.push(87u8);
    v.push(101u8);
    v.push(98u8);
    v.push(83u8);
    v.push(111u8);
    v.push(99u8);
    v.push(107u8);
    v.push(101u8);
    v.push(116u8);
    v.push(45u8);
    v.push(65u8);
    v.push(99u8);
    v.push(99u8);
    v.push(101u8);
    v.push(112u8);
    v.push(116u8);
    v.push(58u8);
    v.push(32u8);
    proof {
        assert(v@ =~= response_prefix());
    }
    v
}

/// Lay out the one response this server ever sends, around `accept_key`.
/// No subprotocol or extension negotiation, no extra headers.
pub fn build_handshake_response(accept_key: &[u8]) -> (r: Vec<u8>)
    ensures
        r@ == handshake_response_of(accept_key@),
{
    let mut v = response_prefix_vec();
    append_bytes(&mut v, accept_key);
    v.push(CR);
    v.push(LF);
    v.push(CR);
    v.push(LF);
    proof {
        assert(v@ =~= handshake_response_of(accept_key@));
    }
    v
}

/// The handshake's answer for one accumulation step.
pub enum UpgradeReply {
    /// A valid prefix with no terminator yet: append new bytes and retry.
    NeedMore,
    /// A permanent error; the connection is closed with no error response.
    Reject(ErrorKind),
    /// The head is complete: send `response`, drop the first `consumed`
    /// buffered bytes, and hand the connection to the pump.
    Respond { consumed: usize, response: Vec<u8> },
}

/// One handshake step over everything buffered so far: past the ceiling the
/// session is rejected outright; under it, a complete head yields exactly
/// the 101 response owed for its key, and a valid prefix asks for more.
pub fn upgrade_reply(buffer: &[u8], ceiling: usize) -> (r: UpgradeReply)
    ensures
        buffer@.len() > ceiling ==> r == UpgradeReply::Reject(ErrorKind::ResourceExceeded),
        buffer@.len() <= ceiling ==> match key_extraction(buffer@) {
            KeyQuery::Incomplete => r == UpgradeReply::NeedMore,
            KeyQuery::Malformed => r == UpgradeReply::Reject(ErrorKind::ProtocolMalformed),
            KeyQuery::MissingKey => r == UpgradeReply::Reject(ErrorKind::ProtocolMalformed),
            KeyQuery::Found { consumed, key } => r matches UpgradeReply::Respond {
                consumed: c,
                response: resp,
            } && c == consumed && resp@ == handshake_response_of(accept_key_of(key)),
        },
{
    match extract_websocket_key(buffer, ceiling) {
        ExtractOutcome::NeedMore => UpgradeReply::NeedMore,
        ExtractOutcome::Reject(k) => UpgradeReply::Reject(k),
        ExtractOutcome::Ready { consumed, key } => {
            let accept = derive_response_key(key.as_slice());
            let response = build_handshake_response(accept.as_slice());
            UpgradeReply::Respond { consumed, response }
        },
    }
}

} // verus!
