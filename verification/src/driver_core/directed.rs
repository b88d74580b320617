//! Authenticating directed frames: the trailer put behind them, and taken off.

use vstd::prelude::*;

use crate::batman::wire::BATADV_CERT_REPLY;
use crate::batman::wire::BATADV_CERT_REQ;
use crate::batman::wire::ETH_P_BATMAN;
use crate::codec::overlay;
use crate::codec::write_at;
use crate::frame::LinkFrame;
use crate::frame::Mac;

verus! {

/// Length of the authentication trailer behind a directed frame.
pub const DIRECTED_TRAILER_LEN: usize = 24;

/// The authentication layer's part in directed frames.
pub trait OgmAuthOps {
    /// Whether, as the layer stands, `trailer` authenticates `inner` as sent by
    /// `src`.
    spec fn authentic(&self, src: Mac, inner: Seq<u8>, trailer: Seq<u8>) -> bool;

    /// The trailer that, as the layer stands, authenticates `frame` to `dst`,
    /// where there is one.
    spec fn trailer_for(&self, dst: Mac, frame: Seq<u8>) -> Option<Seq<u8>>;

    /// Whether `trailer` authenticates `inner` as sent by `src`.
    fn verify_directed(&mut self, src: Mac, inner: &[u8], trailer: &[u8]) -> (ok: bool)
        ensures
            ok == old(self).authentic(src, inner@, trailer@),
    ;

    /// The trailer that authenticates `frame` to `dst`, where there is a verified
    /// key for it.
    fn tag_directed(&mut self, dst: Mac, frame: &[u8]) -> (t: Option<[u8; 24]>)
        ensures
            match t {
                Some(trailer) => old(self).trailer_for(dst, frame@) == Some(trailer@),
                None => old(self).trailer_for(dst, frame@) is None,
            },
    ;
}

/// Whether a payload is a certificate control packet, which carries its own
/// signature.
pub open spec fn cert_control(payload: Seq<u8>) -> bool {
    payload.len() > 0 && (payload[0] == BATADV_CERT_REQ || payload[0] == BATADV_CERT_REPLY)
}

/// Whether a payload is a certificate control packet.
pub fn is_cert_control(payload: &[u8]) -> (b: bool)
    ensures
        b == cert_control(payload@),
{
    payload.len() > 0 && (payload[0] == BATADV_CERT_REQ || payload[0] == BATADV_CERT_REPLY)
}

/// Whether a frame carries a trailer where authentication is on: broadcasts and
/// OGMs are signed instead, and so are certificate control packets.
pub open spec fn carries_trailer(dst: Mac, protocol: u16, payload: Seq<u8>) -> bool {
    protocol == ETH_P_BATMAN && !dst.group_bit() && !cert_control(payload)
}

/// Whether a frame carries a trailer where authentication is on.
pub fn needs_tag(dst: Mac, protocol: u16, payload: &[u8]) -> (b: bool)
    ensures
        b == carries_trailer(dst, protocol, payload@),
{
    protocol == ETH_P_BATMAN && !dst.is_multicast() && !is_cert_control(payload)
}

/// What the authentication layer says of a received frame.
#[derive(Debug, Clone, Copy, PartialEq, Eq, Structural)]
pub enum Verdict {
    /// Authentication is off.
    Off,
    /// The trailer is good.
    Good,
    /// The trailer is bad.
    Bad,
}

/// The payload to route on, or `None` where the frame must be dropped.
pub open spec fn payload_kept(
    verdict: Verdict,
    dst: Mac,
    protocol: u16,
    payload: Seq<u8>,
) -> Option<Seq<u8>> {
    if verdict == Verdict::Off || !carries_trailer(dst, protocol, payload) {
        Some(payload)
    } else if payload.len() < DIRECTED_TRAILER_LEN || verdict == Verdict::Bad {
        None
    } else {
        Some(payload.subrange(0, payload.len() - DIRECTED_TRAILER_LEN))
    }
}

/// The frame to route on, given what the authentication layer said: unchanged
/// where it carries no trailer, without its trailer where that is good, and
/// `None` where the trailer is bad or missing.
pub fn strip_with<'a>(verdict: Verdict, frame: &LinkFrame<'a>) -> (r: Option<LinkFrame<'a>>)
    ensures
        match r {
            Some(kept) => {
                &&& kept.dst == frame.dst
                &&& kept.src == frame.src
                &&& kept.protocol == frame.protocol
                &&& payload_kept(verdict, frame.dst, frame.protocol, frame.payload@) == Some(
                    kept.payload@,
                )
            },
            None => payload_kept(verdict, frame.dst, frame.protocol, frame.payload@) is None,
        },
{
    let payload: &'a [u8] = frame.payload;
    let len: usize = payload.len();
    if verdict == Verdict::Off || !needs_tag(frame.dst, frame.protocol, payload) {
        return Some(
            LinkFrame { dst: frame.dst, src: frame.src, protocol: frame.protocol, payload },
        );
    }
    if len < DIRECTED_TRAILER_LEN || verdict == Verdict::Bad {
        return None;
    }
    Some(
        LinkFrame {
            dst: frame.dst,
            src: frame.src,
            protocol: frame.protocol,
            payload: &payload[0..len - DIRECTED_TRAILER_LEN],
        },
    )
}

/// What of a received frame is put to the authentication layer: the payload
/// without its trailer, and the trailer.  `None` where the frame carries none, or
/// is too short for one.
pub fn directed_parts<'a>(frame: &LinkFrame<'a>) -> (r: Option<(&'a [u8], &'a [u8])>)
    ensures
        match r {
            Some((inner, trailer)) => {
                &&& carries_trailer(frame.dst, frame.protocol, frame.payload@)
                &&& trailer@.len() == DIRECTED_TRAILER_LEN
                &&& frame.payload@ == inner@ + trailer@
            },
            None => !carries_trailer(frame.dst, frame.protocol, frame.payload@)
                || frame.payload@.len() < DIRECTED_TRAILER_LEN,
        },
{
    let payload: &'a [u8] = frame.payload;
    let len: usize = payload.len();
    if !needs_tag(frame.dst, frame.protocol, payload) || len < DIRECTED_TRAILER_LEN {
        return None;
    }
    let body_len: usize = len - DIRECTED_TRAILER_LEN;
    let inner = &payload[0..body_len];
    let trailer = &payload[body_len..len];
    assert(payload@ =~= inner@ + trailer@);
    Some((inner, trailer))
}

/// What a received frame's payload is routed on as, given the authentication
/// layer where authentication is on: unchanged where it carries no trailer, and
/// otherwise without its trailer, if that is there and authentic.
pub open spec fn payload_accepted<A: OgmAuthOps>(
    auth: Option<A>,
    src: Mac,
    dst: Mac,
    protocol: u16,
    payload: Seq<u8>,
) -> Option<Seq<u8>> {
    let n = payload.len() as int;
    let split = n - DIRECTED_TRAILER_LEN;
    match auth {
        Some(layer) => if !carries_trailer(dst, protocol, payload) {
            Some(payload)
        } else if split < 0 || !layer.authentic(
            src,
            payload.subrange(0, split),
            payload.subrange(split, n),
        ) {
            None
        } else {
            Some(payload.subrange(0, split))
        },
        None => Some(payload),
    }
}

/// The authentication layer a caller handed over, as it stood, where there is
/// one.
pub open spec fn layer_before<A>(auth: Option<&mut A>) -> Option<A> {
    match auth {
        Some(layer) => Some(*layer),
        None => None,
    }
}

/// Verify and strip the trailer of a directed frame where authentication is on,
/// returning the frame to route on, or `None` where it must be dropped: its
/// trailer is missing or not authentic.
pub fn strip_directed<'a, A: OgmAuthOps>(auth: Option<&mut A>, frame: &LinkFrame<'a>) -> (r: Option<
    LinkFrame<'a>,
>)
    ensures
        ({
            let accepted = payload_accepted(
                layer_before(auth),
                frame.src,
                frame.dst,
                frame.protocol,
                frame.payload@,
            );
            match r {
                Some(kept) => {
                    &&& kept.dst == frame.dst
                    &&& kept.src == frame.src
                    &&& kept.protocol == frame.protocol
                    &&& accepted == Some(kept.payload@)
                },
                None => accepted is None,
            }
        }),
{
    let verdict = match auth {
        None => Verdict::Off,
        Some(a) => match directed_parts(frame) {
            None => Verdict::Good,
            Some((inner, trailer)) => {
                proof {
                    let payload = frame.payload@;
                    let split = payload.len() - DIRECTED_TRAILER_LEN;
                    assert(inner@ =~= payload.subrange(0, split));
                    assert(trailer@ =~= payload.subrange(split, payload.len() as int));
                }
                if a.verify_directed(frame.src, inner, trailer) {
                    Verdict::Good
                } else {
                    Verdict::Bad
                }
            },
        },
    };
    strip_with(verdict, frame)
}

/// What the authentication layer makes of a frame to send.
#[derive(Debug, Clone, Copy)]
pub enum Tagging {
    /// It goes out as it is.
    Untagged,
    /// It goes out with this trailer.
    Tagged([u8; 24]),
    /// It cannot be tagged, and must be dropped.
    Refused,
}

/// How a frame is tagged: as it is where authentication is off or it carries no
/// trailer, with a trailer where there is a verified key, and otherwise not at
/// all.
pub fn tagging_for<A: OgmAuthOps>(
    auth: Option<&mut A>,
    dst: Mac,
    protocol: u16,
    body: &[u8],
) -> (t: Tagging)
    ensures
        match layer_before(auth) {
            Some(layer) => if carries_trailer(dst, protocol, body@) {
                match t {
                    Tagging::Tagged(trailer) => layer.trailer_for(dst, body@) == Some(trailer@),
                    Tagging::Refused => layer.trailer_for(dst, body@) is None,
                    Tagging::Untagged => false,
                }
            } else {
                t is Untagged
            },
            None => t is Untagged,
        },
{
    let tagged: bool = needs_tag(dst, protocol, body);
    match auth {
        None => Tagging::Untagged,
        Some(a) => {
            if !tagged {
                return Tagging::Untagged;
            }
            match a.tag_directed(dst, body) {
                Some(trailer) => Tagging::Tagged(trailer),
                None => Tagging::Refused,
            }
        },
    }
}

/// The bytes that go out, or `None` where the frame must be dropped.
pub open spec fn tagged_bytes(tagging: Tagging, body: Seq<u8>) -> Option<Seq<u8>> {
    match tagging {
        Tagging::Untagged => Some(body),
        Tagging::Tagged(trailer) => Some(body + trailer@),
        Tagging::Refused => None,
    }
}

/// Write the trailer, if there is one, behind the body, and return how many bytes
/// to send; `None` where the frame must be dropped.
pub fn tag_directed_into(tagging: Tagging, body_len: usize, buf: &mut [u8]) -> (r: Option<usize>)
    requires
        body_len + DIRECTED_TRAILER_LEN <= old(buf)@.len(),
    ensures
        final(buf)@.len() == old(buf)@.len(),
        match tagged_bytes(tagging, old(buf)@.subrange(0, body_len as int)) {
            Some(bytes) => {
                &&& r == Some(bytes.len() as usize)
                &&& final(buf)@ == overlay(old(buf)@, 0, bytes)
            },
            None => r is None && final(buf)@ == old(buf)@,
        },
{
    let room: usize = buf.len();
    let ghost before = buf@;
    let ghost body = before.subrange(0, body_len as int);
    assert(overlay(before, 0, body) =~= before);
    match tagging {
        Tagging::Untagged => Some(body_len),
        Tagging::Tagged(trailer) => {
            write_at(buf, body_len, &trailer);
            assert(buf@ =~= overlay(before, 0, body + trailer@));
            Some(body_len + DIRECTED_TRAILER_LEN)
        },
        Tagging::Refused => None,
    }
}

/// A frame that was tagged and then verified is routed as it was before.
pub proof fn tagged_frame_strips_back(dst: Mac, protocol: u16, body: Seq<u8>, trailer: [u8; 24])
    requires
        carries_trailer(dst, protocol, body),
        carries_trailer(dst, protocol, body + trailer@),
    ensures
        payload_kept(
            Verdict::Good,
            dst,
            protocol,
            tagged_bytes(Tagging::Tagged(trailer), body)->Some_0,
        ) == Some(body),
{
    assert((body + trailer@).subrange(0, body.len() as int) =~= body);
}

/// Whether a frame is one that authentication guards: a mesh frame for one node
/// that is no certificate control packet.
pub open spec fn is_guarded(dst: Mac, protocol: u16, payload: Seq<u8>) -> bool {
    &&& protocol == 0x4305
    &&& dst.0[0] % 2 == 0
    &&& !(payload.len() > 0 && (payload[0] == 5 || payload[0] == 6))
}

/// Where authentication is on, a guarded frame is routed on only where it ends in
/// a trailer of 24 bytes that authenticates the rest as its sender's, and then as
/// that rest; every other is dropped.
pub proof fn only_authentic_frames_are_routed<A: OgmAuthOps>(
    layer: A,
    src: Mac,
    dst: Mac,
    protocol: u16,
    inner: Seq<u8>,
    trailer: Seq<u8>,
)
    requires
        trailer.len() == 24,
        is_guarded(dst, protocol, inner + trailer),
    ensures
        payload_accepted(Some(layer), src, dst, protocol, inner + trailer) == (if layer.authentic(
            src,
            inner,
            trailer,
        ) {
            Some(inner)
        } else {
            None
        }),
{
    let payload = inner + trailer;
    assert(payload.subrange(0, inner.len() as int) =~= inner);
    assert(payload.subrange(inner.len() as int, payload.len() as int) =~= trailer);
    assert(is_guarded(dst, protocol, payload) == carries_trailer(dst, protocol, payload)) by {
        guarded_frames_carry_trailers(dst, protocol, payload);
    }
}

/// A frame carries a trailer exactly where authentication guards it.
pub proof fn guarded_frames_carry_trailers(dst: Mac, protocol: u16, payload: Seq<u8>)
    ensures
        carries_trailer(dst, protocol, payload) == is_guarded(dst, protocol, payload),
{
}

/// A guarded frame too short for a trailer is dropped; a frame that is not guarded
/// is routed on as it came, and so is every frame where authentication is off.
pub proof fn other_frames_pass_unchanged<A: OgmAuthOps>(
    layer: A,
    src: Mac,
    dst: Mac,
    protocol: u16,
    payload: Seq<u8>,
)
    ensures
        is_guarded(dst, protocol, payload) && payload.len() < 24 ==> payload_accepted(
            Some(layer),
            src,
            dst,
            protocol,
            payload,
        ) is None,
        !is_guarded(dst, protocol, payload) ==> payload_accepted(
            Some(layer),
            src,
            dst,
            protocol,
            payload,
        ) == Some(payload),
        payload_accepted::<A>(None, src, dst, protocol, payload) == Some(payload),
{
    guarded_frames_carry_trailers(dst, protocol, payload);
}

/// What a verdict keeps of a payload of at least 24 bytes and what it takes off
/// make up the payload; a bad verdict drops a guarded frame.
pub proof fn verdicts_are_heeded(dst: Mac, protocol: u16, inner: Seq<u8>, trailer: Seq<u8>)
    requires
        trailer.len() == 24,
        is_guarded(dst, protocol, inner + trailer),
    ensures
        payload_kept(Verdict::Good, dst, protocol, inner + trailer) == Some(inner),
        payload_kept(Verdict::Bad, dst, protocol, inner + trailer) is None,
        payload_kept(Verdict::Off, dst, protocol, inner + trailer) == Some(inner + trailer),
{
    guarded_frames_carry_trailers(dst, protocol, inner + trailer);
    assert((inner + trailer).subrange(0, inner.len() as int) =~= inner);
}

} // verus!
