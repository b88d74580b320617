//! Outgoing frames, and where a driver receives them.

use vstd::prelude::*;

use crate::frame::LinkFrameData;
use crate::frame::Mac;

verus! {

/// How an outgoing frame is fanned out onto the mesh interfaces.
#[derive(Debug, Clone, Copy, PartialEq, Eq, Structural)]
pub enum Egress {
    /// Let the router pick the egress: a single interface for a unicast, every
    /// interface for a flood.  A re-flood never goes back out the interface it
    /// arrived on, which `exclude` names.
    Auto {
        /// The interface left out of a flood.
        exclude: Option<usize>,
    },
    /// Send out exactly one interface.
    Iface(usize),
}

/// The router's choice of egress for a destination.
#[derive(Debug, Clone, Copy, PartialEq, Eq, Structural)]
pub enum EgressInterface {
    /// Every interface.
    All,
    /// One interface.
    Interface(usize),
}

/// One frame to put on the mesh, and how to fan it out.
pub struct OutgoingFrame<'a> {
    /// A next-hop neighbor, or the broadcast address for a flood.
    pub dst: Mac,
    /// Protocol identifier stamped on the link frame.
    pub protocol: u16,
    /// Payload to transmit, borrowed from a scratchpad that is reused.
    pub payload: &'a [u8],
    /// How to fan this frame out.
    pub egress: Egress,
}

/// An outgoing frame, seen as plain values.
#[verifier::ext_equal]
pub struct Emitted {
    pub dst: Mac,
    pub protocol: u16,
    pub payload: Seq<u8>,
    pub egress: Egress,
}

impl<'a> View for OutgoingFrame<'a> {
    type V = Emitted;

    open spec fn view(&self) -> Emitted {
        Emitted {
            dst: self.dst,
            protocol: self.protocol,
            payload: self.payload@,
            egress: self.egress,
        }
    }
}

/// Where a driver receives the frames planned for it.
pub trait MeshSink {
    /// The frames taken so far.
    spec fn emitted(&self) -> Seq<Emitted>;

    /// The payloads delivered to the local host so far.
    spec fn delivered(&self) -> Seq<Seq<u8>>;

    /// Whether there is a local host to deliver to.
    spec fn hosted(&self) -> bool;

    /// Accept one frame bound for the mesh, copying its payload.
    fn emit(&mut self, frame: OutgoingFrame<'_>)
        ensures
            final(self).emitted() == old(self).emitted().push(frame@),
            final(self).delivered() == old(self).delivered(),
            final(self).hosted() == old(self).hosted(),
    ;

    /// Accept one payload bound for the local host; a node without one drops it.
    fn deliver_local(&mut self, inner: &[u8])
        ensures
            final(self).emitted() == old(self).emitted(),
            final(self).delivered() == (if old(self).hosted() {
                old(self).delivered().push(inner@)
            } else {
                old(self).delivered()
            }),
            final(self).hosted() == old(self).hosted(),
    ;
}

/// One frame copied out of the scratchpad.
#[derive(Debug)]
pub struct StagedFrame {
    pub dst: Mac,
    pub protocol: u16,
    pub payload: Vec<u8>,
    pub egress: Egress,
}

impl View for StagedFrame {
    type V = Emitted;

    open spec fn view(&self) -> Emitted {
        Emitted {
            dst: self.dst,
            protocol: self.protocol,
            payload: self.payload@,
            egress: self.egress,
        }
    }
}

/// A sink that keeps everything it is given, in order.
#[derive(Debug)]
pub struct StagedFrames {
    /// The frames bound for the mesh.
    pub mesh: Vec<StagedFrame>,
    /// The payloads bound for the local host.
    pub local: Vec<Vec<u8>>,
    /// Whether there is a local host.
    pub host: bool,
}

impl StagedFrames {
    /// An empty sink.
    pub fn new(host: bool) -> (s: StagedFrames)
        ensures
            s.emitted() == Seq::<Emitted>::empty(),
            s.delivered() == Seq::<Seq<u8>>::empty(),
            s.hosted() == host,
            s.mesh@.len() == 0,
            s.local@.len() == 0,
    {
        let s = StagedFrames { mesh: Vec::new(), local: Vec::new(), host };
        assert(s.emitted() =~= Seq::<Emitted>::empty());
        assert(s.delivered() =~= Seq::<Seq<u8>>::empty());
        s
    }
}

impl MeshSink for StagedFrames {
    open spec fn emitted(&self) -> Seq<Emitted> {
        Seq::new(self.mesh@.len(), |i: int| self.mesh@[i]@)
    }

    open spec fn delivered(&self) -> Seq<Seq<u8>> {
        Seq::new(self.local@.len(), |i: int| self.local@[i]@)
    }

    open spec fn hosted(&self) -> bool {
        self.host
    }

    fn emit(&mut self, frame: OutgoingFrame<'_>) {
        let payload: Vec<u8> = vstd::slice::slice_to_vec(frame.payload);
        self.mesh.push(
            StagedFrame {
                dst: frame.dst,
                protocol: frame.protocol,
                payload,
                egress: frame.egress,
            },
        );
        assert(self.emitted() =~= old(self).emitted().push(frame@));
    }

    fn deliver_local(&mut self, inner: &[u8]) {
        if self.host {
            self.local.push(vstd::slice::slice_to_vec(inner));
            assert(self.delivered() =~= old(self).delivered().push(inner@));
        }
    }
}

/// What the router made of a received frame: a frame to send onward, and a
/// payload for the local host.
pub struct RouterRx<'a> {
    pub forward: Option<LinkFrameData<'a>>,
    pub deliver_local: Option<&'a [u8]>,
}

/// Hand on what the router made of a frame received on interface `idx`: an onward
/// frame is kept off that interface.
pub fn handle_mesh_frame<S: MeshSink>(idx: usize, rx: RouterRx<'_>, sink: &mut S)
    ensures
        final(sink).hosted() == old(sink).hosted(),
        final(sink).emitted() == (match rx.forward {
            Some(f) => old(sink).emitted().push(
                Emitted {
                    dst: f.dst,
                    protocol: f.protocol,
                    payload: f.payload@,
                    egress: Egress::Auto { exclude: Some(idx) },
                },
            ),
            None => old(sink).emitted(),
        }),
        final(sink).delivered() == (match rx.deliver_local {
            Some(inner) => if old(sink).hosted() {
                old(sink).delivered().push(inner@)
            } else {
                old(sink).delivered()
            },
            None => old(sink).delivered(),
        }),
{
    if let Some(f) = rx.forward {
        sink.emit(
            OutgoingFrame {
                dst: f.dst,
                protocol: f.protocol,
                payload: f.payload,
                egress: Egress::Auto { exclude: Some(idx) },
            },
        );
    }
    if let Some(inner) = rx.deliver_local {
        sink.deliver_local(inner);
    }
}

} // verus!
