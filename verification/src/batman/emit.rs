//! What the engine sends of its own accord: OGMs and keep-alives.

use vstd::prelude::*;

use crate::batman::engine::BatmanEngine;
use crate::batman::model::announcement_len;
use crate::batman::model::group_octets;
use crate::batman::model::own_ogm;
use crate::batman::model::ticked;
use crate::batman::model::rx_step;
use crate::batman::model::Reply;
use crate::batman::model::Step;
use crate::batman::wire::BatmanKeepAlivePacket;
use crate::batman::wire::BatmanOgmPacket;
use crate::batman::wire::BatmanTvlvHdr;
use crate::batman::wire::TvlvType;
use crate::batman::wire::BATADV_IV_OGM;
use crate::batman::wire::BATADV_KEEPALIVE;
use crate::batman::wire::KEEPALIVE_LEN;
use crate::batman::wire::OGM_LEN;
use crate::batman::wire::TVLV_HDR_LEN;
use crate::codec::overlay;
use crate::codec::write_at;
use crate::frame::LinkFrame;
use crate::frame::LinkFrameDataMut;
use crate::frame::Mac;
use crate::routing::MeshRoutingEngine;
use crate::routing::RoutingAction;
use crate::time::Duration;

verus! {

impl<
    const MAX_ORIGINATORS: usize,
    const MAX_INTERFACES: usize,
    const MAX_MCAST_MEMBERS: usize,
    const MAX_LOCAL_MCAST: usize,
> BatmanEngine<MAX_ORIGINATORS, MAX_INTERFACES, MAX_MCAST_MEMBERS, MAX_LOCAL_MCAST> {
    /// Write the OGM this node originates next into `tx_buffer` and return it,
    /// after dropping routes that have gone quiet and acting on a topology
    /// change.  The OGM announces the groups the local host has joined.
    pub fn produce_periodic_broadcast<'tx>(
        &mut self,
        now: Duration,
        tx_buffer: &'tx mut [u8],
    ) -> (ogm: Option<&'tx [u8]>)
        requires
            old(self).wf(),
            old(self)@.can_reset(now),
            OGM_LEN + announcement_len(old(self)@.local_mcast.len()) <= old(tx_buffer)@.len(),
        ensures
            final(self).wf(),
            final(self)@ == ticked(old(self)@, now),
            ogm matches Some(bytes) && bytes@ == own_ogm(final(self)@),
            final(tx_buffer)@ == overlay(old(tx_buffer)@, 0, own_ogm(final(self)@)),
    {
        self.purge_stale(now);
        self.apply_topology_change(now);
        self.sequence_number = self.sequence_number.wrapping_add(1);
        let ghost groups = self.local_mcast@;
        let room: usize = tx_buffer.len();
        let joined: usize = self.local_mcast.len();
        let value_len: usize = if joined == 0 { 0 } else { joined * 6 };
        let tvlv_len: usize = if joined == 0 { 0 } else { TVLV_HDR_LEN + value_len };
        let ogm = BatmanOgmPacket {
            packet_type: BATADV_IV_OGM,
            version: 5,
            ttl: 50,
            flags: 0,
            seqno: self.sequence_number,
            orig: self.self_ident,
            reserved: 0,
            tq: 255,
            tvlv_len: (tvlv_len % 0x1_0000) as u16,
        };
        let header: [u8; 18] = ogm.as_bytes();
        write_at(tx_buffer, 0, &header);
        let ghost mut written = header@;
        if joined > 0 {
            let hdr = BatmanTvlvHdr {
                tvlv_type: TvlvType::Mcast.as_u8(),
                version: 1,
                len: (value_len % 0x1_0000) as u16,
            };
            let record: [u8; 4] = hdr.as_bytes();
            write_at(tx_buffer, OGM_LEN, &record);
            let start: usize = OGM_LEN + TVLV_HDR_LEN;
            proof {
                written = header@ + record@;
            }
            assert(tx_buffer@ =~= overlay(
                old(tx_buffer)@,
                0,
                written + group_octets(groups.take(0)),
            ));
            let mut i: usize = 0;
            while i < joined
                invariant
                    i <= joined,
                    joined == groups.len(),
                    groups == self.local_mcast@,
                    start == 22,
                    start + 6 * joined <= room,
                    room == old(tx_buffer)@.len(),
                    written.len() == start,
                    group_octets(groups.take(i as int)).len() == 6 * i,
                    tx_buffer@ == overlay(
                        old(tx_buffer)@,
                        0,
                        written + group_octets(groups.take(i as int)),
                    ),
                decreases joined - i,
            {
                let group: Mac = self.local_mcast.items()[i];
                let ghost so_far = written + group_octets(groups.take(i as int));
                assert(groups.take(i as int + 1).drop_last() =~= groups.take(i as int));
                write_at(tx_buffer, start + 6 * i, &group.0);
                i = i + 1;
                assert(written + group_octets(groups.take(i as int)) =~= so_far + group.0@);
                assert(tx_buffer@ =~= overlay(old(tx_buffer)@, 0, so_far + group.0@));
            }
            assert(groups.take(joined as int) =~= groups);
            proof {
                written = written + group_octets(groups);
            }
        }
        assert(written =~= own_ogm(self@));
        assert(tx_buffer@ =~= overlay(old(tx_buffer)@, 0, own_ogm(self@)));
        let end: usize = OGM_LEN + tvlv_len;
        let sent: &'tx [u8] = tx_buffer;
        assert(sent@.subrange(0, end as int) =~= own_ogm(self@));
        Some(&sent[0..end])
    }

    /// Write a keep-alive heartbeat into `tx_buffer` and return it, or `None`,
    /// with the buffer untouched, when it does not fit.
    pub fn produce_keepalive<'tx>(&self, tx_buffer: &'tx mut [u8]) -> (pkt: Option<&'tx [u8]>)
        ensures
            match pkt {
                Some(bytes) => {
                    &&& old(tx_buffer)@.len() >= KEEPALIVE_LEN
                    &&& bytes@ == seq![BATADV_KEEPALIVE, 5u8]
                    &&& final(tx_buffer)@ == overlay(
                        old(tx_buffer)@,
                        0,
                        seq![BATADV_KEEPALIVE, 5u8],
                    )
                },
                None => {
                    &&& old(tx_buffer)@.len() < KEEPALIVE_LEN
                    &&& final(tx_buffer)@ == old(tx_buffer)@
                },
            },
    {
        if tx_buffer.len() < KEEPALIVE_LEN {
            return None;
        }
        let pkt = BatmanKeepAlivePacket { packet_type: BATADV_KEEPALIVE, version: 5 };
        write_at(tx_buffer, 0, &pkt.as_bytes());
        let sent: &'tx [u8] = tx_buffer;
        assert(sent@.subrange(0, 2) =~= seq![BATADV_KEEPALIVE, 5u8]);
        Some(&sent[0..KEEPALIVE_LEN])
    }
}

impl<
    const MAX_ORIGINATORS: usize,
    const MAX_INTERFACES: usize,
    const MAX_MCAST_MEMBERS: usize,
    const MAX_LOCAL_MCAST: usize,
> MeshRoutingEngine for BatmanEngine<
    MAX_ORIGINATORS,
    MAX_INTERFACES,
    MAX_MCAST_MEMBERS,
    MAX_LOCAL_MCAST,
> {
    open spec fn ready(&self, now: Duration) -> bool {
        self.wf() && self@.can_reset(now)
    }

    open spec fn broadcast_len(&self) -> nat {
        OGM_LEN as nat + announcement_len(self@.local_mcast.len())
    }

    fn handle_rx(
        &mut self,
        now: Duration,
        frame: &LinkFrame<'_>,
        local_quality: Option<u8>,
        reply: &mut LinkFrameDataMut<'_>,
    ) -> (action: RoutingAction)
        ensures
            final(self).wf(),
            (Step {
                state: final(self)@,
                action,
                reply: Reply {
                    dst: final(reply).dst,
                    protocol: final(reply).protocol,
                    payload: final(reply).payload@,
                },
            }) == rx_step(
                old(self)@,
                Self::caps(),
                now,
                frame.src,
                frame.dst,
                frame.protocol,
                frame.payload@,
                local_quality,
                Reply {
                    dst: old(reply).dst,
                    protocol: old(reply).protocol,
                    payload: old(reply).payload@,
                },
            ),
    {
        BatmanEngine::handle_rx(self, now, frame, local_quality, reply)
    }

    fn produce_periodic_broadcast<'tx>(
        &mut self,
        now: Duration,
        tx_buffer: &'tx mut [u8],
    ) -> (ogm: Option<&'tx [u8]>)
        ensures
            final(self).wf(),
            final(self)@ == ticked(old(self)@, now),
            ogm matches Some(bytes) && bytes@ == own_ogm(final(self)@),
            final(tx_buffer)@ == overlay(old(tx_buffer)@, 0, own_ogm(final(self)@)),
    {
        BatmanEngine::produce_periodic_broadcast(self, now, tx_buffer)
    }
}

} // verus!
