//! Advertising-data structures: tagging this mesh's fragments, and finding them
//! among ambient advertisements.
//!
//! Advertising data is a sequence of structures `[len][type][data]`, where `len`
//! counts the type and the data.  A fragment travels in one structure of
//! manufacturer specific data, behind a two-byte marker.

use vstd::prelude::*;

use crate::codec::le16;
use crate::codec::overlay;
use crate::codec::u16_le;
use crate::codec::write_at;

verus! {

/// Structure type of manufacturer specific data.
pub const AD_TYPE_MANUFACTURER_SPECIFIC: u8 = 0xFF;

/// Marker distinguishing this mesh's advertisements: the company id reserved for
/// testing, which no vendor has.
pub const MESH_COMPANY_ID: u16 = 0xFFFF;

/// Bytes in front of a fragment in its structure: length, type, marker.
pub const AD_HDR_LEN: usize = 4;

/// Largest fragment one structure can carry, bounded by its length byte.
pub const MAX_FRAGMENT_LEN: usize = 252;

/// Largest advertising data a legacy advertisement can carry.
pub const MAX_LEGACY_ADV_DATA_LEN: usize = 31;

/// Largest fragment that fits one legacy advertisement.
pub const MAX_LEGACY_FRAGMENT_LEN: usize = 27;

/// The structure tagging a fragment as this mesh's traffic.
pub open spec fn ad_structure(fragment: Seq<u8>) -> Seq<u8> {
    seq![(3 + fragment.len()) as u8, AD_TYPE_MANUFACTURER_SPECIFIC] + le16(MESH_COMPANY_ID)
        + fragment
}

/// Build the structure tagging `fragment` into `out`, returning its length, or
/// `None`, with `out` untouched, when the fragment is too large for a structure
/// or the structure for `out`.
pub fn build_ad_structure(fragment: &[u8], out: &mut [u8]) -> (n: Option<usize>)
    ensures
        match n {
            Some(total) => {
                &&& fragment@.len() <= MAX_FRAGMENT_LEN
                &&& total == AD_HDR_LEN + fragment@.len()
                &&& total <= old(out)@.len()
                &&& final(out)@ == overlay(old(out)@, 0, ad_structure(fragment@))
            },
            None => {
                &&& fragment@.len() > MAX_FRAGMENT_LEN || AD_HDR_LEN + fragment@.len()
                    > old(out)@.len()
                &&& final(out)@ == old(out)@
            },
        },
{
    let len: usize = fragment.len();
    if len > MAX_FRAGMENT_LEN {
        return None;
    }
    let total: usize = AD_HDR_LEN + len;
    if out.len() < total {
        return None;
    }
    let marker: [u8; 2] = u16_le(MESH_COMPANY_ID);
    let header: [u8; 4] = [
        (AD_HDR_LEN - 1 + len) as u8, AD_TYPE_MANUFACTURER_SPECIFIC, marker[0], marker[1],
    ];
    write_at(out, 0, &header);
    write_at(out, AD_HDR_LEN, fragment);
    assert(out@ =~= overlay(old(out)@, 0, ad_structure(fragment@)));
    Some(total)
}

/// The fragment of the first structure that carries this mesh's marker, scanning
/// from `pos`.  A structure that is empty or runs past the end ends the scan.
pub open spec fn tagged_fragment(adv: Seq<u8>, pos: int) -> Option<Seq<u8>>
    decreases adv.len() - pos,
{
    if pos < 0 || pos >= adv.len() || adv[pos] == 0 || pos + 1 + adv[pos] > adv.len() {
        None
    } else {
        let end = pos + 1 + adv[pos];
        if adv[pos] >= 3 && adv[pos + 1] == AD_TYPE_MANUFACTURER_SPECIFIC && adv.subrange(
            pos + 2,
            pos + 4,
        ) == le16(MESH_COMPANY_ID) {
            Some(adv.subrange(pos + 4, end))
        } else {
            tagged_fragment(adv, end)
        }
    }
}

/// The fragment of the first structure that carries this mesh's marker, if there
/// is one.
pub fn find_mesh_fragment<'a>(adv_data: &'a [u8]) -> (f: Option<&'a [u8]>)
    ensures
        match f {
            Some(fragment) => tagged_fragment(adv_data@, 0) == Some(fragment@),
            None => tagged_fragment(adv_data@, 0) is None,
        },
{
    let len: usize = adv_data.len();
    let marker: [u8; 2] = u16_le(MESH_COMPANY_ID);
    let mut pos: usize = 0;
    while pos < len
        invariant
            pos <= len,
            len == adv_data@.len(),
            marker@ == le16(MESH_COMPANY_ID),
            tagged_fragment(adv_data@, pos as int) == tagged_fragment(adv_data@, 0),
        decreases len - pos,
    {
        let n: usize = adv_data[pos] as usize;
        if n == 0 || n > len - pos - 1 {
            return None;
        }
        let end: usize = pos + 1 + n;
        if n >= 3 && adv_data[pos + 1] == AD_TYPE_MANUFACTURER_SPECIFIC {
            if adv_data[pos + 2] == marker[0] && adv_data[pos + 3] == marker[1] {
                assert(adv_data@.subrange(pos + 2, pos + 4) =~= le16(MESH_COMPANY_ID));
                return Some(&adv_data[pos + 4..end]);
            }
            assert(adv_data@.subrange(pos + 2, pos + 4)[0] == adv_data@[pos + 2]);
            assert(adv_data@.subrange(pos + 2, pos + 4)[1] == adv_data@[pos + 3]);
        }
        pos = end;
    }
    None
}

/// Whether `adv` is made of whole structures from `pos` on, none of which carries
/// this mesh's marker.
pub open spec fn untagged(adv: Seq<u8>, pos: int) -> bool
    decreases adv.len() - pos,
{
    pos == adv.len() || {
        &&& 0 <= pos < adv.len()
        &&& adv[pos] > 0
        &&& pos + 1 + adv[pos] <= adv.len()
        &&& !(adv[pos] >= 3 && adv[pos + 1] == AD_TYPE_MANUFACTURER_SPECIFIC && adv.subrange(
            pos + 2,
            pos + 4,
        ) == le16(MESH_COMPANY_ID))
        &&& untagged(adv, pos + 1 + adv[pos])
    }
}

/// A scan passes whole structures without the marker.
proof fn scan_passes_untagged(before: Seq<u8>, behind: Seq<u8>, pos: int)
    requires
        0 <= pos <= before.len(),
        untagged(before, pos),
    ensures
        tagged_fragment(before + behind, pos) == tagged_fragment(
            before + behind,
            before.len() as int,
        ),
    decreases before.len() - pos,
{
    if pos < before.len() {
        let adv = before + behind;
        assert(adv[pos] == before[pos]);
        if adv[pos] >= 3 {
            assert(adv[pos + 1] == before[pos + 1]);
            assert(adv.subrange(pos + 2, pos + 4) =~= before.subrange(pos + 2, pos + 4));
        }
        scan_passes_untagged(before, behind, pos + 1 + before[pos]);
    }
}

/// A fragment built into a structure is found again, behind any structures that do
/// not carry the marker and in front of anything.
pub proof fn built_structure_is_found(before: Seq<u8>, fragment: Seq<u8>, behind: Seq<u8>)
    requires
        fragment.len() <= MAX_FRAGMENT_LEN,
        untagged(before, 0),
    ensures
        tagged_fragment(before + (ad_structure(fragment) + behind), 0) == Some(fragment),
{
    let rest = ad_structure(fragment) + behind;
    let adv = before + rest;
    let pos = before.len() as int;
    let end = pos + 4 + fragment.len();
    assert(adv[pos] == (3 + fragment.len()) as u8);
    assert(adv[pos + 1] == AD_TYPE_MANUFACTURER_SPECIFIC);
    assert(adv.subrange(pos + 2, pos + 4) =~= le16(MESH_COMPANY_ID));
    assert(adv.subrange(pos + 4, end) =~= fragment);
    assert(tagged_fragment(adv, pos) == Some(fragment));
    scan_passes_untagged(before, rest, 0);
}

/// Where each part of a structure stands: its length without the length byte, the
/// type of manufacturer data, the marker, and the fragment.
pub proof fn structure_layout(fragment: Seq<u8>)
    requires
        fragment.len() <= MAX_FRAGMENT_LEN,
    ensures
        ({
            let b = ad_structure(fragment);
            &&& b.len() == 4 + fragment.len()
            &&& b[0] == b.len() - 1
            &&& b[1] == 0xff
            &&& b[2] == 0xff
            &&& b[3] == 0xff
            &&& b.subrange(4, b.len() as int) == fragment
        }),
{
    let b = ad_structure(fragment);
    assert(b.subrange(4, b.len() as int) =~= fragment);
}

/// Nothing is found in structures that do not carry the marker.
pub proof fn nothing_is_found_elsewhere(adv: Seq<u8>, pos: int)
    requires
        0 <= pos <= adv.len(),
        untagged(adv, pos),
    ensures
        tagged_fragment(adv, pos) is None,
    decreases adv.len() - pos,
{
    if pos < adv.len() {
        nothing_is_found_elsewhere(adv, pos + 1 + adv[pos]);
    }
}

/// What is found stands in a whole structure of manufacturer data behind the
/// marker.
pub proof fn what_is_found_was_marked(adv: Seq<u8>, pos: int)
    requires
        0 <= pos,
        tagged_fragment(adv, pos) is Some,
    ensures
        exists|at: int|
            pos <= at && at + 4 <= adv.len() && #[trigger] adv[at] >= 3 && adv[at + 1] == 0xff
                && adv[at + 2] == 0xff && adv[at + 3] == 0xff && at + 1 + adv[at] <= adv.len()
                && tagged_fragment(adv, pos)->0 == adv.subrange(at + 4, at + 1 + adv[at]),
    decreases adv.len() - pos,
{
    let end = pos + 1 + adv[pos];
    if adv[pos] >= 3 && adv[pos + 1] == AD_TYPE_MANUFACTURER_SPECIFIC && adv.subrange(
        pos + 2,
        pos + 4,
    ) == le16(MESH_COMPANY_ID) {
        assert(adv.subrange(pos + 2, pos + 4)[0] == adv[pos + 2]);
        assert(adv.subrange(pos + 2, pos + 4)[1] == adv[pos + 3]);
    } else {
        what_is_found_was_marked(adv, end);
    }
}

} // verus!
