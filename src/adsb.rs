//! The boundary to adsb_deku, which decodes the contents of a Mode-S payload
//! (identification, position, velocity, ...) beyond what this crate reads.
use vstd::prelude::*;
use adsb_deku::deku::DekuContainerRead;

verus! {

#[verifier::external_type_specification]
#[verifier::external_body]
pub struct ExAdsbFrame(adsb_deku::Frame);

/// Whether adsb_deku's decoder accepts a Mode-S payload. The decoder reads
/// the bytes and nothing else.
pub uninterp spec fn adsb_accepts(payload: Seq<u8>) -> bool;

/// Relies on adsb_deku's `Frame::from_bytes` (deku's `DekuContainerRead`) to
/// decode a Mode-S payload; `None` where it reports an error.
#[verifier::external_body]
pub(crate) fn adsb_decode(payload: &[u8]) -> (r: Option<adsb_deku::Frame>)
    ensures
        r is Some == adsb_accepts(payload@),
{
    adsb_deku::Frame::from_bytes((payload, 0)).ok().map(|(_, frame)| frame)
}

} // verus!
