//! Metadata carried by graph packets.
use std::collections::BTreeMap;
use vstd::prelude::*;

verus! {

/// Sequence number, stream identity and free-form tags of a packet.
#[derive(Clone, Debug, PartialEq, Eq)]
pub struct PacketMeta {
    pub sequence: u64,
    pub stream_id: Option<String>,
    pub tags: BTreeMap<String, String>,
}

impl Default for PacketMeta {
    fn default() -> (r: Self)
        ensures
            r.sequence == 0,
            r.stream_id is None,
            r.tags@ == Map::<String, String>::empty(),
    {
        PacketMeta { sequence: 0, stream_id: None, tags: BTreeMap::new() }
    }
}

} // verus!
