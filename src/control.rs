//! What the control plane carries: the client's settings for it and the
//! queue-pair identifiers the two sides exchange.
use vstd::prelude::*;
use crate::envelope::u64_at;
use crate::gid::{gid_from_ids, gid_interface_id, gid_of_ids, gid_subnet_prefix};

verus! {

/// Whether the server serves all queue pairs from one address or spreads
/// them over several.
#[derive(Clone, Copy, Debug, PartialEq, Eq, Structural)]
pub enum Mode {
    SingleIp,
    MultiIp,
}

/// Address family of the server's GIDs.
#[derive(Clone, Copy, Debug, PartialEq, Eq, Structural)]
pub enum Family {
    Inet,
    Inet6,
}

/// Where the control-plane client connects, and what it asks the server to
/// set up.
#[derive(Clone, Debug)]
pub struct GrpcClient {
    pub address: String,
    pub client_id: u32,
    pub mode: Mode,
    pub family: Family,
    pub qpns: u32,
}

impl GrpcClient {
    pub fn new(address: String, client_id: u32, mode: Mode, family: Family, qpns: u32) -> (r:
        GrpcClient)
        ensures
            r.address@ == address@,
            r.client_id == client_id,
            r.mode == mode,
            r.family == family,
            r.qpns == qpns,
    {
        GrpcClient { address, client_id, mode, family, qpns }
    }
}

/// One side's queue-pair identifiers, as exchanged to connect a pair.
#[derive(Clone, Copy, Debug, PartialEq, Eq, Structural)]
pub struct QpEndpoint {
    pub qpn: u32,
    pub gid_subnet_id: u64,
    pub gid_interface_id: u64,
    pub lid: u32,
    pub psn: u32,
}

impl QpEndpoint {
    /// The identifiers of a local queue pair: its number, the halves of its
    /// GID and its starting sequence number; RoCE has no LID.
    pub fn local(qpn: u32, gid: &[u8; 16], psn: u32) -> (r: QpEndpoint)
        ensures
            r == (QpEndpoint {
                qpn,
                gid_subnet_id: u64_at(gid@, 0),
                gid_interface_id: u64_at(gid@, 8),
                lid: 0,
                psn,
            }),
    {
        QpEndpoint {
            qpn,
            gid_subnet_id: gid_subnet_prefix(gid),
            gid_interface_id: gid_interface_id(gid),
            lid: 0,
            psn,
        }
    }

    /// The GID that the peer's identifiers describe.
    pub fn gid(&self) -> (r: [u8; 16])
        ensures
            r@ == gid_of_ids(self.gid_subnet_id, self.gid_interface_id),
    {
        gid_from_ids(self.gid_subnet_id, self.gid_interface_id)
    }
}

} // verus!
