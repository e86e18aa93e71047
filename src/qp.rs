//! Queue-pair setup: the attributes of each state transition, the order of
//! the transitions, and the starting packet sequence number.
use vstd::prelude::*;
use crate::error::{ErrorKind, QpState};

verus! {

/// Access flag: the local side may write the memory.
pub const ACCESS_LOCAL_WRITE: u32 = 1;
/// Access flag: the remote side may write the memory.
pub const ACCESS_REMOTE_WRITE: u32 = 2;
/// Access flag: the remote side may read the memory.
pub const ACCESS_REMOTE_READ: u32 = 4;

/// Depth of each completion queue.
pub const CQ_DEPTH: u32 = 4096;

/// Capacities asked for when a queue pair is created.
#[derive(Clone, Copy, Debug, PartialEq, Eq, Structural)]
pub struct QpCaps {
    pub max_send_wr: u32,
    pub max_recv_wr: u32,
    pub max_send_sge: u32,
    pub max_recv_sge: u32,
    pub max_inline_data: u32,
    /// Whether every send request is signaled; selective signaling needs
    /// `false`.
    pub sq_sig_all: bool,
}

/// Attributes of the move to INIT.
#[derive(Clone, Copy, Debug, PartialEq, Eq, Structural)]
pub struct InitAttributes {
    pub pkey_index: u16,
    pub port_num: u8,
    pub access_flags: u32,
}

/// Attributes of the move to RTR (ready to receive).
#[derive(Clone, Copy, Debug)]
pub struct RtrAttributes {
    /// Path MTU in bytes.
    pub path_mtu: u32,
    pub dest_qp_num: u32,
    pub rq_psn: u32,
    pub max_dest_rd_atomic: u8,
    pub min_rnr_timer: u8,
    pub is_global: bool,
    pub dgid: [u8; 16],
    pub sgid_index: u8,
    pub hop_limit: u8,
    pub port_num: u8,
}

/// Attributes of the move to RTS (ready to send).
#[derive(Clone, Copy, Debug, PartialEq, Eq, Structural)]
pub struct RtsAttributes {
    pub timeout: u8,
    pub retry_cnt: u8,
    pub rnr_retry: u8,
    pub sq_psn: u32,
    pub max_rd_atomic: u8,
}

/// A reliable-connected queue pair with deep queues, room for 15 SGEs and
/// 64 bytes of inline data, signaled selectively.
pub fn qp_caps() -> (r: QpCaps)
    ensures
        r == (QpCaps {
            max_send_wr: 4096,
            max_recv_wr: 4096,
            max_send_sge: 15,
            max_recv_sge: 15,
            max_inline_data: 64,
            sq_sig_all: false,
        }),
{
    QpCaps {
        max_send_wr: 4096,
        max_recv_wr: 4096,
        max_send_sge: 15,
        max_recv_sge: 15,
        max_inline_data: 64,
        sq_sig_all: false,
    }
}

/// INIT on `port`, partition key 0, local write and remote read and write.
pub fn init_attributes(port: u8) -> (r: InitAttributes)
    ensures
        r == (InitAttributes {
            pkey_index: 0,
            port_num: port,
            access_flags: ACCESS_LOCAL_WRITE | ACCESS_REMOTE_READ | ACCESS_REMOTE_WRITE,
        }),
{
    InitAttributes {
        pkey_index: 0,
        port_num: port,
        access_flags: ACCESS_LOCAL_WRITE | ACCESS_REMOTE_READ | ACCESS_REMOTE_WRITE,
    }
}

/// RTR towards the remote queue pair `remote_qpn` at `remote_gid`, whose
/// sends start at `remote_psn`, routed through local GID slot `gid_index`
/// of `port`.
pub fn rtr_attributes(
    remote_gid: [u8; 16],
    remote_qpn: u32,
    remote_psn: u32,
    gid_index: u8,
    port: u8,
) -> (r: RtrAttributes)
    ensures
        r.path_mtu == 4096,
        r.dest_qp_num == remote_qpn,
        r.rq_psn == remote_psn,
        r.max_dest_rd_atomic == 1,
        r.min_rnr_timer == 12,
        r.is_global,
        r.dgid == remote_gid,
        r.sgid_index == gid_index,
        r.hop_limit == 10,
        r.port_num == port,
{
    RtrAttributes {
        path_mtu: 4096,
        dest_qp_num: remote_qpn,
        rq_psn: remote_psn,
        max_dest_rd_atomic: 1,
        min_rnr_timer: 12,
        is_global: true,
        dgid: remote_gid,
        sgid_index: gid_index,
        hop_limit: 10,
        port_num: port,
    }
}

/// RTS with our sends starting at `local_psn`.
pub fn rts_attributes(local_psn: u32) -> (r: RtsAttributes)
    ensures
        r == (RtsAttributes {
            timeout: 14,
            retry_cnt: 7,
            rnr_retry: 7,
            sq_psn: local_psn,
            max_rd_atomic: 1,
        }),
{
    RtsAttributes { timeout: 14, retry_cnt: 7, rnr_retry: 7, sq_psn: local_psn, max_rd_atomic: 1 }
}

/// The state after `s` on the way RESET, INIT, RTR, RTS; none after RTS or
/// ERR.
pub open spec fn successor(s: QpState) -> Option<QpState> {
    match s {
        QpState::Reset => Some(QpState::Init),
        QpState::Init => Some(QpState::Rtr),
        QpState::Rtr => Some(QpState::Rts),
        _ => None,
    }
}

impl QpState {
    /// The next state on the way to RTS, if any.
    pub fn successor(&self) -> (r: Option<QpState>)
        ensures
            r == successor(*self),
    {
        match self {
            QpState::Reset => Some(QpState::Init),
            QpState::Init => Some(QpState::Rtr),
            QpState::Rtr => Some(QpState::Rts),
            _ => None,
        }
    }

    /// The state after asking to move to `target`, given the return value
    /// of the modify call: `target` when it is the next state and the call
    /// returned 0; else `QpTransition(target)`.
    pub fn after_modify(&self, target: QpState, ret: i32) -> (r: Result<QpState, ErrorKind>)
        ensures
            successor(*self) == Some(target) && ret == 0 ==> r == Ok::<QpState, ErrorKind>(target),
            !(successor(*self) == Some(target) && ret == 0) ==> r == Err::<QpState, ErrorKind>(
                ErrorKind::QpTransition(target),
            ),
    {
        match self.successor() {
            Some(next) => {
                if next == target && ret == 0 {
                    Ok(target)
                } else {
                    Err(ErrorKind::QpTransition(target))
                }
            },
            None => Err(ErrorKind::QpTransition(target)),
        }
    }
}

/// The low 24 bits of `x`: a packet sequence number.
pub open spec fn psn_of(x: u32) -> u32 {
    x & 0xff_ffff
}

/// Relies on rand::random for a uniformly drawn `u32`; nothing is known of
/// its value.
#[verifier::external_body]
fn random_u32() -> u32 {
    rand::random::<u32>()
}

/// The packet sequence number that `x` gives: its low 24 bits.
pub fn psn_from(x: u32) -> (r: u32)
    ensures
        r == psn_of(x),
        r < 0x100_0000,
{
    assert(x & 0xff_ffff < 0x100_0000) by (bit_vector);
    x & 0xff_ffff
}

/// A random starting packet sequence number of 24 bits.
pub fn gen_psn() -> (r: u32)
    ensures
        r < 0x100_0000,
{
    psn_from(random_u32())
}

} // verus!
