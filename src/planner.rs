//! Splits a logical transfer volume across queue pairs and turns each share
//! into blocks of RDMA WRITE work requests with selective signaling.
use vstd::prelude::*;

verus! {

/// One RDMA WRITE work request with its single scatter-gather element.
#[derive(Clone, Copy, Debug, PartialEq, Eq, Structural)]
pub struct WorkRequest {
    /// Local address of the scatter-gather element.
    pub local_addr: u64,
    /// Length in bytes of the scatter-gather element.
    pub length: u32,
    pub lkey: u32,
    pub remote_addr: u64,
    pub rkey: u32,
    /// Whether the request asks for a completion (`IBV_SEND_SIGNALED`).
    pub signaled: bool,
}

/// A chain of work requests posted with one `post_send`.
#[derive(Clone, Debug)]
pub struct MessageBlock {
    pub message_count: usize,
    pub wrs: Vec<WorkRequest>,
    pub message_block_size: u64,
}

/// Everything one queue pair carries over the whole plan.
#[derive(Clone, Debug)]
pub struct QpPlan {
    pub message_blocks: Vec<MessageBlock>,
    pub qp_message_size: u64,
}

/// The inputs of the planner.
#[derive(Clone, Copy, Debug, PartialEq, Eq, Structural)]
pub struct PlanParams {
    pub volume: u64,
    pub queue_pairs: u64,
    pub max_message_size: u64,
    pub max_msg_per_block: u64,
    pub iterator_factor: u64,
    pub local_mr_start_addr: u64,
    pub remote_mr_start_addr: u64,
    pub lkey: u32,
    pub rkey: u32,
}

impl PlanParams {
    /// Inputs the planner accepts: at least one queue pair, positive message
    /// and block sizes, message lengths that fit an SGE, buffers that fit the
    /// address space and a total that fits in `u64`.
    pub open spec fn valid(self) -> bool {
        &&& self.queue_pairs >= 1
        &&& self.max_message_size >= 1
        &&& self.max_message_size <= u32::MAX
        &&& self.max_msg_per_block >= 1
        &&& self.local_mr_start_addr + self.volume <= u64::MAX
        &&& self.remote_mr_start_addr + self.volume <= u64::MAX
        &&& self.volume * self.iterator_factor <= u64::MAX
    }

    /// Bytes that queue pair `i` carries in one pass.
    pub open spec fn share(self, i: int) -> int {
        share_of(self.volume as int, self.queue_pairs as int, i)
    }

    /// Offset of queue pair `i`'s share within the buffer.
    pub open spec fn start(self, i: int) -> int {
        start_of(self.volume as int, self.queue_pairs as int, i)
    }

    /// Messages that queue pair `i` sends in one pass.
    pub open spec fn messages(self, i: int) -> int {
        ceil_div(self.share(i), self.max_message_size as int)
    }

    /// Blocks that queue pair `i` posts in one pass.
    pub open spec fn blocks_per_pass(self, i: int) -> int {
        ceil_div(self.messages(i), self.max_msg_per_block as int)
    }

    /// Number of messages in block `k` of a pass of queue pair `i`.
    pub open spec fn block_len(self, i: int, k: int) -> int {
        let rest = self.messages(i) - k * self.max_msg_per_block;
        if rest < self.max_msg_per_block {
            rest
        } else {
            self.max_msg_per_block as int
        }
    }

    /// Length of message `j` of a pass of queue pair `i`: the full maximum,
    /// or what is left of the share.
    pub open spec fn message_len(self, i: int, j: int) -> int {
        let rest = self.share(i) - j * self.max_message_size;
        if rest < self.max_message_size {
            rest
        } else {
            self.max_message_size as int
        }
    }

    /// Work request for message `j` of a pass of queue pair `i`.
    pub open spec fn planned_wr(self, i: int, j: int, signaled: bool) -> WorkRequest {
        let off = self.start(i) + j * self.max_message_size;
        WorkRequest {
            local_addr: (self.local_mr_start_addr + off) as u64,
            length: self.message_len(i, j) as u32,
            lkey: self.lkey,
            remote_addr: (self.remote_mr_start_addr + off) as u64,
            rkey: self.rkey,
            signaled,
        }
    }

    /// Block `k` of a pass of queue pair `i`: consecutive messages of which
    /// only the last one is signaled.
    pub open spec fn planned_block(self, i: int, k: int) -> Seq<WorkRequest> {
        let len = self.block_len(i, k);
        Seq::new(
            len as nat,
            |x: int| self.planned_wr(i, k * self.max_msg_per_block + x, x == len - 1),
        )
    }
}

/// `a / d` rounded up.
pub open spec fn ceil_div(a: int, d: int) -> int {
    a / d + if a % d != 0 {
        1int
    } else {
        0int
    }
}

/// Each queue pair gets `v / n` bytes, and the first `v % n` one byte more.
pub open spec fn share_of(v: int, n: int, i: int) -> int {
    v / n + if i < v % n {
        1int
    } else {
        0int
    }
}

/// Sum of the shares of the queue pairs before `i`.
pub open spec fn start_of(v: int, n: int, i: int) -> int {
    i * (v / n) + if i < v % n {
        i
    } else {
        v % n
    }
}

/// Total of the SGE lengths of a sequence of work requests.
pub open spec fn wrs_bytes(s: Seq<WorkRequest>) -> int
    decreases s.len(),
{
    if s.len() == 0 {
        0
    } else {
        wrs_bytes(s.drop_last()) + s.last().length
    }
}

/// Total of the SGE lengths of a sequence of blocks.
pub open spec fn blocks_bytes(s: Seq<MessageBlock>) -> int
    decreases s.len(),
{
    if s.len() == 0 {
        0
    } else {
        blocks_bytes(s.drop_last()) + wrs_bytes(s.last().wrs@)
    }
}

/// Total of the SGE lengths of a whole plan.
pub open spec fn plan_bytes(s: Seq<QpPlan>) -> int
    decreases s.len(),
{
    if s.len() == 0 {
        0
    } else {
        plan_bytes(s.drop_last()) + blocks_bytes(s.last().message_blocks@)
    }
}

/// Block `t` of queue pair `i` is block `t mod blocks_per_pass` of a pass,
/// with its count and size recorded.
pub open spec fn block_matches(p: PlanParams, i: int, t: int, blk: MessageBlock) -> bool {
    let k = t % p.blocks_per_pass(i);
    &&& blk.wrs@ == p.planned_block(i, k)
    &&& blk.message_count == blk.wrs@.len()
    &&& blk.message_block_size == wrs_bytes(blk.wrs@)
}

/// Queue pair `i`'s part of the plan: the blocks of one pass, repeated once
/// per iteration.
pub open spec fn qp_matches(p: PlanParams, i: int, q: QpPlan) -> bool {
    &&& q.message_blocks@.len() == p.iterator_factor * p.blocks_per_pass(i)
    &&& forall|t: int|
        0 <= t < q.message_blocks@.len() ==> #[trigger] block_matches(
            p,
            i,
            t,
            q.message_blocks@[t],
        )
    &&& q.qp_message_size == p.iterator_factor * p.share(i)
    &&& blocks_bytes(q.message_blocks@) == q.qp_message_size
}

/// The plan that the planner produces for `p`.
pub open spec fn plan_matches(p: PlanParams, r: Seq<QpPlan>) -> bool {
    &&& r.len() == p.queue_pairs
    &&& forall|i: int| 0 <= i < r.len() ==> #[trigger] qp_matches(p, i, r[i])
}

// ---------------------------------------------------------------- arithmetic

pub(crate) proof fn lemma_ceil_div(a: int, d: int, j: int)
    requires
        a >= 0,
        d >= 1,
        j >= 0,
    ensures
        (j < ceil_div(a, d)) == (j * d < a),
        ceil_div(a, d) >= 0,
        ceil_div(a, d) <= a,
{
    let q = a / d;
    let r = a % d;
    assert(a == q * d + r && 0 <= r < d) by {
        vstd::arithmetic::div_mod::lemma_fundamental_div_mod(a, d);
    }
    assert(q >= 0) by {
        vstd::arithmetic::div_mod::lemma_div_pos_is_pos(a, d);
    }
    if j < ceil_div(a, d) {
        if r == 0 {
            assert(j <= q - 1);
            assert(j * d <= (q - 1) * d) by (nonlinear_arith)
                requires j <= q - 1, d >= 1;
            assert((q - 1) * d == q * d - d) by (nonlinear_arith);
        } else {
            assert(j <= q);
            assert(j * d <= q * d) by (nonlinear_arith)
                requires j <= q, d >= 1;
        }
    } else {
        if r == 0 {
            assert(j >= q);
            assert(j * d >= q * d) by (nonlinear_arith)
                requires j >= q, d >= 1;
        } else {
            assert(j >= q + 1);
            assert(j * d >= (q + 1) * d) by (nonlinear_arith)
                requires j >= q + 1, d >= 1;
            assert((q + 1) * d == q * d + d) by (nonlinear_arith);
        }
    }
    if r != 0 {
        assert(q * d >= q) by (nonlinear_arith)
            requires q >= 0, d >= 1;
        if q * d == q {
            assert(d == 1 || q == 0) by (nonlinear_arith)
                requires q * d == q, d >= 1, q >= 0;
        }
    } else {
        assert(q * d >= q) by (nonlinear_arith)
            requires q >= 0, d >= 1;
    }
}

proof fn lemma_shares(v: int, n: int, i: int)
    requires
        v >= 0,
        n >= 1,
        0 <= i < n,
    ensures
        start_of(v, n, i + 1) == start_of(v, n, i) + share_of(v, n, i),
        0 <= start_of(v, n, i),
        start_of(v, n, i) + share_of(v, n, i) <= v,
        0 <= share_of(v, n, i) <= v,
        start_of(v, n, 0) == 0,
        start_of(v, n, n) == v,
{
    let q = v / n;
    let r = v % n;
    assert(v == n * q + r && 0 <= r < n) by {
        vstd::arithmetic::div_mod::lemma_fundamental_div_mod(v, n);
    }
    assert(q >= 0) by {
        vstd::arithmetic::div_mod::lemma_div_pos_is_pos(v, n);
    }
    assert((i + 1) * q == i * q + q) by (nonlinear_arith);
    assert(i * q >= 0) by (nonlinear_arith)
        requires i >= 0, q >= 0;
    assert((i + 1) * q <= n * q) by (nonlinear_arith)
        requires i + 1 <= n, q >= 0;
    assert(0 * q == 0);
    assert(n * q == q * n) by (nonlinear_arith);
    if q >= 1 {
        assert(q <= n * q) by (nonlinear_arith)
            requires q >= 1, n >= 1;
    }
}

proof fn lemma_wrs_push(s: Seq<WorkRequest>, w: WorkRequest)
    ensures
        wrs_bytes(s.push(w)) == wrs_bytes(s) + w.length,
{
    assert(s.push(w).drop_last() =~= s);
}

proof fn lemma_blocks_push(s: Seq<MessageBlock>, b: MessageBlock)
    ensures
        blocks_bytes(s.push(b)) == blocks_bytes(s) + wrs_bytes(b.wrs@),
{
    assert(s.push(b).drop_last() =~= s);
}

proof fn lemma_plan_push(s: Seq<QpPlan>, q: QpPlan)
    ensures
        plan_bytes(s.push(q)) == plan_bytes(s) + blocks_bytes(q.message_blocks@),
{
    assert(s.push(q).drop_last() =~= s);
}

// ---------------------------------------------------------------- emission

/// Appends the blocks of one pass of queue pair `i` to `blocks`.
fn emit_pass(p: &PlanParams, i: u64, start: u64, share: u64, blocks: &mut Vec<MessageBlock>)
    requires
        p.valid(),
        i < p.queue_pairs,
        start == p.start(i as int),
        share == p.share(i as int),
    ensures
        final(blocks)@.len() == old(blocks)@.len() + p.blocks_per_pass(i as int),
        forall|t: int|
            0 <= t < old(blocks)@.len() ==> #[trigger] final(blocks)@[t] == old(blocks)@[t],
        forall|k: int|
            0 <= k < p.blocks_per_pass(i as int) ==> {
                let blk = #[trigger] final(blocks)@[old(blocks)@.len() + k];
                &&& blk.wrs@ == p.planned_block(i as int, k)
                &&& blk.message_count == blk.wrs@.len()
                &&& blk.message_block_size == wrs_bytes(blk.wrs@)
            },
        blocks_bytes(final(blocks)@) == blocks_bytes(old(blocks)@) + share,
{
    let ghost ii = i as int;
    proof {
        lemma_shares(p.volume as int, p.queue_pairs as int, ii);
    }
    let m = p.max_message_size;
    let b = p.max_msg_per_block;
    proof {
        lemma_ceil_div(share as int, m as int, 0);
        lemma_ceil_div(p.messages(ii), b as int, 0);
    }
    let count: u64 = share / m + if share % m != 0 {
        1u64
    } else {
        0u64
    };
    let bpp: u64 = count / b + if count % b != 0 {
        1u64
    } else {
        0u64
    };
    assert(count == p.messages(ii));
    assert(bpp == p.blocks_per_pass(ii));
    proof {
        lemma_ceil_div(share as int, m as int, 0);
        lemma_ceil_div(count as int, b as int, 0);
    }
    let ghost first = old(blocks)@.len();
    let ghost old_bytes = blocks_bytes(old(blocks)@);
    let mut k: u64 = 0;
    let mut j: u64 = 0;
    let mut done: u64 = 0;
    while k < bpp
        invariant
            p.valid(),
            ii == i,
            i < p.queue_pairs,
            start == p.start(ii),
            share == p.share(ii),
            start + share <= p.volume,
            m == p.max_message_size,
            b == p.max_msg_per_block,
            count == p.messages(ii),
            bpp == p.blocks_per_pass(ii),
            0 <= count <= share,
            k <= bpp,
            j <= count,
            k < bpp ==> j == k * b,
            k == bpp ==> j == count,
            j < count ==> done == j * m,
            j == count ==> done == share,
            blocks@.len() == first + k,
            forall|t: int| 0 <= t < first ==> #[trigger] blocks@[t] == old(blocks)@[t],
            forall|kk: int|
                0 <= kk < k ==> {
                    let blk = #[trigger] blocks@[first + kk];
                    &&& blk.wrs@ == p.planned_block(ii, kk)
                    &&& blk.message_count == blk.wrs@.len()
                    &&& blk.message_block_size == wrs_bytes(blk.wrs@)
                },
            blocks_bytes(blocks@) == old_bytes + done,
        decreases bpp - k,
    {
        proof {
            lemma_ceil_div(count as int, b as int, k as int);
            lemma_ceil_div(count as int, b as int, (k + 1) as int);
            assert((k + 1) * b == k * b + b) by (nonlinear_arith);
        }
        let len: u64 = if count - j < b {
            count - j
        } else {
            b
        };
        assert(len == p.block_len(ii, k as int));
        let mut wrs: Vec<WorkRequest> = Vec::new();
        let mut x: u64 = 0;
        let mut bytes: u64 = 0;
        let ghost done0 = done;
        while x < len
            invariant
                p.valid(),
                ii == i,
                start == p.start(ii),
                share == p.share(ii),
                start + share <= p.volume,
                m == p.max_message_size,
                b == p.max_msg_per_block,
                count == p.messages(ii),
                len == p.block_len(ii, k as int),
                1 <= len <= b,
                j == k * b,
                j + len <= count,
                x <= len,
                j + x < count ==> done == (j + x) * m,
                j + x == count ==> done == share,
                done == done0 + bytes,
                wrs@.len() == x,
                forall|y: int|
                    0 <= y < x ==> #[trigger] wrs@[y] == p.planned_wr(
                        ii,
                        k * b + y,
                        y == len - 1,
                    ),
                bytes == wrs_bytes(wrs@),
            decreases len - x,
        {
            let ghost jj = (j + x) as int;
            proof {
                lemma_ceil_div(share as int, m as int, jj);
                lemma_ceil_div(share as int, m as int, jj + 1);
                assert((jj + 1) * m == jj * m + m) by (nonlinear_arith);
            }
            let rest = share - done;
            let msg = if rest < m {
                rest
            } else {
                m
            };
            assert(msg == p.message_len(ii, jj));
            let w = WorkRequest {
                local_addr: p.local_mr_start_addr + start + done,
                length: msg as u32,
                lkey: p.lkey,
                remote_addr: p.remote_mr_start_addr + start + done,
                rkey: p.rkey,
                signaled: x + 1 == len,
            };
            assert(w == p.planned_wr(ii, k * b + x, x == len - 1));
            proof {
                lemma_wrs_push(wrs@, w);
            }
            wrs.push(w);
            done = done + msg;
            bytes = bytes + msg;
            x = x + 1;
        }
        assert(wrs@ =~= p.planned_block(ii, k as int));
        let blk = MessageBlock { message_count: wrs.len(), wrs, message_block_size: bytes };
        proof {
            lemma_blocks_push(blocks@, blk);
        }
        blocks.push(blk);
        j = j + len;
        k = k + 1;
    }
}

/// Builds the plan of queue pair `i`: one pass per iteration.
fn build_qp(p: &PlanParams, i: u64, start: u64) -> (q: QpPlan)
    requires
        p.valid(),
        i < p.queue_pairs,
        start == p.start(i as int),
    ensures
        qp_matches(*p, i as int, q),
{
    let ghost ii = i as int;
    proof {
        lemma_shares(p.volume as int, p.queue_pairs as int, ii);
    }
    let share: u64 = p.volume / p.queue_pairs + if i < p.volume % p.queue_pairs {
        1u64
    } else {
        0u64
    };
    let ghost bpp = p.blocks_per_pass(ii);
    proof {
        lemma_ceil_div(share as int, p.max_message_size as int, 0);
        lemma_ceil_div(p.messages(ii), p.max_msg_per_block as int, 0);
        assert(share * p.iterator_factor <= p.volume * p.iterator_factor) by (nonlinear_arith)
            requires share <= p.volume;
        assert(bpp * p.iterator_factor <= p.volume * p.iterator_factor) by (nonlinear_arith)
            requires bpp <= p.volume;
    }
    let mut blocks: Vec<MessageBlock> = Vec::new();
    let mut total: u64 = 0;
    let mut pass: u64 = 0;
    while pass < p.iterator_factor
        invariant
            p.valid(),
            ii == i,
            i < p.queue_pairs,
            start == p.start(ii),
            share == p.share(ii),
            bpp == p.blocks_per_pass(ii),
            0 <= bpp <= share <= p.volume,
            share * p.iterator_factor <= p.volume * p.iterator_factor <= u64::MAX,
            bpp * p.iterator_factor <= u64::MAX,
            pass <= p.iterator_factor,
            blocks@.len() == pass * bpp,
            total == pass * share,
            blocks_bytes(blocks@) == total,
            forall|t: int|
                0 <= t < blocks@.len() ==> #[trigger] block_matches(*p, ii, t, blocks@[t]),
        decreases p.iterator_factor - pass,
    {
        proof {
            assert((pass + 1) * bpp == pass * bpp + bpp) by (nonlinear_arith);
            assert((pass + 1) * share == pass * share + share) by (nonlinear_arith);
            assert((pass + 1) * bpp <= p.iterator_factor * bpp) by (nonlinear_arith)
                requires pass + 1 <= p.iterator_factor, bpp >= 0;
            assert((pass + 1) * share <= p.iterator_factor * share) by (nonlinear_arith)
                requires pass + 1 <= p.iterator_factor, share >= 0;
            assert(p.iterator_factor * share == share * p.iterator_factor) by (nonlinear_arith);
        }
        let ghost before = blocks@;
        emit_pass(p, i, start, share, &mut blocks);
        proof {
            assert forall|t: int| 0 <= t < blocks@.len() implies #[trigger] block_matches(
                *p,
                ii,
                t,
                blocks@[t],
            ) by {
                if t < before.len() {
                    assert(blocks@[t] == before[t]);
                    assert(block_matches(*p, ii, t, before[t]));
                } else {
                    let k = t - before.len();
                    assert(blocks@[before.len() + k] == blocks@[t]);
                    assert(t == pass * bpp + k);
                    assert(t % bpp == k) by {
                        vstd::arithmetic::div_mod::lemma_fundamental_div_mod_converse(
                            t,
                            bpp,
                            pass as int,
                            k,
                        );
                    }
                }
            }
        }
        total = total + share;
        pass = pass + 1;
    }
    assert(total == p.iterator_factor * p.share(ii)) by (nonlinear_arith)
        requires total == pass * share, pass == p.iterator_factor, share == p.share(ii);
    assert(blocks@.len() == p.iterator_factor * bpp) by (nonlinear_arith)
        requires blocks@.len() == pass * bpp, pass == p.iterator_factor;
    QpPlan { message_blocks: blocks, qp_message_size: total }
}

/// Plans a transfer of `volume` bytes over `queue_pairs` queue pairs,
/// repeated `iterator_factor` times over the same buffer. Each queue pair
/// gets `volume / queue_pairs` bytes and the first `volume % queue_pairs` one
/// byte more; its share is cut into messages of `max_message_size` bytes but
/// the last, which carries the rest; messages are grouped into blocks of at
/// most `max_msg_per_block`, each signaled at its tail only.
pub fn distribute_data(
    volume: u64,
    queue_pairs: u64,
    max_message_size: u64,
    max_msg_per_block: u64,
    iterator_factor: u64,
    local_mr_start_addr: u64,
    remote_mr_start_addr: u64,
    lkey: u32,
    rkey: u32,
) -> (r: Vec<QpPlan>)
    requires
        (PlanParams {
            volume,
            queue_pairs,
            max_message_size,
            max_msg_per_block,
            iterator_factor,
            local_mr_start_addr,
            remote_mr_start_addr,
            lkey,
            rkey,
        }).valid(),
    ensures
        plan_matches(
            (PlanParams {
                volume,
                queue_pairs,
                max_message_size,
                max_msg_per_block,
                iterator_factor,
                local_mr_start_addr,
                remote_mr_start_addr,
                lkey,
                rkey,
            }),
            r@,
        ),
        plan_bytes(r@) == volume * iterator_factor,
{
    let p = PlanParams {
        volume,
        queue_pairs,
        max_message_size,
        max_msg_per_block,
        iterator_factor,
        local_mr_start_addr,
        remote_mr_start_addr,
        lkey,
        rkey,
    };
    let mut queues: Vec<QpPlan> = Vec::new();
    let mut start: u64 = 0;
    let mut i: u64 = 0;
    proof {
        lemma_shares(volume as int, queue_pairs as int, 0);
    }
    while i < queue_pairs
        invariant
            p.valid(),
            p == (PlanParams {
                volume,
                queue_pairs,
                max_message_size,
                max_msg_per_block,
                iterator_factor,
                local_mr_start_addr,
                remote_mr_start_addr,
                lkey,
                rkey,
            }),
            i <= queue_pairs,
            start == p.start(i as int),
            queues@.len() == i,
            forall|ii: int| 0 <= ii < i ==> #[trigger] qp_matches(p, ii, queues@[ii]),
            plan_bytes(queues@) == iterator_factor * start,
        decreases queue_pairs - i,
    {
        proof {
            lemma_shares(volume as int, queue_pairs as int, i as int);
        }
        let q = build_qp(&p, i, start);
        let share: u64 = volume / queue_pairs + if i < volume % queue_pairs {
            1u64
        } else {
            0u64
        };
        assert(share == p.share(i as int));
        assert(start + share <= volume);
        proof {
            lemma_plan_push(queues@, q);
            assert(iterator_factor * (start + share) == iterator_factor * start + iterator_factor
                * share) by (nonlinear_arith);
        }
        queues.push(q);
        start = start + share;
        i = i + 1;
    }
    proof {
        lemma_shares(volume as int, queue_pairs as int, 0);
        if queue_pairs > 0 {
            lemma_shares(volume as int, queue_pairs as int, queue_pairs - 1);
        }
        assert(iterator_factor * volume == volume * iterator_factor) by (nonlinear_arith);
    }
    queues
}

/// Plans a transfer after checking its inputs: `ConfigParse` when they
/// are not ones the planner accepts.
pub fn plan_transfer(p: &PlanParams) -> (r: Result<Vec<QpPlan>, crate::error::ErrorKind>)
    ensures
        p.valid() ==> (r matches Ok(plan) && plan_matches(*p, plan@) && plan_bytes(plan@)
            == p.volume * p.iterator_factor),
        !p.valid() ==> r == Err::<Vec<QpPlan>, crate::error::ErrorKind>(
            crate::error::ErrorKind::ConfigParse,
        ),
{
    if p.queue_pairs == 0 || p.max_message_size == 0 || p.max_message_size > 0xffff_ffff
        || p.max_msg_per_block == 0 || p.local_mr_start_addr > u64::MAX - p.volume
        || p.remote_mr_start_addr > u64::MAX - p.volume {
        return Err(crate::error::ErrorKind::ConfigParse);
    }
    if p.iterator_factor != 0 && p.volume > u64::MAX / p.iterator_factor {
        proof {
            assert(p.volume * p.iterator_factor > u64::MAX) by (nonlinear_arith)
                requires
                    p.iterator_factor >= 1,
                    p.volume > u64::MAX / p.iterator_factor,
            ;
        }
        return Err(crate::error::ErrorKind::ConfigParse);
    }
    proof {
        if p.iterator_factor != 0 {
            assert(p.volume * p.iterator_factor <= u64::MAX) by (nonlinear_arith)
                requires
                    p.iterator_factor >= 1,
                    p.volume <= u64::MAX / p.iterator_factor,
            ;
        }
    }
    Ok(
        distribute_data(
            p.volume,
            p.queue_pairs,
            p.max_message_size,
            p.max_msg_per_block,
            p.iterator_factor,
            p.local_mr_start_addr,
            p.remote_mr_start_addr,
            p.lkey,
            p.rkey,
        ),
    )
}

impl QpPlan {
    /// The number of messages in each block, in order.
    pub fn block_counts(&self) -> (r: Vec<usize>)
        ensures
            r@ == self.message_blocks@.map_values(|blk: MessageBlock| blk.message_count),
    {
        let mut r: Vec<usize> = Vec::new();
        let mut k: usize = 0;
        while k < self.message_blocks.len()
            invariant
                k <= self.message_blocks@.len(),
                r@ == self.message_blocks@.subrange(0, k as int).map_values(
                    |blk: MessageBlock| blk.message_count,
                ),
            decreases self.message_blocks@.len() - k,
        {
            r.push(self.message_blocks[k].message_count);
            k = k + 1;
            assert(r@ =~= self.message_blocks@.subrange(0, k as int).map_values(
                |blk: MessageBlock| blk.message_count,
            ));
        }
        assert(self.message_blocks@.subrange(0, k as int) =~= self.message_blocks@);
        r
    }
}

// ---------------------------------------------------------------- laws

/// The work-request schedule of a plan: for each queue pair, the work
/// requests of each of its blocks.
pub open spec fn schedule(r: Seq<QpPlan>) -> Seq<Seq<Seq<WorkRequest>>> {
    r.map_values(|q: QpPlan| q.message_blocks@.map_values(|blk: MessageBlock| blk.wrs@))
}

/// Number of queue pairs that carry at least one block.
pub open spec fn active_qps(r: Seq<QpPlan>) -> int
    decreases r.len(),
{
    if r.len() == 0 {
        0
    } else {
        active_qps(r.drop_last()) + if r.last().message_blocks@.len() > 0 {
            1int
        } else {
            0int
        }
    }
}

/// Every block of a plan is non-empty, holds at most `max_msg_per_block`
/// work requests, and exactly one of them is signaled: the last.
pub proof fn lemma_block_signaled_at_tail(p: PlanParams, r: Seq<QpPlan>, i: int, t: int)
    requires
        p.valid(),
        plan_matches(p, r),
        0 <= i < r.len(),
        0 <= t < r[i].message_blocks@.len(),
    ensures
        ({
            let wrs = r[i].message_blocks@[t].wrs@;
            &&& 1 <= wrs.len() <= p.max_msg_per_block
            &&& wrs.last().signaled
            &&& forall|x: int| 0 <= x < wrs.len() - 1 ==> !(#[trigger] wrs[x]).signaled
        }),
{
    assert(qp_matches(p, i, r[i]));
    assert(block_matches(p, i, t, r[i].message_blocks@[t]));
    let bpp = p.blocks_per_pass(i);
    let f = p.iterator_factor as int;
    lemma_shares(p.volume as int, p.queue_pairs as int, i);
    lemma_ceil_div(p.share(i), p.max_message_size as int, 0);
    if bpp <= 0 {
        assert(f * bpp <= 0) by (nonlinear_arith)
            requires f >= 0, bpp <= 0;
    }
    let k = t % bpp;
    assert(0 <= k < bpp) by {
        vstd::arithmetic::div_mod::lemma_mod_bound(t, bpp);
    }
    lemma_ceil_div(p.messages(i), p.max_msg_per_block as int, k);
}

/// The planner is deterministic: two plans for the same inputs have the same
/// work-request schedule, and the same counts and sizes.
pub proof fn lemma_plan_deterministic(p: PlanParams, r1: Seq<QpPlan>, r2: Seq<QpPlan>)
    requires
        plan_matches(p, r1),
        plan_matches(p, r2),
    ensures
        schedule(r1) == schedule(r2),
        forall|i: int| 0 <= i < r1.len() ==> r1[i].qp_message_size == r2[i].qp_message_size,
        forall|i: int, t: int|
            0 <= i < r1.len() && 0 <= t < r1[i].message_blocks@.len() ==> {
                &&& r1[i].message_blocks@[t].message_count
                    == r2[i].message_blocks@[t].message_count
                &&& r1[i].message_blocks@[t].message_block_size
                    == r2[i].message_blocks@[t].message_block_size
            },
{
    assert forall|i: int| 0 <= i < r1.len() implies schedule(r1)[i] =~= schedule(r2)[i] by {
        assert(qp_matches(p, i, r1[i]));
        assert(qp_matches(p, i, r2[i]));
        assert forall|t: int| 0 <= t < r1[i].message_blocks@.len() implies r1[i].message_blocks@[
            t
        ].wrs@ == r2[i].message_blocks@[t].wrs@ by {
            assert(block_matches(p, i, t, r1[i].message_blocks@[t]));
            assert(block_matches(p, i, t, r2[i].message_blocks@[t]));
        }
    }
    assert(schedule(r1) =~= schedule(r2));
    assert forall|i: int, t: int|
        0 <= i < r1.len() && 0 <= t < r1[i].message_blocks@.len() implies {
        &&& r1[i].message_blocks@[t].message_count == r2[i].message_blocks@[t].message_count
        &&& r1[i].message_blocks@[t].message_block_size
            == r2[i].message_blocks@[t].message_block_size
    } by {
        assert(qp_matches(p, i, r1[i]));
        assert(qp_matches(p, i, r2[i]));
        assert(block_matches(p, i, t, r1[i].message_blocks@[t]));
        assert(block_matches(p, i, t, r2[i].message_blocks@[t]));
    }
    assert forall|i: int| 0 <= i < r1.len() implies r1[i].qp_message_size
        == r2[i].qp_message_size by {
        assert(qp_matches(p, i, r1[i]));
        assert(qp_matches(p, i, r2[i]));
    }
}

proof fn lemma_active_prefix(p: PlanParams, r: Seq<QpPlan>, k: int)
    requires
        p.valid(),
        plan_matches(p, r),
        p.volume < p.queue_pairs,
        p.iterator_factor >= 1,
        0 <= k <= r.len(),
    ensures
        active_qps(r.take(k)) == if k < p.volume {
            k
        } else {
            p.volume as int
        },
    decreases k,
{
    let v = p.volume as int;
    let n = p.queue_pairs as int;
    if k > 0 {
        lemma_active_prefix(p, r, k - 1);
        assert(r.take(k).drop_last() =~= r.take(k - 1));
        let i = k - 1;
        assert(qp_matches(p, i, r[i]));
        assert(v / n == 0) by {
            vstd::arithmetic::div_mod::lemma_basic_div(v, n);
        }
        assert(v % n == v) by {
            vstd::arithmetic::div_mod::lemma_small_mod(v as nat, n as nat);
        }
        let m = p.max_message_size as int;
        let b = p.max_msg_per_block as int;
        let f = p.iterator_factor as int;
        if i < v {
            assert(p.share(i) == 1);
            assert(1int / m == if m == 1 { 1int } else { 0int }) by {
                if m > 1 {
                    vstd::arithmetic::div_mod::lemma_basic_div(1, m);
                } else {
                    vstd::arithmetic::div_mod::lemma_div_by_self(m);
                }
            }
            assert(1int % m == if m == 1 { 0int } else { 1int }) by {
                if m > 1 {
                    vstd::arithmetic::div_mod::lemma_small_mod(1, m as nat);
                }
            }
            assert(p.messages(i) == 1);
            assert(1int / b == if b == 1 { 1int } else { 0int }) by {
                if b > 1 {
                    vstd::arithmetic::div_mod::lemma_basic_div(1, b);
                } else {
                    vstd::arithmetic::div_mod::lemma_div_by_self(b);
                }
            }
            assert(1int % b == if b == 1 { 0int } else { 1int }) by {
                if b > 1 {
                    vstd::arithmetic::div_mod::lemma_small_mod(1, b as nat);
                }
            }
            assert(p.blocks_per_pass(i) == 1);
            assert(r[i].message_blocks@.len() > 0);
        } else {
            assert(p.share(i) == 0);
            vstd::arithmetic::div_mod::lemma_div_of0(m);
            vstd::arithmetic::div_mod::lemma_div_of0(b);
            assert(0int % m == 0) by {
                vstd::arithmetic::div_mod::lemma_small_mod(0, m as nat);
            }
            assert(0int % b == 0) by {
                vstd::arithmetic::div_mod::lemma_small_mod(0, b as nat);
            }
            assert(p.messages(i) == 0);
            assert(p.blocks_per_pass(i) == 0);
            assert(f * 0 == 0);
            assert(r[i].message_blocks@.len() == 0);
        }
    } else {
        assert(r.take(0).len() == 0);
    }
}

/// With fewer bytes than queue pairs and messages of one byte, the number
/// of queue pairs that carry data is `volume / max_message_size`: one per
/// byte; the other queue pairs get no blocks.
pub proof fn lemma_active_qps_small_volume(p: PlanParams, r: Seq<QpPlan>)
    requires
        p.valid(),
        plan_matches(p, r),
        p.volume < p.queue_pairs,
        p.iterator_factor >= 1,
        p.max_message_size == 1 || p.volume == 0,
    ensures
        active_qps(r) == p.volume / p.max_message_size,
{
    lemma_active_prefix(p, r, r.len() as int);
    assert(r.take(r.len() as int) =~= r);
    if p.volume == 0 {
        assert(0int / (p.max_message_size as int) == 0) by {
            vstd::arithmetic::div_mod::lemma_basic_div(0, p.max_message_size as int);
        }
    }
}

/// Each queue pair carries `volume / queue_pairs` bytes per pass, and the
/// first `volume % queue_pairs` queue pairs one byte more.
pub proof fn lemma_remainder_to_first_qps(p: PlanParams, r: Seq<QpPlan>, i: int)
    requires
        plan_matches(p, r),
        0 <= i < r.len(),
    ensures
        blocks_bytes(r[i].message_blocks@) == r[i].qp_message_size,
        r[i].qp_message_size == p.iterator_factor * (p.volume / p.queue_pairs + if i < p.volume
            % p.queue_pairs {
            1int
        } else {
            0int
        }),
{
    assert(qp_matches(p, i, r[i]));
}

/// Where a queue pair's share is not a multiple of the message size, the
/// last message it sends carries the rest of that division; with one queue
/// pair, the rest of the volume.
pub proof fn lemma_final_message_residue(p: PlanParams, r: Seq<QpPlan>, i: int)
    requires
        p.valid(),
        plan_matches(p, r),
        0 <= i < r.len(),
        p.iterator_factor >= 1,
        p.share(i) % (p.max_message_size as int) != 0,
    ensures
        r[i].message_blocks@.len() > 0,
        r[i].message_blocks@.last().wrs@.len() > 0,
        r[i].message_blocks@.last().wrs@.last().length == p.share(i) % (
        p.max_message_size as int),
        p.queue_pairs == 1 ==> r[i].message_blocks@.last().wrs@.last().length == p.volume
            % p.max_message_size,
{
    let s = p.share(i);
    let m = p.max_message_size as int;
    let b = p.max_msg_per_block as int;
    let f = p.iterator_factor as int;
    let c = p.messages(i);
    let bpp = p.blocks_per_pass(i);
    lemma_shares(p.volume as int, p.queue_pairs as int, i);
    assert(qp_matches(p, i, r[i]));
    assert(s == (s / m) * m + s % m && 0 <= s % m < m) by {
        vstd::arithmetic::div_mod::lemma_fundamental_div_mod(s, m);
    }
    assert(s / m >= 0) by {
        vstd::arithmetic::div_mod::lemma_div_pos_is_pos(s, m);
    }
    assert(c == s / m + 1);
    lemma_ceil_div(c, b, 0);
    lemma_ceil_div(c, b, bpp - 1);
    lemma_ceil_div(c, b, bpp);
    assert(bpp >= 1);
    let len = r[i].message_blocks@.len();
    assert(len == f * bpp);
    assert(f * bpp >= bpp) by (nonlinear_arith)
        requires f >= 1, bpp >= 1;
    let t = len - 1;
    assert(t == (f - 1) * bpp + (bpp - 1)) by (nonlinear_arith)
        requires t == f * bpp - 1;
    assert(t % bpp == bpp - 1) by {
        assert((f - 1) * bpp >= 0) by (nonlinear_arith)
            requires f >= 1, bpp >= 1;
        vstd::arithmetic::div_mod::lemma_fundamental_div_mod_converse(t, bpp, f - 1, bpp - 1);
    }
    assert(block_matches(p, i, t, r[i].message_blocks@[t]));
    let k = bpp - 1;
    assert(k * b + b == bpp * b) by (nonlinear_arith)
        requires k == bpp - 1;
    let bl = p.block_len(i, k);
    assert(bl == c - k * b);
    assert((c - 1) * m == (s / m) * m) by (nonlinear_arith)
        requires c == s / m + 1;
    assert(p.message_len(i, c - 1) == s % m);
    assert(k * b + (bl - 1) == c - 1);
    if p.queue_pairs == 1 {
        assert(p.volume as int / 1 == p.volume as int);
        assert(p.volume as int % 1 == 0);
    }
}

/// Message `j` of a pass of queue pair `i` covers byte offset `o` of the
/// buffer.
pub open spec fn covers(p: PlanParams, i: int, j: int, o: int) -> bool {
    &&& 0 <= i < p.queue_pairs
    &&& 0 <= j < p.messages(i)
    &&& p.start(i) + j * p.max_message_size <= o
    &&& o < p.start(i) + j * p.max_message_size + p.message_len(i, j)
}

proof fn lemma_start_monotone(p: PlanParams, a: int, b: int)
    requires
        p.valid(),
        0 <= a <= b <= p.queue_pairs,
    ensures
        p.start(a) <= p.start(b),
    decreases b - a,
{
    if a < b {
        lemma_start_monotone(p, a, b - 1);
        lemma_shares(p.volume as int, p.queue_pairs as int, b - 1);
    }
}

proof fn lemma_find_qp(p: PlanParams, o: int, k: int) -> (i: int)
    requires
        p.valid(),
        0 <= k < p.queue_pairs,
        p.start(k) <= o < p.volume,
    ensures
        k <= i < p.queue_pairs,
        p.start(i) <= o < p.start(i) + p.share(i),
    decreases p.queue_pairs - k,
{
    lemma_shares(p.volume as int, p.queue_pairs as int, k);
    if o < p.start(k) + p.share(k) {
        k
    } else {
        if k + 1 == p.queue_pairs {
            lemma_shares(p.volume as int, p.queue_pairs as int, 0);
        }
        lemma_find_qp(p, o, k + 1)
    }
}

/// In every pass, each byte offset of the buffer is written by exactly one
/// message, and a message reads and writes the same offset on the local
/// and the remote buffer: the remote buffer receives the local one byte for
/// byte.
pub proof fn lemma_pass_covers_buffer(p: PlanParams, o: int)
    requires
        p.valid(),
        0 <= o < p.volume,
    ensures
        exists|i: int, j: int| #[trigger] covers(p, i, j, o),
        forall|i1: int, j1: int, i2: int, j2: int|
            #[trigger] covers(p, i1, j1, o) && #[trigger] covers(p, i2, j2, o) ==> i1 == i2 && j1
                == j2,
        forall|i: int, j: int, s: bool|
            0 <= i < p.queue_pairs && 0 <= j < p.messages(i) ==> {
                let w = #[trigger] p.planned_wr(i, j, s);
                &&& w.local_addr - p.local_mr_start_addr == p.start(i) + j * p.max_message_size
                &&& w.remote_addr - p.remote_mr_start_addr == p.start(i) + j * p.max_message_size
            },
{
    let m = p.max_message_size as int;
    lemma_shares(p.volume as int, p.queue_pairs as int, 0);
    let i = lemma_find_qp(p, o, 0);
    lemma_shares(p.volume as int, p.queue_pairs as int, i);
    let x = o - p.start(i);
    let j = x / m;
    assert(x == j * m + x % m && 0 <= x % m < m) by {
        vstd::arithmetic::div_mod::lemma_fundamental_div_mod(x, m);
    }
    assert(j >= 0) by {
        vstd::arithmetic::div_mod::lemma_div_pos_is_pos(x, m);
    }
    lemma_ceil_div(p.share(i), m, j);
    assert(covers(p, i, j, o));
    assert forall|i1: int, j1: int, i2: int, j2: int|
        #[trigger] covers(p, i1, j1, o) && #[trigger] covers(p, i2, j2, o) implies i1 == i2 && j1
        == j2 by {
        lemma_cover_unique(p, i1, j1, o, i, j);
        lemma_cover_unique(p, i2, j2, o, i, j);
    }
    assert forall|i1: int, j1: int, s: bool|
        0 <= i1 < p.queue_pairs && 0 <= j1 < p.messages(i1) implies {
        let w = #[trigger] p.planned_wr(i1, j1, s);
        &&& w.local_addr - p.local_mr_start_addr == p.start(i1) + j1 * p.max_message_size
        &&& w.remote_addr - p.remote_mr_start_addr == p.start(i1) + j1 * p.max_message_size
    } by {
        lemma_shares(p.volume as int, p.queue_pairs as int, i1);
        lemma_ceil_div(p.share(i1), m, j1);
        assert(j1 * m >= 0) by (nonlinear_arith)
            requires j1 >= 0, m >= 1;
    }
}

proof fn lemma_cover_unique(p: PlanParams, i1: int, j1: int, o: int, i: int, j: int)
    requires
        p.valid(),
        covers(p, i1, j1, o),
        0 <= i < p.queue_pairs,
        p.start(i) <= o < p.start(i) + p.share(i),
        j == (o - p.start(i)) / (p.max_message_size as int),
    ensures
        i1 == i,
        j1 == j,
{
    let m = p.max_message_size as int;
    lemma_shares(p.volume as int, p.queue_pairs as int, i1);
    lemma_shares(p.volume as int, p.queue_pairs as int, i);
    lemma_ceil_div(p.share(i1), m, j1);
    assert(j1 * m >= 0) by (nonlinear_arith)
        requires j1 >= 0, m >= 1;
    if i1 < i {
        lemma_start_monotone(p, i1 + 1, i);
    }
    if i < i1 {
        lemma_start_monotone(p, i + 1, i1);
    }
    let x = o - p.start(i);
    assert(0 <= x - j1 * m < m);
    vstd::arithmetic::div_mod::lemma_fundamental_div_mod_converse(x, m, j1, x - j1 * m);
}

} // verus!
