//! Completion handling: the poll, arm, poll, wait cycle that drains a
//! completion queue, the check of what was harvested, and the schedule of
//! drains of one queue pair's task.
use vstd::prelude::*;
use crate::error::ErrorKind;
use crate::planner::{MessageBlock, PlanParams, QpPlan, plan_matches, qp_matches, block_matches};

verus! {

/// Most completions taken by one poll.
pub const POLL_BATCH: u32 = 2000;

/// Blocks or messages a queue pair's task lets pile up before it drains.
pub const BATCH_SIZE: u64 = 2000;

/// Status of a successful work completion.
pub const WC_SUCCESS: u32 = 0;

/// Where a drain stands.
#[derive(Clone, Copy, Debug, PartialEq, Eq, Structural)]
pub enum DrainPhase {
    /// Poll the queue.
    Poll,
    /// Ask for a notification of the next completion.
    Arm,
    /// Poll again, after arming.
    Repoll,
    /// Block until the completion channel delivers an event, then acknowledge it.
    Wait,
    /// Enough completions were harvested.
    Done,
    /// A call failed.
    Failed(ErrorKind),
}

/// What the caller has to do next.
#[derive(Clone, Copy, Debug, PartialEq, Eq, Structural)]
pub enum DrainAction {
    PollCq,
    ArmNotify,
    WaitEvent,
    Finished(u64),
    Fail(ErrorKind),
}

/// The decisions of a drain that must harvest `required` completions.
#[derive(Clone, Copy, Debug, PartialEq, Eq, Structural)]
pub struct CompletionDrain {
    pub required: u64,
    pub total: u64,
    pub phase: DrainPhase,
}

/// `a + b`, held at `u64::MAX`.
pub open spec fn add_capped(a: u64, b: int) -> u64 {
    if a + b > u64::MAX {
        u64::MAX
    } else {
        (a + b) as u64
    }
}

/// The drain after the current action returned `ret`.
pub open spec fn drain_next(d: CompletionDrain, ret: i32) -> CompletionDrain {
    match d.phase {
        DrainPhase::Poll | DrainPhase::Repoll => if ret < 0 {
            CompletionDrain { phase: DrainPhase::Failed(ErrorKind::PollError(ret)), ..d }
        } else {
            let total = add_capped(d.total, ret as int);
            let phase = if total >= d.required {
                DrainPhase::Done
            } else if d.phase == DrainPhase::Poll {
                DrainPhase::Arm
            } else {
                DrainPhase::Wait
            };
            CompletionDrain { total, phase, ..d }
        },
        DrainPhase::Arm => if ret != 0 {
            CompletionDrain { phase: DrainPhase::Failed(ErrorKind::NotifyError(ret)), ..d }
        } else {
            CompletionDrain { phase: DrainPhase::Repoll, ..d }
        },
        DrainPhase::Wait => if ret != 0 {
            CompletionDrain { phase: DrainPhase::Failed(ErrorKind::EventError(ret)), ..d }
        } else {
            CompletionDrain { phase: DrainPhase::Poll, ..d }
        },
        _ => d,
    }
}

impl CompletionDrain {
    /// A drain that starts with a poll.
    pub fn new(required: u64) -> (r: CompletionDrain)
        ensures
            r == (CompletionDrain { required, total: 0, phase: DrainPhase::Poll }),
    {
        CompletionDrain { required, total: 0, phase: DrainPhase::Poll }
    }

    /// What to do in the current phase; a finished drain reports its total,
    /// which is at least `required`.
    pub fn next_action(&self) -> (r: DrainAction)
        requires
            self.phase == DrainPhase::Done ==> self.total >= self.required,
        ensures
            r == match self.phase {
                DrainPhase::Poll | DrainPhase::Repoll => DrainAction::PollCq,
                DrainPhase::Arm => DrainAction::ArmNotify,
                DrainPhase::Wait => DrainAction::WaitEvent,
                DrainPhase::Done => DrainAction::Finished(self.total),
                DrainPhase::Failed(e) => DrainAction::Fail(e),
            },
            (r matches DrainAction::Finished(t) ==> t >= self.required),
    {
        match self.phase {
            DrainPhase::Poll | DrainPhase::Repoll => DrainAction::PollCq,
            DrainPhase::Arm => DrainAction::ArmNotify,
            DrainPhase::Wait => DrainAction::WaitEvent,
            DrainPhase::Done => DrainAction::Finished(self.total),
            DrainPhase::Failed(e) => DrainAction::Fail(e),
        }
    }

    /// Takes the return value of the action just performed: the number of
    /// completions a poll returned, or the return code of arming or waiting.
    pub fn on_result(&mut self, ret: i32)
        ensures
            *final(self) == drain_next(*old(self), ret),
            old(self).phase == DrainPhase::Done ==> final(self).phase == DrainPhase::Done,
            final(self).phase == DrainPhase::Done && old(self).phase != DrainPhase::Done
                ==> final(self).total >= final(self).required,
    {
        match self.phase {
            DrainPhase::Poll | DrainPhase::Repoll => {
                if ret < 0 {
                    self.phase = DrainPhase::Failed(ErrorKind::PollError(ret));
                } else {
                    let n = ret as u64;
                    self.total = if n > u64::MAX - self.total {
                        u64::MAX
                    } else {
                        self.total + n
                    };
                    self.phase = if self.total >= self.required {
                        DrainPhase::Done
                    } else if self.phase == DrainPhase::Poll {
                        DrainPhase::Arm
                    } else {
                        DrainPhase::Wait
                    };
                }
            },
            DrainPhase::Arm => {
                if ret != 0 {
                    self.phase = DrainPhase::Failed(ErrorKind::NotifyError(ret));
                } else {
                    self.phase = DrainPhase::Repoll;
                }
            },
            DrainPhase::Wait => {
                if ret != 0 {
                    self.phase = DrainPhase::Failed(ErrorKind::EventError(ret));
                } else {
                    self.phase = DrainPhase::Poll;
                }
            },
            _ => {},
        }
    }
}

/// A harvested work completion.
#[derive(Clone, Copy, Debug, PartialEq, Eq, Structural)]
pub struct WorkCompletion {
    pub status: u32,
    pub opcode: u32,
}

/// A completion is good when it succeeded with the expected opcode.
pub open spec fn completion_ok(wc: WorkCompletion, expected_opcode: u32) -> bool {
    wc.status == WC_SUCCESS && wc.opcode == expected_opcode
}

/// `e` reports the first completion of `wcs` that is not good.
pub open spec fn first_failure(wcs: Seq<WorkCompletion>, expected_opcode: u32, e: ErrorKind) -> bool {
    exists|k: int|
        0 <= k < wcs.len() && !completion_ok(#[trigger] wcs[k], expected_opcode) && (forall|y: int|
            0 <= y < k ==> completion_ok(#[trigger] wcs[y], expected_opcode)) && e
            == (ErrorKind::CompletionFailure { status: wcs[k].status, opcode: wcs[k].opcode })
}

/// Checks every harvested completion: `Ok` with their number when all
/// succeeded with `expected_opcode`, else the first one that did not.
pub fn check_completions(wcs: &Vec<WorkCompletion>, expected_opcode: u32) -> (r: Result<
    u64,
    ErrorKind,
>)
    ensures
        (forall|k: int| 0 <= k < wcs@.len() ==> completion_ok(#[trigger] wcs@[k], expected_opcode))
            ==> r == Ok::<u64, ErrorKind>(wcs@.len() as u64),
        (r matches Err(e) ==> first_failure(wcs@, expected_opcode, e)),
        (r is Ok ==> forall|k: int|
            0 <= k < wcs@.len() ==> completion_ok(#[trigger] wcs@[k], expected_opcode)),
{
    let mut k: usize = 0;
    while k < wcs.len()
        invariant
            k <= wcs@.len(),
            forall|y: int| 0 <= y < k ==> completion_ok(#[trigger] wcs@[y], expected_opcode),
        decreases wcs@.len() - k,
    {
        let wc = wcs[k];
        if wc.status != WC_SUCCESS || wc.opcode != expected_opcode {
            return Err(ErrorKind::CompletionFailure { status: wc.status, opcode: wc.opcode });
        }
        k = k + 1;
    }
    Ok(wcs.len() as u64)
}

// ------------------------------------------------------------ task schedule

/// Messages posted since the last drain and completions owed, after the
/// first `t` blocks were posted and every drain they called for harvested
/// what it asked.
pub open spec fn task_state(counts: Seq<usize>, batch: u64, t: int) -> (int, int)
    decreases t,
{
    if t <= 0 {
        (0, 0)
    } else {
        let prev = task_state(counts, batch, t - 1);
        let sent = prev.0 + counts[t - 1];
        let owed = prev.1 + 1;
        if sent >= batch || owed >= batch {
            (0, 0)
        } else {
            (sent, owed)
        }
    }
}

/// Completions to drain right after posting block `t`: all that are owed
/// once `batch` messages or `batch` signaled blocks are outstanding, else
/// none.
pub open spec fn drain_after(counts: Seq<usize>, batch: u64, t: int) -> int {
    let prev = task_state(counts, batch, t);
    let sent = prev.0 + counts[t];
    let owed = prev.1 + 1;
    if sent >= batch || owed >= batch {
        owed
    } else {
        0
    }
}

/// Completions still owed after the last block: the final drain.
pub open spec fn final_drain(counts: Seq<usize>, batch: u64) -> int {
    task_state(counts, batch, counts.len() as int).1
}

/// Sum of the first `t` drains.
pub open spec fn drains_sum(d: Seq<u64>, t: int) -> int
    decreases t,
{
    if t <= 0 {
        0
    } else {
        drains_sum(d, t - 1) + d[t - 1]
    }
}

/// When one queue pair's task drains its completion queue.
#[derive(Clone, Debug)]
pub struct DrainSchedule {
    /// Completions to harvest right after posting each block (0: none).
    pub after_block: Vec<u64>,
    /// Completions to harvest after the last block (0: none).
    pub final_drain: u64,
}

proof fn lemma_task_state_bounds(counts: Seq<usize>, batch: u64, t: int)
    requires
        batch >= 1,
        0 <= t <= counts.len(),
    ensures
        0 <= task_state(counts, batch, t).0 < batch,
        0 <= task_state(counts, batch, t).1 < batch,
        task_state(counts, batch, t).1 <= t,
    decreases t,
{
    if t > 0 {
        lemma_task_state_bounds(counts, batch, t - 1);
    }
}

/// The drains of a task that posts blocks of `counts[t]` messages, one
/// signaled work request each, with batch size `batch`.
pub fn completion_schedule(counts: &Vec<usize>, batch: u64) -> (r: DrainSchedule)
    requires
        batch >= 1,
    ensures
        r.after_block@.len() == counts@.len(),
        forall|t: int|
            0 <= t < counts@.len() ==> r.after_block@[t] == drain_after(counts@, batch, t),
        r.final_drain == final_drain(counts@, batch),
        drains_sum(r.after_block@, counts@.len() as int) + r.final_drain == counts@.len(),
        forall|t: int| 0 <= t < counts@.len() ==> r.after_block@[t] <= batch,
        r.final_drain < batch,
{
    let mut after_block: Vec<u64> = Vec::new();
    let mut sent: u64 = 0;
    let mut owed: u64 = 0;
    let mut t: usize = 0;
    while t < counts.len()
        invariant
            batch >= 1,
            t <= counts@.len(),
            after_block@.len() == t,
            (sent as int, owed as int) == task_state(counts@, batch, t as int),
            sent < batch,
            owed < batch,
            forall|k: int| 0 <= k < t ==> after_block@[k] == drain_after(counts@, batch, k),
            drains_sum(after_block@, t as int) + owed == t,
            forall|k: int| 0 <= k < t ==> after_block@[k] <= batch,
        decreases counts@.len() - t,
    {
        proof {
            lemma_task_state_bounds(counts@, batch, t as int);
        }
        let c = counts[t] as u64;
        let s2: u64 = if c >= batch - sent {
            batch
        } else {
            sent + c
        };
        let o2 = owed + 1;
        let ghost before = after_block@;
        if s2 >= batch || o2 >= batch {
            after_block.push(o2);
            sent = 0;
            owed = 0;
        } else {
            after_block.push(0);
            sent = s2;
            owed = o2;
        }
        proof {
            assert(drains_sum(after_block@, t as int) == drains_sum(before, t as int)) by {
                lemma_drains_prefix(before, after_block@, t as int);
            }
        }
        t = t + 1;
    }
    DrainSchedule { after_block, final_drain: owed }
}

proof fn lemma_drains_prefix(a: Seq<u64>, b: Seq<u64>, t: int)
    requires
        0 <= t <= a.len(),
        t <= b.len(),
        forall|k: int| 0 <= k < t ==> a[k] == b[k],
    ensures
        drains_sum(a, t) == drains_sum(b, t),
    decreases t,
{
    if t > 0 {
        lemma_drains_prefix(a, b, t - 1);
    }
}

/// Every signaled work request is harvested: the drains of a task add up
/// to its number of blocks, one signaled request each.
pub proof fn lemma_drains_cover_signaled(counts: Seq<usize>, batch: u64, r: DrainSchedule)
    requires
        batch >= 1,
        r.after_block@.len() == counts.len(),
        forall|t: int| 0 <= t < counts.len() ==> r.after_block@[t] == drain_after(counts, batch, t),
        r.final_drain == final_drain(counts, batch),
    ensures
        drains_sum(r.after_block@, counts.len() as int) + r.final_drain == counts.len(),
{
    lemma_drains_total(counts, batch, r.after_block@, counts.len() as int);
}

proof fn lemma_drains_total(counts: Seq<usize>, batch: u64, d: Seq<u64>, t: int)
    requires
        batch >= 1,
        0 <= t <= counts.len(),
        d.len() == counts.len(),
        forall|k: int| 0 <= k < counts.len() ==> d[k] == drain_after(counts, batch, k),
    ensures
        drains_sum(d, t) + task_state(counts, batch, t).1 == t,
    decreases t,
{
    if t > 0 {
        lemma_drains_total(counts, batch, d, t - 1);
        assert(d[t - 1] == drain_after(counts, batch, t - 1));
    }
}

/// When every block is a full batch, each post triggers a drain and no
/// final drain is left.
pub proof fn lemma_full_batches_no_final_drain(counts: Seq<usize>, batch: u64)
    requires
        batch >= 1,
        forall|t: int| 0 <= t < counts.len() ==> counts[t] == batch,
    ensures
        final_drain(counts, batch) == 0,
        forall|t: int| 0 <= t < counts.len() ==> drain_after(counts, batch, t) >= 1,
{
    assert forall|t: int| 0 <= t <= counts.len() implies task_state(counts, batch, t) == (
    0int,
    0int,
    ) by {
        lemma_full_state(counts, batch, t);
    }
    assert forall|t: int| 0 <= t < counts.len() implies drain_after(counts, batch, t) >= 1 by {
        lemma_full_state(counts, batch, t);
    }
}

proof fn lemma_full_state(counts: Seq<usize>, batch: u64, t: int)
    requires
        batch >= 1,
        0 <= t <= counts.len(),
        forall|k: int| 0 <= k < counts.len() ==> counts[k] == batch,
    ensures
        task_state(counts, batch, t) == (0int, 0int),
    decreases t,
{
    if t > 0 {
        lemma_full_state(counts, batch, t - 1);
    }
}

/// When all blocks but the last are full batches and the last is partial,
/// a final drain harvests that last block's completion.
pub proof fn lemma_partial_tail_final_drain(counts: Seq<usize>, batch: u64)
    requires
        batch >= 1,
        counts.len() >= 1,
        forall|t: int| 0 <= t < counts.len() - 1 ==> counts[t] == batch,
        1 <= counts.last() < batch,
    ensures
        final_drain(counts, batch) == 1,
{
    let n = counts.len() as int;
    assert forall|t: int| 0 <= t <= n - 1 implies task_state(counts, batch, t) == (
    0int,
    0int,
    ) by {
        lemma_full_prefix(counts, batch, t);
    }
    assert(task_state(counts, batch, n - 1) == (0int, 0int));
}

proof fn lemma_full_prefix(counts: Seq<usize>, batch: u64, t: int)
    requires
        batch >= 1,
        0 <= t <= counts.len() - 1,
        forall|k: int| 0 <= k < counts.len() - 1 ==> counts[k] == batch,
    ensures
        task_state(counts, batch, t) == (0int, 0int),
    decreases t,
{
    if t > 0 {
        lemma_full_prefix(counts, batch, t - 1);
    }
}

/// Message counts of the blocks of one queue pair's plan.
pub open spec fn block_counts(q: QpPlan) -> Seq<usize> {
    q.message_blocks@.map_values(|blk: MessageBlock| blk.message_count)
}

/// Batch boundary of a planned queue pair: when its messages per pass are a
/// multiple of the batch size, no final drain is left, whatever the number
/// of passes; when they are not, a final drain of one completion harvests
/// the last partial block, with one pass, or with any number of passes
/// when a pass also holds full batches.
pub proof fn lemma_batch_boundary(p: PlanParams, r: Seq<QpPlan>, i: int)
    requires
        p.valid(),
        plan_matches(p, r),
        0 <= i < r.len(),
    ensures
        p.messages(i) % (p.max_msg_per_block as int) == 0 ==> final_drain(
            block_counts(r[i]),
            p.max_msg_per_block,
        ) == 0,
        p.iterator_factor == 1 && p.messages(i) % (p.max_msg_per_block as int) != 0
            ==> final_drain(block_counts(r[i]), p.max_msg_per_block) == 1,
        p.iterator_factor >= 1 && p.messages(i) > p.max_msg_per_block && p.messages(i) % (
        p.max_msg_per_block as int) != 0 ==> final_drain(block_counts(r[i]), p.max_msg_per_block)
            == 1,
{
    let b = p.max_msg_per_block as int;
    let c = p.messages(i);
    let bpp = p.blocks_per_pass(i);
    let counts = block_counts(r[i]);
    assert(qp_matches(p, i, r[i]));
    assert(counts.len() == r[i].message_blocks@.len());
    assert(counts.len() == p.iterator_factor * bpp);
    assert(c >= 0) by {
        vstd::arithmetic::div_mod::lemma_div_pos_is_pos(p.share(i), p.max_message_size as int);
    }
    assert(c == (c / b) * b + c % b && 0 <= c % b < b) by {
        vstd::arithmetic::div_mod::lemma_fundamental_div_mod(c, b);
    }
    let q = c / b;
    assert forall|t: int| 0 <= t < counts.len() implies {
        let k = t % bpp;
        &&& 0 <= k < bpp
        &&& #[trigger] counts[t] == p.block_len(i, k)
    } by {
        assert(block_matches(p, i, t, r[i].message_blocks@[t]));
        if bpp <= 0 {
            assert(p.iterator_factor * bpp <= 0) by (nonlinear_arith)
                requires bpp <= 0;
        }
        vstd::arithmetic::div_mod::lemma_mod_bound(t, bpp);
        crate::planner::lemma_ceil_div(c, b, t % bpp);
        assert(counts[t] == r[i].message_blocks@[t].message_count);
    }
    assert forall|k: int| 0 <= k < bpp - 1 implies p.block_len(i, k) == b by {
        assert(k * b + b <= (bpp - 1) * b) by (nonlinear_arith)
            requires k <= bpp - 2, b >= 1;
        assert((bpp - 1) * b <= q * b) by (nonlinear_arith)
            requires bpp - 1 <= q, b >= 1;
    }
    if c % b == 0 {
        assert(bpp == q);
        assert forall|k: int| 0 <= k < bpp implies p.block_len(i, k) == b by {
            assert(k * b + b <= q * b) by (nonlinear_arith)
                requires k + 1 <= q, b >= 1;
        }
        lemma_full_batches_no_final_drain(counts, p.max_msg_per_block);
    }
    if p.iterator_factor == 1 && c % b != 0 {
        assert(bpp == q + 1);
        assert(1 * bpp == bpp);
        assert(counts.len() == bpp);
        assert forall|t: int| 0 <= t < counts.len() implies #[trigger] (t % bpp) == t by {
            vstd::arithmetic::div_mod::lemma_small_mod(t as nat, bpp as nat);
        }
        assert(p.block_len(i, q) == c % b);
        lemma_partial_tail_final_drain(counts, p.max_msg_per_block);
    }
    if p.iterator_factor >= 1 && c > b && c % b != 0 {
        let f = p.iterator_factor as int;
        assert(bpp == q + 1);
        assert(q >= 1) by {
            if q <= 0 {
                assert(q * b <= 0) by (nonlinear_arith)
                    requires q <= 0, b >= 1;
            }
        }
        assert(p.block_len(i, q) == c % b);
        assert forall|t: int| 0 <= t < counts.len() implies #[trigger] counts[t] == if t % bpp
            < bpp - 1 {
            b
        } else {
            c % b
        } by {
            assert(counts[t] == p.block_len(i, t % bpp));
        }
        assert(counts.len() == f * bpp);
        lemma_periodic_state(counts, p.max_msg_per_block, bpp, c % b, counts.len() as int);
        assert((counts.len() as int) % bpp == 0) by {
            vstd::arithmetic::div_mod::lemma_fundamental_div_mod_converse(
                counts.len() as int,
                bpp,
                f,
                0,
            );
        }
        assert(counts.len() > 0) by (nonlinear_arith)
            requires counts.len() == f * bpp, f >= 1, bpp >= 2;
    }
}

/// Messages and owed completions of a task whose blocks repeat a pattern
/// of `period - 1` full batches and one partial block of `rest` messages:
/// nothing is owed inside a period, and one completion at its end.
proof fn lemma_periodic_state(counts: Seq<usize>, batch: u64, period: int, rest: int, t: int)
    requires
        period >= 2,
        1 <= rest < batch,
        0 <= t <= counts.len(),
        forall|y: int|
            0 <= y < counts.len() ==> #[trigger] counts[y] == if y % period < period - 1 {
                batch as int
            } else {
                rest
            },
    ensures
        task_state(counts, batch, t) == if t > 0 && t % period == 0 {
            (rest, 1int)
        } else {
            (0int, 0int)
        },
    decreases t,
{
    if t > 0 {
        lemma_periodic_state(counts, batch, period, rest, t - 1);
        let s = t - 1;
        let qq = s / period;
        let rr = s % period;
        assert(s == qq * period + rr && 0 <= rr < period) by {
            vstd::arithmetic::div_mod::lemma_fundamental_div_mod(s, period);
        }
        assert(qq >= 0) by {
            vstd::arithmetic::div_mod::lemma_div_pos_is_pos(s, period);
        }
        if rr < period - 1 {
            vstd::arithmetic::div_mod::lemma_fundamental_div_mod_converse(t, period, qq, rr + 1);
        } else {
            assert(t == (qq + 1) * period + 0) by (nonlinear_arith)
                requires t == s + 1, s == qq * period + rr, rr == period - 1;
            vstd::arithmetic::div_mod::lemma_fundamental_div_mod_converse(t, period, qq + 1, 0);
            if s > 0 && s % period == 0 {
                assert(false);
            }
        }
        assert(counts[s] == if rr < period - 1 {
            batch as int
        } else {
            rest
        });
    }
}

} // verus!
