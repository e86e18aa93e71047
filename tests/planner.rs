use rdma_bench::completion::completion_schedule;
use rdma_bench::planner::{distribute_data, plan_transfer, PlanParams, QpPlan, WorkRequest};

const LOCAL: u64 = 0x1000_0000;
const REMOTE: u64 = 0x7000_0000;

fn plan(v: u64, n: u64, m: u64, b: u64, f: u64) -> Vec<QpPlan> {
    distribute_data(v, n, m, b, f, LOCAL, REMOTE, 11, 22)
}

fn total_bytes(p: &[QpPlan]) -> u64 {
    p.iter()
        .flat_map(|q| q.message_blocks.iter())
        .flat_map(|b| b.wrs.iter())
        .map(|w| w.length as u64)
        .sum()
}

fn completions(q: &QpPlan, b: u64) -> u64 {
    let s = completion_schedule(&q.block_counts(), b);
    s.after_block.iter().sum::<u64>() + s.final_drain
}

fn check_blocks(p: &[QpPlan], b: u64) {
    for q in p {
        for blk in &q.message_blocks {
            assert!(!blk.wrs.is_empty());
            assert!(blk.wrs.len() as u64 <= b);
            assert_eq!(blk.message_count, blk.wrs.len());
            let sum: u64 = blk.wrs.iter().map(|w| w.length as u64).sum();
            assert_eq!(blk.message_block_size, sum);
            for (x, w) in blk.wrs.iter().enumerate() {
                assert_eq!(w.signaled, x + 1 == blk.wrs.len());
                assert_eq!(w.lkey, 11);
                assert_eq!(w.rkey, 22);
                assert_eq!(w.local_addr - LOCAL, w.remote_addr - REMOTE);
            }
        }
    }
}

#[test]
fn single_qp_one_block_of_four() {
    let p = plan(4096, 1, 1024, 10, 1);
    assert_eq!(p.len(), 1);
    assert_eq!(p[0].message_blocks.len(), 1);
    let blk = &p[0].message_blocks[0];
    assert_eq!(blk.message_count, 4);
    assert!(blk.wrs[3].signaled);
    assert!(!blk.wrs[0].signaled && !blk.wrs[1].signaled && !blk.wrs[2].signaled);
    for (x, w) in blk.wrs.iter().enumerate() {
        assert_eq!(w.length, 1024);
        assert_eq!(w.local_addr, LOCAL + 1024 * x as u64);
        assert_eq!(w.remote_addr, REMOTE + 1024 * x as u64);
    }
    assert_eq!(completions(&p[0], 10), 1);
    assert_eq!(total_bytes(&p), 4096);
    check_blocks(&p, 10);
}

#[test]
fn ten_bytes_over_three_qps() {
    let p = plan(10, 3, 4, 10, 1);
    assert_eq!(p.len(), 3);
    let carried: Vec<u64> = p.iter().map(|q| q.qp_message_size).collect();
    assert_eq!(carried, vec![4, 3, 3]);
    for q in &p {
        assert_eq!(q.message_blocks.len(), 1);
        assert_eq!(q.message_blocks[0].message_count, 1);
        assert!(q.message_blocks[0].wrs[0].signaled);
    }
    assert_eq!(p[0].message_blocks[0].wrs[0].local_addr, LOCAL);
    assert_eq!(p[1].message_blocks[0].wrs[0].local_addr, LOCAL + 4);
    assert_eq!(p[2].message_blocks[0].wrs[0].local_addr, LOCAL + 7);
    let total: u64 = p.iter().map(|q| completions(q, 10)).sum();
    assert_eq!(total, 3);
    assert_eq!(total_bytes(&p), 10);
    check_blocks(&p, 10);
}

#[test]
fn one_mib_two_qps_batches_of_four() {
    let p = plan(1 << 20, 2, 64 << 10, 4, 1);
    for q in &p {
        assert_eq!(q.qp_message_size, 512 << 10);
        assert_eq!(q.message_blocks.len(), 2);
        for blk in &q.message_blocks {
            assert_eq!(blk.message_count, 4);
        }
        let s = completion_schedule(&q.block_counts(), 4);
        assert_eq!(s.after_block, vec![1, 1]);
        assert_eq!(s.final_drain, 0);
        assert_eq!(completions(q, 4), 2);
    }
    assert_eq!(total_bytes(&p), 1 << 20);
    check_blocks(&p, 4);
}

#[test]
fn three_passes_over_two_mib() {
    let p = plan(2 << 20, 4, 65536, 2000, 3);
    assert_eq!(p.len(), 4);
    for (i, q) in p.iter().enumerate() {
        assert_eq!(q.message_blocks.len(), 3);
        for blk in &q.message_blocks {
            assert_eq!(blk.message_count, 8);
            assert_eq!(blk.wrs[0].local_addr, LOCAL + (i as u64) * (512 << 10));
        }
        assert_eq!(q.qp_message_size, 3 * (512 << 10));
        assert_eq!(completions(q, 2000), 3);
        let s = completion_schedule(&q.block_counts(), 2000);
        assert_eq!(s.final_drain, 3);
    }
    assert_eq!(total_bytes(&p), 3 * (2 << 20));
    check_blocks(&p, 2000);
}

#[test]
fn sum_of_lengths_is_volume_times_passes() {
    for &(v, n, m, b, f) in &[(1000, 7, 33, 5, 2), (65537, 3, 4096, 3, 4), (1, 1, 1, 1, 1), (0, 2, 8, 2, 5)] {
        let p = plan(v, n, m, b, f);
        assert_eq!(total_bytes(&p), v * f);
        check_blocks(&p, b);
    }
}

#[test]
fn planner_is_deterministic() {
    let a = plan(12345, 5, 100, 7, 3);
    let b = plan(12345, 5, 100, 7, 3);
    assert_eq!(a.len(), b.len());
    for (qa, qb) in a.iter().zip(b.iter()) {
        assert_eq!(qa.qp_message_size, qb.qp_message_size);
        assert_eq!(qa.message_blocks.len(), qb.message_blocks.len());
        for (ba, bb) in qa.message_blocks.iter().zip(qb.message_blocks.iter()) {
            assert_eq!(ba.message_count, bb.message_count);
            assert_eq!(ba.message_block_size, bb.message_block_size);
            let wa: Vec<WorkRequest> = ba.wrs.clone();
            assert_eq!(wa, bb.wrs);
        }
    }
}

#[test]
fn fewer_bytes_than_qps() {
    let p = plan(2, 3, 1, 4, 1);
    let active = p.iter().filter(|q| !q.message_blocks.is_empty()).count();
    assert_eq!(active, 2);
    assert!(p[2].message_blocks.is_empty());
    assert_eq!(p[2].qp_message_size, 0);
}

#[test]
fn remainder_goes_to_first_qps() {
    let p = plan(14, 4, 100, 4, 2);
    let carried: Vec<u64> = p.iter().map(|q| q.qp_message_size).collect();
    assert_eq!(carried, vec![8, 8, 6, 6]);
}

#[test]
fn last_message_carries_residue() {
    let p = plan(10, 1, 4, 10, 1);
    let wrs = &p[0].message_blocks[0].wrs;
    let lens: Vec<u32> = wrs.iter().map(|w| w.length).collect();
    assert_eq!(lens, vec![4, 4, 2]);
    let p = plan(21, 2, 4, 2, 1);
    let last = p[0].message_blocks.last().unwrap().wrs.last().unwrap();
    assert_eq!(last.length, 11 % 4);
    let last = p[1].message_blocks.last().unwrap().wrs.last().unwrap();
    assert_eq!(last.length, 10 % 4);
}

#[test]
fn partial_last_batch_needs_final_drain() {
    let p = plan(5, 1, 1, 2, 1);
    let s = completion_schedule(&p[0].block_counts(), 2);
    assert_eq!(p[0].block_counts(), vec![2, 2, 1]);
    assert_eq!(s.after_block, vec![1, 1, 0]);
    assert_eq!(s.final_drain, 1);
}

#[test]
fn plan_transfer_rejects_bad_inputs() {
    let good = PlanParams {
        volume: 100,
        queue_pairs: 2,
        max_message_size: 10,
        max_msg_per_block: 3,
        iterator_factor: 1,
        local_mr_start_addr: 0,
        remote_mr_start_addr: 0,
        lkey: 1,
        rkey: 2,
    };
    assert_eq!(plan_transfer(&good).unwrap().len(), 2);
    let bad = PlanParams { queue_pairs: 0, ..good };
    assert_eq!(plan_transfer(&bad).unwrap_err(), rdma_bench::error::ErrorKind::ConfigParse);
    let bad = PlanParams { max_message_size: 0, ..good };
    assert!(plan_transfer(&bad).is_err());
    let bad = PlanParams { max_msg_per_block: 0, ..good };
    assert!(plan_transfer(&bad).is_err());
    let bad = PlanParams { local_mr_start_addr: u64::MAX - 50, ..good };
    assert!(plan_transfer(&bad).is_err());
    let bad = PlanParams { volume: u64::MAX / 2, iterator_factor: 3, ..good };
    assert!(plan_transfer(&bad).is_err());
}

#[test]
fn server_buffer_matches_client_after_transfer() {
    let v: u64 = 1000;
    let client: Vec<u8> = (0..v).map(|k| (k * 7 % 251) as u8).collect();
    let mut server = vec![0u8; v as usize];
    let mut written = vec![0u32; v as usize];
    let p = plan(v, 3, 64, 4, 2);
    for q in &p {
        for blk in &q.message_blocks {
            for w in &blk.wrs {
                let from = (w.local_addr - LOCAL) as usize;
                let to = (w.remote_addr - REMOTE) as usize;
                for k in 0..w.length as usize {
                    server[to + k] = client[from + k];
                    written[to + k] += 1;
                }
            }
        }
    }
    assert_eq!(server, client);
    assert!(written.iter().all(|&c| c == 2));
}

#[test]
fn partial_last_batch_in_every_pass() {
    // Two full batches and one partial block per pass: each pass ends
    // with one completion owed, so a final drain harvests it.
    let p = plan(5, 1, 1, 2, 3);
    assert_eq!(p[0].block_counts(), vec![2, 2, 1, 2, 2, 1, 2, 2, 1]);
    let s = completion_schedule(&p[0].block_counts(), 2);
    assert_eq!(s.after_block, vec![1, 1, 0, 2, 1, 0, 2, 1, 0]);
    assert_eq!(s.final_drain, 1);
    // One partial block per pass: the second pass fills the batch, so
    // nothing is left for a final drain.
    let p = plan(3, 1, 1, 4, 2);
    let s = completion_schedule(&p[0].block_counts(), 4);
    assert_eq!(s.after_block, vec![0, 2]);
    assert_eq!(s.final_drain, 0);
}
