use fragment_selection::fragment::{BlockDate, Fragment, FragmentId, FragmentStatus, RejectionError};
use fragment_selection::logs::Logs;
use fragment_selection::pool::Pool;
use fragment_selection::selection::{FragmentSelectionAlgorithm, OldestFirst};

// A toy ledger: a balance. A fragment spends the amount in its first
// payload byte plus the fee given as the ledger parameters.
fn spend(balance: &u64, fee: &u64, fragment: &Fragment, _date: BlockDate) -> Result<u64, RejectionError> {
    let amount = fragment.payload[0] as u64 + *fee;
    if amount <= *balance {
        Ok(*balance - amount)
    } else {
        Err(RejectionError::new(
            "insufficient funds".to_string(),
            Some(format!("needed {}, had {}", amount, balance)),
        ))
    }
}

fn fragment(id: u64, amount: u8) -> Fragment {
    Fragment::new(FragmentId { value: id }, vec![amount])
}

fn date() -> BlockDate {
    BlockDate { epoch: 1, slot_id: 2 }
}

fn pool_of(fragments: &[Fragment]) -> Pool {
    let mut pool = Pool::new();
    for f in fragments {
        pool.insert(f.clone());
    }
    pool
}

fn ids(fragments: &[Fragment]) -> Vec<u64> {
    fragments.iter().map(|f| f.id.value).collect()
}

#[test]
fn empty_pool_selects_nothing() {
    let mut pool = Pool::new();
    let mut logs = Logs::new();
    let mut selector: OldestFirst<u64> = OldestFirst::new(10);
    selector.select(&100, &0, date(), &mut logs, &mut pool, spend);
    let contents = selector.finalize();
    assert_eq!(contents.len(), 0);
    assert_eq!(logs.len(), 0);
    assert_eq!(pool.len(), 0);
}

#[test]
fn capacity_bound_leaves_next_fragment_in_pool() {
    let fs = [fragment(1, 1), fragment(2, 1), fragment(3, 1), fragment(4, 1)];
    let mut pool = pool_of(&fs);
    let mut logs = Logs::new();
    let mut selector: OldestFirst<u64> = OldestFirst::new(3);
    selector.select(&100, &0, date(), &mut logs, &mut pool, spend);
    let contents = selector.finalize();
    assert_eq!(ids(contents.fragments()), vec![1, 2, 3]);
    assert_eq!(pool.len(), 1);
    assert_eq!(pool.get(0).unwrap().id.value, 4);
    assert_eq!(logs.len(), 0);
}

#[test]
fn zero_bound_takes_nothing() {
    let fs = [fragment(1, 1)];
    let mut pool = pool_of(&fs);
    let mut logs = Logs::new();
    let mut selector: OldestFirst<u64> = OldestFirst::new(0);
    selector.select(&100, &0, date(), &mut logs, &mut pool, spend);
    assert_eq!(selector.finalize().len(), 0);
    assert_eq!(pool.len(), 1);
}

#[test]
fn rejected_fragment_is_isolated() {
    let fs = [fragment(1, 5), fragment(2, 200), fragment(3, 5), fragment(4, 5)];
    let mut pool = pool_of(&fs);
    let mut logs = Logs::new();
    let mut selector: OldestFirst<u64> = OldestFirst::new(10);
    selector.select(&20, &0, date(), &mut logs, &mut pool, spend);
    let contents = selector.finalize();
    assert_eq!(ids(contents.fragments()), vec![1, 3, 4]);
    match logs.get(&FragmentId { value: 2 }) {
        Some(FragmentStatus::Rejected { reason }) => assert!(!reason.is_empty()),
        other => panic!("unexpected status {:?}", other),
    }
    assert_eq!(logs.len(), 1);
    assert_eq!(pool.len(), 0);
}

#[test]
fn rejected_fragment_does_not_advance_snapshot() {
    // 7 is refused against 10 - 5 = 5; 5 then still fits.
    let fs = [fragment(1, 5), fragment(2, 7), fragment(3, 5), fragment(4, 1)];
    let mut pool = pool_of(&fs);
    let mut logs = Logs::new();
    let mut selector: OldestFirst<u64> = OldestFirst::new(10);
    selector.select(&10, &0, date(), &mut logs, &mut pool, spend);
    let contents = selector.finalize();
    assert_eq!(ids(contents.fragments()), vec![1, 3]);
    assert!(logs.get(&FragmentId { value: 2 }).is_some());
    assert!(logs.get(&FragmentId { value: 4 }).is_some());
}

#[test]
fn caller_ledger_is_unchanged() {
    let ledger: u64 = 50;
    let fs = [fragment(1, 10), fragment(2, 10)];
    let mut pool = pool_of(&fs);
    let mut logs = Logs::new();
    let mut selector: OldestFirst<u64> = OldestFirst::new(10);
    selector.select(&ledger, &0, date(), &mut logs, &mut pool, spend);
    assert_eq!(ledger, 50);
    assert_eq!(selector.finalize().len(), 2);
}

#[test]
fn caller_ledger_of_vectors_is_unchanged() {
    let ledger: Vec<u64> = vec![1, 2];
    let mut pool = pool_of(&[fragment(7, 0), fragment(8, 0)]);
    let mut logs = Logs::new();
    let mut selector: OldestFirst<Vec<u64>> = OldestFirst::new(10);
    let apply = |l: &Vec<u64>, _p: &(), f: &Fragment, _d: BlockDate| -> Result<Vec<u64>, RejectionError> {
        let mut next = l.clone();
        next.push(f.id.value);
        Ok(next)
    };
    selector.select(&ledger, &(), date(), &mut logs, &mut pool, apply);
    assert_eq!(ledger, vec![1, 2]);
    assert_eq!(ids(selector.finalize().fragments()), vec![7, 8]);
}

#[test]
fn contents_keep_pool_order() {
    let fs = [fragment(30, 1), fragment(10, 1), fragment(20, 1)];
    let mut pool = pool_of(&fs);
    let mut logs = Logs::new();
    let mut selector: OldestFirst<u64> = OldestFirst::new(3);
    selector.select(&100, &0, date(), &mut logs, &mut pool, spend);
    let contents = selector.finalize();
    assert_eq!(contents.fragments().to_vec(), fs.to_vec());
}

#[test]
fn log_overwrite_keeps_latest() {
    let mut logs = Logs::new();
    let id = FragmentId { value: 9 };
    logs.modify(&id, FragmentStatus::Rejected { reason: "bad".to_string() });
    logs.modify(&id, FragmentStatus::InABlock { date: date() });
    assert_eq!(logs.get(&id), Some(&FragmentStatus::InABlock { date: date() }));
    assert_eq!(logs.len(), 1);
}

#[test]
fn log_accepts_unknown_identity() {
    let mut logs = Logs::new();
    assert_eq!(logs.get(&FragmentId { value: 1 }), None);
    logs.modify(&FragmentId { value: 1 }, FragmentStatus::Pending);
    assert_eq!(logs.get(&FragmentId { value: 1 }), Some(&FragmentStatus::Pending));
}

#[test]
fn insufficient_funds_scenario() {
    let fs = [fragment(1, 10), fragment(2, 100), fragment(3, 10)];
    let mut pool = pool_of(&fs);
    let mut logs = Logs::new();
    let mut selector: OldestFirst<u64> = OldestFirst::new(10);
    selector.select(&30, &0, date(), &mut logs, &mut pool, spend);
    let contents = selector.finalize();
    assert_eq!(ids(contents.fragments()), vec![1, 3]);
    assert_eq!(logs.len(), 1);
    match logs.get(&FragmentId { value: 2 }) {
        Some(FragmentStatus::Rejected { reason }) => {
            assert!(reason.starts_with("insufficient funds"));
            assert_eq!(reason, "insufficient funds: needed 100, had 20");
        }
        other => panic!("unexpected status {:?}", other),
    }
    assert_eq!(logs.get(&FragmentId { value: 1 }), None);
    assert_eq!(logs.get(&FragmentId { value: 3 }), None);
}

#[test]
fn fee_parameter_reaches_the_ledger() {
    let fs = [fragment(1, 10), fragment(2, 10)];
    let mut pool = pool_of(&fs);
    let mut logs = Logs::new();
    let mut selector: OldestFirst<u64> = OldestFirst::new(10);
    selector.select(&25, &5, date(), &mut logs, &mut pool, spend);
    assert_eq!(ids(selector.finalize().fragments()), vec![1]);
    assert!(logs.get(&FragmentId { value: 2 }).is_some());
}

#[test]
fn repeated_select_resumes_simulation() {
    let mut pool = pool_of(&[fragment(1, 10), fragment(2, 10), fragment(3, 10)]);
    let mut logs = Logs::new();
    let mut selector: OldestFirst<u64> = OldestFirst::new(2);
    selector.select(&25, &0, date(), &mut logs, &mut pool, spend);
    assert_eq!(pool.len(), 1);
    // The bound is reached: a second call takes nothing more.
    selector.select(&25, &0, date(), &mut logs, &mut pool, spend);
    assert_eq!(pool.len(), 1);
    assert_eq!(ids(selector.finalize().fragments()), vec![1, 2]);
}

#[test]
fn repeated_select_uses_advanced_snapshot() {
    let mut logs = Logs::new();
    let mut selector: OldestFirst<u64> = OldestFirst::new(10);
    let mut first = pool_of(&[fragment(1, 10)]);
    selector.select(&15, &0, date(), &mut logs, &mut first, spend);
    // 15 - 10 = 5 remain in the working snapshot, not 15.
    let mut second = pool_of(&[fragment(2, 10), fragment(3, 5)]);
    selector.select(&15, &0, date(), &mut logs, &mut second, spend);
    assert_eq!(ids(selector.finalize().fragments()), vec![1, 3]);
    assert!(logs.get(&FragmentId { value: 2 }).is_some());
}

#[test]
fn reason_joins_error_and_cause() {
    let with_cause = RejectionError::new("expired".to_string(), Some("slot 3 is past 2".to_string()));
    assert_eq!(with_cause.reason(), "expired: slot 3 is past 2");
    let without = RejectionError::new("oversized".to_string(), None);
    assert_eq!(without.reason(), "oversized");
}

#[test]
fn rejection_without_cause_logs_error_alone() {
    let mut pool = pool_of(&[fragment(5, 0)]);
    let mut logs = Logs::new();
    let mut selector: OldestFirst<u64> = OldestFirst::new(10);
    let refuse = |_l: &u64, _p: &(), _f: &Fragment, _d: BlockDate| -> Result<u64, RejectionError> {
        Err(RejectionError::new("bad counter".to_string(), None))
    };
    selector.select(&0, &(), date(), &mut logs, &mut pool, refuse);
    assert_eq!(
        logs.get(&FragmentId { value: 5 }),
        Some(&FragmentStatus::Rejected { reason: "bad counter".to_string() })
    );
    assert_eq!(selector.finalize().len(), 0);
}

#[test]
fn pool_hands_out_oldest_first() {
    let mut pool = pool_of(&[fragment(1, 0), fragment(2, 0)]);
    assert_eq!(pool.remove_oldest().map(|f| f.id.value), Some(1));
    assert_eq!(pool.remove_oldest().map(|f| f.id.value), Some(2));
    assert_eq!(pool.remove_oldest(), None);
    assert_eq!(pool.get(0), None);
}
