//! Fragment selection: fills the contents of a block from the pool, applying
//! each fragment to a working copy of the ledger and logging rejections.
use crate::fragment::{BlockDate, Fragment, FragmentId, FragmentStatus, RejectionError, StatusView};
use crate::logs::Logs;
use crate::pool::Pool;
use vstd::prelude::*;

verus! {

/// What a selection step decides for one fragment.
pub enum SelectionOutput {
    Commit { fragment_id: FragmentId },
    RequestSmallerFee,
    RequestSmallerSize,
    Reject { reason: String },
}

/// The finalized, ordered contents of a block.
pub struct Contents {
    fragments: Vec<Fragment>,
}

impl View for Contents {
    type V = Seq<Fragment>;

    closed spec fn view(&self) -> Seq<Fragment> {
        self.fragments@
    }
}

impl Contents {
    pub fn fragments(&self) -> (r: &Vec<Fragment>)
        ensures
            r@ == self@,
    {
        &self.fragments
    }

    pub fn len(&self) -> (r: usize)
        ensures
            r == self@.len(),
    {
        self.fragments.len()
    }
}

/// The ledger's verdict on one fragment: the new snapshot, or why the
/// fragment is refused. The application function is deterministic, so this
/// is the one result it gives.
pub open spec fn outcome<L, P, F: Fn(&L, &P, &Fragment, BlockDate) -> Result<L, RejectionError>>(
    apply: F,
    ledger: L,
    params: P,
    fragment: Fragment,
    date: BlockDate,
) -> Result<L, RejectionError> {
    choose|r: Result<L, RejectionError>| apply.ensures((&ledger, &params, &fragment, date), r)
}

/// The application function may be called on any snapshot and fragment,
/// and gives one result for each.
pub open spec fn applies_deterministically<L, P, F: Fn(&L, &P, &Fragment, BlockDate) -> Result<L, RejectionError>>(
    apply: F,
    params: P,
    date: BlockDate,
) -> bool {
    &&& forall|l: L, f: Fragment| apply.requires((&l, &params, &f, date))
    &&& forall|l: L, f: Fragment, r1: Result<L, RejectionError>, r2: Result<L, RejectionError>|
        #![trigger apply.ensures((&l, &params, &f, date), r1), apply.ensures((&l, &params, &f, date), r2)]
        apply.ensures((&l, &params, &f, date), r1) && apply.ensures((&l, &params, &f, date), r2)
            ==> r1 == r2
}

/// Everything a selection pass reads and changes: the working snapshot
/// (none until a fragment has been committed, when it is still the ledger
/// handed in), the contents so far, the status log and the pool.
pub ghost struct PassState<L> {
    pub simulation: Option<L>,
    pub contents: Seq<Fragment>,
    pub logs: Map<u64, StatusView>,
    pub pool: Seq<Fragment>,
}

/// The snapshot that the next fragment is applied to.
pub open spec fn working<L>(simulation: Option<L>, ledger: L) -> L {
    match simulation {
        Some(l) => l,
        None => ledger,
    }
}

/// One fragment taken from the front of the pool: committed, with the
/// snapshot advanced, or logged as rejected, with the snapshot kept.
pub open spec fn step<L, P, F: Fn(&L, &P, &Fragment, BlockDate) -> Result<L, RejectionError>>(
    apply: F,
    params: P,
    date: BlockDate,
    ledger: L,
    s: PassState<L>,
) -> PassState<L>
    recommends
        s.pool.len() > 0,
{
    let f = s.pool[0];
    match outcome(apply, working(s.simulation, ledger), params, f, date) {
        Ok(next) => PassState {
            simulation: Some(next),
            contents: s.contents.push(f),
            logs: s.logs,
            pool: s.pool.drop_first(),
        },
        Err(e) => PassState {
            simulation: s.simulation,
            contents: s.contents,
            logs: s.logs.insert(f.id.value, StatusView::Rejected { reason: e.reason_view() }),
            pool: s.pool.drop_first(),
        },
    }
}

/// Oldest-first selection: take fragments from the front of the pool until
/// it is empty or the contents hold `max` fragments.
pub open spec fn run<L, P, F: Fn(&L, &P, &Fragment, BlockDate) -> Result<L, RejectionError>>(
    apply: F,
    params: P,
    date: BlockDate,
    max: nat,
    ledger: L,
    s: PassState<L>,
) -> PassState<L>
    decreases s.pool.len(),
{
    if s.pool.len() == 0 || s.contents.len() >= max {
        s
    } else {
        run(apply, params, date, max, ledger, step(apply, params, date, ledger, s))
    }
}

/// A pass over an empty pool changes nothing: no fragment is committed,
/// nothing is logged, and the working snapshot stays as it was.
pub proof fn lemma_empty_pool_changes_nothing<L, P, F: Fn(&L, &P, &Fragment, BlockDate) -> Result<L, RejectionError>>(
    apply: F,
    params: P,
    date: BlockDate,
    max: nat,
    ledger: L,
    s: PassState<L>,
)
    requires
        s.pool.len() == 0,
    ensures
        run(apply, params, date, max, ledger, s) == s,
{
}

/// Every fragment of the pool applies, whatever the snapshot.
pub open spec fn all_apply<L, P, F: Fn(&L, &P, &Fragment, BlockDate) -> Result<L, RejectionError>>(
    apply: F,
    params: P,
    date: BlockDate,
    pool: Seq<Fragment>,
) -> bool {
    forall|l: L, i: int| 0 <= i < pool.len() ==> (#[trigger] outcome(apply, l, params, pool[i], date)) is Ok
}

/// Where every fragment applies, a pass commits the longest prefix of the
/// pool that fits, in pool order, leaves the rest in the pool and logs
/// nothing.
pub proof fn lemma_valid_fragments_commit_in_order<L, P, F: Fn(&L, &P, &Fragment, BlockDate) -> Result<L, RejectionError>>(
    apply: F,
    params: P,
    date: BlockDate,
    max: nat,
    ledger: L,
    s: PassState<L>,
)
    requires
        all_apply(apply, params, date, s.pool),
        s.contents.len() <= max,
    ensures
        ({
            let k = if s.pool.len() <= max - s.contents.len() {
                s.pool.len() as int
            } else {
                max - s.contents.len()
            };
            let r = run(apply, params, date, max, ledger, s);
            &&& r.contents == s.contents + s.pool.take(k)
            &&& r.pool == s.pool.skip(k)
            &&& r.logs == s.logs
        }),
    decreases s.pool.len(),
{
    if s.pool.len() == 0 || s.contents.len() >= max {
        assert(s.pool.take(0) =~= Seq::<Fragment>::empty());
        assert(s.contents + s.pool.take(0) =~= s.contents);
        assert(s.pool.skip(0) =~= s.pool);
    } else {
        let n = step(apply, params, date, ledger, s);
        assert(outcome(apply, working(s.simulation, ledger), params, s.pool[0], date) is Ok);
        assert forall|l: L, i: int| 0 <= i < n.pool.len() implies (#[trigger] outcome(
            apply,
            l,
            params,
            n.pool[i],
            date,
        )) is Ok by {
            assert(n.pool[i] == s.pool[i + 1]);
        }
        lemma_valid_fragments_commit_in_order(apply, params, date, max, ledger, n);
        let k = if s.pool.len() <= max - s.contents.len() {
            s.pool.len() as int
        } else {
            max - s.contents.len()
        };
        assert(n.contents + n.pool.take(k - 1) =~= s.contents + s.pool.take(k));
        assert(n.pool.skip(k - 1) =~= s.pool.skip(k));
    }
}

/// Capacity bound: with at least `max - c + 1` applicable fragments in the
/// pool, where `c` fragments are already committed, the contents end up
/// holding exactly `max` fragments, taken in pool order, and the next
/// fragment stays at the front of the pool.
pub proof fn lemma_capacity_bound<L, P, F: Fn(&L, &P, &Fragment, BlockDate) -> Result<L, RejectionError>>(
    apply: F,
    params: P,
    date: BlockDate,
    max: nat,
    ledger: L,
    s: PassState<L>,
)
    requires
        all_apply(apply, params, date, s.pool),
        s.contents.len() <= max,
        s.pool.len() > max - s.contents.len(),
    ensures
        ({
            let r = run(apply, params, date, max, ledger, s);
            let k = max - s.contents.len();
            &&& r.contents.len() == max
            &&& r.contents == s.contents + s.pool.take(k)
            &&& r.pool == s.pool.skip(k)
            &&& r.pool[0] == s.pool[k]
        }),
{
    lemma_valid_fragments_commit_in_order(apply, params, date, max, ledger, s);
}

/// Order preservation: when all the applicable fragments of the pool fit,
/// the contents gain exactly the pool, in pool order, and the pool empties.
pub proof fn lemma_order_preserved<L, P, F: Fn(&L, &P, &Fragment, BlockDate) -> Result<L, RejectionError>>(
    apply: F,
    params: P,
    date: BlockDate,
    max: nat,
    ledger: L,
    s: PassState<L>,
)
    requires
        all_apply(apply, params, date, s.pool),
        s.contents.len() + s.pool.len() <= max,
    ensures
        run(apply, params, date, max, ledger, s).contents == s.contents + s.pool,
        run(apply, params, date, max, ledger, s).pool.len() == 0,
{
    lemma_valid_fragments_commit_in_order(apply, params, date, max, ledger, s);
    assert(s.pool.take(s.pool.len() as int) =~= s.pool);
}

/// Rejection isolation: a fragment that does not apply at the front of the
/// pool is logged as rejected with its reason, is not committed, and the
/// pass goes on over the rest of the pool exactly as if it had not been
/// there. Its reason is non-empty when the error's message is.
pub proof fn lemma_rejection_isolated<L, P, F: Fn(&L, &P, &Fragment, BlockDate) -> Result<L, RejectionError>>(
    apply: F,
    params: P,
    date: BlockDate,
    max: nat,
    ledger: L,
    s: PassState<L>,
)
    requires
        s.pool.len() > 0,
        s.contents.len() < max,
        outcome(apply, working(s.simulation, ledger), params, s.pool[0], date) is Err,
    ensures
        ({
            let e = outcome(apply, working(s.simulation, ledger), params, s.pool[0], date)->Err_0;
            &&& run(apply, params, date, max, ledger, s) == run(
                apply,
                params,
                date,
                max,
                ledger,
                (PassState {
                    simulation: s.simulation,
                    contents: s.contents,
                    logs: s.logs.insert(
                        s.pool[0].id.value,
                        StatusView::Rejected { reason: e.reason_view() },
                    ),
                    pool: s.pool.drop_first(),
                }),
            )
            &&& e.message@.len() > 0 ==> e.reason_view().len() > 0
        }),
{
}

/// A pass leaves the log entry of every identity that no fragment of the
/// pool carries as it was.
pub proof fn lemma_untouched_identities_keep_status<L, P, F: Fn(&L, &P, &Fragment, BlockDate) -> Result<L, RejectionError>>(
    apply: F,
    params: P,
    date: BlockDate,
    max: nat,
    ledger: L,
    s: PassState<L>,
    id: u64,
)
    requires
        forall|i: int| 0 <= i < s.pool.len() ==> (#[trigger] s.pool[i]).id.value != id,
    ensures
        run(apply, params, date, max, ledger, s).logs.contains_key(id) == s.logs.contains_key(id),
        s.logs.contains_key(id) ==> run(apply, params, date, max, ledger, s).logs[id] == s.logs[id],
    decreases s.pool.len(),
{
    if s.pool.len() == 0 || s.contents.len() >= max {
    } else {
        let n = step(apply, params, date, ledger, s);
        assert(s.pool[0].id.value != id);
        assert forall|i: int| 0 <= i < n.pool.len() implies (#[trigger] n.pool[i]).id.value != id by {
            assert(n.pool[i] == s.pool[i + 1]);
        }
        lemma_untouched_identities_keep_status(apply, params, date, max, ledger, n, id);
    }
}

/// A rejected fragment whose identity no later fragment of the pool
/// carries keeps its rejection, with its reason, in the log at the end of
/// the pass.
pub proof fn lemma_rejection_recorded<L, P, F: Fn(&L, &P, &Fragment, BlockDate) -> Result<L, RejectionError>>(
    apply: F,
    params: P,
    date: BlockDate,
    max: nat,
    ledger: L,
    s: PassState<L>,
)
    requires
        s.pool.len() > 0,
        s.contents.len() < max,
        outcome(apply, working(s.simulation, ledger), params, s.pool[0], date) is Err,
        forall|i: int| 1 <= i < s.pool.len() ==> (#[trigger] s.pool[i]).id.value != s.pool[0].id.value,
    ensures
        ({
            let e = outcome(apply, working(s.simulation, ledger), params, s.pool[0], date)->Err_0;
            run(apply, params, date, max, ledger, s).logs[s.pool[0].id.value]
                == StatusView::Rejected { reason: e.reason_view() }
        }),
{
    let n = step(apply, params, date, ledger, s);
    let id = s.pool[0].id.value;
    assert forall|i: int| 0 <= i < n.pool.len() implies (#[trigger] n.pool[i]).id.value != id by {
        assert(n.pool[i] == s.pool[i + 1]);
    }
    lemma_untouched_identities_keep_status(apply, params, date, max, ledger, n, id);
}

/// A selection policy: pulls fragments from the pool, applies them to a
/// working snapshot of the ledger with `apply`, commits those that apply and
/// logs the others as rejected.
pub trait FragmentSelectionAlgorithm<L>: Sized {
    /// The fragments committed so far, in order.
    spec fn committed(&self) -> Seq<Fragment>;

    fn select<P, F: Fn(&L, &P, &Fragment, BlockDate) -> Result<L, RejectionError>>(
        &mut self,
        ledger: &L,
        ledger_params: &P,
        block_date: BlockDate,
        logs: &mut Logs,
        pool: &mut Pool,
        apply: F,
    )
        requires
            applies_deterministically(apply, *ledger_params, block_date),
    ;

    /// Hands over the committed fragments as the block's contents.
    fn finalize(self) -> (r: Contents)
        ensures
            r@ == self.committed(),
    ;
}

/// The abstract state of an oldest-first selector.
pub ghost struct OldestFirstView<L> {
    pub contents: Seq<Fragment>,
    pub max_per_block: nat,
    pub simulation: Option<L>,
}

/// Takes fragments oldest first, up to a bound on the fragments per block.
/// The working snapshot persists across calls of `select`: each call
/// resumes where the previous one stopped.
pub struct OldestFirst<L> {
    builder: Vec<Fragment>,
    max_per_block: usize,
    simulation: Option<L>,
}

impl<L> View for OldestFirst<L> {
    type V = OldestFirstView<L>;

    closed spec fn view(&self) -> OldestFirstView<L> {
        OldestFirstView {
            contents: self.builder@,
            max_per_block: self.max_per_block as nat,
            simulation: self.simulation,
        }
    }
}

impl<L> OldestFirst<L> {
    pub fn new(max_per_block: usize) -> (r: OldestFirst<L>)
        ensures
            r@.contents == Seq::<Fragment>::empty(),
            r@.max_per_block == max_per_block,
            r@.simulation is None,
    {
        OldestFirst { builder: Vec::new(), max_per_block, simulation: None }
    }

    /// The state of a pass over this selector, a log and a pool.
    pub open spec fn pass_state(&self, logs: Logs, pool: Pool) -> PassState<L> {
        PassState {
            simulation: self@.simulation,
            contents: self@.contents,
            logs: logs@,
            pool: pool@,
        }
    }
}

impl<L> FragmentSelectionAlgorithm<L> for OldestFirst<L> {
    open spec fn committed(&self) -> Seq<Fragment> {
        self@.contents
    }

    /// Applies the pool's fragments oldest first until the pool is empty or
    /// the contents hold `max_per_block` fragments. A fragment that applies
    /// is committed and advances the working snapshot; one that does not is
    /// dropped from the pool and logged as rejected with its reason. The
    /// caller's `ledger` is only read.
    fn select<P, F: Fn(&L, &P, &Fragment, BlockDate) -> Result<L, RejectionError>>(
        &mut self,
        ledger: &L,
        ledger_params: &P,
        block_date: BlockDate,
        logs: &mut Logs,
        pool: &mut Pool,
        apply: F,
    )
        ensures
            final(self).pass_state(*final(logs), *final(pool)) == run(
                apply,
                *ledger_params,
                block_date,
                old(self)@.max_per_block,
                *ledger,
                old(self).pass_state(*old(logs), *old(pool)),
            ),
            final(self)@.max_per_block == old(self)@.max_per_block,
    {
        let ghost max = self@.max_per_block;
        let ghost target = run(
            apply,
            *ledger_params,
            block_date,
            max,
            *ledger,
            self.pass_state(*logs, *pool),
        );
        loop
            invariant
                applies_deterministically(apply, *ledger_params, block_date),
                self@.max_per_block == max,
                run(apply, *ledger_params, block_date, max, *ledger, self.pass_state(*logs, *pool))
                    == target,
            ensures
                self.pass_state(*logs, *pool) == target,
                self@.max_per_block == max,
            decreases pool@.len(),
        {
            if self.builder.len() >= self.max_per_block {
                break;
            }
            let ghost before = self.pass_state(*logs, *pool);
            match pool.remove_oldest() {
                None => {
                    break;
                },
                Some(fragment) => {
                    let result = match &self.simulation {
                        Some(l) => apply(l, ledger_params, &fragment, block_date),
                        None => apply(ledger, ledger_params, &fragment, block_date),
                    };
                    proof {
                        let w = working(before.simulation, *ledger);
                        let o = outcome(apply, w, *ledger_params, fragment, block_date);
                        assert(apply.ensures((&w, ledger_params, &fragment, block_date), result));
                        assert(o == result);
                    }
                    match result {
                        Ok(next) => {
                            self.builder.push(fragment);
                            self.simulation = Some(next);
                        },
                        Err(error) => {
                            let reason = error.reason();
                            logs.modify(&fragment.id, FragmentStatus::Rejected { reason });
                        },
                    }
                    assert(self.pass_state(*logs, *pool) == step(
                        apply,
                        *ledger_params,
                        block_date,
                        *ledger,
                        before,
                    ));
                },
            }
        }
    }

    fn finalize(self) -> (r: Contents) {
        Contents { fragments: self.builder }
    }
}

} // verus!
