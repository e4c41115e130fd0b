//! Laws of the toast queue, stated over arbitrary sequences of operations
//! on the mathematical model and proved once and for all.

use vstd::prelude::*;
use crate::model::{
    effective_duration, enforce_cap, evict_index, evict_one, expire_record, has_id,
    has_transient, index_of_id, lemma_dismiss_preserves_wf, lemma_elapse_preserves_wf,
    lemma_enforce_cap, lemma_first_transient_at, lemma_id_determines_index, lemma_index_of_id,
    lemma_push_fresh_ok, lemma_remove_preserves_wf, lemma_show_preserves_wf, mark_dismissing,
    record_of, sat_add, OptionsModel, QueueModel,
};
use crate::toast::ToastType;

verus! {

/// One operation on the queue.
pub enum Op {
    /// An enqueue call.
    Show { title: Seq<char>, toast_type: ToastType, options: OptionsModel },
    /// A removal by identifier.
    Remove { id: nat },
    /// A manual dismissal by identifier.
    Dismiss { id: nat },
    /// The clock advancing, running the expiry scheduler.
    Elapse { delta: u64 },
}

/// Whether `op` is a manual dismissal of `id`.
pub open spec fn dismisses(op: Op, id: nat) -> bool {
    op matches Op::Dismiss { id: d } && d == id
}

/// The state `op` leaves behind.
pub open spec fn step(q: QueueModel, op: Op) -> QueueModel {
    match op {
        Op::Show { title, toast_type, options } => q.after_show(title, toast_type, options),
        Op::Remove { id } => q.after_remove(id),
        Op::Dismiss { id } => q.after_dismiss(id),
        Op::Elapse { delta } => q.after_elapse(delta),
    }
}

/// The state a whole sequence of operations leaves behind.
pub open spec fn run(q: QueueModel, ops: Seq<Op>) -> QueueModel
    decreases ops.len(),
{
    if ops.len() == 0 {
        q
    } else {
        step(run(q, ops.drop_last()), ops.last())
    }
}

/// The identifier returned by the operation at position `i`, when that
/// operation is an enqueue call: the id counter of the state it starts
/// from.
pub open spec fn shown_id(q: QueueModel, ops: Seq<Op>, i: int) -> nat {
    run(q, ops.take(i)).next_id
}

/// One operation keeps the queue well formed and never touches the
/// configuration; the id counter never decreases, and an enqueue call
/// advances it by exactly one.
pub proof fn lemma_step_preserves_wf(q: QueueModel, op: Op)
    requires
        q.wf(),
    ensures
        step(q, op).wf(),
        step(q, op).max_toasts == q.max_toasts,
        step(q, op).default_duration == q.default_duration,
        step(q, op).next_id >= q.next_id,
        op is Show ==> step(q, op).next_id == q.next_id + 1,
        !(op is Show) ==> step(q, op).next_id == q.next_id,
{
    match op {
        Op::Show { title, toast_type, options } => {
            lemma_show_preserves_wf(q, title, toast_type, options);
        },
        Op::Remove { id } => {
            lemma_remove_preserves_wf(q, id);
        },
        Op::Dismiss { id } => {
            lemma_dismiss_preserves_wf(q, id);
        },
        Op::Elapse { delta } => {
            lemma_elapse_preserves_wf(q, delta);
        },
    }
}

/// Capacity invariant: from a well-formed state, any sequence of
/// operations leaves a well-formed state, so in particular the record
/// count stays at or below the configured ceiling.
pub proof fn lemma_capacity_invariant(q: QueueModel, ops: Seq<Op>)
    requires
        q.wf(),
    ensures
        run(q, ops).wf(),
        run(q, ops).records.len() <= q.max_toasts,
        run(q, ops).max_toasts == q.max_toasts,
        run(q, ops).default_duration == q.default_duration,
        run(q, ops).next_id >= q.next_id,
    decreases ops.len(),
{
    if ops.len() > 0 {
        lemma_capacity_invariant(q, ops.drop_last());
        lemma_step_preserves_wf(run(q, ops.drop_last()), ops.last());
    }
}

/// Running one more operation is stepping the run of the prefix.
pub proof fn lemma_run_take_succ(q: QueueModel, ops: Seq<Op>, i: int)
    requires
        0 <= i < ops.len(),
    ensures
        run(q, ops.take(i + 1)) == step(run(q, ops.take(i)), ops[i]),
{
    let pre = ops.take(i + 1);
    assert(pre.drop_last() =~= ops.take(i));
    assert(pre.last() == ops[i]);
}

/// The id counter never decreases between two prefixes of a run.
pub proof fn lemma_take_next_id_monotone(q: QueueModel, ops: Seq<Op>, i: int, j: int)
    requires
        q.wf(),
        0 <= i <= j <= ops.len(),
    ensures
        run(q, ops.take(j)).next_id >= run(q, ops.take(i)).next_id,
    decreases j - i,
{
    if i < j {
        lemma_take_next_id_monotone(q, ops, i, j - 1);
        lemma_run_take_succ(q, ops, j - 1);
        lemma_capacity_invariant(q, ops.take(j - 1));
        lemma_step_preserves_wf(run(q, ops.take(j - 1)), ops[j - 1]);
    }
}

/// Uniqueness: across any sequence of operations on a well-formed queue,
/// two distinct enqueue calls return distinct identifiers.
pub proof fn lemma_show_ids_unique(q: QueueModel, ops: Seq<Op>, i: int, j: int)
    requires
        q.wf(),
        0 <= i < j < ops.len(),
        ops[i] is Show,
        ops[j] is Show,
    ensures
        shown_id(q, ops, i) != shown_id(q, ops, j),
{
    lemma_run_take_succ(q, ops, i);
    lemma_capacity_invariant(q, ops.take(i));
    lemma_step_preserves_wf(run(q, ops.take(i)), ops[i]);
    lemma_take_next_id_monotone(q, ops, i + 1, j);
}

/// What one operation does to a present record: either it is gone
/// afterwards, or it survives unchanged, or it survives with only its
/// dismissing flag newly set — and the flag is set only by a manual
/// dismissal of that very identifier or by the clock reaching the record's
/// own deadline.
pub proof fn lemma_step_record(q: QueueModel, op: Op, id: nat)
    requires
        q.wf(),
        has_id(q.records, id),
    ensures
        has_id(step(q, op).records, id) ==> {
            let before = record_of(q.records, id);
            let after = record_of(step(q, op).records, id);
            ||| after == before
            ||| {
                &&& after == mark_dismissing(before)
                &&& (dismisses(op, id) || (op is Elapse && (before.deadline matches Some(d) && d
                    <= step(q, op).now)))
            }
        },
{
    lemma_index_of_id(q.records, id);
    let i0 = index_of_id(q.records, id);
    let before = record_of(q.records, id);
    let q1 = step(q, op);
    if has_id(q1.records, id) {
        lemma_index_of_id(q1.records, id);
        let k = index_of_id(q1.records, id);
        match op {
            Op::Show { title, toast_type, options } => {
                let f = q.fresh_record(title, toast_type, options);
                let pushed = q.records.push(f);
                lemma_push_fresh_ok(q, title, toast_type, options);
                lemma_enforce_cap(pushed, q.max_toasts, q.next_id + 1, q.now);
                assert(pushed.contains(q1.records[k]));
                let m = choose|m: int| 0 <= m < pushed.len() && pushed[m] == q1.records[k];
                assert(q.records[i0].id == id);
                if m < q.records.len() {
                    assert(pushed[m] == q.records[m]);
                    lemma_id_determines_index(q.records, id, m);
                } else {
                    assert(pushed[m] == f);
                }
            },
            Op::Remove { id: rid } => {
                if has_id(q.records, rid) {
                    lemma_index_of_id(q.records, rid);
                    let ir = index_of_id(q.records, rid);
                    q.records.remove_ensures(ir);
                    let kk: int = if k < ir {
                        k
                    } else {
                        k + 1
                    };
                    assert(q1.records[k] == q.records[kk]);
                    lemma_id_determines_index(q.records, id, kk);
                }
            },
            Op::Dismiss { id: did } => {
                if has_id(q.records, did) {
                    lemma_index_of_id(q.records, did);
                    let idd = index_of_id(q.records, did);
                    if k == idd {
                        assert(q1.records[k] == mark_dismissing(q.records[idd]));
                        assert(q.records[idd].id == id);
                        lemma_id_determines_index(q.records, id, idd);
                        assert(did == id);
                    } else {
                        assert(q1.records[k] == q.records[k]);
                        lemma_id_determines_index(q.records, id, k);
                    }
                }
            },
            Op::Elapse { delta } => {
                let t = sat_add(q.now, delta);
                assert(q1.records[k] == expire_record(q.records[k], t));
                assert(q.records[k].id == id);
                lemma_id_determines_index(q.records, id, k);
            },
        }
    }
}

/// An identifier below the id counter that is absent stays absent: no
/// operation mints it again.
pub proof fn lemma_step_no_resurrection(q: QueueModel, op: Op, id: nat)
    requires
        q.wf(),
        id < q.next_id,
        !has_id(q.records, id),
    ensures
        !has_id(step(q, op).records, id),
{
    let q1 = step(q, op);
    if has_id(q1.records, id) {
        lemma_index_of_id(q1.records, id);
        let k = index_of_id(q1.records, id);
        match op {
            Op::Show { title, toast_type, options } => {
                let f = q.fresh_record(title, toast_type, options);
                let pushed = q.records.push(f);
                lemma_push_fresh_ok(q, title, toast_type, options);
                lemma_enforce_cap(pushed, q.max_toasts, q.next_id + 1, q.now);
                assert(pushed.contains(q1.records[k]));
                let m = choose|m: int| 0 <= m < pushed.len() && pushed[m] == q1.records[k];
                if m < q.records.len() {
                    assert(pushed[m] == q.records[m]);
                    assert(has_id(q.records, id));
                } else {
                    assert(pushed[m] == f);
                }
            },
            Op::Remove { id: rid } => {
                if has_id(q.records, rid) {
                    lemma_index_of_id(q.records, rid);
                    let ir = index_of_id(q.records, rid);
                    q.records.remove_ensures(ir);
                    let kk: int = if k < ir {
                        k
                    } else {
                        k + 1
                    };
                    assert(q1.records[k] == q.records[kk]);
                    assert(has_id(q.records, id));
                }
            },
            Op::Dismiss { id: did } => {
                if has_id(q.records, did) {
                    lemma_index_of_id(q.records, did);
                    let idd = index_of_id(q.records, did);
                    if k == idd {
                        assert(q1.records[k] == mark_dismissing(q.records[idd]));
                        assert(q.records[idd].id == id);
                    } else {
                        assert(q1.records[k] == q.records[k]);
                    }
                    assert(has_id(q.records, id));
                }
            },
            Op::Elapse { delta } => {
                let t = sat_add(q.now, delta);
                assert(q1.records[k] == expire_record(q.records[k], t));
                assert(q.records[k].id == id);
                assert(has_id(q.records, id));
            },
        }
    }
}

/// Expiry transition, creation side: an enqueue call below the ceiling
/// evicts nothing — the new record is appended as-is, not dismissing, its
/// deadline one effective duration past the clock unless it is permanent.
pub proof fn lemma_show_below_cap(
    q: QueueModel,
    title: Seq<char>,
    toast_type: ToastType,
    options: OptionsModel,
)
    requires
        q.wf(),
        q.records.len() < q.max_toasts,
    ensures
        q.after_show(title, toast_type, options).records == q.records.push(
            q.fresh_record(title, toast_type, options),
        ),
        !q.fresh_record(title, toast_type, options).dismissing,
        q.fresh_record(title, toast_type, options).id == q.next_id,
        !options.permanent ==> q.fresh_record(title, toast_type, options).deadline == Some(
            sat_add(q.now, effective_duration(options.duration, q.default_duration)),
        ),
        options.permanent ==> q.fresh_record(title, toast_type, options).deadline is None,
{
    let pushed = q.records.push(q.fresh_record(title, toast_type, options));
    assert(enforce_cap(pushed, q.max_toasts) == pushed);
}

/// Expiry transition, scheduler side: once the clock has advanced, every
/// record whose deadline has been reached is dismissing.
pub proof fn lemma_elapse_marks_due(q: QueueModel, delta: u64)
    requires
        q.wf(),
    ensures
        forall|i: int|
            0 <= i < q.after_elapse(delta).records.len() ==> ((#[trigger] q.after_elapse(
                delta,
            ).records[i]).deadline matches Some(d) && d <= q.after_elapse(delta).now
                ==> q.after_elapse(delta).records[i].dismissing),
{
    let t = sat_add(q.now, delta);
    let s = q.after_elapse(delta).records;
    assert forall|i: int| 0 <= i < s.len() implies ((#[trigger] s[i]).deadline matches Some(d)
        && d <= t ==> s[i].dismissing) by {
        assert(s[i] == expire_record(q.records[i], t));
    }
}

/// Expiry transition, observation side: in any state reached from a
/// well-formed one, a record still present strictly past its deadline is
/// dismissing.
pub proof fn lemma_past_deadline_dismissing(q: QueueModel, ops: Seq<Op>, id: nat)
    requires
        q.wf(),
    ensures
        ({
            let q1 = run(q, ops);
            has_id(q1.records, id) && (record_of(q1.records, id).deadline matches Some(d) && d
                < q1.now) ==> record_of(q1.records, id).dismissing
        }),
{
    lemma_capacity_invariant(q, ops);
    let q1 = run(q, ops);
    if has_id(q1.records, id) {
        lemma_index_of_id(q1.records, id);
    }
}

/// Once a record is dismissing it stays so, under any further operations,
/// for as long as it is present.
pub proof fn lemma_dismissing_persists(q: QueueModel, ops: Seq<Op>, id: nat)
    requires
        q.wf(),
        has_id(q.records, id),
        record_of(q.records, id).dismissing,
    ensures
        has_id(run(q, ops).records, id) ==> record_of(run(q, ops).records, id).dismissing,
    decreases ops.len(),
{
    lemma_index_of_id(q.records, id);
    if ops.len() > 0 {
        let prefix = ops.drop_last();
        let op = ops.last();
        lemma_dismissing_persists(q, prefix, id);
        let q1 = run(q, prefix);
        lemma_capacity_invariant(q, prefix);
        if has_id(run(q, ops).records, id) {
            if has_id(q1.records, id) {
                lemma_step_record(q1, op, id);
            } else {
                assert(q.records[index_of_id(q.records, id)].id == id);
                lemma_step_no_resurrection(q1, op, id);
            }
        }
    }
}

/// Permanence exemption: a permanent record that is not dismissing stays
/// so under any operations that do not dismiss it by hand, for as long as
/// it is present — in particular, no passage of time dismisses it.
pub proof fn lemma_permanence_exemption(q: QueueModel, ops: Seq<Op>, id: nat)
    requires
        q.wf(),
        has_id(q.records, id),
        record_of(q.records, id).permanent,
        !record_of(q.records, id).dismissing,
        forall|k: int| 0 <= k < ops.len() ==> !dismisses(#[trigger] ops[k], id),
    ensures
        has_id(run(q, ops).records, id) ==> {
            &&& record_of(run(q, ops).records, id).permanent
            &&& !record_of(run(q, ops).records, id).dismissing
        },
    decreases ops.len(),
{
    lemma_index_of_id(q.records, id);
    if ops.len() > 0 {
        let prefix = ops.drop_last();
        let op = ops.last();
        assert forall|k: int| 0 <= k < prefix.len() implies !dismisses(#[trigger] prefix[k], id) by {
            assert(prefix[k] == ops[k]);
        }
        lemma_permanence_exemption(q, prefix, id);
        let q1 = run(q, prefix);
        lemma_capacity_invariant(q, prefix);
        if has_id(run(q, ops).records, id) {
            if has_id(q1.records, id) {
                lemma_index_of_id(q1.records, id);
                assert(q1.records[index_of_id(q1.records, id)] == record_of(q1.records, id));
                lemma_step_record(q1, op, id);
                assert(!dismisses(ops[ops.len() - 1], id));
            } else {
                assert(q.records[index_of_id(q.records, id)].id == id);
                lemma_step_no_resurrection(q1, op, id);
            }
        }
    }
}

/// Idempotent removal: removing an identifier leaves no record carrying
/// it, so removing it again changes nothing.
pub proof fn lemma_remove_idempotent(q: QueueModel, id: nat)
    requires
        q.wf(),
    ensures
        !has_id(q.after_remove(id).records, id),
        q.after_remove(id).after_remove(id) == q.after_remove(id),
{
    if has_id(q.records, id) {
        lemma_index_of_id(q.records, id);
        let i = index_of_id(q.records, id);
        q.records.remove_ensures(i);
        let r = q.records.remove(i);
        assert forall|k: int| 0 <= k < r.len() implies (#[trigger] r[k]).id != id by {
            if k < i {
                assert(r[k] == q.records[k]);
                if q.records[k].id == id {
                    lemma_id_determines_index(q.records, id, k);
                }
            } else {
                assert(r[k] == q.records[k + 1]);
                if q.records[k + 1].id == id {
                    lemma_id_determines_index(q.records, id, k + 1);
                }
            }
        }
        if has_id(r, id) {
            let k = choose|k: int| 0 <= k < r.len() && (#[trigger] r[k]).id == id;
            assert(r[k].id != id);
        }
    }
}

/// FIFO eviction preference: when the queue is full of transient records,
/// one more enqueue evicts exactly the oldest record — the one carrying
/// the least identifier — and the new record is present.
pub proof fn lemma_fifo_eviction(
    q: QueueModel,
    title: Seq<char>,
    toast_type: ToastType,
    options: OptionsModel,
)
    requires
        q.wf(),
        q.records.len() == q.max_toasts,
        q.max_toasts >= 1,
        forall|i: int| 0 <= i < q.records.len() ==> !(#[trigger] q.records[i]).permanent,
        !options.permanent,
    ensures
        q.after_show(title, toast_type, options).records == q.records.drop_first().push(
            q.fresh_record(title, toast_type, options),
        ),
        !has_id(q.after_show(title, toast_type, options).records, q.records[0].id),
        has_id(q.after_show(title, toast_type, options).records, q.next_id),
{
    let f = q.fresh_record(title, toast_type, options);
    let s = q.records.push(f);
    assert(s[0] == q.records[0]);
    lemma_first_transient_at(s, 0);
    let ev = evict_one(s);
    s.remove_ensures(0);
    assert(ev =~= q.records.drop_first().push(f));
    assert(enforce_cap(s, q.max_toasts) == enforce_cap(ev, q.max_toasts));
    assert(enforce_cap(ev, q.max_toasts) == ev);
    let res = q.after_show(title, toast_type, options).records;
    assert(res[res.len() - 1] == f);
    assert(has_id(res, q.next_id));
    assert forall|k: int| 0 <= k < res.len() implies (#[trigger] res[k]).id != q.records[0].id by {
        if k < res.len() - 1 {
            assert(res[k] == q.records[k + 1]);
            assert(q.records[0].id < q.records[k + 1].id);
        } else {
            assert(res[k] == f);
            assert(q.records[0].id < q.next_id);
        }
    }
}

/// Permanent protection: when exactly one of a full queue's records is
/// transient, enqueuing a transient record evicts that one — every
/// permanent record survives, and the new record is present.
pub proof fn lemma_permanent_protection(
    q: QueueModel,
    title: Seq<char>,
    toast_type: ToastType,
    options: OptionsModel,
    idx: int,
)
    requires
        q.wf(),
        q.records.len() == q.max_toasts,
        0 <= idx < q.records.len(),
        !q.records[idx].permanent,
        forall|i: int|
            0 <= i < q.records.len() && i != idx ==> (#[trigger] q.records[i]).permanent,
        !options.permanent,
    ensures
        q.after_show(title, toast_type, options).records == q.records.remove(idx).push(
            q.fresh_record(title, toast_type, options),
        ),
        has_id(q.after_show(title, toast_type, options).records, q.next_id),
        !has_id(q.after_show(title, toast_type, options).records, q.records[idx].id),
        forall|i: int|
            0 <= i < q.records.len() && i != idx ==> has_id(
                q.after_show(title, toast_type, options).records,
                (#[trigger] q.records[i]).id,
            ),
{
    let f = q.fresh_record(title, toast_type, options);
    let s = q.records.push(f);
    assert(s[idx] == q.records[idx]);
    assert forall|j: int| 0 <= j < idx implies (#[trigger] s[j]).permanent by {
        assert(s[j] == q.records[j]);
    }
    lemma_first_transient_at(s, idx);
    let ev = evict_one(s);
    s.remove_ensures(idx);
    q.records.remove_ensures(idx);
    assert(ev =~= q.records.remove(idx).push(f));
    assert(enforce_cap(s, q.max_toasts) == enforce_cap(ev, q.max_toasts));
    assert(enforce_cap(ev, q.max_toasts) == ev);
    let res = q.after_show(title, toast_type, options).records;
    assert(res[res.len() - 1] == f);
    assert(has_id(res, q.next_id));
    assert forall|k: int| 0 <= k < res.len() implies (#[trigger] res[k]).id
        != q.records[idx].id by {
        if k < idx {
            assert(res[k] == q.records[k]);
        } else if k < res.len() - 1 {
            assert(res[k] == q.records[k + 1]);
        } else {
            assert(res[k] == f);
            assert(q.records[idx].id < q.next_id);
        }
    }
    assert forall|i: int| 0 <= i < q.records.len() && i != idx implies has_id(
        res,
        (#[trigger] q.records[i]).id,
    ) by {
        if i < idx {
            assert(res[i] == q.records[i]);
        } else {
            assert(res[i - 1] == q.records[i]);
        }
    }
}

/// Hard ceiling override: even when a full queue holds only permanent
/// records, one more enqueue leaves the count at the ceiling.  A permanent
/// newcomer costs the oldest record its place; a transient newcomer is
/// itself the preferred victim and the queue is unchanged.
pub proof fn lemma_hard_ceiling(
    q: QueueModel,
    title: Seq<char>,
    toast_type: ToastType,
    options: OptionsModel,
)
    requires
        q.wf(),
        q.records.len() == q.max_toasts,
        q.max_toasts >= 1,
        forall|i: int| 0 <= i < q.records.len() ==> (#[trigger] q.records[i]).permanent,
    ensures
        q.after_show(title, toast_type, options).records.len() == q.max_toasts,
        options.permanent ==> q.after_show(title, toast_type, options).records
            == q.records.drop_first().push(q.fresh_record(title, toast_type, options)),
        options.permanent ==> !has_id(
            q.after_show(title, toast_type, options).records,
            q.records[0].id,
        ),
        !options.permanent ==> q.after_show(title, toast_type, options).records == q.records,
{
    let f = q.fresh_record(title, toast_type, options);
    let s = q.records.push(f);
    let len: int = q.records.len() as int;
    if options.permanent {
        assert(!has_transient(s)) by {
            if has_transient(s) {
                let i = choose|i: int| 0 <= i < s.len() && !(#[trigger] s[i]).permanent;
                if i < len {
                    assert(s[i] == q.records[i]);
                } else {
                    assert(s[i] == f);
                }
            }
        }
        assert(evict_index(s) == 0);
        let ev = evict_one(s);
        s.remove_ensures(0);
        assert(ev =~= q.records.drop_first().push(f));
        assert(enforce_cap(s, q.max_toasts) == enforce_cap(ev, q.max_toasts));
        assert(enforce_cap(ev, q.max_toasts) == ev);
        let res = q.after_show(title, toast_type, options).records;
        assert forall|k: int| 0 <= k < res.len() implies (#[trigger] res[k]).id
            != q.records[0].id by {
            if k < res.len() - 1 {
                assert(res[k] == q.records[k + 1]);
                assert(q.records[0].id < q.records[k + 1].id);
            } else {
                assert(res[k] == f);
                assert(q.records[0].id < q.next_id);
            }
        }
    } else {
        assert forall|j: int| 0 <= j < len implies (#[trigger] s[j]).permanent by {
            assert(s[j] == q.records[j]);
        }
        assert(s[len] == f);
        lemma_first_transient_at(s, len);
        let ev = evict_one(s);
        s.remove_ensures(len);
        assert(ev =~= q.records);
        assert(enforce_cap(s, q.max_toasts) == enforce_cap(ev, q.max_toasts));
        assert(enforce_cap(ev, q.max_toasts) == ev);
    }
}

} // verus!
