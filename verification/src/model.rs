//! Mathematical model of the toast queue.
//!
//! The exec types in [`crate::toast`] are abstracted to the plain values in
//! this module; every exec operation on the queue is specified as a function
//! from one [`QueueModel`] to the next.

use vstd::prelude::*;
use crate::toast::ToastType;

verus! {

/// Abstract value of one notification record.
#[verifier::ext_equal]
pub struct ToastModel {
    /// Identifier, unique among all records the queue ever created.
    pub id: nat,
    /// Display title; accepted as-is, the queue never validates it.
    pub title: Seq<char>,
    /// Optional secondary text.
    pub description: Option<Seq<char>>,
    /// Severity of the notification.
    pub toast_type: ToastType,
    /// Requested display span in milliseconds; `None` means the queue's
    /// default applies.  Always `None` on a permanent record.
    pub duration: Option<u64>,
    /// A permanent record is exempt from auto-expiry.
    pub permanent: bool,
    /// Set once the record's exit has been requested; never reset.
    pub dismissing: bool,
    /// Clock value at which the record falls due, `None` for permanent
    /// records.
    pub deadline: Option<u64>,
}

/// Abstract value of the options accepted by an enqueue call.
#[verifier::ext_equal]
pub struct OptionsModel {
    pub description: Option<Seq<char>>,
    pub duration: Option<u64>,
    pub permanent: bool,
}

impl OptionsModel {
    /// Options of a plain enqueue call: no description, default duration,
    /// not permanent.
    pub open spec fn empty() -> OptionsModel {
        OptionsModel { description: None, duration: None, permanent: false }
    }
}

/// Abstract state of the whole queue.
#[verifier::ext_equal]
pub struct QueueModel {
    /// Active records, oldest first; insertion order equals creation order.
    pub records: Seq<ToastModel>,
    /// Identifier the next enqueue call returns; never decreases.
    pub next_id: nat,
    /// Capacity ceiling on `records`.
    pub max_toasts: nat,
    /// Display span in milliseconds applied when an enqueue call names none.
    pub default_duration: u64,
    /// Current clock value in milliseconds.
    pub now: u64,
}

/// `u64` addition that stops at `u64::MAX` instead of wrapping.
pub open spec fn sat_add(a: u64, b: u64) -> u64 {
    if a + b > u64::MAX {
        u64::MAX
    } else {
        (a + b) as u64
    }
}

/// The span a record is displayed for: the requested one if any, else the
/// queue's default.
pub open spec fn effective_duration(duration: Option<u64>, default: u64) -> u64 {
    match duration {
        Some(d) => d,
        None => default,
    }
}

/// Whether some record in `s` carries `id`.
pub open spec fn has_id(s: Seq<ToastModel>, id: nat) -> bool {
    exists|i: int| 0 <= i < s.len() && (#[trigger] s[i]).id == id
}

/// Index of the first record in `s` carrying `id`; `s.len()` if there is
/// none.
pub open spec fn index_of_id(s: Seq<ToastModel>, id: nat) -> int
    decreases s.len(),
{
    if s.len() == 0 {
        0
    } else if s[0].id == id {
        0
    } else {
        1 + index_of_id(s.drop_first(), id)
    }
}

/// The first record in `s` carrying `id`.
pub open spec fn record_of(s: Seq<ToastModel>, id: nat) -> ToastModel {
    s[index_of_id(s, id)]
}

/// Whether some record in `s` is transient, that is not permanent.
pub open spec fn has_transient(s: Seq<ToastModel>) -> bool {
    exists|i: int| 0 <= i < s.len() && !(#[trigger] s[i]).permanent
}

/// Index of the first transient record in `s`; `s.len()` if every record is
/// permanent.
pub open spec fn first_transient(s: Seq<ToastModel>) -> int
    decreases s.len(),
{
    if s.len() == 0 {
        0
    } else if !s[0].permanent {
        0
    } else {
        1 + first_transient(s.drop_first())
    }
}

/// Index the eviction policy removes from an over-full queue: the first
/// transient record, or the oldest record when every record is permanent.
pub open spec fn evict_index(s: Seq<ToastModel>) -> int {
    if has_transient(s) {
        first_transient(s)
    } else {
        0
    }
}

/// One step of the eviction policy.
pub open spec fn evict_one(s: Seq<ToastModel>) -> Seq<ToastModel> {
    s.remove(evict_index(s))
}

/// The eviction policy: remove records one at a time until at most `max`
/// remain.
pub open spec fn enforce_cap(s: Seq<ToastModel>, max: nat) -> Seq<ToastModel>
    decreases s.len(),
    via enforce_cap_decreases
{
    if s.len() <= max {
        s
    } else {
        enforce_cap(evict_one(s), max)
    }
}

#[via_fn]
proof fn enforce_cap_decreases(s: Seq<ToastModel>, max: nat) {
    if s.len() > max {
        lemma_first_transient(s);
    }
}

/// Every record in `s` has an identifier below `bound`.
pub open spec fn ids_below(s: Seq<ToastModel>, bound: nat) -> bool {
    forall|i: int| 0 <= i < s.len() ==> (#[trigger] s[i]).id < bound
}

/// Identifiers strictly increase along `s`, so they are pairwise distinct
/// and the oldest record carries the lowest one.
pub open spec fn ids_increasing(s: Seq<ToastModel>) -> bool {
    forall|i: int, j: int| 0 <= i < j < s.len() ==> (#[trigger] s[i]).id < (#[trigger] s[j]).id
}

/// A record has a deadline exactly when it is transient.
pub open spec fn deadlines_consistent(s: Seq<ToastModel>) -> bool {
    forall|i: int| 0 <= i < s.len() ==> ((#[trigger] s[i]).permanent <==> s[i].deadline is None)
}

/// Every record strictly past its deadline is already dismissing.
pub open spec fn expired_marked(s: Seq<ToastModel>, now: u64) -> bool {
    forall|i: int|
        0 <= i < s.len() ==> ((#[trigger] s[i]).deadline matches Some(d) && d < now
            ==> s[i].dismissing)
}

/// Pointwise and pairwise well-formedness of a record list, against the
/// queue's id counter and clock.
pub open spec fn records_ok(s: Seq<ToastModel>, next_id: nat, now: u64) -> bool {
    &&& ids_below(s, next_id)
    &&& ids_increasing(s)
    &&& deadlines_consistent(s)
    &&& expired_marked(s, now)
}

/// `r` with its exit requested.
pub open spec fn mark_dismissing(r: ToastModel) -> ToastModel {
    ToastModel { dismissing: true, ..r }
}

/// `r` as the clock reaching `now` leaves it: dismissing once its deadline
/// is due, otherwise unchanged.
pub open spec fn expire_record(r: ToastModel, now: u64) -> ToastModel {
    if r.deadline matches Some(d) && d <= now {
        mark_dismissing(r)
    } else {
        r
    }
}

impl QueueModel {
    /// Well-formedness: the capacity ceiling holds and the record list is
    /// consistent with the id counter and the clock.
    pub open spec fn wf(self) -> bool {
        &&& self.records.len() <= self.max_toasts
        &&& records_ok(self.records, self.next_id, self.now)
    }

    /// A fresh queue: no records, identifiers starting at zero, clock at
    /// zero.
    pub open spec fn init(default_duration: u64, max_toasts: nat) -> QueueModel {
        QueueModel {
            records: Seq::empty(),
            next_id: 0,
            max_toasts,
            default_duration,
            now: 0,
        }
    }

    /// The record an enqueue call constructs: fresh identifier, dismissing
    /// clear, and a deadline one effective duration from now unless the
    /// record is permanent.
    pub open spec fn fresh_record(
        self,
        title: Seq<char>,
        toast_type: ToastType,
        opts: OptionsModel,
    ) -> ToastModel {
        ToastModel {
            id: self.next_id,
            title,
            description: opts.description,
            toast_type,
            duration: if opts.permanent {
                None
            } else {
                opts.duration
            },
            permanent: opts.permanent,
            dismissing: false,
            deadline: if opts.permanent {
                None
            } else {
                Some(sat_add(self.now, effective_duration(opts.duration, self.default_duration)))
            },
        }
    }

    /// State after an enqueue call: the fresh record appended, then the
    /// eviction policy run, and the id counter advanced.
    pub open spec fn after_show(
        self,
        title: Seq<char>,
        toast_type: ToastType,
        opts: OptionsModel,
    ) -> QueueModel {
        QueueModel {
            records: enforce_cap(
                self.records.push(self.fresh_record(title, toast_type, opts)),
                self.max_toasts,
            ),
            next_id: self.next_id + 1,
            ..self
        }
    }

    /// State after removing `id`: the record carrying it is gone; a miss
    /// changes nothing.
    pub open spec fn after_remove(self, id: nat) -> QueueModel {
        if has_id(self.records, id) {
            QueueModel { records: self.records.remove(index_of_id(self.records, id)), ..self }
        } else {
            self
        }
    }

    /// State after a manual dismissal of `id`: the record carrying it is
    /// dismissing; a miss changes nothing.
    pub open spec fn after_dismiss(self, id: nat) -> QueueModel {
        if has_id(self.records, id) {
            let i = index_of_id(self.records, id);
            QueueModel { records: self.records.update(i, mark_dismissing(self.records[i])), ..self }
        } else {
            self
        }
    }

    /// State after the clock advances by `delta`: every record whose
    /// deadline is due is dismissing.
    pub open spec fn after_elapse(self, delta: u64) -> QueueModel {
        let t = sat_add(self.now, delta);
        QueueModel {
            now: t,
            records: self.records.map_values(|r: ToastModel| expire_record(r, t)),
            ..self
        }
    }
}

/// Characterisation of [`first_transient`]: it is the least index of a
/// transient record, and `s.len()` when there is none.
pub proof fn lemma_first_transient(s: Seq<ToastModel>)
    ensures
        has_transient(s) ==> {
            &&& 0 <= first_transient(s) < s.len()
            &&& !s[first_transient(s)].permanent
            &&& forall|j: int| 0 <= j < first_transient(s) ==> (#[trigger] s[j]).permanent
        },
        !has_transient(s) ==> first_transient(s) == s.len(),
    decreases s.len(),
{
    if s.len() == 0 {
    } else if !s[0].permanent {
    } else {
        let rest = s.drop_first();
        lemma_first_transient(rest);
        assert(forall|j: int| 0 <= j < rest.len() ==> rest[j] == s[j + 1]);
        if has_transient(s) {
            let i = choose|i: int| 0 <= i < s.len() && !(#[trigger] s[i]).permanent;
            assert(i >= 1);
            assert(!rest[i - 1].permanent);
            assert(has_transient(rest));
            let f = first_transient(rest);
            assert(!rest[f].permanent);
            assert(s[f + 1] == rest[f]);
            assert forall|j: int| 0 <= j < first_transient(s) implies (#[trigger] s[j]).permanent by {
                if j >= 1 {
                    assert(rest[j - 1].permanent);
                }
            }
        }
        if has_transient(rest) {
            let j = choose|j: int| 0 <= j < rest.len() && !(#[trigger] rest[j]).permanent;
            assert(!s[j + 1].permanent);
            assert(has_transient(s));
        }
    }
}

/// Characterisation of [`index_of_id`]: it is the least index carrying
/// `id`, and `s.len()` when none does.
pub proof fn lemma_index_of_id(s: Seq<ToastModel>, id: nat)
    ensures
        has_id(s, id) ==> {
            &&& 0 <= index_of_id(s, id) < s.len()
            &&& s[index_of_id(s, id)].id == id
            &&& forall|j: int| 0 <= j < index_of_id(s, id) ==> (#[trigger] s[j]).id != id
        },
        !has_id(s, id) ==> index_of_id(s, id) == s.len(),
    decreases s.len(),
{
    if s.len() == 0 {
    } else if s[0].id == id {
    } else {
        let rest = s.drop_first();
        lemma_index_of_id(rest, id);
        assert(forall|j: int| 0 <= j < rest.len() ==> rest[j] == s[j + 1]);
        if has_id(s, id) {
            let i = choose|i: int| 0 <= i < s.len() && (#[trigger] s[i]).id == id;
            assert(i >= 1);
            assert(rest[i - 1].id == id);
            assert(has_id(rest, id));
            let f = index_of_id(rest, id);
            assert(s[f + 1] == rest[f]);
            assert forall|j: int| 0 <= j < index_of_id(s, id) implies (#[trigger] s[j]).id != id by {
                if j >= 1 {
                    assert(rest[j - 1].id != id);
                }
            }
        }
        if has_id(rest, id) {
            let j = choose|j: int| 0 <= j < rest.len() && (#[trigger] rest[j]).id == id;
            assert(s[j + 1].id == id);
            assert(has_id(s, id));
        }
    }
}

/// Under strictly increasing identifiers, a record's index is determined by
/// its identifier: any index carrying `id` is [`index_of_id`].
pub proof fn lemma_id_determines_index(s: Seq<ToastModel>, id: nat, i: int)
    requires
        ids_increasing(s),
        0 <= i < s.len(),
        s[i].id == id,
    ensures
        has_id(s, id),
        index_of_id(s, id) == i,
{
    assert(has_id(s, id));
    lemma_index_of_id(s, id);
    let f = index_of_id(s, id);
    if f < i {
        assert(s[f].id < s[i].id);
    }
    if i < f {
        assert(s[i].id != id);
    }
}

/// Removing one record keeps the list well formed, and every surviving
/// record is one of the original records.
pub proof fn lemma_remove_ok(s: Seq<ToastModel>, i: int, next_id: nat, now: u64)
    requires
        records_ok(s, next_id, now),
        0 <= i < s.len(),
    ensures
        records_ok(s.remove(i), next_id, now),
        s.remove(i).len() == s.len() - 1,
        forall|k: int| 0 <= k < i ==> #[trigger] s.remove(i)[k] == s[k],
        forall|k: int| i <= k < s.len() - 1 ==> #[trigger] s.remove(i)[k] == s[k + 1],
{
    s.remove_ensures(i);
    let r = s.remove(i);
    assert forall|k: int, l: int| 0 <= k < l < r.len() implies (#[trigger] r[k]).id
        < (#[trigger] r[l]).id by {
        if k < i {
            assert(r[k] == s[k]);
        } else {
            assert(r[k] == s[k + 1]);
        }
        if l < i {
            assert(r[l] == s[l]);
        } else {
            assert(r[l] == s[l + 1]);
        }
    }
    assert forall|k: int| 0 <= k < r.len() implies {
        &&& (#[trigger] r[k]).id < next_id
        &&& (r[k].permanent <==> r[k].deadline is None)
        &&& (r[k].deadline matches Some(d) && d < now ==> r[k].dismissing)
    } by {
        if k < i {
            assert(r[k] == s[k]);
        } else {
            assert(r[k] == s[k + 1]);
        }
    }
}

/// The eviction policy keeps the list well formed, cuts it to the ceiling
/// exactly, and invents no record.
pub proof fn lemma_enforce_cap(s: Seq<ToastModel>, max: nat, next_id: nat, now: u64)
    requires
        records_ok(s, next_id, now),
    ensures
        records_ok(enforce_cap(s, max), next_id, now),
        enforce_cap(s, max).len() == if s.len() <= max {
            s.len() as int
        } else {
            max as int
        },
        forall|k: int|
            0 <= k < enforce_cap(s, max).len() ==> s.contains(#[trigger] enforce_cap(s, max)[k]),
    decreases s.len(),
{
    let res = enforce_cap(s, max);
    if s.len() <= max {
        assert forall|k: int| 0 <= k < res.len() implies s.contains(#[trigger] res[k]) by {
            assert(res[k] == s[k]);
        }
    } else {
        lemma_first_transient(s);
        let i = evict_index(s);
        let ev = evict_one(s);
        lemma_remove_ok(s, i, next_id, now);
        lemma_enforce_cap(ev, max, next_id, now);
        assert forall|k: int| 0 <= k < res.len() implies s.contains(#[trigger] res[k]) by {
            assert(ev.contains(res[k]));
            let j = choose|j: int| 0 <= j < ev.len() && ev[j] == res[k];
            if j < i {
                assert(res[k] == s[j]);
            } else {
                assert(res[k] == s[j + 1]);
            }
        }
    }
}

/// Corollary of [`lemma_first_transient`]: an index whose record is
/// transient, all earlier records being permanent, is the first transient
/// index.
pub proof fn lemma_first_transient_at(s: Seq<ToastModel>, i: int)
    requires
        0 <= i < s.len(),
        !s[i].permanent,
        forall|j: int| 0 <= j < i ==> (#[trigger] s[j]).permanent,
    ensures
        has_transient(s),
        first_transient(s) == i,
{
    assert(has_transient(s));
    lemma_first_transient(s);
    let f = first_transient(s);
    if f < i {
        assert(s[f].permanent);
    }
    if i < f {
        assert(s[i].permanent);
    }
}

/// Corollary of [`lemma_index_of_id`]: an index whose record carries `id`,
/// no earlier record doing so, is the index of `id`.
pub proof fn lemma_index_of_id_at(s: Seq<ToastModel>, id: nat, i: int)
    requires
        0 <= i < s.len(),
        s[i].id == id,
        forall|j: int| 0 <= j < i ==> (#[trigger] s[j]).id != id,
    ensures
        has_id(s, id),
        index_of_id(s, id) == i,
{
    assert(has_id(s, id));
    lemma_index_of_id(s, id);
    let f = index_of_id(s, id);
    if f < i {
        assert(s[f].id != id);
    }
    if i < f {
        assert(s[i].id != id);
    }
}

/// Appending the fresh record keeps the record list well formed against
/// the advanced id counter.
pub proof fn lemma_push_fresh_ok(
    q: QueueModel,
    title: Seq<char>,
    toast_type: ToastType,
    opts: OptionsModel,
)
    requires
        q.wf(),
    ensures
        records_ok(
            q.records.push(q.fresh_record(title, toast_type, opts)),
            q.next_id + 1,
            q.now,
        ),
{
    let r = q.fresh_record(title, toast_type, opts);
    let pushed = q.records.push(r);
    assert forall|k: int| 0 <= k < pushed.len() implies {
        &&& (#[trigger] pushed[k]).id < q.next_id + 1
        &&& (pushed[k].permanent <==> pushed[k].deadline is None)
        &&& (pushed[k].deadline matches Some(d) && d < q.now ==> pushed[k].dismissing)
    } by {
        if k < q.records.len() {
            assert(pushed[k] == q.records[k]);
        } else {
            assert(pushed[k] == r);
        }
    }
    assert forall|k: int, l: int| 0 <= k < l < pushed.len() implies (#[trigger] pushed[k]).id
        < (#[trigger] pushed[l]).id by {
        assert(pushed[k] == q.records[k]);
        if l < q.records.len() {
            assert(pushed[l] == q.records[l]);
        } else {
            assert(pushed[l] == r);
        }
    }
}

/// An enqueue call keeps the queue well formed; afterwards the record count
/// is at the ceiling, or one higher than before where that still fits.
pub proof fn lemma_show_preserves_wf(
    q: QueueModel,
    title: Seq<char>,
    toast_type: ToastType,
    opts: OptionsModel,
)
    requires
        q.wf(),
    ensures
        q.after_show(title, toast_type, opts).wf(),
        q.after_show(title, toast_type, opts).records.len() == if q.records.len() + 1
            <= q.max_toasts {
            q.records.len() + 1 as int
        } else {
            q.max_toasts as int
        },
{
    lemma_push_fresh_ok(q, title, toast_type, opts);
    let pushed = q.records.push(q.fresh_record(title, toast_type, opts));
    lemma_enforce_cap(pushed, q.max_toasts, q.next_id + 1, q.now);
}

/// A removal keeps the queue well formed; a hit shrinks the record count by
/// one and a miss changes nothing.
pub proof fn lemma_remove_preserves_wf(q: QueueModel, id: nat)
    requires
        q.wf(),
    ensures
        q.after_remove(id).wf(),
        q.after_remove(id).records.len() == if has_id(q.records, id) {
            q.records.len() - 1
        } else {
            q.records.len() as int
        },
{
    if has_id(q.records, id) {
        lemma_index_of_id(q.records, id);
        lemma_remove_ok(q.records, index_of_id(q.records, id), q.next_id, q.now);
    }
}

/// A manual dismissal keeps the queue well formed and the record count
/// unchanged.
pub proof fn lemma_dismiss_preserves_wf(q: QueueModel, id: nat)
    requires
        q.wf(),
    ensures
        q.after_dismiss(id).wf(),
        q.after_dismiss(id).records.len() == q.records.len(),
{
    if has_id(q.records, id) {
        lemma_index_of_id(q.records, id);
        let i = index_of_id(q.records, id);
        let s = q.records.update(i, mark_dismissing(q.records[i]));
        assert forall|k: int| 0 <= k < s.len() implies {
            &&& (#[trigger] s[k]).id < q.next_id
            &&& (s[k].permanent <==> s[k].deadline is None)
            &&& (s[k].deadline matches Some(d) && d < q.now ==> s[k].dismissing)
        } by {
            if k != i {
                assert(s[k] == q.records[k]);
            }
        }
        assert forall|k: int, l: int| 0 <= k < l < s.len() implies (#[trigger] s[k]).id
            < (#[trigger] s[l]).id by {
            assert(s[k].id == q.records[k].id);
            assert(s[l].id == q.records[l].id);
        }
    }
}

/// Advancing the clock keeps the queue well formed and the record count
/// unchanged; the clock never moves backwards.
pub proof fn lemma_elapse_preserves_wf(q: QueueModel, delta: u64)
    requires
        q.wf(),
    ensures
        q.after_elapse(delta).wf(),
        q.after_elapse(delta).records.len() == q.records.len(),
        q.after_elapse(delta).now >= q.now,
{
    let t = sat_add(q.now, delta);
    let s = q.records.map_values(|r: ToastModel| expire_record(r, t));
    assert forall|k: int| 0 <= k < s.len() implies {
        &&& (#[trigger] s[k]).id < q.next_id
        &&& (s[k].permanent <==> s[k].deadline is None)
        &&& (s[k].deadline matches Some(d) && d < t ==> s[k].dismissing)
    } by {
        assert(s[k] == expire_record(q.records[k], t));
    }
    assert forall|k: int, l: int| 0 <= k < l < s.len() implies (#[trigger] s[k]).id
        < (#[trigger] s[l]).id by {
        assert(s[k] == expire_record(q.records[k], t));
        assert(s[l] == expire_record(q.records[l], t));
    }
}

} // verus!
