//! The toast queue and its record types.

use vstd::prelude::*;
use crate::model::{
    enforce_cap, evict_index, evict_one, expire_record, first_transient, has_id, has_transient,
    index_of_id, lemma_dismiss_preserves_wf, lemma_elapse_preserves_wf, lemma_first_transient,
    lemma_first_transient_at, lemma_index_of_id_at, lemma_remove_preserves_wf,
    lemma_show_preserves_wf, mark_dismissing, record_of, OptionsModel, QueueModel, ToastModel,
};

verus! {

/// Severity of a notification, governing its visual treatment.
#[derive(Debug, Clone, Copy, PartialEq, Eq, Structural)]
pub enum ToastType {
    Success,
    Error,
    Warning,
    Info,
}

/// A single notification record.
#[derive(Debug, Clone, PartialEq)]
pub struct ToastItem {
    /// Identifier, unique among all records this queue ever created.
    pub id: usize,
    /// Display title; accepted as-is, never validated.
    pub title: String,
    /// Optional secondary text.
    pub description: Option<String>,
    /// Severity of the notification.
    pub toast_type: ToastType,
    /// Requested display span in milliseconds; `None` means the queue's
    /// default applies.  Always `None` on a permanent record.
    pub duration: Option<u64>,
    /// A permanent record is exempt from auto-expiry.
    pub permanent: bool,
    /// True once this record's exit has been requested; never reset.
    pub dismissing: bool,
    /// Clock value at which this record falls due, `None` for permanent
    /// records.
    pub deadline: Option<u64>,
}

/// Abstraction of an optional text to an optional character sequence.
pub open spec fn text_view(d: Option<String>) -> Option<Seq<char>> {
    match d {
        Some(s) => Some(s@),
        None => None,
    }
}

impl View for ToastItem {
    type V = ToastModel;

    open spec fn view(&self) -> ToastModel {
        ToastModel {
            id: self.id as nat,
            title: self.title@,
            description: text_view(self.description),
            toast_type: self.toast_type,
            duration: self.duration,
            permanent: self.permanent,
            dismissing: self.dismissing,
            deadline: self.deadline,
        }
    }
}

/// Options accepted by an enqueue call.
#[derive(Debug, Clone)]
pub struct ToastOptions {
    /// Optional secondary text.
    pub description: Option<String>,
    /// Requested display span in milliseconds; `None` asks for the queue's
    /// default.
    pub duration: Option<u64>,
    /// A permanent record is exempt from auto-expiry.
    pub permanent: bool,
}

impl View for ToastOptions {
    type V = OptionsModel;

    open spec fn view(&self) -> OptionsModel {
        OptionsModel {
            description: text_view(self.description),
            duration: self.duration,
            permanent: self.permanent,
        }
    }
}

impl Default for ToastOptions {
    /// Options of a plain enqueue call: no description, default duration,
    /// not permanent.
    fn default() -> (r: ToastOptions)
        ensures
            r@ == OptionsModel::empty(),
    {
        ToastOptions { description: None, duration: None, permanent: false }
    }
}

/// Display span in milliseconds applied when a provider names none.
pub const DEFAULT_DURATION_MS: u64 = 5000;

/// Capacity ceiling applied when a provider names none.
pub const DEFAULT_MAX_TOASTS: usize = 10;

/// Abstraction of a record list to its mathematical value.
pub open spec fn items_view(s: Seq<ToastItem>) -> Seq<ToastModel> {
    s.map_values(|t: ToastItem| t@)
}

/// Abstraction of the optional options of a convenience call: absent
/// options mean the empty options.
pub open spec fn opts_model(options: Option<ToastOptions>) -> OptionsModel {
    match options {
        Some(o) => o@,
        None => OptionsModel::empty(),
    }
}

/// The toast queue: the active records, the id counter, the configured
/// capacity and default duration, and the clock the expiry scheduler runs
/// against.
pub struct Toasts {
    records: Vec<ToastItem>,
    next_id: usize,
    max_toasts: usize,
    default_duration: u64,
    now: u64,
}

impl View for Toasts {
    type V = QueueModel;

    closed spec fn view(&self) -> QueueModel {
        QueueModel {
            records: items_view(self.records@),
            next_id: self.next_id as nat,
            max_toasts: self.max_toasts as nat,
            default_duration: self.default_duration,
            now: self.now,
        }
    }
}

impl Toasts {
    /// Whether the queue is well formed.  Every constructor establishes
    /// this and every method preserves it.
    pub open spec fn wf(&self) -> bool {
        self@.wf()
    }

    /// An empty queue with the given default display span (milliseconds)
    /// and capacity ceiling.
    pub fn new(default_duration: u64, max_toasts: usize) -> (t: Toasts)
        ensures
            t.wf(),
            t@ == QueueModel::init(default_duration, max_toasts as nat),
    {
        let t = Toasts {
            records: Vec::new(),
            next_id: 0,
            max_toasts,
            default_duration,
            now: 0,
        };
        proof {
            assert(t@ =~= QueueModel::init(default_duration, max_toasts as nat));
        }
        t
    }

    /// Number of active records.
    pub fn len(&self) -> (n: usize)
        ensures
            n == self@.records.len(),
    {
        self.records.len()
    }

    /// The record at position `i`, oldest first.
    pub fn get(&self, i: usize) -> (r: &ToastItem)
        requires
            i < self@.records.len(),
        ensures
            r@ == self@.records[i as int],
    {
        &self.records[i]
    }

    /// The configured capacity ceiling.
    pub fn max_toasts(&self) -> (n: usize)
        ensures
            n == self@.max_toasts,
    {
        self.max_toasts
    }

    /// The configured default display span in milliseconds.
    pub fn default_duration(&self) -> (d: u64)
        ensures
            d == self@.default_duration,
    {
        self.default_duration
    }

    /// The queue's current clock value in milliseconds.
    pub fn now(&self) -> (t: u64)
        ensures
            t == self@.now,
    {
        self.now
    }

    /// The identifier the next enqueue call will return.
    pub fn next_id(&self) -> (id: usize)
        ensures
            id as nat == self@.next_id,
    {
        self.next_id
    }
}

/// Abstraction commutes with appending a record.
proof fn lemma_items_view_push(items: Seq<ToastItem>, item: ToastItem)
    ensures
        items_view(items.push(item)) == items_view(items).push(item@),
{
    assert(items_view(items.push(item)) =~= items_view(items).push(item@));
}

/// Abstraction commutes with removing a record.
proof fn lemma_items_view_remove(items: Seq<ToastItem>, i: int)
    requires
        0 <= i < items.len(),
    ensures
        items_view(items.remove(i)) == items_view(items).remove(i),
{
    items.remove_ensures(i);
    items_view(items).remove_ensures(i);
    let a = items_view(items.remove(i));
    let b = items_view(items).remove(i);
    assert forall|j: int| 0 <= j < a.len() implies a[j] == b[j] by {
        if j < i {
            assert(items.remove(i)[j] == items[j]);
            assert(b[j] == items_view(items)[j]);
        } else {
            assert(items.remove(i)[j] == items[j + 1]);
            assert(b[j] == items_view(items)[j + 1]);
        }
    }
    assert(a =~= b);
}

/// Abstraction commutes with replacing a record.
proof fn lemma_items_view_update(items: Seq<ToastItem>, i: int, item: ToastItem)
    requires
        0 <= i < items.len(),
    ensures
        items_view(items.update(i, item)) == items_view(items).update(i, item@),
{
    assert(items_view(items.update(i, item)) =~= items_view(items).update(i, item@));
}

/// Position of the first transient record: the eviction policy's preferred
/// victim.
fn first_transient_position(records: &Vec<ToastItem>) -> (r: Option<usize>)
    ensures
        match r {
            Some(p) => {
                &&& has_transient(items_view(records@))
                &&& p < records@.len()
                &&& p as int == first_transient(items_view(records@))
            },
            None => !has_transient(items_view(records@)),
        },
{
    let ghost s = items_view(records@);
    let n = records.len();
    let mut k: usize = 0;
    while k < n
        invariant
            s == items_view(records@),
            n == records@.len(),
            k <= n,
            forall|j: int| 0 <= j < k ==> (#[trigger] s[j]).permanent,
        decreases n - k,
    {
        proof {
            assert(s[k as int] == records@[k as int]@);
        }
        if !records[k].permanent {
            proof {
                lemma_first_transient_at(s, k as int);
            }
            return Some(k);
        }
        k = k + 1;
    }
    proof {
        if has_transient(s) {
            let i = choose|i: int| 0 <= i < s.len() && !(#[trigger] s[i]).permanent;
            assert(s[i].permanent);
        }
    }
    None
}

/// Position of the record carrying `id`, if any.
fn position_of_id(records: &Vec<ToastItem>, id: usize) -> (r: Option<usize>)
    ensures
        match r {
            Some(p) => {
                &&& has_id(items_view(records@), id as nat)
                &&& p < records@.len()
                &&& p as int == index_of_id(items_view(records@), id as nat)
            },
            None => !has_id(items_view(records@), id as nat),
        },
{
    let ghost s = items_view(records@);
    let n = records.len();
    let mut k: usize = 0;
    while k < n
        invariant
            s == items_view(records@),
            n == records@.len(),
            k <= n,
            forall|j: int| 0 <= j < k ==> (#[trigger] s[j]).id != id as nat,
        decreases n - k,
    {
        proof {
            assert(s[k as int] == records@[k as int]@);
        }
        if records[k].id == id {
            proof {
                lemma_index_of_id_at(s, id as nat, k as int);
            }
            return Some(k);
        }
        k = k + 1;
    }
    proof {
        if has_id(s, id as nat) {
            let i = choose|i: int| 0 <= i < s.len() && (#[trigger] s[i]).id == id as nat;
            assert(s[i].id != id as nat);
        }
    }
    None
}

impl Toasts {
    /// Enqueue a record of the given severity and return its fresh
    /// identifier.  The record is appended after the existing ones; the
    /// eviction policy then removes the first transient record, or as a
    /// last resort the oldest one, until the count is back at the ceiling.
    pub fn show(&mut self, title: String, toast_type: ToastType, options: ToastOptions) -> (id:
        usize)
        requires
            old(self).wf(),
            old(self)@.next_id < usize::MAX as nat,
        ensures
            final(self).wf(),
            final(self)@ == old(self)@.after_show(title@, toast_type, options@),
            id as nat == old(self)@.next_id,
            final(self)@.records.len() <= old(self)@.max_toasts,
            final(self)@.next_id == old(self)@.next_id + 1,
    {
        let ghost q0 = self@;
        let ghost title_v = title@;
        let ghost opts_v = options@;
        let id = self.next_id;
        self.next_id = self.next_id + 1;
        let deadline: Option<u64> = if options.permanent {
            None
        } else {
            let eff: u64 = match options.duration {
                Some(d) => d,
                None => self.default_duration,
            };
            Some(self.now.saturating_add(eff))
        };
        let duration: Option<u64> = if options.permanent {
            None
        } else {
            options.duration
        };
        let item = ToastItem {
            id,
            title,
            description: options.description,
            toast_type,
            duration,
            permanent: options.permanent,
            dismissing: false,
            deadline,
        };
        proof {
            assert(item@ =~= q0.fresh_record(title_v, toast_type, opts_v));
        }
        let ghost items0 = self.records@;
        self.records.push(item);
        let ghost pushed = items_view(self.records@);
        proof {
            lemma_items_view_push(items0, item);
            assert(pushed == q0.records.push(q0.fresh_record(title_v, toast_type, opts_v)));
        }
        while self.records.len() > self.max_toasts
            invariant
                self.max_toasts as nat == q0.max_toasts,
                self.next_id as nat == q0.next_id + 1,
                self.default_duration == q0.default_duration,
                self.now == q0.now,
                enforce_cap(items_view(self.records@), q0.max_toasts) == enforce_cap(
                    pushed,
                    q0.max_toasts,
                ),
            decreases self.records@.len(),
        {
            let ghost s = items_view(self.records@);
            let ghost before = self.records@;
            let victim: usize = match first_transient_position(&self.records) {
                Some(p) => p,
                None => 0,
            };
            proof {
                assert(s.len() > q0.max_toasts);
                assert(victim as int == evict_index(s));
                if has_transient(s) {
                    lemma_first_transient(s);
                }
                assert((victim as int) < s.len());
            }
            let _removed = self.records.remove(victim);
            proof {
                lemma_items_view_remove(before, victim as int);
                assert(items_view(self.records@) == evict_one(s));
                assert(enforce_cap(s, q0.max_toasts) == enforce_cap(evict_one(s), q0.max_toasts));
            }
        }
        proof {
            let s = items_view(self.records@);
            assert(enforce_cap(s, q0.max_toasts) == s);
            assert(self@ =~= q0.after_show(title_v, toast_type, opts_v));
            lemma_show_preserves_wf(q0, title_v, toast_type, opts_v);
        }
        id
    }

    /// Enqueue a success record; absent options mean the empty options.
    pub fn success(&mut self, title: String, options: Option<ToastOptions>) -> (id: usize)
        requires
            old(self).wf(),
            old(self)@.next_id < usize::MAX as nat,
        ensures
            final(self).wf(),
            final(self)@ == old(self)@.after_show(title@, ToastType::Success, opts_model(options)),
            id as nat == old(self)@.next_id,
    {
        let opts = match options {
            Some(o) => o,
            None => ToastOptions::default(),
        };
        self.show(title, ToastType::Success, opts)
    }

    /// Enqueue an error record; absent options mean the empty options.
    pub fn error(&mut self, title: String, options: Option<ToastOptions>) -> (id: usize)
        requires
            old(self).wf(),
            old(self)@.next_id < usize::MAX as nat,
        ensures
            final(self).wf(),
            final(self)@ == old(self)@.after_show(title@, ToastType::Error, opts_model(options)),
            id as nat == old(self)@.next_id,
    {
        let opts = match options {
            Some(o) => o,
            None => ToastOptions::default(),
        };
        self.show(title, ToastType::Error, opts)
    }

    /// Enqueue a warning record; absent options mean the empty options.
    pub fn warning(&mut self, title: String, options: Option<ToastOptions>) -> (id: usize)
        requires
            old(self).wf(),
            old(self)@.next_id < usize::MAX as nat,
        ensures
            final(self).wf(),
            final(self)@ == old(self)@.after_show(title@, ToastType::Warning, opts_model(options)),
            id as nat == old(self)@.next_id,
    {
        let opts = match options {
            Some(o) => o,
            None => ToastOptions::default(),
        };
        self.show(title, ToastType::Warning, opts)
    }

    /// Enqueue an info record; absent options mean the empty options.
    pub fn info(&mut self, title: String, options: Option<ToastOptions>) -> (id: usize)
        requires
            old(self).wf(),
            old(self)@.next_id < usize::MAX as nat,
        ensures
            final(self).wf(),
            final(self)@ == old(self)@.after_show(title@, ToastType::Info, opts_model(options)),
            id as nat == old(self)@.next_id,
    {
        let opts = match options {
            Some(o) => o,
            None => ToastOptions::default(),
        };
        self.show(title, ToastType::Info, opts)
    }

    /// Remove the record carrying `id`.  A miss changes nothing: removal
    /// may race with an eviction or an earlier removal, and that is benign.
    pub fn remove(&mut self, id: usize)
        requires
            old(self).wf(),
        ensures
            final(self).wf(),
            final(self)@ == old(self)@.after_remove(id as nat),
            final(self)@.records.len() == if has_id(old(self)@.records, id as nat) {
                old(self)@.records.len() - 1
            } else {
                old(self)@.records.len() as int
            },
    {
        let ghost q0 = self@;
        match position_of_id(&self.records, id) {
            Some(p) => {
                let ghost before = self.records@;
                let _removed = self.records.remove(p);
                proof {
                    lemma_items_view_remove(before, p as int);
                    assert(self@ =~= q0.after_remove(id as nat));
                    lemma_remove_preserves_wf(q0, id as nat);
                }
            },
            None => {
                proof {
                    assert(self@ =~= q0.after_remove(id as nat));
                }
            },
        }
    }

    /// Request the exit of the record carrying `id`, as a user-initiated
    /// dismissal does.  The transition is one-way; a miss changes nothing.
    pub fn dismiss(&mut self, id: usize)
        requires
            old(self).wf(),
        ensures
            final(self).wf(),
            final(self)@ == old(self)@.after_dismiss(id as nat),
    {
        let ghost q0 = self@;
        match position_of_id(&self.records, id) {
            Some(p) => {
                let ghost before = self.records@;
                self.records[p].dismissing = true;
                proof {
                    let entry = self.records@[p as int];
                    assert(self.records@ == before.update(p as int, entry));
                    lemma_items_view_update(before, p as int, entry);
                    assert(entry@ =~= mark_dismissing(q0.records[p as int]));
                    assert(self@ =~= q0.after_dismiss(id as nat));
                    lemma_dismiss_preserves_wf(q0, id as nat);
                }
            },
            None => {
                proof {
                    assert(self@ =~= q0.after_dismiss(id as nat));
                }
            },
        }
    }

    /// Advance the clock by `delta` milliseconds and run the expiry
    /// scheduler: every record whose deadline is due begins dismissing;
    /// permanent records have no deadline and are exempt.
    pub fn elapse(&mut self, delta: u64)
        requires
            old(self).wf(),
        ensures
            final(self).wf(),
            final(self)@ == old(self)@.after_elapse(delta),
    {
        let ghost q0 = self@;
        let t = self.now.saturating_add(delta);
        self.now = t;
        let n = self.records.len();
        let mut k: usize = 0;
        while k < n
            invariant
                n == self.records@.len(),
                n == q0.records.len(),
                k <= n,
                self.now == t,
                t == crate::model::sat_add(q0.now, delta),
                self.next_id as nat == q0.next_id,
                self.max_toasts as nat == q0.max_toasts,
                self.default_duration == q0.default_duration,
                forall|j: int|
                    0 <= j < k ==> (#[trigger] self.records@[j])@ == expire_record(
                        q0.records[j],
                        t,
                    ),
                forall|j: int| k <= j < n ==> (#[trigger] self.records@[j])@ == q0.records[j],
            decreases n - k,
        {
            let due: bool = match self.records[k].deadline {
                Some(d) => d <= t,
                None => false,
            };
            if due {
                self.records[k].dismissing = true;
            }
            proof {
                assert(self.records@[k as int]@ =~= expire_record(q0.records[k as int], t));
            }
            k = k + 1;
        }
        proof {
            assert(self@.records =~= q0.records.map_values(|r: ToastModel| expire_record(r, t)));
            assert(self@ =~= q0.after_elapse(delta));
            lemma_elapse_preserves_wf(q0, delta);
        }
    }

    /// Whether a record carrying `id` is present.
    pub fn contains(&self, id: usize) -> (r: bool)
        ensures
            r == has_id(self@.records, id as nat),
    {
        match position_of_id(&self.records, id) {
            Some(_) => true,
            None => false,
        }
    }

    /// The record carrying `id`, if present.
    pub fn get_by_id(&self, id: usize) -> (r: Option<&ToastItem>)
        ensures
            match r {
                Some(item) => {
                    &&& has_id(self@.records, id as nat)
                    &&& item@ == record_of(self@.records, id as nat)
                },
                None => !has_id(self@.records, id as nat),
            },
    {
        match position_of_id(&self.records, id) {
            Some(p) => Some(&self.records[p]),
            None => None,
        }
    }
}

impl Default for Toasts {
    /// An empty queue with the default configuration: five seconds and at
    /// most ten records.
    fn default() -> (t: Toasts)
        ensures
            t.wf(),
            t@ == QueueModel::init(DEFAULT_DURATION_MS, DEFAULT_MAX_TOASTS as nat),
    {
        Toasts::new(DEFAULT_DURATION_MS, DEFAULT_MAX_TOASTS)
    }
}

} // verus!
