//! Expiry scheduling: deadlines, the clock, dismissal.

use toast_queue::{ToastOptions, ToastType, Toasts};

fn opts() -> ToastOptions {
    ToastOptions { description: None, duration: None, permanent: false }
}

fn permanent() -> ToastOptions {
    ToastOptions { description: None, duration: None, permanent: true }
}

fn with_duration(ms: u64) -> ToastOptions {
    ToastOptions { description: None, duration: Some(ms), permanent: false }
}

#[test]
fn default_duration_expiry_and_removal() {
    // default_duration = 1s; a record dismisses at 1s and removal then
    // empties the queue.
    let mut q = Toasts::new(1000, 10);
    let id = q.show(String::from("Temp"), ToastType::Success, opts());
    assert_eq!(id, 0);
    assert!(!q.get_by_id(id).unwrap().dismissing);
    q.elapse(1000);
    assert!(q.get_by_id(id).unwrap().dismissing);
    q.remove(id);
    assert_eq!(q.len(), 0);
}

#[test]
fn not_dismissing_before_deadline() {
    let mut q = Toasts::new(1000, 10);
    let id = q.show(String::from("soon"), ToastType::Info, with_duration(50));
    q.elapse(49);
    assert!(!q.get_by_id(id).unwrap().dismissing);
    q.elapse(1);
    assert!(q.get_by_id(id).unwrap().dismissing);
}

#[test]
fn custom_duration_overrides_default() {
    let mut q = Toasts::new(1000, 10);
    let short = q.show(String::from("short"), ToastType::Info, with_duration(10));
    let dflt = q.show(String::from("default"), ToastType::Info, opts());
    q.elapse(10);
    assert!(q.get_by_id(short).unwrap().dismissing);
    assert!(!q.get_by_id(dflt).unwrap().dismissing);
    q.elapse(990);
    assert!(q.get_by_id(dflt).unwrap().dismissing);
}

#[test]
fn deadline_counts_from_creation_time() {
    let mut q = Toasts::new(1000, 10);
    q.elapse(500);
    let id = q.show(String::from("late arrival"), ToastType::Info, opts());
    q.elapse(999);
    assert!(!q.get_by_id(id).unwrap().dismissing);
    q.elapse(1);
    assert!(q.get_by_id(id).unwrap().dismissing);
}

#[test]
fn zero_duration_expires_on_next_tick() {
    let mut q = Toasts::new(1000, 10);
    let id = q.show(String::from("instant"), ToastType::Info, with_duration(0));
    assert!(!q.get_by_id(id).unwrap().dismissing);
    q.elapse(0);
    assert!(q.get_by_id(id).unwrap().dismissing);
}

#[test]
fn permanent_record_never_expires() {
    // Wait 100 times the default duration; the permanent record stays and
    // is not dismissing.
    let mut q = Toasts::new(1000, 10);
    let id = q.show(String::from("Perm"), ToastType::Error, permanent());
    assert_eq!(id, 0);
    for _ in 0..100 {
        q.elapse(1000);
    }
    assert!(q.contains(id));
    assert!(!q.get_by_id(id).unwrap().dismissing);
}

#[test]
fn manual_dismissal_sets_the_flag() {
    let mut q = Toasts::new(1000, 10);
    let id = q.show(String::from("pinned"), ToastType::Info, permanent());
    assert!(!q.get_by_id(id).unwrap().dismissing);
    q.dismiss(id);
    assert!(q.get_by_id(id).unwrap().dismissing);
    assert_eq!(q.len(), 1);
}

#[test]
fn dismissal_is_one_way() {
    let mut q = Toasts::new(1000, 10);
    let id = q.show(String::from("note"), ToastType::Info, opts());
    q.dismiss(id);
    assert!(q.get_by_id(id).unwrap().dismissing);
    q.elapse(5000);
    assert!(q.get_by_id(id).unwrap().dismissing);
    q.dismiss(id);
    assert!(q.get_by_id(id).unwrap().dismissing);
}

#[test]
fn dismiss_of_unknown_id_is_a_noop() {
    let mut q = Toasts::new(1000, 10);
    q.show(String::from("A"), ToastType::Info, opts());
    q.dismiss(7);
    assert_eq!(q.len(), 1);
    assert!(!q.get(0).dismissing);
}

#[test]
fn timer_fire_after_removal_is_a_noop() {
    // The record is gone before its deadline; the later tick touches
    // nothing.
    let mut q = Toasts::new(1000, 10);
    let id = q.show(String::from("short lived"), ToastType::Info, with_duration(10));
    q.remove(id);
    q.elapse(10);
    assert_eq!(q.len(), 0);
    assert!(!q.contains(id));
}

#[test]
fn clock_saturates_instead_of_wrapping() {
    let mut q = Toasts::new(u64::MAX, 10);
    let id = q.show(String::from("far future"), ToastType::Info, opts());
    q.elapse(u64::MAX);
    q.elapse(u64::MAX);
    assert_eq!(q.now(), u64::MAX);
    // The deadline saturated to the same ceiling, so the record is due.
    assert!(q.get_by_id(id).unwrap().dismissing);
}

#[test]
fn elapse_marks_every_due_record() {
    let mut q = Toasts::new(100, 10);
    let a = q.show(String::from("a"), ToastType::Info, opts());
    let b = q.show(String::from("b"), ToastType::Info, with_duration(100));
    let c = q.show(String::from("c"), ToastType::Info, with_duration(200));
    q.elapse(100);
    assert!(q.get_by_id(a).unwrap().dismissing);
    assert!(q.get_by_id(b).unwrap().dismissing);
    assert!(!q.get_by_id(c).unwrap().dismissing);
}
