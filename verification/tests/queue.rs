//! Queue behaviour: identifiers, capacity, eviction, removal.

use toast_queue::{ToastOptions, ToastType, Toasts, DEFAULT_DURATION_MS, DEFAULT_MAX_TOASTS};

fn opts() -> ToastOptions {
    ToastOptions { description: None, duration: None, permanent: false }
}

fn permanent() -> ToastOptions {
    ToastOptions { description: None, duration: None, permanent: true }
}

#[test]
fn ids_start_at_zero_and_increase() {
    let mut q = Toasts::new(1000, 10);
    assert_eq!(q.show(String::from("A"), ToastType::Info, opts()), 0);
    assert_eq!(q.show(String::from("B"), ToastType::Info, opts()), 1);
    assert_eq!(q.show(String::from("C"), ToastType::Info, opts()), 2);
}

#[test]
fn ids_unique_across_removals() {
    let mut q = Toasts::new(1000, 10);
    let a = q.show(String::from("A"), ToastType::Info, opts());
    q.remove(a);
    let b = q.show(String::from("B"), ToastType::Info, opts());
    q.remove(b);
    let c = q.show(String::from("C"), ToastType::Info, opts());
    assert_eq!(a, 0);
    assert_eq!(b, 1);
    assert_eq!(c, 2);
}

#[test]
fn capacity_never_exceeded() {
    let mut q = Toasts::new(1000, 3);
    for i in 0..10 {
        q.show(format!("toast {}", i), ToastType::Info, opts());
        assert!(q.len() <= 3);
    }
    assert_eq!(q.len(), 3);
}

#[test]
fn capacity_two_evicts_oldest() {
    // max_toasts = 2; A, B, C arrive; A (id 0) is evicted.
    let mut q = Toasts::new(1000, 2);
    assert_eq!(q.show(String::from("A"), ToastType::Info, opts()), 0);
    assert_eq!(q.show(String::from("B"), ToastType::Info, opts()), 1);
    assert_eq!(q.show(String::from("C"), ToastType::Info, opts()), 2);
    assert_eq!(q.len(), 2);
    assert_eq!(q.get(0).id, 1);
    assert_eq!(q.get(0).title, "B");
    assert_eq!(q.get(1).id, 2);
    assert_eq!(q.get(1).title, "C");
    assert!(!q.contains(0));
}

#[test]
fn eviction_prefers_transient_over_permanent() {
    // Two permanent records and one transient; the transient one goes.
    let mut q = Toasts::new(1000, 3);
    let p0 = q.show(String::from("pinned 0"), ToastType::Error, permanent());
    let t = q.show(String::from("transient"), ToastType::Info, opts());
    let p1 = q.show(String::from("pinned 1"), ToastType::Error, permanent());
    let new = q.show(String::from("newcomer"), ToastType::Info, opts());
    assert_eq!(q.len(), 3);
    assert!(q.contains(p0));
    assert!(q.contains(p1));
    assert!(q.contains(new));
    assert!(!q.contains(t));
}

#[test]
fn full_of_permanent_evicts_oldest_for_permanent_newcomer() {
    // max_toasts = 1; X permanent, then Y permanent: X (id 0) is evicted.
    let mut q = Toasts::new(1000, 1);
    let x = q.show(String::from("X"), ToastType::Info, permanent());
    let y = q.show(String::from("Y"), ToastType::Info, permanent());
    assert_eq!(x, 0);
    assert_eq!(y, 1);
    assert_eq!(q.len(), 1);
    assert!(!q.contains(x));
    assert!(q.contains(y));
    assert_eq!(q.get(0).title, "Y");
}

#[test]
fn full_of_permanent_drops_transient_newcomer() {
    // With every slot pinned, a transient newcomer is itself the first
    // transient record and so the one evicted.
    let mut q = Toasts::new(1000, 2);
    q.show(String::from("pin 0"), ToastType::Info, permanent());
    q.show(String::from("pin 1"), ToastType::Info, permanent());
    let t = q.show(String::from("transient"), ToastType::Info, opts());
    assert_eq!(q.len(), 2);
    assert!(!q.contains(t));
    assert_eq!(q.get(0).title, "pin 0");
    assert_eq!(q.get(1).title, "pin 1");
}

#[test]
fn max_toasts_zero_keeps_nothing() {
    let mut q = Toasts::new(1000, 0);
    let id = q.show(String::from("gone at once"), ToastType::Info, opts());
    assert_eq!(id, 0);
    assert_eq!(q.len(), 0);
    let id2 = q.show(String::from("also gone"), ToastType::Info, permanent());
    assert_eq!(id2, 1);
    assert_eq!(q.len(), 0);
}

#[test]
fn remove_is_idempotent() {
    let mut q = Toasts::new(1000, 10);
    let a = q.show(String::from("A"), ToastType::Info, opts());
    let b = q.show(String::from("B"), ToastType::Info, opts());
    q.remove(a);
    assert_eq!(q.len(), 1);
    q.remove(a);
    assert_eq!(q.len(), 1);
    assert!(q.contains(b));
}

#[test]
fn remove_of_unknown_id_is_a_noop() {
    let mut q = Toasts::new(1000, 10);
    q.show(String::from("A"), ToastType::Info, opts());
    q.remove(999);
    assert_eq!(q.len(), 1);
}

#[test]
fn remove_of_evicted_record_is_a_noop() {
    let mut q = Toasts::new(1000, 1);
    let a = q.show(String::from("A"), ToastType::Info, opts());
    let b = q.show(String::from("B"), ToastType::Info, opts());
    assert!(!q.contains(a));
    q.remove(a);
    assert_eq!(q.len(), 1);
    assert!(q.contains(b));
}

#[test]
fn severity_helpers_set_their_severity() {
    let mut q = Toasts::new(1000, 10);
    let s = q.success(String::from("saved"), None);
    let e = q.error(String::from("failed"), None);
    let w = q.warning(String::from("careful"), None);
    let i = q.info(String::from("note"), None);
    assert_eq!((s, e, w, i), (0, 1, 2, 3));
    assert_eq!(q.get_by_id(s).unwrap().toast_type, ToastType::Success);
    assert_eq!(q.get_by_id(e).unwrap().toast_type, ToastType::Error);
    assert_eq!(q.get_by_id(w).unwrap().toast_type, ToastType::Warning);
    assert_eq!(q.get_by_id(i).unwrap().toast_type, ToastType::Info);
}

#[test]
fn helper_options_carry_over() {
    let mut q = Toasts::new(1000, 10);
    let opts_with_desc = ToastOptions {
        description: Some(String::from("the details")),
        duration: Some(250),
        permanent: false,
    };
    let id = q.success(String::from("saved"), Some(opts_with_desc));
    let item = q.get_by_id(id).unwrap();
    assert_eq!(item.description.as_deref(), Some("the details"));
    assert_eq!(item.duration, Some(250));
    assert!(!item.permanent);
}

#[test]
fn record_fields_as_created() {
    let mut q = Toasts::new(1000, 10);
    let id = q.show(
        String::from("hello"),
        ToastType::Warning,
        ToastOptions { description: None, duration: Some(42), permanent: false },
    );
    let item = q.get_by_id(id).unwrap();
    assert_eq!(item.id, 0);
    assert_eq!(item.title, "hello");
    assert_eq!(item.description, None);
    assert_eq!(item.toast_type, ToastType::Warning);
    assert_eq!(item.duration, Some(42));
    assert!(!item.permanent);
    assert!(!item.dismissing);
}

#[test]
fn permanent_record_stores_no_duration() {
    let mut q = Toasts::new(1000, 10);
    let id = q.show(
        String::from("pinned"),
        ToastType::Error,
        ToastOptions { description: None, duration: Some(5), permanent: true },
    );
    let item = q.get_by_id(id).unwrap();
    assert_eq!(item.duration, None);
    assert_eq!(item.deadline, None);
    assert!(item.permanent);
}

#[test]
fn empty_title_is_accepted() {
    let mut q = Toasts::new(1000, 10);
    let id = q.show(String::new(), ToastType::Info, opts());
    assert_eq!(q.get_by_id(id).unwrap().title, "");
}

#[test]
fn default_configuration() {
    let q = Toasts::default();
    assert_eq!(q.max_toasts(), DEFAULT_MAX_TOASTS);
    assert_eq!(q.max_toasts(), 10);
    assert_eq!(q.default_duration(), DEFAULT_DURATION_MS);
    assert_eq!(q.default_duration(), 5000);
    assert_eq!(q.len(), 0);
    assert_eq!(q.now(), 0);
    assert_eq!(q.next_id(), 0);
}

#[test]
fn get_by_id_misses_cleanly() {
    let q = Toasts::new(1000, 10);
    assert!(q.get_by_id(0).is_none());
    assert!(!q.contains(0));
}

#[test]
fn display_order_is_creation_order() {
    let mut q = Toasts::new(1000, 10);
    q.show(String::from("first"), ToastType::Info, opts());
    q.show(String::from("second"), ToastType::Info, opts());
    q.show(String::from("third"), ToastType::Info, opts());
    let titles: Vec<&str> = (0..q.len()).map(|i| q.get(i).title.as_str()).collect();
    assert_eq!(titles, vec!["first", "second", "third"]);
}
