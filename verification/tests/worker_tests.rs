use nix_cache_copy::nix::{CallRecord, RecordingBackend};
use nix_cache_copy::parser::Line;
use nix_cache_copy::queue::EventQueue;
use nix_cache_copy::bootstrap::producer_step;
use nix_cache_copy::worker::{dispatch, drain, plan_event};
use nix_cache_copy::DrvFile;
use nix_cache_copy::{BinaryCache, StorePath};

fn copied(path: &str, origin: &str) -> Line {
    Line::Copied(
        format!("copying path '{path}' from '{origin}'..."),
        StorePath::from(String::from(path)),
        BinaryCache::from(String::from(origin)),
    )
}

#[test]
fn test_span_completes_all_tasks() {
    let mut queue = EventQueue::new(1000);
    queue.enqueue(copied("one", "https://cache.nixos.org"));
    queue.enqueue(copied("two", "https://cache.nixos.org"));

    let mut backend = RecordingBackend::new("file:///tmp/cache");
    let result = drain(&mut queue, &mut backend, true);
    assert!(result.is_ok());

    assert!(queue.is_empty());
    assert_eq!(
        *backend.records(),
        vec![
            CallRecord::CopyStorePath(StorePath::from(String::from("one"))),
            CallRecord::CopyStorePath(StorePath::from(String::from("two"))),
        ]
    );
}

#[test]
fn dispatch_info_is_a_no_op() {
    let mut backend = RecordingBackend::new("file:///tmp/cache");
    dispatch(Line::Info(String::from("anything")), &mut backend, true).unwrap();
    assert_eq!(*backend.records(), Vec::new());
}

#[test]
fn dispatch_skips_a_copy_originating_at_the_destination() {
    let mut backend = RecordingBackend::new("file:///tmp/cache");
    dispatch(copied("/nix/store/aaa-x", "file:///tmp/cache"), &mut backend, true).unwrap();
    assert_eq!(*backend.records(), Vec::new());
}

#[test]
fn dispatch_copies_a_path_from_another_origin() {
    let mut backend = RecordingBackend::new("file:///tmp/cache");
    dispatch(copied("/nix/store/aaa-x", "https://cache.nixos.org"), &mut backend, true).unwrap();
    assert_eq!(
        *backend.records(),
        vec![CallRecord::CopyStorePath(StorePath::from(String::from("/nix/store/aaa-x")))]
    );
}

#[test]
fn dispatch_without_dedup_copies_even_from_the_destination() {
    let mut backend = RecordingBackend::new("file:///tmp/cache");
    dispatch(copied("/nix/store/aaa-x", "file:///tmp/cache"), &mut backend, false).unwrap();
    assert_eq!(
        *backend.records(),
        vec![CallRecord::CopyStorePath(StorePath::from(String::from("/nix/store/aaa-x")))]
    );
}

#[test]
fn queue_hands_events_out_first_in_first_out() {
    let mut queue = EventQueue::new(2);
    assert!(queue.is_empty());
    queue.enqueue(Line::Info(String::from("first")));
    queue.enqueue(Line::Info(String::from("second")));
    assert!(queue.is_full());
    assert_eq!(queue.dequeue(), Line::Info(String::from("first")));
    assert_eq!(queue.dequeue(), Line::Info(String::from("second")));
    assert!(queue.is_empty());
}

#[test]
fn plan_event_decides_at_most_one_operation() {
    let dest = String::from("file:///tmp/cache");
    assert_eq!(plan_event(&Line::Info(String::from("x")), true, &dest), None);
    assert_eq!(plan_event(&copied("/nix/store/a", "file:///tmp/cache"), true, &dest), None);
    assert_eq!(
        plan_event(&copied("/nix/store/a", "https://cache.nixos.org"), true, &dest),
        Some(CallRecord::CopyStorePath(StorePath::from(String::from("/nix/store/a"))))
    );
    assert_eq!(
        plan_event(&copied("/nix/store/a", "file:///tmp/cache"), false, &dest),
        Some(CallRecord::CopyStorePath(StorePath::from(String::from("/nix/store/a"))))
    );
    let built = Line::Built(
        String::from("building '/nix/store/b.drv'..."),
        DrvFile::from(String::from("/nix/store/b.drv")),
    );
    assert_eq!(
        plan_event(&built, true, &dest),
        Some(CallRecord::CopyDrvOutput(DrvFile::from(String::from("/nix/store/b.drv"))))
    );
}

#[test]
fn producer_step_confirms_only_the_previous_line() {
    let (confirmed, next) = producer_step(None, "one");
    assert_eq!(confirmed, None);
    assert_eq!(next, Line::Info(String::from("one")));

    let (confirmed, next) = producer_step(Some(next), "two");
    assert_eq!(confirmed, Some(Line::Info(String::from("one"))));
    assert_eq!(next, Line::Info(String::from("two")));
}

#[test]
fn drain_stops_at_the_first_refused_operation() {
    let mut queue = EventQueue::new(10);
    queue.enqueue(copied("/nix/store/a", "https://cache.nixos.org"));
    queue.enqueue(copied("/nix/store/b", "https://cache.nixos.org"));

    let mut backend = RecordingBackend::refusing("file:///tmp/cache", "no space");
    let result = drain(&mut queue, &mut backend, true);

    assert_eq!(result.unwrap_err().message(), "no space");
    assert_eq!(
        *backend.records(),
        vec![CallRecord::CopyStorePath(StorePath::from(String::from("/nix/store/a")))]
    );
    // the second event stays buffered
    assert_eq!(queue.len(), 1);
}
