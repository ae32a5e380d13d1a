use nix_cache_copy::bootstrap::run;
use nix_cache_copy::nix::{CallRecord, RecordingBackend};
use nix_cache_copy::{DrvFile, Error, StorePath};

#[test]
fn test_run_does_not_copy_info_lines() {
    let input: Vec<Result<String, Error>> = vec![Ok(String::from(
        "/nix/store/y0id07hk69wfhr14mpjq22fv2v27nsnk-zstd-1.5.2-dev",
    ))];

    let mut backend = RecordingBackend::new("file:///tmp/cache");
    run(input, &mut backend, true, 1000).unwrap();

    assert_eq!(*backend.records(), Vec::new());
}

#[test]
fn test_run_copy_fecthed_store_path() {
    let input: Vec<Result<String, Error>> =
        vec![
            Ok(String::from("copying path '/nix/store/vnwdak3n1w2jjil119j65k8mw1z23p84-glibc-2.35-224' from 'https://cache.nixos.org'...")),
        ];

    let mut backend = RecordingBackend::new("file:///tmp/cache");
    run(input, &mut backend, true, 1000).unwrap();

    assert_eq!(
        *backend.records(),
        vec![CallRecord::CopyStorePath(StorePath::from(String::from(
            "/nix/store/vnwdak3n1w2jjil119j65k8mw1z23p84-glibc-2.35-224"
        )))]
    );
}

#[test]
fn test_run_copy_derivation_built() {
    let input: Vec<Result<String, Error>> = vec![Ok(String::from(
        "building '/nix/store/kwd8mkkl1sv3n5z9jf8447gr9g299pmp-nix-cache-copy-0.1.0.drv'...",
    ))];

    let mut backend = RecordingBackend::new("file:///tmp/cache");
    run(input, &mut backend, true, 1000).unwrap();

    assert_eq!(
        *backend.records(),
        vec![CallRecord::CopyDrvOutput(DrvFile::from(String::from(
            "/nix/store/kwd8mkkl1sv3n5z9jf8447gr9g299pmp-nix-cache-copy-0.1.0.drv"
        )))]
    );
}

#[test]
fn test_run_does_not_copy_path_fetched_from_target_cache() {
    let input: Vec<Result<String, Error>> =
        vec![
            Ok(String::from("copying path '/nix/store/vnwdak3n1w2jjil119j65k8mw1z23p84-glibc-2.35-224' from 'file:///tmp/cache'...")),
        ];

    let mut backend = RecordingBackend::new("file:///tmp/cache");
    run(input, &mut backend, true, 1000).unwrap();

    assert_eq!(*backend.records(), Vec::new());
}

#[test]
fn run_with_dedup_disabled_copies_from_target_cache() {
    let input: Vec<Result<String, Error>> = vec![Ok(String::from(
        "copying path '/nix/store/aaa-x' from 'file:///tmp/cache'...",
    ))];

    let mut backend = RecordingBackend::new("file:///tmp/cache");
    run(input, &mut backend, false, 1000).unwrap();

    assert_eq!(
        *backend.records(),
        vec![CallRecord::CopyStorePath(StorePath::from(String::from("/nix/store/aaa-x")))]
    );
}

#[test]
fn run_drains_all_events_beyond_capacity() {
    // Five confirmed events through a queue of capacity two: several
    // fill/drain cycles, every event processed, in confirmation order.
    let paths = ["/nix/store/a", "/nix/store/b", "/nix/store/c", "/nix/store/d", "/nix/store/e"];
    let input: Vec<Result<String, Error>> = paths
        .iter()
        .map(|p| Ok(format!("copying path '{p}' from 'https://cache.nixos.org'...")))
        .collect();

    let mut backend = RecordingBackend::new("file:///tmp/cache");
    run(input, &mut backend, true, 2).unwrap();

    let expected: Vec<CallRecord> = paths
        .iter()
        .map(|p| CallRecord::CopyStorePath(StorePath::from(String::from(*p))))
        .collect();
    assert_eq!(*backend.records(), expected);
}

#[test]
fn run_propagates_input_error_before_any_event_is_confirmed() {
    let input = vec![
        Ok(String::from("copying path '/nix/store/aaa-x' from 'https://cache.nixos.org'...")),
        Err(Error::new("broken pipe")),
    ];

    let mut backend = RecordingBackend::new("file:///tmp/cache");
    let result = run(input, &mut backend, true, 1000);

    assert_eq!(result.unwrap_err().message(), "broken pipe");
    assert_eq!(*backend.records(), Vec::new());
}

#[test]
fn run_input_error_discards_buffered_events() {
    // The two confirmed events still sit in the roomy queue when the
    // error arrives; the abort never processes them.
    let input = vec![
        Ok(String::from("copying path '/nix/store/a' from 'https://cache.nixos.org'...")),
        Ok(String::from("copying path '/nix/store/b' from 'https://cache.nixos.org'...")),
        Ok(String::from("copying path '/nix/store/c' from 'https://cache.nixos.org'...")),
        Err(Error::new("gone")),
    ];

    let mut backend = RecordingBackend::new("file:///tmp/cache");
    let result = run(input, &mut backend, true, 1000);

    assert!(result.is_err());
    assert_eq!(*backend.records(), Vec::new());
}

#[test]
fn run_input_error_keeps_events_pushed_out_of_the_window() {
    // With capacity two, confirming the third event pushes the first to
    // the worker; the read error then discards only the buffered two.
    let input = vec![
        Ok(String::from("copying path '/nix/store/a' from 'https://cache.nixos.org'...")),
        Ok(String::from("copying path '/nix/store/b' from 'https://cache.nixos.org'...")),
        Ok(String::from("copying path '/nix/store/c' from 'https://cache.nixos.org'...")),
        Ok(String::from("copying path '/nix/store/d' from 'https://cache.nixos.org'...")),
        Err(Error::new("gone")),
    ];

    let mut backend = RecordingBackend::new("file:///tmp/cache");
    let result = run(input, &mut backend, true, 2);

    assert!(result.is_err());
    assert_eq!(
        *backend.records(),
        vec![CallRecord::CopyStorePath(StorePath::from(String::from("/nix/store/a")))]
    );
}

#[test]
fn run_keeps_the_order_across_event_kinds() {
    let input: Vec<Result<String, Error>> = vec![
        Ok(String::from("these 26 derivations will be built:")),
        Ok(String::from("building '/nix/store/bbb-x.drv'...")),
        Ok(String::from("copying path '/nix/store/aaa-x' from 'https://cache.nixos.org'...")),
        Ok(String::from("post-build message")),
    ];

    let mut backend = RecordingBackend::new("file:///tmp/cache");
    run(input, &mut backend, true, 2).unwrap();

    assert_eq!(
        *backend.records(),
        vec![
            CallRecord::CopyDrvOutput(DrvFile::from(String::from("/nix/store/bbb-x.drv"))),
            CallRecord::CopyStorePath(StorePath::from(String::from("/nix/store/aaa-x"))),
        ]
    );
}

#[test]
fn run_on_empty_input_does_nothing() {
    let mut backend = RecordingBackend::new("file:///tmp/cache");
    run(Vec::new(), &mut backend, true, 1).unwrap();
    assert_eq!(*backend.records(), Vec::new());
}

#[test]
fn run_surfaces_a_refused_operation() {
    let input: Vec<Result<String, Error>> = vec![
        Ok(String::from("copying path '/nix/store/a' from 'https://cache.nixos.org'...")),
        Ok(String::from("copying path '/nix/store/b' from 'https://cache.nixos.org'...")),
    ];

    let mut backend = RecordingBackend::refusing("file:///tmp/cache", "copy failed");
    let result = run(input, &mut backend, true, 1000);

    // the first operation was asked once and refused; the run aborted with
    // the backend's error before the second was asked
    assert_eq!(result.unwrap_err().message(), "copy failed");
    assert_eq!(
        *backend.records(),
        vec![CallRecord::CopyStorePath(StorePath::from(String::from("/nix/store/a")))]
    );
}

#[test]
fn run_with_a_refusing_backend_still_completes_on_info_lines() {
    // no operation is ever asked, so nothing can be refused
    let input: Vec<Result<String, Error>> =
        vec![Ok(String::from("one")), Ok(String::from("two"))];

    let mut backend = RecordingBackend::refusing("file:///tmp/cache", "copy failed");
    run(input, &mut backend, true, 1000).unwrap();

    assert_eq!(*backend.records(), Vec::new());
}
