use nix_cache_copy::nix::{
    copy_resolved, drv_output_path, CallRecord, CliProcess, Compression, DerivationInfo,
    DerivationOutput, RecordingBackend,
};
use nix_cache_copy::{BinaryCache, DrvFile, Error, StorePath};

#[test]
fn compression_names_are_snake_case() {
    assert_eq!(Compression::Uncompressed.name(), "none");
    assert_eq!(Compression::Xz.name(), "xz");
    assert_eq!(Compression::Bzip2.name(), "bzip2");
    assert_eq!(Compression::Gzip.name(), "gzip");
    assert_eq!(Compression::Zstd.name(), "zstd");
}

#[test]
fn cli_process_builds_the_copy_target() {
    let cli = CliProcess::new(false, "s3://mirror", &Compression::Zstd, "cache.sec");
    assert_eq!(cli.copy_target(), "s3://mirror?compression=zstd&secret-key=cache.sec");
    assert_eq!(cli.to(), "s3://mirror");
    assert!(!cli.is_dry_run());
}

#[test]
fn cli_process_builds_the_copy_invocation() {
    let cli = CliProcess::new(true, "file:///tmp/cache", &Compression::Uncompressed, "k");
    let args = cli.copy_args(&StorePath::from(String::from("/nix/store/aaa-x")));
    assert_eq!(
        args,
        vec![
            String::from("copy"),
            String::from("--to"),
            String::from("file:///tmp/cache?compression=none&secret-key=k"),
            String::from("/nix/store/aaa-x"),
        ]
    );
    assert!(cli.is_dry_run());
}

#[test]
fn cli_process_builds_the_show_derivation_invocation() {
    let cli = CliProcess::new(false, "file:///tmp/cache", &Compression::Xz, "k");
    let args = cli.show_derivation_args(&DrvFile::from(String::from("/nix/store/bbb-x.drv")));
    assert_eq!(args, vec![String::from("show-derivation"), String::from("/nix/store/bbb-x.drv")]);
}

fn description(drv: &str, output: &str, path: &str) -> Vec<DerivationInfo> {
    vec![DerivationInfo {
        name: String::from(drv),
        outputs: vec![DerivationOutput {
            name: String::from(output),
            path: StorePath::from(String::from(path)),
        }],
    }]
}

#[test]
fn drv_output_path_finds_the_out_output() {
    let derivation = description("/nix/store/bbb-x.drv", "out", "/nix/store/ccc-x");
    let resolved = drv_output_path(&derivation, &DrvFile::from(String::from("/nix/store/bbb-x.drv")));
    assert_eq!(resolved.unwrap(), StorePath::from(String::from("/nix/store/ccc-x")));
}

#[test]
fn drv_output_path_reports_a_missing_derivation_entry() {
    let derivation = description("/nix/store/other.drv", "out", "/nix/store/ccc-x");
    let resolved = drv_output_path(&derivation, &DrvFile::from(String::from("/nix/store/bbb-x.drv")));
    assert_eq!(resolved.unwrap_err().message(), "Couldn't find derivation in the file");
}

#[test]
fn drv_output_path_reports_a_missing_out_output() {
    let derivation = description("/nix/store/bbb-x.drv", "dev", "/nix/store/ccc-x");
    let resolved = drv_output_path(&derivation, &DrvFile::from(String::from("/nix/store/bbb-x.drv")));
    assert_eq!(resolved.unwrap_err().message(), "Couldn't find 'out' attr of derivation");
}

#[test]
fn copy_resolved_copies_exactly_the_resolved_path() {
    let mut backend = RecordingBackend::new("file:///tmp/cache");
    copy_resolved(Ok(StorePath::from(String::from("/nix/store/ccc-x"))), &mut backend).unwrap();
    assert_eq!(
        *backend.records(),
        vec![CallRecord::CopyStorePath(StorePath::from(String::from("/nix/store/ccc-x")))]
    );
}

#[test]
fn copy_resolved_copies_nothing_on_a_failed_resolution() {
    let mut backend = RecordingBackend::new("file:///tmp/cache");
    let result = copy_resolved(Err(Error::new("no entry")), &mut backend);
    assert_eq!(result.unwrap_err().message(), "no entry");
    assert_eq!(*backend.records(), Vec::new());
}

#[test]
fn wrappers_keep_their_text() {
    let path = StorePath::new(String::from("/nix/store/aaa-x"));
    assert_eq!(path.as_str(), "/nix/store/aaa-x");
    let drv = DrvFile::new(String::from("/nix/store/bbb-x.drv"));
    assert_eq!(drv.as_str(), "/nix/store/bbb-x.drv");
    let cache = BinaryCache::new(String::from("file:///tmp/cache"));
    assert_eq!(cache.as_str(), "file:///tmp/cache");
    assert!(cache.matches(&String::from("file:///tmp/cache")));
    assert!(!cache.matches(&String::from("s3://mirror")));
}

#[test]
fn error_carries_its_message() {
    let e = Error::new("Parser error");
    assert_eq!(e.message(), "Parser error");
}
