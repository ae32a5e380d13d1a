use nix_cache_copy::parser::Line;
use nix_cache_copy::{BinaryCache, DrvFile, StorePath};

#[test]
fn parse_should_parse_artbitrary_line_as_info() {
    let string = String::from("these 26 derivations will be built:");
    assert_eq!(Line::parse(&string).unwrap(), Line::Info(string));
}

#[test]
fn parse_should_parse_copied_store_paths() {
    let string = String::from("copying path '/nix/store/vnwdak3n1w2jjil119j65k8mw1z23p84-glibc-2.35-224' from 'https://cache.nixos.org'...");
    assert_eq!(
        Line::parse(&string).unwrap(),
        Line::Copied(
            string,
            StorePath::from(String::from(
                "/nix/store/vnwdak3n1w2jjil119j65k8mw1z23p84-glibc-2.35-224"
            )),
            BinaryCache::from(String::from("https://cache.nixos.org"))
        )
    );
}

#[test]
fn parse_should_parse_built_derivations() {
    let string = String::from(
        "building '/nix/store/kwd8mkkl1sv3n5z9jf8447gr9g299pmp-nix-cache-copy-0.1.0.drv'...",
    );
    assert_eq!(
        Line::parse(&string).unwrap(),
        Line::Built(
            string,
            DrvFile::from(String::from(
                "/nix/store/kwd8mkkl1sv3n5z9jf8447gr9g299pmp-nix-cache-copy-0.1.0.drv"
            ))
        )
    );
}

#[test]
fn parse_copied_with_empty_captures() {
    let string = String::from("copying path '' from ''...");
    assert_eq!(
        Line::parse(&string).unwrap(),
        Line::Copied(
            string,
            StorePath::from(String::from("")),
            BinaryCache::from(String::from(""))
        )
    );
}

#[test]
fn parse_copied_lazy_path_greedy_cache() {
    // The path capture ends at the first separator; the cache capture
    // swallows any later separator.
    let string = String::from("copying path 'a' from 'b' from 'c'...");
    assert_eq!(
        Line::parse(&string).unwrap(),
        Line::Copied(
            string,
            StorePath::from(String::from("a")),
            BinaryCache::from(String::from("b' from 'c"))
        )
    );
}

#[test]
fn parse_copied_without_separator_is_info() {
    let string = String::from("copying path '/nix/store/aaa-x'...");
    assert_eq!(Line::parse(&string).unwrap(), Line::Info(string));
}

#[test]
fn parse_built_needs_trailing_dots() {
    let no_dots = String::from("building '/nix/store/bbb-x.drv'");
    assert_eq!(Line::parse(&no_dots).unwrap(), Line::Info(no_dots));
    let two_dots = String::from("building 'x'..");
    assert_eq!(Line::parse(&two_dots).unwrap(), Line::Info(two_dots));
}

#[test]
fn parse_trailing_ellipsis_is_literal() {
    // The three final characters must be the dots themselves, not any
    // three characters.
    let copy = String::from("copying path '/p' from '/c'zzz");
    assert_eq!(Line::parse(&copy).unwrap(), Line::Info(copy));
    let build = String::from("building '/d'zzz");
    assert_eq!(Line::parse(&build).unwrap(), Line::Info(build));
}

#[test]
fn parse_built_with_four_trailing_dots_is_info() {
    // The closing quote must sit exactly four characters before the end.
    let string = String::from("building 'x'....");
    assert_eq!(Line::parse(&string).unwrap(), Line::Info(string));
}

#[test]
fn parse_capture_never_spans_a_newline() {
    let string = String::from("building 'x\n'...");
    assert_eq!(Line::parse(&string).unwrap(), Line::Info(string));
}

#[test]
fn parse_is_total_on_odd_input() {
    for s in ["", "...", "copying path", "building", "'''...", "日本語のテキスト"] {
        let line = Line::parse(s).unwrap();
        assert_eq!(line, Line::Info(String::from(s)));
    }
}
