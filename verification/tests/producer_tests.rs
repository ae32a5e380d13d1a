use nix_cache_copy::bootstrap::process_stdin;
use nix_cache_copy::parser::Line;
use nix_cache_copy::Error;

#[test]
fn test_process_stdin_delays_sending_1() {
    let input = vec![Ok(String::from("one")), Err(Error::new("Error"))];

    let (events, result) = process_stdin(input);

    assert!(result.is_err());
    assert!(events.is_empty());
}

#[test]
fn test_process_stdin_delays_sending_2() {
    let input = vec![
        Ok(String::from("one")),
        Ok(String::from("two")),
        Err(Error::new("Error")),
    ];

    let (events, result) = process_stdin(input);
    assert!(result.is_err());

    assert_eq!(events, vec![Line::Info(String::from("one"))]);
}

#[test]
fn test_process_stdin_processes_all_lines() {
    let input: Vec<Result<String, Error>> =
        vec![Ok(String::from("one")), Ok(String::from("two"))];

    let (events, result) = process_stdin(input);
    assert!(result.is_ok());

    assert_eq!(
        events,
        vec![Line::Info(String::from("one")), Line::Info(String::from("two"))]
    );
}

#[test]
fn process_stdin_hands_back_the_read_error() {
    let input = vec![Ok(String::from("one")), Err(Error::new("boom"))];

    let (_, result) = process_stdin(input);

    assert_eq!(result.unwrap_err().message(), "boom");
}

#[test]
fn process_stdin_fails_on_an_immediate_read_error() {
    let (events, result) = process_stdin(vec![Err(Error::new("cut off"))]);

    assert!(events.is_empty());
    assert_eq!(result.unwrap_err().message(), "cut off");
}

#[test]
fn process_stdin_confirms_nothing_on_empty_input() {
    let (events, result) = process_stdin(Vec::new());

    assert!(result.is_ok());
    assert!(events.is_empty());
}
