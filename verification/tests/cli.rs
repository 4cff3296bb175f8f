use pico_io_finder::cli::{parse_timeout_args, parse_u64, TimeoutArgError};

fn args(list: &[&str]) -> Vec<String> {
    list.iter().map(|s| s.to_string()).collect()
}

#[test]
fn parses_u64_like_std() {
    for text in ["0", "7", "+12", "0042", "18446744073709551615", "18446744073709551616", "", "+",
        "-1", "1 ", " 1", "12a", "++1", "99999999999999999999"]
    {
        assert_eq!(parse_u64(text), text.parse::<u64>().ok(), "{text:?}");
    }
}

#[test]
fn no_arguments_means_no_bound() {
    assert!(matches!(parse_timeout_args(&args(&[])), Ok(None)));
}

#[test]
fn timeout_seconds_is_read() {
    assert!(matches!(parse_timeout_args(&args(&["--timeout-seconds", "10"])), Ok(Some(10))));
    assert!(matches!(parse_timeout_args(&args(&["--timeout-seconds", "+3"])), Ok(Some(3))));
}

#[test]
fn refusals() {
    match parse_timeout_args(&args(&["--verbose"])) {
        Err(e @ TimeoutArgError::UnknownArgument(_)) => {
            assert_eq!(e.message(), "unknown argument: --verbose")
        }
        _ => panic!("expected an unknown argument"),
    }
    for bad in [vec!["--timeout-seconds"], vec!["--timeout-seconds", "0"],
        vec!["--timeout-seconds", "ten"], vec!["--timeout-seconds", "-5"]]
    {
        match parse_timeout_args(&args(&bad)) {
            Err(e @ TimeoutArgError::MissingSeconds) => {
                assert_eq!(e.message(), "--timeout-seconds requires a positive integer")
            }
            _ => panic!("expected a missing number of seconds"),
        }
    }
    match parse_timeout_args(&args(&["--timeout-seconds", "5", "extra"])) {
        Err(e @ TimeoutArgError::UnexpectedArgument(_)) => {
            assert_eq!(e.message(), "unexpected argument: extra")
        }
        _ => panic!("expected an unexpected argument"),
    }
    match parse_timeout_args(&args(&["--timeout-seconds", "x", "extra"])) {
        Err(TimeoutArgError::MissingSeconds) => {}
        _ => panic!("the number is checked before what follows it"),
    }
}
