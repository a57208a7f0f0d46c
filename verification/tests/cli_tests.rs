use vibe_synapse::cli::{parse_args, Args, TEST_MODE_DEFAULT_DURATION_SECS};

fn args(items: &[&str]) -> Vec<String> {
    items.iter().map(|s| s.to_string()).collect()
}

#[test]
fn no_flag_is_normal_mode() {
    assert_eq!(parse_args(&args(&["prog"])), Args { test_mode: false, test_duration_secs: 60 });
    assert_eq!(TEST_MODE_DEFAULT_DURATION_SECS, 60);
}

#[test]
fn test_flag_alone_uses_the_default_duration() {
    assert_eq!(parse_args(&args(&["prog", "--test"])), Args { test_mode: true, test_duration_secs: 60 });
}

#[test]
fn test_flag_takes_the_following_number() {
    assert_eq!(parse_args(&args(&["prog", "--test", "5"])), Args { test_mode: true, test_duration_secs: 5 });
    assert_eq!(parse_args(&args(&["prog", "--test", "+7"])), Args { test_mode: true, test_duration_secs: 7 });
}

#[test]
fn a_following_word_is_not_a_duration() {
    assert_eq!(parse_args(&args(&["prog", "--test", "abc"])), Args { test_mode: true, test_duration_secs: 60 });
    assert_eq!(parse_args(&args(&["prog", "--test", "-3"])), Args { test_mode: true, test_duration_secs: 60 });
    assert_eq!(
        parse_args(&args(&["prog", "--test", "99999999999999999999"])),
        Args { test_mode: true, test_duration_secs: 60 }
    );
}

#[test]
fn the_last_test_flag_with_a_number_wins() {
    assert_eq!(
        parse_args(&args(&["prog", "--test", "5", "--test", "9"])),
        Args { test_mode: true, test_duration_secs: 9 }
    );
    assert_eq!(
        parse_args(&args(&["prog", "--test", "5", "--test"])),
        Args { test_mode: true, test_duration_secs: 5 }
    );
}
