use qft::cli::{
    basename_of, command_of, parse_cli, parse_u16, parse_u64, parse_usize, CliError, Command,
};
use qft::punch::{pace_millis, punch_wait_millis, strip_zero_bytes};
use qft::rendezvous::pad_to_map_len;
use qft::{BITRATE, DEFAULT_PORT, DELAY, PUNCH_DELAY, PUNCH_INC_DELAY};

fn args_of(words: &[&str]) -> Vec<String> {
    words.iter().map(|w| w.to_string()).collect()
}

#[test]
fn no_arguments_means_help() {
    let cli = parse_cli(&args_of(&["qft"])).expect("bare invocation is valid");
    assert_eq!(cli.command, Command::Help);
    assert_eq!(cli.binary, "qft");
    assert_eq!(cli.port, DEFAULT_PORT);
    assert_eq!(cli.delay, DELAY);
    assert_eq!(cli.bitrate, BITRATE);
    assert_eq!(cli.start, 0);
    assert!(cli.file.is_empty() && cli.tag.is_empty() && cli.helper.is_empty());
}

#[test]
fn command_words_map_as_documented() {
    assert_eq!(command_of("readme"), Some(Command::Readme));
    assert_eq!(command_of("help"), Some(Command::Help));
    assert_eq!(command_of("-h"), Some(Command::Help));
    assert_eq!(command_of("--help"), Some(Command::Help));
    assert_eq!(command_of("helper"), Some(Command::Helper));
    assert_eq!(command_of("H"), Some(Command::Helper));
    assert_eq!(command_of("send"), Some(Command::Send));
    assert_eq!(command_of("S"), Some(Command::Send));
    assert_eq!(command_of("s"), Some(Command::Send));
    assert_eq!(command_of("receive"), Some(Command::Receive));
    assert_eq!(command_of("R"), Some(Command::Receive));
    assert_eq!(command_of("r"), Some(Command::Receive));
    assert_eq!(command_of("version"), Some(Command::Version));
    assert_eq!(command_of("-V"), Some(Command::Version));
    assert_eq!(command_of("--version"), Some(Command::Version));
    assert_eq!(command_of("transmogrify"), None);
}

#[test]
fn unknown_command_is_rejected() {
    assert_eq!(parse_cli(&args_of(&["qft", "transmogrify"])).unwrap_err(),
        CliError::UnrecognizedCommand);
}

#[test]
fn send_takes_file_tag_helper_and_flags() {
    let cli = parse_cli(&args_of(&[
        "/usr/bin/qft", "send", "data.bin", "secret", "example.org:4277", "-d", "700", "-r",
        "1024", "-s", "4096",
    ]))
        .expect("full send invocation is valid");
    assert_eq!(cli.command, Command::Send);
    assert_eq!(cli.binary, "qft");
    assert_eq!(cli.file, "data.bin");
    assert_eq!(cli.tag, "secret");
    assert_eq!(cli.helper, "example.org:4277");
    assert_eq!(cli.delay, 700);
    assert_eq!(cli.bitrate, 1024);
    assert_eq!(cli.start, 4096);
}

#[test]
fn receive_defaults_stay_when_flags_are_absent() {
    let cli = parse_cli(&args_of(&["qft", "receive", "out.bin", "tag"])).expect("valid");
    assert_eq!(cli.command, Command::Receive);
    assert_eq!(cli.file, "out.bin");
    assert_eq!(cli.tag, "tag");
    assert!(cli.helper.is_empty());
    assert_eq!(cli.delay, DELAY);
    assert_eq!(cli.bitrate, BITRATE);
    assert_eq!(cli.start, 0);
}

#[test]
fn flag_without_value_is_rejected() {
    assert_eq!(parse_cli(&args_of(&["qft", "send", "f", "t", "-d"])).unwrap_err(),
        CliError::MissingFlagArgument);
}

#[test]
fn non_numeric_flag_value_is_rejected() {
    assert_eq!(parse_cli(&args_of(&["qft", "send", "f", "t", "-d", "fast"])).unwrap_err(),
        CliError::BadNumber);
    assert_eq!(parse_cli(&args_of(&["qft", "helper", "notaport"])).unwrap_err(),
        CliError::BadNumber);
    assert_eq!(parse_cli(&args_of(&["qft", "helper", "65536"])).unwrap_err(),
        CliError::BadNumber);
}

#[test]
fn too_many_positional_arguments_are_rejected() {
    assert_eq!(parse_cli(&args_of(&["qft", "send", "f", "t", "h", "extra"])).unwrap_err(),
        CliError::TooManyArguments);
    assert_eq!(parse_cli(&args_of(&["qft", "version", "extra"])).unwrap_err(),
        CliError::TooManyArguments);
}

#[test]
fn helper_takes_a_port() {
    let cli = parse_cli(&args_of(&["qft", "helper", "9000"])).expect("valid");
    assert_eq!(cli.command, Command::Helper);
    assert_eq!(cli.port, 9000);
}

#[test]
fn decimal_parsing_matches_the_standard_library() {
    assert_eq!(parse_u64("0"), Some(0));
    assert_eq!(parse_u64("+123"), Some(123));
    assert_eq!(parse_u64(""), None);
    assert_eq!(parse_u64("+"), None);
    assert_eq!(parse_u64("12a"), None);
    assert_eq!(parse_u64("-5"), None);
    assert_eq!(parse_u64("18446744073709551615"), Some(u64::MAX));
    assert_eq!(parse_u64("18446744073709551616"), None);
    assert_eq!(parse_u16("65535"), Some(65535));
    assert_eq!(parse_u16("65536"), None);
    assert_eq!(parse_usize("4096"), Some(4096));
}

#[test]
fn basename_drops_the_directory_part() {
    assert_eq!(basename_of("/usr/local/bin/qft"), "qft");
    assert_eq!(basename_of("qft"), "qft");
    assert_eq!(basename_of("a/b/"), "");
}

#[test]
fn punch_helpers_compute_their_sleeps() {
    assert_eq!(punch_wait_millis(1234), PUNCH_DELAY - 234);
    assert_eq!(punch_wait_millis(1000), PUNCH_DELAY);
    assert_eq!(punch_wait_millis(1999), 1);
    assert_eq!(pace_millis(100, 120), PUNCH_INC_DELAY - 20);
    assert_eq!(pace_millis(100, 100 + PUNCH_INC_DELAY), 0);
    assert_eq!(pace_millis(100, 100 + PUNCH_INC_DELAY + 9), 0);
}

#[test]
fn stripping_zeros_recovers_the_address_bytes() {
    let padded = pad_to_map_len(b"1.2.3.4:5678");
    assert_eq!(strip_zero_bytes(&padded), b"1.2.3.4:5678".to_vec());
    assert_eq!(strip_zero_bytes(&[0, 7, 0, 8, 0, 0]), vec![0, 7, 0, 8]);
    assert_eq!(strip_zero_bytes(&[0, 0]), Vec::<u8>::new());
    assert_eq!(strip_zero_bytes(&[]), Vec::<u8>::new());
}
