use plotter::canvas::Mode;
use plotter::cli::{Args, ArgsError};

fn line(args: &[&str]) -> Vec<String> {
    args.iter().map(|arg| arg.to_string()).collect()
}

fn plain() -> Args {
    Args {
        width: 90,
        height: 25,
        mode: Mode::Count,
        x_is_row: true,
        log_x: false,
        log_y: false,
        cdf: false,
    }
}

#[test]
fn no_arguments_give_the_defaults() {
    assert_eq!(Args::from_env(line(&[])).unwrap(), plain());
}

#[test]
fn each_flag_sets_its_field() {
    assert_eq!(
        Args::from_env(line(&["--dot"])).unwrap(),
        Args { mode: Mode::Dot, ..plain() }
    );
    assert_eq!(
        Args::from_env(line(&["--no-x-is-row"])).unwrap(),
        Args { x_is_row: false, ..plain() }
    );
    assert_eq!(
        Args::from_env(line(&["--log-x"])).unwrap(),
        Args { log_x: true, ..plain() }
    );
    assert_eq!(
        Args::from_env(line(&["--log-y"])).unwrap(),
        Args { log_y: true, ..plain() }
    );
    assert_eq!(
        Args::from_env(line(&["--cdf"])).unwrap(),
        Args { cdf: true, ..plain() }
    );
}

#[test]
fn all_options_together_in_any_order() {
    let wanted = Args {
        width: 72,
        height: 30,
        mode: Mode::Dot,
        x_is_row: false,
        log_x: true,
        log_y: true,
        cdf: true,
    };
    let forward = ["-d", "72x30", "--dot", "--no-x-is-row", "--log-x", "--log-y", "--cdf"];
    let backward = ["--cdf", "--log-y", "--log-x", "--no-x-is-row", "--dot", "-d", "72x30"];
    assert_eq!(Args::from_env(line(&forward)).unwrap(), wanted);
    assert_eq!(Args::from_env(line(&backward)).unwrap(), wanted);
}

#[test]
fn size_is_read_with_its_white_space() {
    let args = Args::from_env(line(&["-d", " 40 x 12 "])).unwrap();
    assert_eq!((args.width, args.height), (40, 12));
}

#[test]
fn the_first_size_counts() {
    let args = Args::from_env(line(&["-d", "10x11", "-d", "20x21"])).unwrap();
    assert_eq!((args.width, args.height), (10, 11));
}

#[test]
fn help_comes_before_everything() {
    assert!(matches!(Args::from_env(line(&["-h"])), Err(ArgsError::HelpRequested)));
    assert!(matches!(Args::from_env(line(&["--help"])), Err(ArgsError::HelpRequested)));
    assert!(matches!(
        Args::from_env(line(&["-d", "nonsense", "--help"])),
        Err(ArgsError::HelpRequested)
    ));
    assert!(matches!(Args::from_env(line(&["-d", "-h"])), Err(ArgsError::HelpRequested)));
    assert!(matches!(Args::from_env(line(&["-d", "--help"])), Err(ArgsError::HelpRequested)));
}

#[test]
fn a_size_without_a_value_is_the_parsers_error() {
    assert!(matches!(
        Args::from_env(line(&["-d"])),
        Err(ArgsError::BadOption(pico_args::Error::OptionWithoutAValue("-d")))
    ));
    assert!(matches!(
        Args::from_env(line(&["--dot", "-d"])),
        Err(ArgsError::BadOption(pico_args::Error::OptionWithoutAValue("-d")))
    ));
}

#[test]
fn a_size_that_spells_none_is_invalid() {
    assert!(matches!(Args::from_env(line(&["-d", "abc"])), Err(ArgsError::InvalidDimensions)));
    assert!(matches!(Args::from_env(line(&["-d", "10"])), Err(ArgsError::InvalidDimensions)));
    assert!(matches!(Args::from_env(line(&["-d", ""])), Err(ArgsError::InvalidDimensions)));
    assert!(matches!(Args::from_env(line(&["-d", "-5x5"])), Err(ArgsError::InvalidDimensions)));
}

#[test]
fn the_value_of_the_size_is_never_a_flag() {
    assert!(matches!(Args::from_env(line(&["-d", "--dot"])), Err(ArgsError::InvalidDimensions)));
    assert!(matches!(Args::from_env(line(&["-d", "--cdf", "--cdf"])), Err(ArgsError::InvalidDimensions)));
    let args = Args::from_env(line(&["--dot", "-d", "5x6"])).unwrap();
    assert_eq!(args, Args { width: 5, height: 6, mode: Mode::Dot, ..plain() });
}

#[test]
fn other_arguments_are_passed_over() {
    let args = Args::from_env(line(&["input.txt", "--dots", "-D", "1x1", "--log-x", "-x"])).unwrap();
    assert_eq!(args, Args { log_x: true, ..plain() });
}

#[test]
fn a_repeated_flag_counts_once() {
    let args = Args::from_env(line(&["--dot", "--dot", "--cdf", "--cdf"])).unwrap();
    assert_eq!(args, Args { mode: Mode::Dot, cdf: true, ..plain() });
}
