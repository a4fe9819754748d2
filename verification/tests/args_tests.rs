use tictactoe::args::Args;
use tictactoe::error::Error;

fn argv(items: &[&str]) -> Vec<String> {
    items.iter().map(|s| s.to_string()).collect()
}

fn msg(r: Result<Args, Error>) -> String {
    match r {
        Err(Error::Msg(m)) => m,
        other => panic!("expected a message error, got {:?}", other),
    }
}

#[test]
fn no_arguments_gives_defaults() {
    let a = Args::parse(argv(&["tictactoe"])).unwrap();
    assert_eq!(a.width, None);
    assert_eq!(a.height, None);
    assert_eq!(a.win_len, 5);
    assert!(!a.help);
}

#[test]
fn empty_argument_list_gives_defaults() {
    let a = Args::parse(Vec::new()).unwrap();
    assert_eq!(a.width, None);
    assert_eq!(a.win_len, 5);
}

#[test]
fn size_and_win_flags_are_parsed() {
    let a = Args::parse(argv(&["tictactoe", "-s", "5", "6", "-w", "4"])).unwrap();
    assert_eq!(a.width, Some(5));
    assert_eq!(a.height, Some(6));
    assert_eq!(a.win_len, 4);
    assert!(!a.help);
    let a = Args::parse(argv(&["tictactoe", "--size", "10", "3", "--win", "3"])).unwrap();
    assert_eq!(a.width, Some(10));
    assert_eq!(a.height, Some(3));
    assert_eq!(a.win_len, 3);
}

#[test]
fn help_flag_is_recognised() {
    let a = Args::parse(argv(&["tictactoe", "-h"])).unwrap();
    assert!(a.help);
    let a = Args::parse(argv(&["tictactoe", "--help"])).unwrap();
    assert!(a.help);
}

#[test]
fn too_small_size_is_rejected() {
    let m = msg(Args::parse(argv(&["tictactoe", "-s", "2", "5"])));
    assert_eq!(m, "minimum supported size is 3");
    let m = msg(Args::parse(argv(&["tictactoe", "-s", "5", "2"])));
    assert_eq!(m, "minimum supported size is 3");
}

#[test]
fn too_small_win_length_is_rejected() {
    let m = msg(Args::parse(argv(&["tictactoe", "-w", "2"])));
    assert_eq!(m, "minimum supported win length is 3");
}

#[test]
fn missing_parameter_is_reported() {
    let m = msg(Args::parse(argv(&["tictactoe", "--win"])));
    assert_eq!(m, "missing argument parameter");
    let m = msg(Args::parse(argv(&["tictactoe", "-s", "4"])));
    assert_eq!(m, "missing argument parameter");
}

#[test]
fn non_numeric_parameter_is_reported() {
    let m = msg(Args::parse(argv(&["tictactoe", "-w", "abc"])));
    assert_eq!(m, "number expected, got 'abc'");
    let m = msg(Args::parse(argv(&["tictactoe", "-s", "4", "4x"])));
    assert_eq!(m, "number expected, got '4x'");
}

#[test]
fn unexpected_argument_is_reported() {
    let m = msg(Args::parse(argv(&["tictactoe", "-z"])));
    assert_eq!(m, "unexpected argument: '-z'");
}

#[test]
fn numbers_accept_a_leading_plus_and_reject_overflow() {
    let a = Args::parse(argv(&["tictactoe", "-w", "+7"])).unwrap();
    assert_eq!(a.win_len, 7);
    let m = msg(Args::parse(argv(&["tictactoe", "-w", "99999999999999999999999999"])));
    assert_eq!(m, "number expected, got '99999999999999999999999999'");
    let m = msg(Args::parse(argv(&["tictactoe", "-w", "+"])));
    assert_eq!(m, "number expected, got '+'");
    let m = msg(Args::parse(argv(&["tictactoe", "-w", ""])));
    assert_eq!(m, "number expected, got ''");
}

#[test]
fn later_flags_override_earlier_ones() {
    let a = Args::parse(argv(&["tictactoe", "-w", "4", "-w", "6"])).unwrap();
    assert_eq!(a.win_len, 6);
}

#[test]
fn get_num_reads_and_advances() {
    let args = argv(&["12", "x"]);
    let mut pos = 0;
    assert_eq!(Args::get_num(&args, &mut pos), Ok(12));
    assert_eq!(pos, 1);
    assert!(Args::get_num(&args, &mut pos).is_err());
    assert_eq!(pos, 2);
    assert!(Args::get_num(&args, &mut pos).is_err());
}

#[test]
fn error_messages_render_as_text() {
    assert_eq!(Error::CellOccupied.message(), "Not empty cell");
    assert_eq!(Error::GameEnded.message(), "game ended");
    assert_eq!(Error::Exit.message(), "exit");
    assert_eq!(Error::Msg("boo".to_string()).message(), "boo");
    assert_eq!(Error::IO("broken pipe".to_string()).message(), "broken pipe");
}
