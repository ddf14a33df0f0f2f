use save_guard::launch::{launch_option, parse_monitor_args, split_monitor_args, MONITOR_FLAG};

fn os(v: &[&str]) -> Vec<String> {
    v.iter().map(|s| s.to_string()).collect()
}

#[test]
fn launch_option_quotes_exe() {
    let s = launch_option(r"C:\Program Files\ERSG\eldenring-backuptool.exe");
    assert_eq!(
        s,
        r#""C:\Program Files\ERSG\eldenring-backuptool.exe" --monitor %command%"#
    );
}

#[test]
fn parses_program_and_args() {
    let cmd = parse_monitor_args(os(&[
        "--monitor",
        r"C:\Games\ELDEN RING\Game\start_protected_game.exe",
        "-arg",
        "value with spaces",
    ]))
    .unwrap();
    assert_eq!(
        cmd.program,
        String::from(r"C:\Games\ELDEN RING\Game\start_protected_game.exe")
    );
    assert_eq!(cmd.args, os(&["-arg", "value with spaces"]));
}

#[test]
fn program_only_no_args() {
    let cmd = parse_monitor_args(os(&["--monitor", "game.exe"])).unwrap();
    assert!(cmd.args.is_empty());
}

#[test]
fn unicode_path_preserved() {
    let cmd = parse_monitor_args(os(&["--monitor", r"C:\游戏\エルデンリング\game.exe"])).unwrap();
    assert_eq!(cmd.program, String::from(r"C:\游戏\エルデンリング\game.exe"));
}

#[test]
fn not_monitor_mode() {
    assert!(parse_monitor_args(os(&["--other", "x"])).is_none());
    assert!(parse_monitor_args(os(&[])).is_none());
}

#[test]
fn monitor_flag_but_no_program() {
    assert!(parse_monitor_args(os(&["--monitor"])).is_none());
}

#[test]
fn flag_is_case_sensitive() {
    assert_eq!(MONITOR_FLAG, "--monitor");
    assert!(parse_monitor_args(os(&["--MONITOR", "game.exe"])).is_none());
}

#[test]
fn split_keeps_any_argument_type_verbatim() {
    let args: Vec<Vec<u16>> = vec![vec![1], vec![0xD800, 0x41], vec![], vec![7, 7]];
    let cmd = split_monitor_args(args, true).unwrap();
    assert_eq!(cmd.program, vec![0xD800, 0x41]);
    assert_eq!(cmd.args, vec![vec![], vec![7u16, 7]]);
    assert!(split_monitor_args(vec![vec![1u16], vec![2]], false).is_none());
    assert!(split_monitor_args(vec![vec![1u16]], true).is_none());
}
