use procmon::lsof::collect_slow_for_pid;
use procmon::lsof::lsof_cwd;
use procmon::lsof::lsof_cwd_command;
use procmon::lsof::lsof_num_fds;
use procmon::lsof::lsof_num_fds_command;
use procmon::lsof::parse_cwd;
use procmon::lsof::parse_num_fds;
use procmon::lsof::CommandOutput;

fn output(success: bool, stdout: &[u8]) -> Option<CommandOutput> {
    Some(CommandOutput { success, stdout: stdout.to_vec() })
}

#[test]
fn commands_are_complete() {
    assert_eq!(
        lsof_cwd_command(42, false),
        vec!["/usr/bin/lsof", "-p", "42", "-a", "-d", "cwd", "-Fn"]
    );
    assert_eq!(
        lsof_cwd_command(42, true),
        vec!["sudo", "/usr/bin/lsof", "-p", "42", "-a", "-d", "cwd", "-Fn"]
    );
    assert_eq!(lsof_num_fds_command(4294967295, false), vec!["/usr/bin/lsof", "-p", "4294967295"]);
    assert_eq!(lsof_num_fds_command(0, true), vec!["sudo", "/usr/bin/lsof", "-p", "0"]);
}

#[test]
fn the_directory_is_the_first_name_that_is_not_the_root() {
    assert_eq!(parse_cwd("p42\nfcwd\nn/Users/me\n"), Some("/Users/me".to_string()));
    assert_eq!(parse_cwd("p42\nn/\nn\nn/tmp\r\nn/var\n"), Some("/tmp".to_string()));
    assert_eq!(parse_cwd("p42\nn/\n"), None);
    assert_eq!(parse_cwd(""), None);
}

#[test]
fn open_files_are_the_lines_behind_the_header() {
    assert_eq!(parse_num_fds("COMMAND PID\na 1\nb 2\n\nc 3"), Some(3));
    assert_eq!(parse_num_fds("COMMAND PID\n"), Some(0));
    assert_eq!(parse_num_fds(""), None);
    assert_eq!(parse_num_fds("\n\n"), None);
}

#[test]
fn a_failed_command_without_output_says_nothing() {
    assert_eq!(lsof_cwd(&None), None);
    assert_eq!(lsof_num_fds(&None), None);
    assert_eq!(lsof_cwd(&output(false, b"")), None);
    assert_eq!(lsof_num_fds(&output(false, b"")), None);
    let fields = collect_slow_for_pid(&None, &output(false, b""));
    assert_eq!(fields.cwd, None);
    assert_eq!(fields.num_fds, None);
}

#[test]
fn a_failed_command_with_output_counts() {
    assert_eq!(lsof_cwd(&output(false, b"n/tmp\n")), Some("/tmp".to_string()));
    let fields = collect_slow_for_pid(&output(true, b"n/tmp\n"), &output(false, b"H\nx\n"));
    assert_eq!(fields.cwd, Some("/tmp".to_string()));
    assert_eq!(fields.num_fds, Some(1));
}

#[test]
fn bytes_that_are_not_text_are_replaced() {
    assert_eq!(lsof_cwd(&output(true, b"n/a\xffb\n")), Some("/a\u{fffd}b".to_string()));
    assert_eq!(lsof_cwd(&output(true, "n/\u{e9}t\u{e9}\n".as_bytes())), Some("/\u{e9}t\u{e9}".to_string()));
}
