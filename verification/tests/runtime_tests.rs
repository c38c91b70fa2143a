use orbit::runtime::{
    cd_command, comm_name, cwd_tracking_pid, elevated_target, foreground_target,
    format_duration_compact, idle_step_comm, idle_step_fg_stat, idle_step_stat, is_shell,
    join_cmdline, parse_i32, parse_pgrp_tpgid, parse_u32, split_fields, stat_text_sliceable,
    status_euid_is_root, trim, whitespace, IdleStep,
};
use orbit::text::chars_of;

#[test]
fn duration_under_a_minute_is_seconds() {
    assert_eq!(format_duration_compact(0), "0s");
    assert_eq!(format_duration_compact(45), "45s");
    assert_eq!(format_duration_compact(59), "59s");
}

#[test]
fn duration_under_an_hour_is_minutes() {
    assert_eq!(format_duration_compact(60), "1m");
    assert_eq!(format_duration_compact(180), "3m");
    assert_eq!(format_duration_compact(3599), "59m");
}

#[test]
fn duration_of_hours_shows_minutes_past() {
    assert_eq!(format_duration_compact(3600), "1h 0m");
    assert_eq!(format_duration_compact(4320), "1h 12m");
    assert_eq!(format_duration_compact(90061), "25h 1m");
}

#[test]
fn duration_of_the_largest_count() {
    let s = format_duration_compact(u64::MAX);
    let hours = u64::MAX / 3600;
    let minutes = (u64::MAX / 60) % 60;
    assert_eq!(s, format!("{}h {}m", hours, minutes));
}

const STAT_LINE: &str =
    "4242 (bash) S 4200 4242 4242 34816 5151 4194304 1153 0 0 0 2 0 0 0 20 0 1 0 1234 0 0";

#[test]
fn stat_gives_process_group_and_terminal_group() {
    assert_eq!(parse_pgrp_tpgid(STAT_LINE), Some((4242, 5151)));
}

#[test]
fn stat_with_parentheses_in_the_command_name() {
    let line = "77 (a) b (c)) R 1 77 77 0 -1 0";
    assert_eq!(parse_pgrp_tpgid(line), Some((77, -1)));
}

#[test]
fn stat_with_too_few_fields_is_refused() {
    assert_eq!(parse_pgrp_tpgid("1 (x) S 0 1 1 0"), None);
}

#[test]
fn stat_with_a_bad_number_is_refused() {
    assert_eq!(parse_pgrp_tpgid("1 (x) S 0 one 1 0 7 0"), None);
    assert_eq!(parse_pgrp_tpgid("1 (x) S 0 1 1 0 +7 0"), Some((1, 7)));
}

#[test]
fn numbers_parse_like_the_standard_library() {
    assert_eq!(parse_i32(&chars_of("-17")), Some(-17));
    assert_eq!(parse_i32(&chars_of("+5")), Some(5));
    assert_eq!(parse_i32(&chars_of("2147483647")), Some(i32::MAX));
    assert_eq!(parse_i32(&chars_of("-2147483648")), Some(i32::MIN));
    assert_eq!(parse_i32(&chars_of("2147483648")), None);
    assert_eq!(parse_i32(&chars_of("-")), None);
    assert_eq!(parse_i32(&chars_of("")), None);
    assert_eq!(parse_u32(&chars_of("0")), Some(0));
    assert_eq!(parse_u32(&chars_of("4294967295")), Some(u32::MAX));
    assert_eq!(parse_u32(&chars_of("4294967296")), None);
    assert_eq!(parse_u32(&chars_of("-1")), None);
    assert_eq!(parse_u32(&chars_of("+1")), Some(1));
}

#[test]
fn fields_split_on_any_whitespace() {
    let fields = split_fields(&chars_of("  a\tbc \n d  "));
    let got: Vec<String> = fields.iter().map(|f| f.iter().collect()).collect();
    assert_eq!(got, vec!["a".to_string(), "bc".to_string(), "d".to_string()]);
    assert!(whitespace(' '));
    assert!(whitespace('\u{3000}'));
    assert!(!whitespace('x'));
}

#[test]
fn comm_names_lose_newline_and_login_dash() {
    assert_eq!(comm_name("-bash\n"), "bash");
    assert_eq!(comm_name("  zsh  "), "zsh");
    assert_eq!(comm_name("vim\n"), "vim");
    assert_eq!(comm_name("--x"), "-x");
}

#[test]
fn shells_are_recognised_by_name() {
    for name in ["bash", "zsh", "fish", "sh", "dash", "ksh", "csh", "tcsh", "nu", "nushell",
        "elvish", "ion", "xonsh", "pwsh"] {
        assert!(is_shell(name), "{}", name);
    }
    assert!(!is_shell("vim"));
    assert!(!is_shell("Bash"));
    assert!(!is_shell(""));
}

#[test]
fn status_reports_root_by_effective_uid() {
    let root = "Name:\tsudo\nUid:\t1000\t0\t0\t0\nGid:\t1000\t1000\t1000\t1000\n";
    let user = "Name:\tbash\nUid:\t1000\t1000\t1000\t1000\n";
    assert!(status_euid_is_root(root));
    assert!(!status_euid_is_root(user));
    assert!(!status_euid_is_root("Name:\tx\n"));
    assert!(!status_euid_is_root("Uid:\t0\n"));
    assert!(!status_euid_is_root("Uid:\t0\tzero\n"));
}

#[test]
fn command_line_joins_arguments_with_spaces() {
    assert_eq!(join_cmdline(b"vim\0notes.txt\0"), Some(b"vim notes.txt".to_vec()));
    assert_eq!(join_cmdline(b"a\0\0b\0"), Some(b"a b".to_vec()));
    assert_eq!(join_cmdline(b"\0\0"), None);
    assert_eq!(join_cmdline(b""), None);
}

#[test]
fn idle_when_the_shell_owns_the_terminal() {
    assert!(matches!(idle_step_stat(None), IdleStep::Done(true)));
    assert!(matches!(idle_step_stat(Some((10, 10))), IdleStep::Done(true)));
    assert!(matches!(idle_step_stat(Some((10, 0))), IdleStep::Done(false)));
    assert!(matches!(idle_step_stat(Some((10, 12))), IdleStep::ReadComm(12)));
}

#[test]
fn nested_shell_at_its_prompt_is_idle() {
    assert!(matches!(idle_step_comm(12, Some("-bash\n")), IdleStep::ReadStat(12)));
    assert!(matches!(idle_step_comm(12, Some("make\n")), IdleStep::Done(false)));
    assert!(matches!(idle_step_comm(12, None), IdleStep::Done(false)));
    assert!(idle_step_fg_stat(Some((12, 12))));
    assert!(!idle_step_fg_stat(Some((12, 13))));
    assert!(!idle_step_fg_stat(None));
}

#[test]
fn foreground_and_elevation_targets() {
    assert_eq!(foreground_target(Some((10, 12))), Some(12));
    assert_eq!(foreground_target(Some((10, 10))), None);
    assert_eq!(foreground_target(Some((10, -1))), None);
    assert_eq!(foreground_target(None), None);
    assert_eq!(elevated_target(Some((10, 10))), Some(10));
    assert_eq!(elevated_target(Some((10, 0))), None);
    assert_eq!(elevated_target(None), None);
}

#[test]
fn cwd_is_tracked_through_the_foreground_group() {
    assert_eq!(cwd_tracking_pid(100, Some((100, 120))), 120);
    assert_eq!(cwd_tracking_pid(100, Some((100, 0))), 100);
    assert_eq!(cwd_tracking_pid(100, Some((100, -1))), 100);
    assert_eq!(cwd_tracking_pid(100, None), 100);
}

#[test]
fn cd_line_quotes_the_path() {
    assert_eq!(cd_command("/tmp"), "cd -- '/tmp'\n");
    assert_eq!(cd_command("/home/o'brien"), "cd -- '/home/o'\\''brien'\n");
    assert_eq!(cd_command("/a b/$HOME"), "cd -- '/a b/$HOME'\n");
    assert_eq!(cd_command(""), "cd -- ''\n");
}

#[test]
fn stat_text_must_continue_after_the_name() {
    assert!(stat_text_sliceable(STAT_LINE));
    assert!(stat_text_sliceable("no parenthesis here"));
    assert!(!stat_text_sliceable("1 (bash)"));
    assert!(stat_text_sliceable("1 (bash) "));
    assert!(!stat_text_sliceable("1 (bash)\u{e9}x"));
}

#[test]
fn trimming_removes_unicode_spaces() {
    assert_eq!(trim("  a b \t"), "a b");
    assert_eq!(trim("\u{a0}x"), "x");
    assert_eq!(trim(""), "");
}
