use nmt_platform::process::{
    after_getpgid, after_setpgid, count_group_members, exit_status_from_code, other_process_count,
    parse_i32, process_group_of, AttachError, AttachStep, SetpgidResult,
};

#[test]
fn exit_codes_land_in_the_second_byte() {
    assert_eq!(exit_status_from_code(0), 0);
    assert_eq!(exit_status_from_code(1), 256);
    assert_eq!(exit_status_from_code(255), 0xff00);
    assert_eq!(exit_status_from_code(256), 0);
    assert_eq!(exit_status_from_code(0x1_0003), 0x300);
}

#[test]
fn the_group_is_the_third_field_after_the_command() {
    let stat = "1234 (zsh) S 1200 1234 1234 34817 1234 4194304";
    assert_eq!(process_group_of(stat), Some(1234));
    let odd = "77 (a (b) c) R 1 55 77 0";
    assert_eq!(process_group_of(odd), Some(55));
    assert_eq!(process_group_of("9 (x) R 1"), None);
    assert_eq!(process_group_of("no parenthesis here"), None);
    assert_eq!(process_group_of("5 (x) S 1 abc"), None);
}

#[test]
fn group_members_are_counted() {
    let stats = vec![
        String::from("10 (sh) S 1 10 10 0"),
        String::from("11 (cat) S 10 10 10 0"),
        String::from("12 (other) S 1 12 12 0"),
        String::from("garbage"),
    ];
    assert_eq!(count_group_members(&stats, 10), 2);
    assert_eq!(count_group_members(&stats, 12), 1);
    assert_eq!(count_group_members(&stats, 99), 0);
}

#[test]
fn other_processes_exclude_the_leader() {
    assert_eq!(other_process_count(0), 0);
    assert_eq!(other_process_count(1), 0);
    assert_eq!(other_process_count(4), 3);
}

#[test]
fn integers_parse_like_std() {
    let s = "+42 -7 2147483647 2147483648 -2147483648 -2147483649 - 00012 4x";
    let cases: [(&str, Option<i32>); 10] = [
        ("+42", Some(42)),
        ("-7", Some(-7)),
        ("2147483647", Some(i32::MAX)),
        ("2147483648", None),
        ("-2147483648", Some(i32::MIN)),
        ("-2147483649", None),
        ("-", None),
        ("00012", Some(12)),
        ("4x", None),
        ("", None),
    ];
    for (text, expected) in cases {
        assert_eq!(text.parse::<i32>().ok(), expected);
        assert_eq!(parse_i32(text, 0, text.chars().count()), expected);
    }
    assert_eq!(parse_i32(s, 0, 3), Some(42));
}

#[test]
fn attaching_checks_group_leadership() {
    assert_eq!(after_setpgid(SetpgidResult::Done), AttachStep::QueryGroup);
    assert_eq!(after_setpgid(SetpgidResult::AlreadyExecuted), AttachStep::QueryGroup);
    assert_eq!(
        after_setpgid(SetpgidResult::Failed),
        AttachStep::Fail(AttachError::SetpgidFailed)
    );
    assert_eq!(after_getpgid(40, 40), AttachStep::Attached);
    assert_eq!(
        after_getpgid(40, 1),
        AttachStep::Fail(AttachError::NotGroupLeader)
    );
}
