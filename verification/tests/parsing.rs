use hangscope::fdres::{access_mode_from_open_flags, classify, parse_fdinfo_flags,
    parse_pipe_inode, parse_socket_inode, FdTarget};
use hangscope::muvm::{cgroup_v2_dir_from_relative_path, parse_cgroup_v2_relative_path,
    parse_muvm_guest_status_code, parse_muvm_guest_terminated_signal};
use hangscope::numfmt::{i32_to_dec, linux_major, linux_minor, parse_i32_dec, parse_u32_dec,
    parse_u64_dec, u64_to_dec, u64_to_hex, u64_to_oct};
use hangscope::procstat::{decode_signal_mask, format_tty_nr_details, is_foreground_pgrp,
    parse_proc_stat_job_control, parse_status_hex_mask, signal_name};
use hangscope::inventory::{map_debian_to_fedora, parse_os_release};
use hangscope::muvm::extract_preflight_kvs;
use hangscope::strutil::clip_text;
use hangscope::syscall::{decode_pollfds, extract_hex_after_equals, parse_bracket_pid_tid,
    parse_proc_syscall_line, parse_u64_mixed, unique_pids};

#[test]
fn decimal_and_hex_rendering() {
    assert_eq!(u64_to_dec(0), "0");
    assert_eq!(u64_to_dec(1234567890), "1234567890");
    assert_eq!(u64_to_hex(0), "0");
    assert_eq!(u64_to_hex(0x7fffdfea0000), "7fffdfea0000");
    assert_eq!(u64_to_oct(0o2100002), "2100002");
    assert_eq!(i32_to_dec(-42), "-42");
    assert_eq!(i32_to_dec(i32::MIN), "-2147483648");
}

#[test]
fn number_parsing() {
    assert_eq!(parse_u64_dec("4096"), Some(4096));
    assert_eq!(parse_u64_dec(""), None);
    assert_eq!(parse_u64_dec("12x"), None);
    assert_eq!(parse_u64_dec("18446744073709551615"), Some(u64::MAX));
    assert_eq!(parse_u64_dec("18446744073709551616"), None);
    assert_eq!(parse_u32_dec("70000"), Some(70000));
    assert_eq!(parse_i32_dec("-17"), Some(-17));
    assert_eq!(parse_i32_dec("+8"), Some(8));
    assert_eq!(parse_i32_dec("-2147483648"), Some(i32::MIN));
    assert_eq!(parse_i32_dec("2147483648"), None);
    assert_eq!(parse_u64_mixed("0x7fff0000"), Some(0x7fff0000));
    assert_eq!(parse_u64_mixed("  42 "), Some(42));
    assert_eq!(parse_u64_mixed("0x"), None);
}

#[test]
fn syscall_line_parses_to_number_and_args() {
    let sc = parse_proc_syscall_line("73 0x7fff0000 2 0 0 0 0").expect("line should parse");
    assert_eq!(sc.nr, 73);
    assert_eq!(sc.args, [0x7fff0000, 2, 0, 0, 0, 0]);
    assert!(parse_proc_syscall_line("73 0x7fff0000 2 0 0 0").is_none());
    assert!(parse_proc_syscall_line("running").is_none());
}

#[test]
fn pollfd_buffer_decodes_little_endian() {
    let buf: Vec<u8> = vec![
        5, 0, 0, 0, 1, 0, 0, 0, // fd 5, events 1, revents 0
        0xff, 0xff, 0xff, 0xff, 0, 0, 2, 0, // fd -1, events 0, revents 2
    ];
    let entries = decode_pollfds(&buf, 2).expect("two pollfds");
    assert_eq!(entries[0].fd, 5);
    assert_eq!(entries[0].events, 1);
    assert_eq!(entries[1].fd, -1);
    assert_eq!(entries[1].revents, 2);
    assert!(decode_pollfds(&buf, 3).is_none());
}

#[test]
fn fd_targets_classify() {
    assert_eq!(parse_pipe_inode("pipe:[3073]"), Some(3073));
    assert_eq!(parse_pipe_inode("pipe:[]"), None);
    assert_eq!(parse_socket_inode("socket:[99]"), Some(99));
    assert!(matches!(classify("pipe:[42]"), FdTarget::Pipe(42)));
    assert!(matches!(classify("socket:[7]"), FdTarget::Socket(7)));
    assert!(matches!(classify("anon_inode:[eventfd]"), FdTarget::EventFd));
    assert!(matches!(classify("/dev/null"), FdTarget::Other(_)));
}

#[test]
fn fdinfo_flags_and_access_modes() {
    let fdinfo = "pos:\t0\nflags:\t01\nmnt_id:\t15\n";
    assert_eq!(parse_fdinfo_flags(fdinfo), Some(0o1));
    assert_eq!(access_mode_from_open_flags(0o1), "wronly");
    assert_eq!(access_mode_from_open_flags(0o2), "rdwr");
    assert_eq!(access_mode_from_open_flags(0o0), "rdonly");
    assert_eq!(parse_fdinfo_flags("pos:\t0\n"), None);
    assert_eq!(parse_fdinfo_flags("flags:\t02100002\n"), Some(0o2100002));
}

#[test]
fn stat_job_control_fields() {
    let stat = "1234 (some (odd) comm) S 1 1234 1234 34816 1234 4194304";
    let jc = parse_proc_stat_job_control(stat).expect("stat should parse");
    assert_eq!(jc.state, 'S');
    assert_eq!(jc.ppid, 1);
    assert_eq!(jc.pgrp, 1234);
    assert_eq!(jc.session, 1234);
    assert_eq!(jc.tty_nr, 34816);
    assert_eq!(jc.tpgid, 1234);
    assert_eq!(is_foreground_pgrp(&jc), Some(true));
    let bg = parse_proc_stat_job_control("9 (x) S 1 7 7 34816 8").unwrap();
    assert_eq!(is_foreground_pgrp(&bg), Some(false));
    let no_tty = parse_proc_stat_job_control("9 (x) S 1 7 7 0 -1").unwrap();
    assert_eq!(is_foreground_pgrp(&no_tty), None);
}

#[test]
fn tty_device_words() {
    assert_eq!(linux_major(34816), 136);
    assert_eq!(linux_minor(34816), 0);
    assert_eq!(format_tty_nr_details(0), " (no controlling tty)");
    assert_eq!(
        format_tty_nr_details(34816),
        " dev=0x00008800 major=136 minor=0"
    );
}

#[test]
fn status_masks_and_signal_names() {
    let status = "Name:\tx\nSigPnd:\t0000000000000100\nSigCgt:\t0000000180014a03\n";
    assert_eq!(parse_status_hex_mask(status, "SigPnd"), Some(0x100));
    assert_eq!(parse_status_hex_mask(status, "SigBlk"), None);
    assert_eq!(signal_name(9), "SIGKILL");
    assert_eq!(signal_name(15), "SIGTERM");
    assert_eq!(signal_name(34), "SIGRTMIN+0");
    assert_eq!(signal_name(40), "SIGRTMIN+6");
    assert_eq!(signal_name(70), "SIG70");
    assert_eq!(decode_signal_mask(0x100), vec!["SIGKILL".to_string()]);
    assert_eq!(
        decode_signal_mask(0b101),
        vec!["SIGHUP".to_string(), "SIGQUIT".to_string()]
    );
}

#[test]
fn muvm_exit_markers_last_occurrence_wins() {
    let text = "noise\nguest process exited with status code: 3\n\
more\nprocess exited with status code: 248\ntail\n";
    assert_eq!(parse_muvm_guest_status_code(text), Some(248));
    assert_eq!(parse_muvm_guest_terminated_signal(text), None);
    let sig = "a process terminated by signal: 11\n";
    assert_eq!(parse_muvm_guest_terminated_signal(sig), Some(11));
    assert_eq!(parse_muvm_guest_status_code("nothing here"), None);
}

#[test]
fn bracket_pid_tid_prefixes() {
    assert_eq!(parse_bracket_pid_tid("[123:456:0101/120000.183500:ERROR]"), Some((123, 456)));
    assert_eq!(parse_bracket_pid_tid("no bracket"), None);
    assert_eq!(parse_bracket_pid_tid("[12]"), None);
    assert_eq!(parse_bracket_pid_tid("[:4]"), None);
    assert_eq!(
        parse_bracket_pid_tid("[99999999999999:1]"),
        Some((u32::MAX, 1))
    );
}

#[test]
fn unique_pids_keep_first_appearance_order() {
    let ids = [(7u32, 1u32), (3, 2), (7, 9), (5, 1), (3, 3)];
    assert_eq!(unique_pids(&ids), vec![7, 3, 5]);
}

#[test]
fn hex_word_after_equals() {
    assert_eq!(
        extract_hex_after_equals("mmap(NULL, 8392704, ...) = 0x7fffdfea0000").as_deref(),
        Some("0x7fffdfea0000")
    );
    assert_eq!(extract_hex_after_equals("read(3) = 17"), None);
    assert_eq!(extract_hex_after_equals("no equals"), None);
}

#[test]
fn cgroup_paths() {
    assert_eq!(
        parse_cgroup_v2_relative_path("0::/user.slice/user-1000.slice\n").as_deref(),
        Some("/user.slice/user-1000.slice")
    );
    assert_eq!(parse_cgroup_v2_relative_path("1:name=x:/\n"), None);
    assert_eq!(cgroup_v2_dir_from_relative_path("/"), "/sys/fs/cgroup");
    assert_eq!(
        cgroup_v2_dir_from_relative_path("/user.slice"),
        "/sys/fs/cgroup/user.slice"
    );
}

#[test]
fn debian_package_mapping() {
    assert_eq!(map_debian_to_fedora("libc6").as_deref(), Some("glibc"));
    assert_eq!(map_debian_to_fedora("g++").as_deref(), Some("gcc-c++"));
    assert_eq!(map_debian_to_fedora("libasound2").as_deref(), Some("alsa-lib"));
    // Package managers are deliberately excluded.
    assert_eq!(map_debian_to_fedora("apt"), None);
    assert_eq!(map_debian_to_fedora("dpkg"), None);
    // Unknown non-library names pass through; unknown libraries do not.
    assert_eq!(map_debian_to_fedora("htop").as_deref(), Some("htop"));
    assert_eq!(map_debian_to_fedora("libweird0"), None);
}

#[test]
fn os_release_pairs_are_parsed() {
    let text = "# a comment\nNAME=\"Fedora Linux\"\n\nVERSION_ID=41\nBROKEN LINE\n";
    let pairs = parse_os_release(text);
    assert_eq!(pairs.len(), 2);
    assert_eq!(pairs[0].0, "NAME");
    assert_eq!(pairs[0].1, "Fedora Linux");
    assert_eq!(pairs[1].0, "VERSION_ID");
    assert_eq!(pairs[1].1, "41");
}

#[test]
fn preflight_pairs_first_appearance_wins() {
    let text = "kernel: 6.9\nignored: x\nkernel: 7.0\n cpus : 8\nno colon line\n";
    let keys = vec!["kernel".to_string(), "cpus".to_string()];
    let pairs = extract_preflight_kvs(text, &keys);
    assert_eq!(pairs.len(), 2);
    assert_eq!(pairs[0].0, "kernel");
    assert_eq!(pairs[0].1, "6.9");
    assert_eq!(pairs[1].0, "cpus");
    assert_eq!(pairs[1].1, "8");
}

#[test]
fn clipped_text_carries_the_marker() {
    assert_eq!(clip_text("short", 64), "short");
    assert_eq!(clip_text("abcdef", 3), "abc\n\u{2026}(clipped)\u{2026}\n");
}
