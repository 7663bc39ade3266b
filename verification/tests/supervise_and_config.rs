use hangscope::doctor::{is_multiline_worth_printing, one_line, resolve_output_path,
    sanitize_filename, trimmed_multiline, CommandProbe, ProbeOutcome};
use hangscope::doctor::{collect, is_not_found, is_permission_denied,
    looks_like_journal_permission_problem, probe_cmd, probe_cmd_optional, probe_cmd_sudo_fallback,
    DoctorProbes, FileRead, GsOutcome, GsQuery, NamedProbe, ReadOutcome};
use hangscope::syscall::pick_strace_path;
use hangscope::inventory::{asahi_setup_binary_path, hash_file, iso_utc_now, uname_field,
    validate_staging_tree};
use hangscope::keydconf::{analyze_keyd, current_device_path, detect_touchpad_event_via_libinput,
    device_path_from_execstart, execstart_line, normalize, patch_keyd, quote_gvariant_string,
    replace_arg_value, replace_device_path, shell_escape, should_use_sudo, yesno};
use hangscope::muvm::{exit_from_run_report, iso_now, prepare_fex_images, sanitize_path_component,
    wrap_muvm_args_if_requested, PcscBridgeGuard, ProfileLocation, RunReport};
use hangscope::supervise::{exit_status_code, Supervisor, SupervisorConfig};

fn config(deadline_ms: u64, grace_ms: u64, snapshot_at_ms: Option<u64>) -> SupervisorConfig {
    SupervisorConfig { deadline_ms, grace_ms, snapshot_at_ms }
}

#[test]
fn run_that_exits_before_the_deadline_is_not_timed_out() {
    let mut sup = Supervisor::new(config(2000, 500, Some(1000)));
    let a = sup.on_tick(100);
    assert!(!a.take_snapshot && !a.send_term && !a.send_kill);
    sup.on_output(b"hello ");
    sup.on_output(b"world");
    // The child exits normally with code 7 (raw wait status 7 << 8).
    let result = sup.on_exit(7 << 8);
    assert!(!result.timed_out);
    assert_eq!(result.exit_code, 7);
    assert_eq!(result.transcript, b"hello world");
}

#[test]
fn deadline_escalates_to_terminate_then_kill() {
    let mut sup = Supervisor::new(config(2000, 500, None));
    let a1 = sup.on_tick(1999);
    assert!(!a1.send_term);
    let a2 = sup.on_tick(2000);
    assert!(a2.take_snapshot && a2.send_term && !a2.send_kill);
    let a3 = sup.on_tick(2300);
    assert!(!a3.send_kill);
    let a4 = sup.on_tick(2500);
    assert!(a4.send_kill);
    // Child dies of the kill: signal 9 termination reads as 128 + 9.
    let result = sup.on_exit(9);
    assert!(result.timed_out);
    assert_eq!(result.exit_code, 137);
}

#[test]
fn snapshot_fires_exactly_once() {
    let mut sup = Supervisor::new(config(2000, 500, Some(1000)));
    let a1 = sup.on_tick(1000);
    assert!(a1.take_snapshot);
    let a2 = sup.on_tick(1500);
    assert!(!a2.take_snapshot);
    // At the deadline the snapshot is not repeated.
    let a3 = sup.on_tick(2000);
    assert!(!a3.take_snapshot && a3.send_term);
}

#[test]
fn wait_status_decoding() {
    assert_eq!(exit_status_code(0), 0);
    assert_eq!(exit_status_code(3 << 8), 3);
    assert_eq!(exit_status_code(15), 143);
    assert_eq!(exit_status_code(0x7f), 1);
}

#[test]
fn patches_space_and_l_and_adds_control_lock() {
    let input = r#"[ids]
*

[main]
leftmeta = layer(meta_mac)

[meta_mac:A]
space = A-f1
l = M-l
q = A-f4
"#;

    let output = patch_keyd(input).unwrap();

    assert!(output.contains("leftmeta = overload(layer(meta_mac), M)"));
    assert!(output.contains("space = M-space"));
    assert!(output.contains("l = C-l"));
    assert!(output.contains("[meta_mac+control]"));
    assert!(output.contains("q = M-l"));

    // Original q mapping in meta_mac:A should still be present.
    assert!(output.contains("q = A-f4"));
}

#[test]
fn idempotent_on_second_run() {
    let input = r#"[ids]
*

[main]
leftmeta = overload(layer(meta_mac), M)

[meta_mac:A]
space = M-space
l = C-l
q = A-f4

[meta_mac+control]
q = M-l
"#;

    let once = patch_keyd(input).unwrap();
    let twice = patch_keyd(&once).unwrap();
    assert_eq!(once, twice);
}

#[test]
fn keyd_analysis_reads_the_wiring() {
    let good = "leftmeta = overload(layer(meta_mac), M)\nspace = M-space\n[meta_mac+control]\nq = M-l\n";
    let (ok, details) = analyze_keyd(good);
    assert!(ok);
    assert!(details.contains("Cmd-tap->Overview: yes"));
    let bad = "l = M-l\n";
    let (ok2, _) = analyze_keyd(bad);
    assert!(!ok2);
    assert_eq!(yesno(true), "yes");
    assert_eq!(yesno(false), "no");
}

#[test]
fn unit_file_device_path_edit() {
    let unit = "[Unit]\nDescription=x\n[Service]\nExecStart=/usr/bin/titdb -d /dev/input/event5 -v\n";
    assert_eq!(
        execstart_line(unit).as_deref(),
        Some("/usr/bin/titdb -d /dev/input/event5 -v")
    );
    assert_eq!(
        device_path_from_execstart("/usr/bin/titdb -d /dev/input/event5 -v").as_deref(),
        Some("/dev/input/event5")
    );
    assert_eq!(
        current_device_path(unit).as_deref().ok(),
        Some("/dev/input/event5")
    );
    assert_eq!(
        replace_arg_value(
            "/usr/bin/titdb -d /dev/input/event5 -v",
            "-d",
            "/dev/input/event5",
            "/dev/input/by-path/platform-touchpad"
        ),
        "/usr/bin/titdb -d /dev/input/by-path/platform-touchpad -v"
    );
    let updated = replace_device_path(unit, "/dev/input/by-path/platform-touchpad").unwrap();
    assert!(updated.contains("ExecStart=/usr/bin/titdb -d /dev/input/by-path/platform-touchpad -v"));
    assert!(replace_device_path("[Unit]\nDescription=x\n", "/dev/x").is_err());
}

#[test]
fn touchpad_detection_picks_the_gesture_block() {
    let listing = "Device:           Apple Keyboard\nKernel:           /dev/input/event2\n\
Capabilities:     keyboard\n\nDevice:           Apple Touchpad\n\
Kernel:           /dev/input/event5\nCapabilities:     pointer gesture\n\n";
    assert_eq!(
        detect_touchpad_event_via_libinput(listing).ok().as_deref(),
        Some("/dev/input/event5")
    );
    assert!(detect_touchpad_event_via_libinput("Device: x\n\n").is_err());
}

#[test]
fn config_normalisation_and_quoting() {
    assert_eq!(normalize("a  \nb\t\n\n"), "a\nb");
    assert_eq!(normalize("  \na\n"), "a");
    assert_eq!(quote_gvariant_string("WhiteSur"), "'WhiteSur'");
    assert_eq!(shell_escape("a\"b"), "a\\\"b");
    assert!(should_use_sudo(true, false));
    assert!(!should_use_sudo(true, true));
    assert!(!should_use_sudo(false, false));
}

#[test]
fn muvm_wrap_and_exit_decisions() {
    let argv = vec!["muvm".to_string(), "--".to_string(), "true".to_string()];
    let plain = wrap_muvm_args_if_requested(argv.clone(), None, None).unwrap();
    assert_eq!(plain, argv);
    assert!(wrap_muvm_args_if_requested(argv.clone(), None, Some(9000)).is_err());
    let wrapped = wrap_muvm_args_if_requested(
        argv.clone(),
        Some("/usr/bin/systemd-run".to_string()),
        Some(9000),
    )
    .unwrap();
    assert_eq!(
        wrapped,
        vec![
            "/usr/bin/systemd-run",
            "--user",
            "--pty",
            "--wait",
            "--collect",
            "-p",
            "TasksMax=9000",
            "--same-dir",
            "--",
            "muvm",
            "--",
            "true"
        ]
    );
    let ok = RunReport {
        muvm_succeeded: true,
        muvm_exit_status: 0,
        muvm_guest_status_code: Some(0),
        muvm_guest_terminated_signal: None,
        timed_out: false,
    };
    assert!(exit_from_run_report(&ok).is_ok());
    let guest_failed = RunReport { muvm_guest_status_code: Some(248), ..ok };
    let err = exit_from_run_report(&guest_failed).unwrap_err();
    assert_eq!(err, "guest process exited with status code: 248");
    let muvm_failed = RunReport {
        muvm_succeeded: false,
        muvm_exit_status: 1,
        muvm_guest_status_code: None,
        muvm_guest_terminated_signal: None,
        timed_out: false,
    };
    assert_eq!(
        exit_from_run_report(&muvm_failed).unwrap_err(),
        "muvm failed with status: 1"
    );
}

#[test]
fn pcsc_guard_and_images() {
    let guard = PcscBridgeGuard::disabled();
    let envs = vec!["A=1".to_string()];
    assert_eq!(guard.apply_env(&envs), envs);
    assert_eq!(guard.apply_guest_pre(Some("echo hi")).as_deref(), Some("echo hi"));
    assert_eq!(guard.apply_guest_pre(None), None);
    let on = PcscBridgeGuard {
        enabled: true,
        host_port: 50001,
        guest_socket: "/tmp/sock".to_string(),
        runner_exe: "/opt/runner".to_string(),
        host_link_path: None,
    };
    let env2 = on.apply_env(&envs);
    assert_eq!(env2.last().map(|s| s.as_str()), Some("PCSCLITE_CSOCK_NAME=/tmp/sock"));
    let pre = on.apply_guest_pre(None).unwrap();
    assert!(pre.starts_with("# pcsc bridge (guest)\n"));
    assert!(pre.contains("--host-port 50001"));

    let (images, note) = prepare_fex_images(
        vec![],
        vec!["base.erofs".to_string()],
        Some("compat.erofs".to_string()),
    );
    assert_eq!(images, vec!["base.erofs", "compat.erofs"]);
    assert_eq!(note.as_deref(), Some("compat.erofs"));
    let (images2, note2) = prepare_fex_images(
        vec!["a.erofs".to_string(), "compat.erofs".to_string()],
        vec![],
        Some("compat.erofs".to_string()),
    );
    assert_eq!(images2, vec!["a.erofs", "compat.erofs"]);
    assert!(note2.is_none());
    assert_eq!(ProfileLocation::Shared.as_arg(), "shared");
    assert_eq!(ProfileLocation::GuestTmp.as_arg(), "guest-tmp");
    assert_eq!(iso_now(1700000000), "unix-seconds:1700000000");
}

#[test]
fn path_sanitisers() {
    assert_eq!(sanitize_path_component("a b/c"), "a-b-c");
    assert_eq!(sanitize_path_component("--x--"), "x");
    assert_eq!(sanitize_path_component("ok-1.2_3"), "ok-1.2_3");
    assert_eq!(sanitize_filename("2024-01-02T03:04:05+00:00"), "2024-01-02T03_04_05_00_00");
}

#[test]
fn doctor_probe_bookkeeping() {
    let mut commands = Vec::new();
    let ran = ProbeOutcome::Ran {
        status: 0,
        stdout: " 6.9.0 \n".to_string(),
        stderr: String::new(),
    };
    let got = probe_cmd("uname -a", &ran, &mut commands);
    assert_eq!(got.as_deref(), Some("6.9.0"));
    assert_eq!(commands.len(), 1);
    assert_eq!(commands[0].0, "uname -a");
    assert_eq!(commands[0].1.status, 0);

    let failed = ProbeOutcome::SpawnFailed { message: "no permission".to_string() };
    assert!(probe_cmd("x", &failed, &mut commands).is_none());
    assert_eq!(commands[1].1.status, 127);
    assert_eq!(commands[1].1.stderr, "<spawn error: no permission>");

    let mut skipped = Vec::new();
    let missing = ProbeOutcome::NotFound;
    assert!(probe_cmd_optional("keyd --version", &missing, &mut commands, &mut skipped,
        "keyd not installed").is_none());
    assert_eq!(skipped.len(), 1);
    assert_eq!(skipped[0].1, "keyd not installed");
    assert_eq!(commands.len(), 2);
}

#[test]
fn doctor_text_helpers() {
    assert_eq!(one_line("  first \nsecond\n"), "first");
    assert_eq!(one_line(""), "");
    assert_eq!(trimmed_multiline("a\nb\nc\n".to_string(), 2), "a\nb\n\u{2026}<truncated>\u{2026}");
    assert_eq!(trimmed_multiline("a\nb\n".to_string(), 5), "a\nb");
    assert!(is_multiline_worth_printing("systemctl --no-pager --full status titdb"));
    assert!(!is_multiline_worth_printing("uname -a"));
    let p = CommandProbe {
        status: 1,
        stdout: String::new(),
        stderr: "Journal Access Denied".to_string(),
    };
    assert!(looks_like_journal_permission_problem(&p));
    let q = CommandProbe { status: 1, stdout: String::new(), stderr: "boom".to_string() };
    assert!(!looks_like_journal_permission_problem(&q));
}

#[test]
fn doctor_output_paths() {
    assert_eq!(
        resolve_output_path(Some("/tmp/x.json".to_string()), false, None, None).unwrap(),
        Some("/tmp/x.json".to_string())
    );
    assert_eq!(resolve_output_path(None, false, None, None).unwrap(), None);
    assert!(resolve_output_path(None, true, None, None).is_err());
    let p = resolve_output_path(
        None,
        true,
        Some("/home/u/.local/state".to_string()),
        Some("2024-01-02T03:04:05"),
    )
    .unwrap()
    .unwrap();
    assert_eq!(
        p,
        "/home/u/.local/state/asahi/doctor/doctor-2024-01-02T03_04_05.json"
    );
}

#[test]
fn inventory_digests_and_captures() {
    let info = hash_file("a.txt", &Some(b"abc".to_vec()), true);
    assert!(info.exists);
    assert_eq!(
        info.sha256.as_deref(),
        Some("ba7816bf8f01cfea414140de5dae2223b00361a396177a9cb410ff61f20015ad")
    );
    let empty = hash_file("b.txt", &Some(Vec::new()), true);
    assert_eq!(
        empty.sha256.as_deref(),
        Some("e3b0c44298fc1c149afbf4c8996fb92427ae41e4649b934ca495991b7852b855")
    );
    let gone = hash_file("c.txt", &None, false);
    assert!(!gone.exists);
    assert!(gone.sha256.is_none());

    assert_eq!(uname_field(Some(" Linux \n")).as_deref(), Some("Linux"));
    assert_eq!(uname_field(Some("  ")), None);
    assert_eq!(uname_field(None), None);
    assert_eq!(iso_utc_now(Some("2024-05-06T07:08:09Z\n")), "2024-05-06T07:08:09Z");
    assert_eq!(iso_utc_now(None), "");
    assert_eq!(asahi_setup_binary_path(false, true), "target/release/asahi-setup");
    assert_eq!(
        asahi_setup_binary_path(true, false),
        "tools/asahi-setup/target/debug/asahi-setup"
    );
}

#[test]
fn staging_tree_validation() {
    let present = vec!["usr/lib64/libfoo.so".to_string()];
    let elfs = vec![("usr/lib64/libfoo.so".to_string(), 62u16)];
    assert!(validate_staging_tree(&present, &elfs, false).is_ok());

    let poisoned = vec!["lib64/libc.so.6".to_string()];
    assert!(validate_staging_tree(&poisoned, &vec![], false).is_err());
    assert!(validate_staging_tree(&poisoned, &vec![], true).is_ok());

    let with_bin = vec!["usr/bin".to_string()];
    assert!(validate_staging_tree(&with_bin, &vec![], false).is_err());

    let wrong_arch = vec![("usr/lib64/libbar.so".to_string(), 183u16)];
    assert!(validate_staging_tree(&vec![], &wrong_arch, false).is_err());
    let ignorable = vec![("usr/lib/bpf/prog.o".to_string(), 183u16)];
    assert!(validate_staging_tree(&vec![], &ignorable, false).is_ok());
}

#[test]
fn doctor_collect_folds_the_probe_results() {
    let probes = DoctorProbes {
        date: ProbeOutcome::Ran {
            status: 0,
            stdout: "2024-01-02T03:04:05+00:00\n".to_string(),
            stderr: String::new(),
        },
        uname: ProbeOutcome::Ran {
            status: 0,
            stdout: "Linux host 6.9.0\n".to_string(),
            stderr: String::new(),
        },
        os_release: Some("NAME=Fedora\nVERSION=41\n".to_string()),
        gsettings: vec![
            GsQuery {
                schema: "org.gnome.mutter".to_string(),
                key: "overlay-key".to_string(),
                value: GsOutcome::Value { value: "'Super_L'".to_string() },
            },
            GsQuery {
                schema: "org.gnome.mutter".to_string(),
                key: "edge-tiling".to_string(),
                value: GsOutcome::Absent,
            },
        ],
        files: vec![FileRead {
            path: "/etc/keyd/default.conf".to_string(),
            outcome: ReadOutcome::PermissionDenied,
        }],
        libinput: ProbeOutcome::NotFound,
        libinput_sudo: None,
        service_probes: vec![NamedProbe {
            key: "systemctl is-active keyd".to_string(),
            skip_reason: "service manager not available".to_string(),
            outcome: ProbeOutcome::NotFound,
        }],
        journal: NamedProbe {
            key: "journalctl -u titdb".to_string(),
            skip_reason: "requires privilege to read the system journal".to_string(),
            outcome: ProbeOutcome::Ran {
                status: 1,
                stdout: String::new(),
                stderr: "Permission denied".to_string(),
            },
        },
        journal_sudo: None,
        journal_native: None,
        journal_native_skip: Some("requires reading the system journal".to_string()),
    };
    let report = collect(&probes, false, false);
    assert_eq!(report.timestamp.as_deref(), Some("2024-01-02T03:04:05+00:00"));
    assert_eq!(report.uname.as_deref(), Some("Linux host 6.9.0"));
    assert_eq!(report.os_release.as_deref(), Some("NAME=Fedora\nVERSION=41"));
    assert_eq!(report.gsettings.len(), 2);
    assert_eq!(report.gsettings[0].0, "org.gnome.mutter overlay-key");
    assert_eq!(report.gsettings[0].1, "'Super_L'");
    assert_eq!(report.gsettings[1].1, "<absent>");
    // The refused privileged read and the journal probe become skip notes
    // for an unprivileged caller without a privilege escape.
    assert!(report
        .skipped
        .iter()
        .any(|(k, _)| k == "read /etc/keyd/default.conf"));
    assert!(report.skipped.iter().any(|(k, _)| k == "journalctl -u titdb"));
    assert!(report
        .skipped
        .iter()
        .any(|(k, _)| k == "systemctl is-active keyd"));
    assert!(report
        .skipped
        .iter()
        .any(|(k, _)| k.starts_with("journald (native)")));
    // The date and uname probes are recorded as command entries.
    assert!(report.commands.iter().any(|(k, _)| k == "date -Iseconds"));
    assert!(report.commands.iter().any(|(k, _)| k == "uname -a"));
}

#[test]
fn unit_without_device_flag_is_refused() {
    assert!(current_device_path("[Service]\nExecStart=/bin/x\n").is_err());
    assert!(current_device_path("[Unit]\nDescription=y\n").is_err());
}

#[test]
fn probe_outcome_predicates() {
    assert!(is_not_found(&ProbeOutcome::NotFound));
    assert!(!is_not_found(&ProbeOutcome::SpawnFailed { message: "x".to_string() }));
    assert!(is_permission_denied(&ReadOutcome::PermissionDenied));
    assert!(!is_permission_denied(&ReadOutcome::Got { contents: String::new() }));
}

#[test]
fn journal_fallback_uses_the_privileged_attempt() {
    let mut commands = Vec::new();
    let mut skipped = Vec::new();
    let first = ProbeOutcome::Ran {
        status: 1,
        stdout: String::new(),
        stderr: "Permission denied".to_string(),
    };
    let sudo = Some(ProbeOutcome::Ran {
        status: 0,
        stdout: "journal line one\njournal line two\n".to_string(),
        stderr: String::new(),
    });
    let got = probe_cmd_sudo_fallback(
        true,
        false,
        "journalctl -u titdb",
        &first,
        &sudo,
        &mut commands,
        &mut skipped,
        "requires privilege to read the system journal",
    );
    assert_eq!(got.as_deref(), Some("journal line one"));
    assert_eq!(commands.len(), 1);
    assert!(skipped.is_empty());
}

#[test]
fn strace_file_choice_prefers_the_thread_id() {
    let present = vec![
        "strace.77".to_string(),
        "host.strace.7".to_string(),
        "strace.7".to_string(),
    ];
    let (path, note) = pick_strace_path("/tmp/run", 7, 77, &present).unwrap();
    assert_eq!(path, "/tmp/run/strace.77");
    assert_eq!(note, "matched tid=77");
    let only_pid = vec!["host.strace.7".to_string()];
    let (path2, note2) = pick_strace_path("/tmp/run", 7, 77, &only_pid).unwrap();
    assert_eq!(path2, "/tmp/run/host.strace.7");
    assert_eq!(note2, "matched pid=7");
    assert!(pick_strace_path("/tmp/run", 1, 2, &Vec::new()).is_none());
}
