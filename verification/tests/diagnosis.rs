use hangscope::index::{FdRecord, NetTable, ProcRecord, ProcTable, TaskRecord};
use hangscope::index::{find_vm_like_descendant_pid, kill_tree_plan, pids_by_ppid,
    read_parent_pid, read_proc_cmdline, read_proc_comm};
use hangscope::procstat::{append_decoded_status_signals, filter_lines};
use hangscope::snapshot::{append_job_control_compare, emit_pipe_wakeup_path,
    sample_task_signature, snapshot_fds, snapshot_proc, write_stuck_snapshot};
use hangscope::stacklog::{analyze_pthread_stack_mprotect_enomem, count_lines,
    count_substring_lines, filter_stderr, parse_strace_mmap_stack, parse_strace_mprotect_enomem};
use hangscope::waitgraph::{collect_pipe_writer_pids, collect_ppoll_eventfd_pipe_inodes};

fn task(tid: u32, wchan: &str, syscall: &str, poll_buf: Option<Vec<u8>>) -> TaskRecord {
    TaskRecord {
        tid,
        comm: format!("task{}", tid),
        wchan: wchan.to_string(),
        stack: "[<0>] pipe_read\n[<0>] vfs_read\n[<0>] ksys_read\n".to_string(),
        syscall: syscall.to_string(),
        poll_buf,
    }
}

fn proc_record(pid: u32, ppid: u32, comm: &str, fds: Vec<FdRecord>, tasks: Vec<TaskRecord>)
    -> ProcRecord {
    ProcRecord {
        pid,
        comm: comm.to_string(),
        cmdline: format!("{}\u{0}--flag\u{0}", comm),
        stat: format!("{} ({}) S {} {} {} 34816 {}", pid, comm, ppid, pid, pid, pid),
        status: format!(
            "Name:\t{}\nState:\tS (sleeping)\nPPid:\t{}\nThreads:\t{}\nVmRSS:\t100 kB\n",
            comm,
            ppid,
            tasks.len()
        ),
        wchan: "pipe_read".to_string(),
        stack: "[<0>] pipe_read\n".to_string(),
        syscall: "0 0x3 0x7fff 512 0 0 0".to_string(),
        maps_lines: Some(42),
        tasks,
        fds,
    }
}

fn fd(n: u32, target: &str, flags_octal: &str) -> FdRecord {
    FdRecord {
        fd: n,
        target: target.to_string(),
        fdinfo: format!("pos:\t0\nflags:\t{}\nmnt_id:\t14\n", flags_octal),
    }
}

/// A pollfd array of the given fds, events and revents zero.
fn poll_buf_of(fds: &[i32]) -> Vec<u8> {
    let mut out = Vec::new();
    for f in fds {
        out.extend_from_slice(&f.to_le_bytes());
        out.extend_from_slice(&0u16.to_le_bytes());
        out.extend_from_slice(&0u16.to_le_bytes());
    }
    out
}

fn two_process_pipe_table() -> ProcTable {
    // Process 10 blocks in the fixed-set wait on an eventfd plus the read
    // end of pipe 42; process 20 holds the write end.
    let reader = proc_record(
        10,
        1,
        "reader",
        vec![
            fd(3, "anon_inode:[eventfd]", "02"),
            fd(4, "pipe:[42]", "00"),
        ],
        vec![task(
            10,
            "do_sys_poll",
            "73 0x7fff0000 2 0 0 0 0",
            Some(poll_buf_of(&[3, 4])),
        )],
    );
    let writer = proc_record(
        20,
        1,
        "writer",
        vec![fd(7, "pipe:[42]", "01")],
        vec![task(20, "ep_poll", "running", None)],
    );
    ProcTable { procs: vec![reader, writer], net: vec![NetTable {
        name: "unix".to_string(),
        text: "Num RefCount Protocol Flags Type St Inode Path\n".to_string(),
    }] }
}

#[test]
fn resolver_finds_the_known_writer() {
    let table = two_process_pipe_table();
    let inodes = collect_ppoll_eventfd_pipe_inodes(&table, 10, 24);
    assert_eq!(inodes, vec![42]);
    let writers = collect_pipe_writer_pids(&table, &inodes, 512, 256, 10);
    assert_eq!(writers, vec![20]);
}

#[test]
fn resolver_ignores_read_only_holders() {
    // Only the reader exists; its pipe fd is read-only, so no writer is
    // found.
    let small = ProcTable {
        procs: vec![proc_record(
            10,
            1,
            "reader",
            vec![fd(4, "pipe:[42]", "00")],
            vec![],
        )],
        net: vec![],
    };
    let writers = collect_pipe_writer_pids(&small, &vec![42], 512, 256, 10);
    assert_eq!(writers, Vec::<u32>::new());
}

#[test]
fn process_index_walks_parents_and_children() {
    let table = two_process_pipe_table();
    assert_eq!(read_parent_pid(&table, 10), Some(1));
    assert_eq!(read_proc_comm(&table, 10).as_deref(), Some("reader"));
    assert_eq!(read_proc_comm(&table, 99), None);
    assert_eq!(pids_by_ppid(&table, 1), vec![10, 20]);
    assert_eq!(
        read_proc_cmdline(&table, 10, 4096).as_deref(),
        Some("reader --flag")
    );
}

#[test]
fn cmdline_clips_long_text() {
    let table = two_process_pipe_table();
    let clipped = read_proc_cmdline(&table, 10, 3).unwrap();
    assert_eq!(clipped, "rea \u{2026}(clipped)\u{2026}");
}

#[test]
fn vm_like_descendant_found_by_comm_prefix() {
    let mut table = two_process_pipe_table();
    table.procs.push(proc_record(30, 10, "VM:guest", vec![], vec![]));
    assert_eq!(find_vm_like_descendant_pid(&table, 10, 5, 64), Some(30));
    assert_eq!(find_vm_like_descendant_pid(&table, 20, 5, 64), None);
}

#[test]
fn kill_plan_is_leaves_first_and_bounded() {
    let mut table = two_process_pipe_table();
    table.procs.push(proc_record(30, 10, "child", vec![], vec![]));
    let plan = kill_tree_plan(&table, 10, 64);
    assert_eq!(*plan.last().unwrap(), 10);
    assert!(plan.contains(&30));
    assert_eq!(kill_tree_plan(&table, 10, 1), vec![10]);
    assert_eq!(kill_tree_plan(&table, 10, 0), Vec::<u32>::new());
}

#[test]
fn signatures_change_with_the_thread_set() {
    let table = two_process_pipe_table();
    let a = sample_task_signature(&table, 10, 12).unwrap();
    let b = sample_task_signature(&table, 10, 12).unwrap();
    assert_eq!(a.digest, b.digest);
    assert_eq!(a.task_count, 1);
    assert_eq!(a.leader_wchan, "pipe_read");
    let other = sample_task_signature(&table, 20, 12).unwrap();
    assert_ne!(a.digest, other.digest);
    assert!(sample_task_signature(&table, 99, 12).is_none());
}

#[test]
fn snapshot_of_a_vanished_process_is_still_a_report() {
    let empty = ProcTable { procs: vec![], net: vec![] };
    let mut out = String::new();
    snapshot_proc(&mut out, &empty, 4242, "gone");
    assert!(!out.is_empty());
    assert!(out.contains("(unavailable"));
    assert!(out.contains("4242"));
}

#[test]
fn stuck_snapshot_names_the_blocked_wait_and_no_writer() {
    // The reader blocks on a pipe with no writer anywhere: the report must
    // mention the decoded wait and the empty writer search.
    let reader_only = ProcTable {
        procs: vec![proc_record(
            10,
            1,
            "reader",
            vec![
                fd(3, "anon_inode:[eventfd]", "02"),
                fd(4, "pipe:[42]", "00"),
            ],
            vec![task(
                10,
                "do_sys_poll",
                "73 0x7fff0000 2 0 0 0 0",
                Some(poll_buf_of(&[3, 4])),
            )],
        )],
        net: vec![],
    };
    let report = write_stuck_snapshot(&reader_only, &reader_only, 10, "unix-seconds:0");
    assert!(report.starts_with("### stuck snapshot\n"));
    assert!(report.contains("ppoll decoded"));
    assert!(report.contains("(no writer owners found within scan bounds)"));
}

#[test]
fn stderr_filter_and_line_counts() {
    let text = "keep me\ncrashpad handler started\nptrace: refused\nalso kept\n";
    assert_eq!(filter_stderr(text), "keep me\nalso kept\n");
    assert_eq!(count_lines(text), 4);
    assert_eq!(count_substring_lines(text, "kept"), 1);
    assert_eq!(count_substring_lines(text, "keep me"), 1);
}

#[test]
fn stack_exhaustion_signature_is_counted() {
    let stderr = "[10:11:0101] pthread_create: Resource temporarily unavailable\n";
    let trace = "mmap(NULL, 8392704, PROT_NONE, MAP_PRIVATE|MAP_ANONYMOUS|MAP_STACK, -1, 0) = 0x7fffdfea0000\n\
mprotect(0x7fffdfea1000, 8384512, PROT_READ|PROT_WRITE) = -1 ENOMEM (Cannot allocate memory)\n";
    let traces = vec![("strace.11".to_string(), trace.to_string())];
    let (report, analysis) = analyze_pthread_stack_mprotect_enomem(stderr, &traces);
    assert!(report.starts_with("pthread_ids_from_stderr:"));
    assert_eq!(analysis.pthread_ids, vec![(10, 11)]);
    assert_eq!(analysis.pthread_pids, vec![10]);
    assert_eq!(analysis.events_total, 1);
}

#[test]
fn stack_signature_outside_the_mapping_does_not_count() {
    let stderr = "[10:11:0101] pthread_create failed\n";
    let trace = "mmap(NULL, 8392704, PROT_NONE, MAP_PRIVATE|MAP_ANONYMOUS|MAP_STACK, -1, 0) = 0x7fffdfea0000\n\
mprotect(0x500000000000, 4096, PROT_READ|PROT_WRITE) = -1 ENOMEM\n";
    let traces = vec![("strace.11".to_string(), trace.to_string())];
    let (_report, analysis) = analyze_pthread_stack_mprotect_enomem(stderr, &traces);
    assert_eq!(analysis.events_total, 0);
}

#[test]
fn strace_line_parsers() {
    assert_eq!(
        parse_strace_mmap_stack(
            "mmap(NULL, 8392704, PROT_NONE, MAP_PRIVATE|MAP_ANONYMOUS|MAP_STACK, -1, 0) = 0x7fffdfea0000"
        ),
        Some((0x7fffdfea0000, 8392704))
    );
    assert_eq!(parse_strace_mmap_stack("mmap(NULL, 4096, ...) = 0x1000"), None);
    assert_eq!(
        parse_strace_mprotect_enomem(
            "mprotect(0x7fffdfea1000, 8384512, PROT_READ|PROT_WRITE) = -1 ENOMEM"
        ),
        Some((0x7fffdfea1000, 8384512))
    );
    assert_eq!(
        parse_strace_mprotect_enomem("mprotect(0x1000, 4096, PROT_READ) = 0"),
        None
    );
}

#[test]
fn status_key_fields_filter() {
    let status = "Name:\treader\nUmask:\t0022\nState:\tS (sleeping)\nThreads:\t4\n";
    let mut prefixes = Vec::new();
    prefixes.push("Name:".to_string());
    prefixes.push("State:".to_string());
    prefixes.push("Threads:".to_string());
    assert_eq!(
        filter_lines(status, &prefixes),
        "Name:\treader\nState:\tS (sleeping)\nThreads:\t4\n"
    );
    assert_eq!(filter_lines("Umask:\t0022\n", &prefixes), "(no matches)\n");
}

#[test]
fn decoded_signal_lines_are_appended() {
    let mut out = String::new();
    append_decoded_status_signals(&mut out, "SigBlk:\t0000000000000100\n");
    assert!(out.contains("SigBlk: 0x100"));
    assert!(out.contains("SIGKILL"));
    let mut none = String::new();
    append_decoded_status_signals(&mut none, "Name:\tx\n");
    assert_eq!(none, "(no signal masks found)\n");
}

#[test]
fn wakeup_path_walks_one_hop() {
    let table = two_process_pipe_table();
    let mut out = String::new();
    emit_pipe_wakeup_path(&mut out, &table, &vec![42], 4, 512, 256, 10);
    assert!(out.contains("pipe_wakeup_path:"));
    assert!(out.contains("-- pipe_inode 42 (writer candidates) --"));
    assert!(out.contains("writer_pid 20"));
    let mut empty = String::new();
    emit_pipe_wakeup_path(&mut empty, &table, &Vec::new(), 4, 512, 256, 10);
    assert_eq!(empty, "(no ppoll pipe inodes)\n");
}

#[test]
fn job_control_compare_names_both_sides() {
    let table = two_process_pipe_table();
    let mut out = String::new();
    append_job_control_compare(&mut out, &table, 10, Some(20));
    assert!(out.contains("pid=10 comm=reader"));
    assert!(out.contains("parent_pid=20 comm=writer"));
    assert!(out.contains("tty_match=yes"));
}

#[test]
fn fd_sample_follows_epoll_registrations() {
    // An epoll fd whose registration list names the pipe fd: the sample
    // resolves the registered target and finds the pipe's writer.
    let mut table = two_process_pipe_table();
    table.procs[0].fds.push(FdRecord {
        fd: 9,
        target: "anon_inode:[eventpoll]".to_string(),
        fdinfo: "pos:\t0\nflags:\t02\ntfd:        4 events:       19 data: 3\n".to_string(),
    });
    let mut out = String::new();
    snapshot_fds(&mut out, &table, 10, 64, &Vec::new(), &Vec::new());
    assert!(out.contains("fd_count: 3"));
    assert!(out.contains("-- epoll fdinfo 9 --"));
    assert!(out.contains("tfd 4: pipe:[42]"));
    assert!(out.contains("pipe_inode_fd_owners:"));
    assert!(out.contains("inode=42 pid=20 comm=writer fd=7"));
}

#[test]
fn two_samples_tell_progress_from_stall() {
    // At the first sample the writer sleeps in ep_poll; at the second it
    // moved on, so its progress entry must say changed=yes.
    let t0 = two_process_pipe_table();
    let mut t1 = two_process_pipe_table();
    t1.procs[1].wchan = "futex_wait".to_string();
    t1.procs[1].tasks[0].wchan = "futex_wait".to_string();
    let moving = write_stuck_snapshot(&t0, &t1, 10, "unix-seconds:0");
    assert!(moving.contains("pid=20 changed=yes"));
    let stalled = write_stuck_snapshot(&t0, &t0, 10, "unix-seconds:0");
    assert!(stalled.contains("pid=20 changed=no"));
    assert!(stalled.contains("t0_wchan=pipe_read"));
}

#[test]
fn job_control_compare_exact_lines() {
    let table = two_process_pipe_table();
    let mut out = String::new();
    append_job_control_compare(&mut out, &table, 10, None);
    assert!(out.starts_with("pid=10 comm=reader\n  tty_nr=34816"));
    assert!(out.contains(" fg=yes\n"));
    assert!(out.contains("parent_pid=(none)\n"));
    let mut gone = String::new();
    append_job_control_compare(&mut gone, &table, 99, Some(10));
    assert!(gone.starts_with("pid=99 comm=(unknown)\n  (job control unavailable)\n"));
}
