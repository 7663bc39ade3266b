//! Composing the stuck-process report.
//!
//! A snapshot renders, for one pid of a [`ProcTable`], its status fields,
//! decoded signal masks, job control, a bounded per-thread sample with the
//! decoded fixed-set wait, and the pipe-wakeup path found by the wait-graph
//! resolver.  Two tables taken a short sleep apart are compared per writer
//! pid to tell live progress from a true stall.  A snapshot never fails:
//! missing data renders as placeholder lines, and the report is never
//! empty.

use vstd::prelude::*;
use vstd::string::*;
use crate::strutil::{
    trim_spec, starts_with_seq, contains_seq, lines_spec, seq_views, split_ws_spec, str_trim,
    str_starts_with, str_contains, str_eq, split_lines, split_whitespace, join_with,
};
use crate::numfmt::{u64_to_dec, u64_to_hex, i64_to_dec, parse_u32_dec, dec_str};
use crate::procstat::{
    parse_proc_stat_job_control, is_foreground_pgrp, format_tty_nr_details,
    append_decoded_status_signals, filter_lines, filtered_report,
};
use crate::fdres::{parse_pipe_inode, parse_socket_inode, parse_fdinfo_flags,
    access_mode_from_open_flags};
use crate::index::{ProcTable, ProcRecord, FdRecord, TaskRecord, find_proc_spec, proc_of, read_fd_target,
    read_proc_comm, read_proc_cmdline, read_parent_pid, read_job_control, pids_by_ppid};
use crate::syscall::parse_proc_syscall_line;
use crate::waitgraph::{collect_pipe_writer_pids, collect_ppoll_eventfd_pipe_inodes};
use crate::vecset::{sort_dedup_u64s, strictly_sorted_u64, strictly_sorted_u32};

verus! {

/// What one pass over a process's threads discovered.
pub struct TaskDiscoveredInodes {
    pub socket_inodes: Vec<u64>,
    pub pipe_inodes: Vec<u64>,
    pub ppoll_pipe_inodes: Vec<u64>,
    pub poll_fds: Vec<u32>,
}

/// A cheap fingerprint of a process's thread set, used to tell whether
/// anything changed between two samples.
pub struct TaskSignature {
    pub task_count: usize,
    pub digest: u64,
    pub leader_wchan: String,
    pub leader_syscall_nr: Option<u64>,
}

/// One round of 64-bit FNV-1a over a character.
pub open spec fn fnv_step(h: u64, c: char) -> u64 {
    (h ^ ((c as u32) as u64)).wrapping_mul(0x100000001b3)
}

/// 64-bit FNV-1a over a character sequence.
pub open spec fn fnv1a(s: Seq<char>, h: u64) -> u64
    decreases s.len(),
{
    if s.len() == 0 {
        h
    } else {
        fnv1a(s.drop_first(), fnv_step(h, s[0]))
    }
}

/// Hash a string with 64-bit FNV-1a.
pub fn fnv1a_str(s: &str, h0: u64) -> (r: u64)
    ensures
        r == fnv1a(s@, h0),
{
    let sl = s.unicode_len();
    let mut h = h0;
    let mut i: usize = 0;
    proof {
        assert(s@.subrange(0, sl as int) =~= s@);
    }
    while i < sl
        invariant
            i <= sl,
            sl == s@.len(),
            fnv1a(s@, h0) == fnv1a(s@.subrange(i as int, sl as int), h),
        decreases sl - i,
    {
        let ghost rest = s@.subrange(i as int, sl as int);
        proof {
            assert(rest[0] == s@[i as int]);
            assert(rest.drop_first() =~= s@.subrange(i + 1, sl as int));
        }
        let c = s.get_char(i);
        h = (h ^ ((c as u32) as u64)).wrapping_mul(0x100000001b3);
        i += 1;
    }
    h
}

/// The fingerprint line of one thread: tid, comm, wchan and syscall,
/// separated and terminated.
pub open spec fn task_sig_line(t: TaskRecord) -> Seq<char> {
    dec_str(t.tid as nat) + "\u{1f}"@ + trim_spec(t.comm@) + "\u{1f}"@ + trim_spec(t.wchan@)
        + "\u{1f}"@ + trim_spec(t.syscall@) + "\n"@
}

/// The fingerprint text of a thread list.
pub open spec fn sig_text(ts: Seq<TaskRecord>) -> Seq<char>
    decreases ts.len(),
{
    if ts.len() == 0 {
        Seq::empty()
    } else {
        task_sig_line(ts[0]) + sig_text(ts.drop_first())
    }
}

/// The digest a thread-set sample of `p` bounded to `max` threads yields.
pub open spec fn sig_digest_of(p: ProcRecord, max: int) -> u64 {
    let bound = if max < p.tasks@.len() {
        max
    } else {
        p.tasks@.len() as int
    };
    fnv1a(sig_text(p.tasks@.subrange(0, bound)), 0xcbf29ce484222325)
}

/// The process-level blocked-syscall number, when the syscall line parses.
pub open spec fn leader_nr_spec(p: ProcRecord) -> Option<u64> {
    let line = trim_spec(p.syscall@);
    if crate::waitgraph::syscall_line_parses(line) {
        Some(crate::waitgraph::syscall_tok(line, 0))
    } else {
        None
    }
}

/// Fingerprint the thread set of `pid`: the number of threads, an FNV-1a
/// digest of the first `max_tasks` threads' tid, comm, wchan and syscall,
/// and the process-level wchan and blocked-syscall number.  Two samples
/// with equal inputs always produce equal signatures.
pub fn sample_task_signature(table: &ProcTable, pid: u32, max_tasks: usize) -> (r: Option<
    TaskSignature,
>)
    ensures
        match r {
            Some(sig) => find_proc_spec(table.procs@, pid) matches Some(p) && ({
                &&& sig.task_count == p.tasks@.len()
                &&& sig.digest == sig_digest_of(p, max_tasks as int)
                &&& sig.leader_wchan@ == trim_spec(p.wchan@)
                &&& sig.leader_syscall_nr == leader_nr_spec(p)
            }),
            None => find_proc_spec(table.procs@, pid) is None,
        },
{
    let rec = match proc_of(table, pid) {
        Some(p) => p,
        None => {
            return None;
        },
    };
    let task_count = rec.tasks.len();
    let bound: usize = if max_tasks < task_count {
        max_tasks
    } else {
        task_count
    };
    let mut sig = String::new();
    let mut t: usize = 0;
    proof {
        assert(rec.tasks@.subrange(0, 0) =~= Seq::<TaskRecord>::empty());
        assert(sig@ + sig_text(rec.tasks@.subrange(0, bound as int)) =~= sig_text(
            rec.tasks@.subrange(0, bound as int),
        ));
    }
    while t < bound
        invariant
            t <= bound,
            bound <= rec.tasks@.len(),
            sig_text(rec.tasks@.subrange(0, bound as int)) == sig@ + sig_text(
                rec.tasks@.subrange(t as int, bound as int),
            ),
        decreases bound - t,
    {
        let ghost rest = rec.tasks@.subrange(t as int, bound as int);
        proof {
            assert(rest[0] == rec.tasks@[t as int]);
            assert(rest.drop_first() =~= rec.tasks@.subrange(t + 1, bound as int));
        }
        let task = &rec.tasks[t];
        sig.append(u64_to_dec(task.tid as u64).as_str());
        sig.append("\u{1f}");
        sig.append(str_trim(task.comm.as_str()));
        sig.append("\u{1f}");
        sig.append(str_trim(task.wchan.as_str()));
        sig.append("\u{1f}");
        sig.append(str_trim(task.syscall.as_str()));
        sig.append("\n");
        proof {
            assert(sig@ =~= (sig@.subrange(
                0,
                sig@.len() - task_sig_line(rec.tasks@[t as int]).len(),
            )) + task_sig_line(rec.tasks@[t as int]));
            assert((sig@.subrange(0, sig@.len() - task_sig_line(rec.tasks@[t as int]).len())) + (
            task_sig_line(rec.tasks@[t as int]) + sig_text(rest.drop_first())) =~= sig@ + sig_text(
                rest.drop_first(),
            ));
        }
        t += 1;
    }
    proof {
        assert(rec.tasks@.subrange(bound as int, bound as int) =~= Seq::<TaskRecord>::empty());
        assert(sig@ + Seq::<char>::empty() =~= sig@);
    }
    let digest = fnv1a_str(sig.as_str(), 0xcbf29ce484222325);
    let leader_wchan = str_trim(rec.wchan.as_str()).to_owned();
    let leader_line = str_trim(rec.syscall.as_str());
    let leader_syscall_nr = match parse_proc_syscall_line(leader_line) {
        Some(sc) => {
            proof {
                let line_g = trim_spec(rec.syscall@);
                let tkg = split_ws_spec(line_g);
                assert forall|k2: int|
                    0 <= k2 < 7 implies crate::syscall::mixed_val_spec(#[trigger] tkg[k2]) is Some by {
                    if k2 >= 1 {
                        assert(crate::syscall::mixed_val_spec(tkg[(k2 - 1) + 1]) == Some(
                            sc.args[k2 - 1],
                        ));
                    }
                }
                assert(crate::waitgraph::syscall_line_parses(line_g));
            }
            Some(sc.nr)
        },
        None => None,
    };
    Some(TaskSignature { task_count, digest, leader_wchan, leader_syscall_nr })
}

/// The status text a snapshot reads for `pid`: the record's, or a
/// placeholder when the process is not in the table.
pub open spec fn status_of_spec(ps: Seq<ProcRecord>, pid: u32) -> Seq<char> {
    match find_proc_spec(ps, pid) {
        Some(p) => p.status@,
        None => "(unavailable: no such process)"@,
    }
}

/// The status text of `pid`, or a placeholder.
fn status_text_of(table: &ProcTable, pid: u32) -> (r: String)
    ensures
        r@ == status_of_spec(table.procs@, pid),
{
    match proc_of(table, pid) {
        Some(p) => p.status.clone(),
        None => "(unavailable: no such process)".to_owned(),
    }
}

/// The status fields the key-field summary keeps.
pub open spec fn status_key_prefixes() -> Seq<Seq<char>> {
    seq!["Name:"@, "State:"@, "PPid:"@, "Threads:"@, "VmRSS:"@, "VmSize:"@, "FDSize:"@]
}

/// Append the key status fields of `pid`: exactly the status lines that
/// begin with one of the seven kept field names, in order, or the
/// no-matches marker.
pub fn emit_pid_status_key_fields(out: &mut String, table: &ProcTable, pid: u32)
    ensures
        final(out)@ == old(out)@ + filtered_report(
            lines_spec(status_of_spec(table.procs@, pid)),
            status_key_prefixes(),
        ),
        old(out)@.is_prefix_of(final(out)@),
        final(out)@.len() > old(out)@.len(),
{
    let status = status_text_of(table, pid);
    let mut prefixes: Vec<String> = Vec::new();
    prefixes.push("Name:".to_owned());
    prefixes.push("State:".to_owned());
    prefixes.push("PPid:".to_owned());
    prefixes.push("Threads:".to_owned());
    prefixes.push("VmRSS:".to_owned());
    prefixes.push("VmSize:".to_owned());
    prefixes.push("FDSize:".to_owned());
    proof {
        assert(seq_views(prefixes@) =~= status_key_prefixes());
    }
    let body = filter_lines(status.as_str(), &prefixes);
    proof {
        reveal_strlit("(no matches)\n");
        assert(body@.len() > 0);
    }
    out.append(body.as_str());
    proof {
        assert(old(out)@.is_prefix_of(out@)) by {
            assert(out@.subrange(0, old(out)@.len() as int) =~= old(out)@);
        }
    }
}

/// One of the line's whitespace tokens is exactly `needle`.
pub open spec fn has_token(l: Seq<char>, needle: Seq<char>) -> bool {
    exists|j: int| 0 <= j < split_ws_spec(l).len() && split_ws_spec(l)[j] == needle
}

/// The matched lines of a net table, each indented and newline-terminated,
/// at most ten of them, with the number matched so far threaded through.
pub open spec fn net_match_acc(ls: Seq<Seq<char>>, needle: Seq<char>, matches: int) -> (
    Seq<char>,
    int,
)
    decreases ls.len(),
{
    if ls.len() == 0 || matches >= 10 {
        (Seq::empty(), matches)
    } else if has_token(ls[0], needle) {
        let rest = net_match_acc(ls.drop_first(), needle, matches + 1);
        ("  "@ + ls[0] + "\n"@ + rest.0, rest.1)
    } else {
        net_match_acc(ls.drop_first(), needle, matches)
    }
}

/// What [`emit_proc_net_inode_matches`] appends: the table's name, then an
/// unavailable table echoed verbatim, or the lines carrying the inode's
/// decimal as a token — capped at ten with a more-matches marker, the
/// no-matches marker when none carries it.
pub open spec fn net_matches_report(name: Seq<char>, text: Seq<char>, inode: u64) -> Seq<char> {
    name + ":\n"@ + (if starts_with_seq(text, "(unavailable:"@) {
        text + "\n"@
    } else {
        let acc = net_match_acc(lines_spec(text), dec_str(inode as nat), 0);
        acc.0 + (if acc.1 == 0 {
            "  (no matches)\n"@
        } else if acc.1 >= 10 {
            "  \u{2026}(more matches)\u{2026}\n"@
        } else {
            Seq::empty()
        })
    })
}

fn line_has_token(l: &str, needle: &str) -> (r: bool)
    ensures
        r == has_token(l@, needle@),
{
    let toks = split_whitespace(l);
    let ghost tk = split_ws_spec(l@);
    let tn = toks.len();
    let mut k: usize = 0;
    while k < tn
        invariant
            k <= tn,
            tn == toks@.len(),
            seq_views(toks@) == tk,
            tk == split_ws_spec(l@),
            forall|j: int| 0 <= j < k ==> tk[j] != needle@,
        decreases tn - k,
    {
        proof {
            assert(toks@[k as int]@ == tk[k as int]);
        }
        if str_eq(toks[k].as_str(), needle) {
            return true;
        }
        k += 1;
    }
    false
}

/// Append the lines of `table_text` that carry `inode` as a whitespace
/// token, at most ten of them; markers for an unavailable table, for no
/// matches and for more than ten.
pub fn emit_proc_net_inode_matches(out: &mut String, table_name: &str, table_text: &str, inode: u64)
    ensures
        final(out)@ == old(out)@ + net_matches_report(table_name@, table_text@, inode),
        old(out)@.is_prefix_of(final(out)@),
        final(out)@.len() > old(out)@.len(),
{
    let mut body = String::new();
    body.append(table_name);
    body.append(":\n");
    proof {
        reveal_strlit(":\n");
    }
    let ghost hdr = table_name@ + ":\n"@;
    if str_starts_with(table_text, "(unavailable:") {
        body.append(table_text);
        body.append("\n");
    } else {
        let needle = u64_to_dec(inode);
        let lines = split_lines(table_text);
        let ghost ls = lines_spec(table_text@);
        let ghost nd = dec_str(inode as nat);
        let n = lines.len();
        let mut matches: u64 = 0;
        let mut i: usize = 0;
        proof {
            assert(ls.subrange(0, n as int) =~= ls);
            assert(body@ =~= hdr + Seq::<char>::empty());
        }
        while i < n && matches < 10
            invariant
                i <= n,
                n == lines@.len(),
                seq_views(lines@) == ls,
                ls == lines_spec(table_text@),
                needle@ == nd,
                matches <= 10,
                net_match_acc(ls, nd, 0) == (
                    body@.skip(hdr.len() as int) + net_match_acc(
                        ls.subrange(i as int, n as int),
                        nd,
                        matches as int,
                    ).0,
                    net_match_acc(ls.subrange(i as int, n as int), nd, matches as int).1,
                ),
                body@.subrange(0, hdr.len() as int) == hdr,
                body@.len() >= hdr.len(),
            decreases n - i,
        {
            let ghost rest = ls.subrange(i as int, n as int);
            proof {
                assert(lines@[i as int]@ == ls[i as int]);
                assert(rest[0] == ls[i as int]);
                assert(rest.drop_first() =~= ls.subrange(i + 1, n as int));
            }
            if line_has_token(lines[i].as_str(), needle.as_str()) {
                body.append("  ");
                body.append(lines[i].as_str());
                body.append("\n");
                matches += 1;
                proof {
                    assert(body@.skip(hdr.len() as int) =~= body@.skip(hdr.len() as int).subrange(
                        0,
                        body@.skip(hdr.len() as int).len() - ("  "@ + ls[i as int] + "\n"@).len(),
                    ) + ("  "@ + ls[i as int] + "\n"@));
                    assert(body@.subrange(0, hdr.len() as int) =~= hdr);
                }
            }
            i += 1;
        }
        proof {
            if i == n {
                assert(ls.subrange(n as int, n as int) =~= Seq::<Seq<char>>::empty());
            }
            assert(body@.skip(hdr.len() as int) + Seq::<char>::empty() =~= body@.skip(
                hdr.len() as int,
            ));
        }
        if matches == 0 {
            body.append("  (no matches)\n");
        } else if matches == 10 {
            body.append("  \u{2026}(more matches)\u{2026}\n");
        }
        proof {
            assert(body@.subrange(0, hdr.len() as int) =~= hdr);
        }
    }
    proof {
        assert(body@ =~= net_matches_report(table_name@, table_text@, inode));
    }
    out.append(body.as_str());
    proof {
        assert(old(out)@.is_prefix_of(out@)) by {
            assert(out@.subrange(0, old(out)@.len() as int) =~= old(out)@);
        }
    }
}

/// The sample line one thread renders: its id, names, blocked syscall and
/// the top of its kernel stack.
pub open spec fn task_line_spec(t: TaskRecord) -> Seq<char> {
    let sl = lines_spec(t.stack@);
    let top = if sl.len() < 2 {
        sl
    } else {
        sl.subrange(0, 2)
    };
    "  tid "@ + dec_str(t.tid as nat) + ": comm="@ + trim_spec(t.comm@) + " wchan="@ + trim_spec(
        t.wchan@,
    ) + " syscall="@ + trim_spec(t.syscall@) + " stack_top="@ + crate::strutil::join_sep(
        top,
        " | "@,
    ) + "\n"@
}

/// Append a bounded sample of the threads of `pid`: comm, wchan, blocked
/// syscall and stack top per thread, with the fixed-set wait decoded when a
/// thread is parked in it.  A process missing from the table renders as
/// exactly the placeholder line.  The returned pipe inodes of
/// eventfd-bearing wait sets carry the same evidence as
/// [`collect_ppoll_eventfd_pipe_inodes`], whose result they are.
#[verifier::rlimit(100)]
pub fn snapshot_tasks(out: &mut String, table: &ProcTable, pid: u32, max_tasks: usize) -> (r:
    TaskDiscoveredInodes)
    ensures
        old(out)@.is_prefix_of(final(out)@),
        final(out)@.len() > old(out)@.len(),
        find_proc_spec(table.procs@, pid) is None ==> final(out)@ == old(out)@
            + "(unavailable: no such process)\n"@,
        find_proc_spec(table.procs@, pid) matches Some(p) ==> ({
            let bound = if max_tasks < p.tasks@.len() {
                max_tasks as int
            } else {
                p.tasks@.len() as int
            };
            &&& starts_with_seq(
                final(out)@.skip(old(out)@.len() as int),
                "task_count: "@ + dec_str(p.tasks@.len() as nat) + "\ntask_sample:\n"@,
            )
            &&& forall|t: int|
                0 <= t < bound ==> contains_seq(final(out)@, task_line_spec(#[trigger] p.tasks@[t]))
        }),
        strictly_sorted_u64(r.socket_inodes@),
        strictly_sorted_u64(r.pipe_inodes@),
        strictly_sorted_u64(r.ppoll_pipe_inodes@),
        strictly_sorted_u32(r.poll_fds@),
        forall|n: u64|
            r.ppoll_pipe_inodes@.contains(n) ==> ({
                &&& find_proc_spec(table.procs@, pid) is Some
                &&& exists|t: int|
                    0 <= t < find_proc_spec(table.procs@, pid)->Some_0.tasks@.len() && t < max_tasks
                        && crate::waitgraph::task_ppoll_pipe_evidence(
                        table.procs@,
                        pid,
                        #[trigger] find_proc_spec(table.procs@, pid)->Some_0.tasks@[t],
                        n,
                    )
            }),
{
    let mut socket_inodes: Vec<u64> = Vec::new();
    let mut pipe_inodes: Vec<u64> = Vec::new();
    let mut poll_fds: Vec<u32> = Vec::new();
    proof {
        reveal_strlit("(unavailable: no such process)\n");
        reveal_strlit("task_count: ");
        reveal_strlit("\ntask_sample:\n");
    }
    let rec = match proc_of(table, pid) {
        Some(rec) => rec,
        None => {
            out.append("(unavailable: no such process)\n");
            let ppoll_pipe_inodes = collect_ppoll_eventfd_pipe_inodes(table, pid, max_tasks);
            proof {
                assert(old(out)@.is_prefix_of(out@)) by {
                    assert(out@.subrange(0, old(out)@.len() as int) =~= old(out)@);
                }
            }
            return TaskDiscoveredInodes { socket_inodes, pipe_inodes, ppoll_pipe_inodes, poll_fds };
        },
    };
    let ghost p = find_proc_spec(table.procs@, pid)->Some_0;
    let mut body = String::new();
    let tn = rec.tasks.len();
    body.append("task_count: ");
    body.append(u64_to_dec(tn as u64).as_str());
    body.append("\ntask_sample:\n");
    let ghost hdr = "task_count: "@ + dec_str(p.tasks@.len() as nat) + "\ntask_sample:\n"@;
    proof {
        assert(body@ =~= hdr);
    }
    let bound: usize = if max_tasks < tn {
        max_tasks
    } else {
        tn
    };
    let mut t: usize = 0;
    while t < bound
        invariant
            t <= bound,
            bound <= rec.tasks@.len(),
            rec.tasks@ == p.tasks@,
            body@.len() >= hdr.len(),
            body@.subrange(0, hdr.len() as int) == hdr,
            forall|t2: int|
                0 <= t2 < t ==> contains_seq(body@, task_line_spec(#[trigger] p.tasks@[t2])),
            strictly_sorted_u64(socket_inodes@),
            strictly_sorted_u64(pipe_inodes@),
            strictly_sorted_u32(poll_fds@),
        decreases bound - t,
    {
        let ghost body0 = body@;
        let task = &rec.tasks[t];
        body.append("  tid ");
        body.append(u64_to_dec(task.tid as u64).as_str());
        body.append(": comm=");
        body.append(str_trim(task.comm.as_str()));
        body.append(" wchan=");
        body.append(str_trim(task.wchan.as_str()));
        body.append(" syscall=");
        body.append(str_trim(task.syscall.as_str()));
        body.append(" stack_top=");
        let stack_lines = split_lines(task.stack.as_str());
        let mut top: Vec<String> = Vec::new();
        if stack_lines.len() > 0 {
            top.push(stack_lines[0].clone());
        }
        if stack_lines.len() > 1 {
            top.push(stack_lines[1].clone());
        }
        proof {
            let sl = lines_spec(p.tasks@[t as int].stack@);
            if sl.len() < 2 {
                assert(seq_views(top@) =~= sl);
            } else {
                assert(seq_views(top@) =~= sl.subrange(0, 2));
            }
        }
        body.append(join_with(&top, " | ").as_str());
        body.append("\n");
        proof {
            let line = task_line_spec(p.tasks@[t as int]);
            assert(body@ =~= body0 + line);
            crate::strutil::lemma_append_contains(body0, line);
        }
        let ghost body1 = body@;
        let line = str_trim(task.syscall.as_str());
        if let Some(sc) = parse_proc_syscall_line(line) {
            if sc.nr == 73 {
                let nfds64 = sc.args[1];
                if 1 <= nfds64 && nfds64 <= 8 {
                    let nfds = nfds64 as usize;
                    let decoded = match &task.poll_buf {
                        Some(buf) => crate::syscall::decode_pollfds(buf.as_slice(), nfds),
                        None => None,
                    };
                    match decoded {
                        Some(entries) => {
                            body.append("    ppoll decoded: nfds=");
                            body.append(u64_to_dec(nfds64).as_str());
                            body.append(" pollfd_ptr=0x");
                            body.append(u64_to_hex(sc.args[0]).as_str());
                            body.append("\n");
                            let en = entries.len();
                            let mut e: usize = 0;
                            while e < en
                                invariant
                                    e <= en,
                                    en == entries@.len(),
                                    body@.len() >= body1.len(),
                                    body@.subrange(0, body1.len() as int) == body1,
                                    strictly_sorted_u64(socket_inodes@),
                                    strictly_sorted_u64(pipe_inodes@),
                                    strictly_sorted_u32(poll_fds@),
                                decreases en - e,
                            {
                                let fd = entries[e].fd;
                                let target: String = if fd >= 0 {
                                    crate::vecset::insert_sorted_u32(&mut poll_fds, fd as u32);
                                    read_fd_target(table, pid, fd as u32)
                                } else {
                                    "(negative fd)".to_owned()
                                };
                                body.append("      [");
                                body.append(u64_to_dec(e as u64).as_str());
                                body.append("] fd=");
                                body.append(i64_to_dec(fd as i64).as_str());
                                body.append(" events=0x");
                                body.append(
                                    crate::procstat::hex_pad(entries[e].events as u64, 4).as_str(),
                                );
                                body.append(" revents=0x");
                                body.append(
                                    crate::procstat::hex_pad(entries[e].revents as u64, 4).as_str(),
                                );
                                body.append(" target=");
                                body.append(target.as_str());
                                body.append("\n");
                                if let Some(n) = parse_socket_inode(target.as_str()) {
                                    crate::vecset::insert_sorted_u64(&mut socket_inodes, n);
                                }
                                if let Some(n) = parse_pipe_inode(target.as_str()) {
                                    crate::vecset::insert_sorted_u64(&mut pipe_inodes, n);
                                }
                                proof {
                                    assert(body@.subrange(0, body1.len() as int) =~= body1);
                                }
                                e += 1;
                            }
                        },
                        None => {
                            body.append("    ppoll decoded: (pollfd array unavailable)\n");
                        },
                    }
                }
            }
        }
        proof {
            assert(body1.is_prefix_of(body@)) by {
                assert(body@.subrange(0, body1.len() as int) =~= body1);
            }
            assert forall|t2: int|
                0 <= t2 < t + 1 implies contains_seq(
                body@,
                task_line_spec(#[trigger] p.tasks@[t2]),
            ) by {
                if t2 < t {
                    assert(body0.is_prefix_of(body@)) by {
                        assert(body@.subrange(0, body0.len() as int) =~= body0);
                    }
                    crate::strutil::lemma_contains_prefix_mono(
                        body0,
                        body@,
                        task_line_spec(p.tasks@[t2]),
                    );
                } else {
                    crate::strutil::lemma_contains_prefix_mono(
                        body1,
                        body@,
                        task_line_spec(p.tasks@[t2]),
                    );
                }
            }
            assert(body@.subrange(0, hdr.len() as int) =~= hdr);
        }
        t += 1;
    }
    let ppoll_pipe_inodes = collect_ppoll_eventfd_pipe_inodes(table, pid, max_tasks);
    out.append(body.as_str());
    proof {
        assert(old(out)@.is_prefix_of(out@)) by {
            assert(out@.subrange(0, old(out)@.len() as int) =~= old(out)@);
        }
        assert(out@.skip(old(out)@.len() as int) =~= body@);
        assert(starts_with_seq(body@, hdr)) by {
            assert(body@.subrange(0, hdr.len() as int) =~= hdr);
        }
        assert forall|t2: int|
            0 <= t2 < (if max_tasks < p.tasks@.len() {
                max_tasks as int
            } else {
                p.tasks@.len() as int
            }) implies contains_seq(out@, task_line_spec(#[trigger] p.tasks@[t2])) by {
            crate::strutil::lemma_contains_concat_right(
                old(out)@,
                body@,
                task_line_spec(p.tasks@[t2]),
            );
            assert(out@ =~= old(out)@ + body@);
        }
    }
    TaskDiscoveredInodes { socket_inodes, pipe_inodes, ppoll_pipe_inodes, poll_fds }
}

/// The lines one matching pipe fd renders: the owner line, and the open
/// flags with their access mode when the fd's `fdinfo` parses.
pub open spec fn pipe_owner_entry(rec: ProcRecord, f: FdRecord, n: u64) -> Seq<char> {
    "  inode="@ + dec_str(n as nat) + " pid="@ + dec_str(rec.pid as nat) + " comm="@ + trim_spec(
        rec.comm@,
    ) + " fd="@ + dec_str(f.fd as nat) + "\n"@ + (match crate::fdres::fdinfo_flags_spec(
        f.fdinfo@,
    ) {
        Some(fl) => "    flags_octal="@ + crate::numfmt::oct_str(fl as nat) + " access="@
            + crate::fdres::access_mode_spec(fl) + "\n"@,
        None => Seq::empty(),
    })
}

/// The pipe-owner lines of one process's fds, walking at most `fd_budget`
/// fds and crediting at most `max_hits` matches.
pub open spec fn pipe_owner_fds(
    fds: Seq<FdRecord>,
    rec: ProcRecord,
    wanted: Seq<u64>,
    fd_budget: int,
    hits: int,
    max_hits: int,
) -> Seq<char>
    decreases fds.len(),
{
    if fds.len() == 0 || fd_budget <= 0 || hits >= max_hits {
        Seq::empty()
    } else {
        match crate::waitgraph::fd_pipe_inode(fds[0]) {
            Some(n) => if wanted.contains(n) {
                pipe_owner_entry(rec, fds[0], n) + pipe_owner_fds(
                    fds.drop_first(),
                    rec,
                    wanted,
                    fd_budget - 1,
                    hits + 1,
                    max_hits,
                )
            } else {
                pipe_owner_fds(fds.drop_first(), rec, wanted, fd_budget - 1, hits, max_hits)
            },
            None => pipe_owner_fds(fds.drop_first(), rec, wanted, fd_budget - 1, hits, max_hits),
        }
    }
}

/// The pipe-owner lines of a whole table, walking at most `pid_budget`
/// processes.
pub open spec fn pipe_owners_body(
    ps: Seq<ProcRecord>,
    wanted: Seq<u64>,
    pid_budget: int,
    max_fds: int,
    max_hits: int,
) -> Seq<char>
    decreases ps.len(),
{
    if ps.len() == 0 || pid_budget <= 0 {
        Seq::empty()
    } else {
        pipe_owner_fds(ps[0].fds@, ps[0], wanted, max_fds, 0, max_hits) + pipe_owners_body(
            ps.drop_first(),
            wanted,
            pid_budget - 1,
            max_fds,
            max_hits,
        )
    }
}

/// Append the owners of the given pipe inodes: for each process, within the
/// pid, fd and per-process hit budgets, every fd whose target names a
/// wanted pipe inode, with its open mode.
#[verifier::loop_isolation(false)]
#[verifier::rlimit(60)]
pub fn emit_pipe_inode_fd_owners(
    out: &mut String,
    table: &ProcTable,
    inodes: &Vec<u64>,
    max_pids: usize,
    max_fds_per_pid: usize,
    max_hits_per_inode: usize,
)
    ensures
        final(out)@ == old(out)@ + "pipe_inode_fd_owners:\n"@ + pipe_owners_body(
            table.procs@,
            inodes@,
            max_pids as int,
            max_fds_per_pid as int,
            max_hits_per_inode as int,
        ),
        old(out)@.is_prefix_of(final(out)@),
        final(out)@.len() > old(out)@.len(),
{
    let ghost ps = table.procs@;
    let mut body = String::new();
    proof {
        reveal_strlit("pipe_inode_fd_owners:\n");
    }
    body.append("pipe_inode_fd_owners:\n");
    let ghost hdr = "pipe_inode_fd_owners:\n"@;
    let wanted = sort_dedup_u64s(inodes);
    let np = table.procs.len();
    let mut k: usize = 0;
    proof {
        assert(body@.skip(hdr.len() as int) =~= Seq::<char>::empty());
        assert(ps.subrange(0, np as int) =~= ps);
    }
    while k < np && k < max_pids
        invariant
            k <= np,
            k <= max_pids,
            body@.len() >= hdr.len(),
            body@.subrange(0, hdr.len() as int) == hdr,
            pipe_owners_body(
                ps,
                inodes@,
                max_pids as int,
                max_fds_per_pid as int,
                max_hits_per_inode as int,
            ) == body@.skip(hdr.len() as int) + pipe_owners_body(
                ps.subrange(k as int, np as int),
                inodes@,
                max_pids - k,
                max_fds_per_pid as int,
                max_hits_per_inode as int,
            ),
        decreases np - k,
    {
        let ghost rest = ps.subrange(k as int, np as int);
        proof {
            assert(rest[0] == ps[k as int]);
            assert(rest.drop_first() =~= ps.subrange(k + 1, np as int));
        }
        let rec = &table.procs[k];
        let nf = rec.fds.len();
        let mut sect = String::new();
        let mut j: usize = 0;
        let mut hits: usize = 0;
        proof {
            assert(rec.fds@.subrange(0, nf as int) =~= rec.fds@);
            assert(sect@ + pipe_owner_fds(
                rec.fds@,
                ps[k as int],
                inodes@,
                max_fds_per_pid as int,
                0,
                max_hits_per_inode as int,
            ) =~= pipe_owner_fds(
                rec.fds@,
                ps[k as int],
                inodes@,
                max_fds_per_pid as int,
                0,
                max_hits_per_inode as int,
            ));
        }
        while j < nf && j < max_fds_per_pid && hits < max_hits_per_inode
            invariant
                j <= nf,
                j <= max_fds_per_pid,
                hits <= max_hits_per_inode,
                pipe_owner_fds(
                    rec.fds@,
                    ps[k as int],
                    inodes@,
                    max_fds_per_pid as int,
                    0,
                    max_hits_per_inode as int,
                ) == sect@ + pipe_owner_fds(
                    rec.fds@.subrange(j as int, nf as int),
                    ps[k as int],
                    inodes@,
                    max_fds_per_pid - j,
                    hits as int,
                    max_hits_per_inode as int,
                ),
            decreases nf - j,
        {
            let ghost frest = rec.fds@.subrange(j as int, nf as int);
            proof {
                assert(frest[0] == rec.fds@[j as int]);
                assert(frest.drop_first() =~= rec.fds@.subrange(j + 1, nf as int));
            }
            let f = &rec.fds[j];
            if let Some(n) = parse_pipe_inode(f.target.as_str()) {
                if crate::vecset::contains_u64(&wanted, n) {
                    hits += 1;
                    sect.append("  inode=");
                    sect.append(u64_to_dec(n).as_str());
                    sect.append(" pid=");
                    sect.append(u64_to_dec(rec.pid as u64).as_str());
                    sect.append(" comm=");
                    sect.append(str_trim(rec.comm.as_str()));
                    sect.append(" fd=");
                    sect.append(u64_to_dec(f.fd as u64).as_str());
                    sect.append("\n");
                    if let Some(flags) = parse_fdinfo_flags(f.fdinfo.as_str()) {
                        sect.append("    flags_octal=");
                        sect.append(crate::numfmt::u64_to_oct(flags).as_str());
                        sect.append(" access=");
                        sect.append(access_mode_from_open_flags(flags));
                        sect.append("\n");
                    }
                    proof {
                        let entry = pipe_owner_entry(ps[k as int], rec.fds@[j as int], n);
                        assert(sect@ =~= sect@.subrange(0, sect@.len() - entry.len()) + entry);
                    }
                }
            }
            j += 1;
        }
        body.append(sect.as_str());
        proof {
            assert(pipe_owner_fds(
                rec.fds@.subrange(j as int, nf as int),
                ps[k as int],
                inodes@,
                max_fds_per_pid - j,
                hits as int,
                max_hits_per_inode as int,
            ) =~= Seq::<char>::empty());
            assert(body@.subrange(0, hdr.len() as int) =~= hdr);
        }
        k += 1;
    }
    proof {
        if k == np {
            assert(ps.subrange(np as int, np as int) =~= Seq::<ProcRecord>::empty());
        }
        assert(body@.skip(hdr.len() as int) + Seq::<char>::empty() =~= body@.skip(
            hdr.len() as int,
        ));
        assert(body@ =~= hdr + body@.skip(hdr.len() as int));
    }
    out.append(body.as_str());
    proof {
        assert(old(out)@.is_prefix_of(out@)) by {
            assert(out@.subrange(0, old(out)@.len() as int) =~= old(out)@);
        }
    }
}

/// The owner line one matching socket fd renders.
pub open spec fn socket_owner_entry(rec: ProcRecord, f: FdRecord, n: u64) -> Seq<char> {
    "  inode="@ + dec_str(n as nat) + " pid="@ + dec_str(rec.pid as nat) + " comm="@ + trim_spec(
        rec.comm@,
    ) + " fd="@ + dec_str(f.fd as nat) + "\n"@
}

/// The socket-owner lines of one process's fds, budget-bounded.
pub open spec fn socket_owner_fds(
    fds: Seq<FdRecord>,
    rec: ProcRecord,
    wanted: Seq<u64>,
    fd_budget: int,
    hits: int,
    max_hits: int,
) -> Seq<char>
    decreases fds.len(),
{
    if fds.len() == 0 || fd_budget <= 0 || hits >= max_hits {
        Seq::empty()
    } else {
        match crate::fdres::bracket_inode_spec(fds[0].target@, "socket:["@) {
            Some(n) => if wanted.contains(n) {
                socket_owner_entry(rec, fds[0], n) + socket_owner_fds(
                    fds.drop_first(),
                    rec,
                    wanted,
                    fd_budget - 1,
                    hits + 1,
                    max_hits,
                )
            } else {
                socket_owner_fds(fds.drop_first(), rec, wanted, fd_budget - 1, hits, max_hits)
            },
            None => socket_owner_fds(fds.drop_first(), rec, wanted, fd_budget - 1, hits, max_hits),
        }
    }
}

/// The socket-owner lines of a whole table, budget-bounded.
pub open spec fn socket_owners_body(
    ps: Seq<ProcRecord>,
    wanted: Seq<u64>,
    pid_budget: int,
    max_fds: int,
    max_hits: int,
) -> Seq<char>
    decreases ps.len(),
{
    if ps.len() == 0 || pid_budget <= 0 {
        Seq::empty()
    } else {
        socket_owner_fds(ps[0].fds@, ps[0], wanted, max_fds, 0, max_hits) + socket_owners_body(
            ps.drop_first(),
            wanted,
            pid_budget - 1,
            max_fds,
            max_hits,
        )
    }
}

/// Append the owners of the given socket inodes, like the pipe variant.
#[verifier::loop_isolation(false)]
#[verifier::rlimit(60)]
pub fn emit_socket_inode_fd_owners(
    out: &mut String,
    table: &ProcTable,
    inodes: &Vec<u64>,
    max_pids: usize,
    max_fds_per_pid: usize,
    max_hits_per_inode: usize,
)
    ensures
        final(out)@ == old(out)@ + "socket_inode_fd_owners:\n"@ + socket_owners_body(
            table.procs@,
            inodes@,
            max_pids as int,
            max_fds_per_pid as int,
            max_hits_per_inode as int,
        ),
        old(out)@.is_prefix_of(final(out)@),
        final(out)@.len() > old(out)@.len(),
{
    let ghost ps = table.procs@;
    let mut body = String::new();
    proof {
        reveal_strlit("socket_inode_fd_owners:\n");
    }
    body.append("socket_inode_fd_owners:\n");
    let ghost hdr = "socket_inode_fd_owners:\n"@;
    let wanted = sort_dedup_u64s(inodes);
    let np = table.procs.len();
    let mut k: usize = 0;
    proof {
        assert(body@.skip(hdr.len() as int) =~= Seq::<char>::empty());
        assert(ps.subrange(0, np as int) =~= ps);
    }
    while k < np && k < max_pids
        invariant
            k <= np,
            k <= max_pids,
            body@.len() >= hdr.len(),
            body@.subrange(0, hdr.len() as int) == hdr,
            socket_owners_body(
                ps,
                inodes@,
                max_pids as int,
                max_fds_per_pid as int,
                max_hits_per_inode as int,
            ) == body@.skip(hdr.len() as int) + socket_owners_body(
                ps.subrange(k as int, np as int),
                inodes@,
                max_pids - k,
                max_fds_per_pid as int,
                max_hits_per_inode as int,
            ),
        decreases np - k,
    {
        let ghost rest = ps.subrange(k as int, np as int);
        proof {
            assert(rest[0] == ps[k as int]);
            assert(rest.drop_first() =~= ps.subrange(k + 1, np as int));
        }
        let rec = &table.procs[k];
        let nf = rec.fds.len();
        let mut sect = String::new();
        let mut j: usize = 0;
        let mut hits: usize = 0;
        proof {
            assert(rec.fds@.subrange(0, nf as int) =~= rec.fds@);
            assert(sect@ + socket_owner_fds(
                rec.fds@,
                ps[k as int],
                inodes@,
                max_fds_per_pid as int,
                0,
                max_hits_per_inode as int,
            ) =~= socket_owner_fds(
                rec.fds@,
                ps[k as int],
                inodes@,
                max_fds_per_pid as int,
                0,
                max_hits_per_inode as int,
            ));
        }
        while j < nf && j < max_fds_per_pid && hits < max_hits_per_inode
            invariant
                j <= nf,
                j <= max_fds_per_pid,
                hits <= max_hits_per_inode,
                socket_owner_fds(
                    rec.fds@,
                    ps[k as int],
                    inodes@,
                    max_fds_per_pid as int,
                    0,
                    max_hits_per_inode as int,
                ) == sect@ + socket_owner_fds(
                    rec.fds@.subrange(j as int, nf as int),
                    ps[k as int],
                    inodes@,
                    max_fds_per_pid - j,
                    hits as int,
                    max_hits_per_inode as int,
                ),
            decreases nf - j,
        {
            let ghost frest = rec.fds@.subrange(j as int, nf as int);
            proof {
                assert(frest[0] == rec.fds@[j as int]);
                assert(frest.drop_first() =~= rec.fds@.subrange(j + 1, nf as int));
            }
            let f = &rec.fds[j];
            if let Some(n) = parse_socket_inode(f.target.as_str()) {
                if crate::vecset::contains_u64(&wanted, n) {
                    hits += 1;
                    sect.append("  inode=");
                    sect.append(u64_to_dec(n).as_str());
                    sect.append(" pid=");
                    sect.append(u64_to_dec(rec.pid as u64).as_str());
                    sect.append(" comm=");
                    sect.append(str_trim(rec.comm.as_str()));
                    sect.append(" fd=");
                    sect.append(u64_to_dec(f.fd as u64).as_str());
                    sect.append("\n");
                    proof {
                        let entry = socket_owner_entry(ps[k as int], rec.fds@[j as int], n);
                        assert(sect@ =~= sect@.subrange(0, sect@.len() - entry.len()) + entry);
                    }
                }
            }
            j += 1;
        }
        body.append(sect.as_str());
        proof {
            assert(socket_owner_fds(
                rec.fds@.subrange(j as int, nf as int),
                ps[k as int],
                inodes@,
                max_fds_per_pid - j,
                hits as int,
                max_hits_per_inode as int,
            ) =~= Seq::<char>::empty());
            assert(body@.subrange(0, hdr.len() as int) =~= hdr);
        }
        k += 1;
    }
    proof {
        if k == np {
            assert(ps.subrange(np as int, np as int) =~= Seq::<ProcRecord>::empty());
        }
        assert(body@.skip(hdr.len() as int) + Seq::<char>::empty() =~= body@.skip(
            hdr.len() as int,
        ));
        assert(body@ =~= hdr + body@.skip(hdr.len() as int));
    }
    out.append(body.as_str());
    proof {
        assert(old(out)@.is_prefix_of(out@)) by {
            assert(out@.subrange(0, old(out)@.len() as int) =~= old(out)@);
        }
    }
}

/// One node of the reconstructed wait graph: a process found holding the
/// write end of a pipe some thread is parked on, with its thread-set
/// fingerprint when one could be sampled.
pub struct WaitGraphNode {
    pub pid: u32,
    pub signature: Option<TaskSignature>,
}

/// Whether a node's signature is exactly the sample its pid yields.
pub open spec fn node_signature_ok(ps: Seq<ProcRecord>, node: WaitGraphNode) -> bool {
    match node.signature {
        Some(sig) => find_proc_spec(ps, node.pid) matches Some(p) && sig.task_count
            == p.tasks@.len() && sig.digest == sig_digest_of(p, 8) && sig.leader_wchan@
            == trim_spec(p.wchan@) && sig.leader_syscall_nr == leader_nr_spec(p),
        None => find_proc_spec(ps, node.pid) is None,
    }
}

/// Resolve one pipe inode to its wait-graph nodes: the owners that
/// [`collect_pipe_writer_pids`] finds within the budgets, at most
/// `max_nodes` of them in ascending pid order, each carrying exactly the
/// signature its pid samples to.  Every node's pid really holds a
/// write-open fd to the pipe.
#[verifier::loop_isolation(false)]
pub fn wait_graph_nodes(
    table: &ProcTable,
    inode: u64,
    max_pids: usize,
    max_fds_per_pid: usize,
    max_hits_per_inode: usize,
    max_nodes: usize,
) -> (r: Vec<WaitGraphNode>)
    ensures
        r@.len() <= max_nodes,
        forall|j1: int, j2: int| 0 <= j1 < j2 < r@.len() ==> r@[j1].pid < r@[j2].pid,
        forall|j: int| 0 <= j < r@.len() ==> node_signature_ok(table.procs@, #[trigger] r@[j]),
        forall|j: int|
            0 <= j < r@.len() ==> exists|k: int|
                0 <= k < table.procs@.len() && (#[trigger] table.procs@[k]).pid == (
                #[trigger] r@[j]).pid && crate::waitgraph::proc_has_writer_fd(
                    table.procs@[k],
                    seq![inode],
                ),
{
    let mut one: Vec<u64> = Vec::new();
    one.push(inode);
    proof {
        assert(one@ =~= seq![inode]);
    }
    let writer_pids = collect_pipe_writer_pids(
        table,
        &one,
        max_pids,
        max_fds_per_pid,
        max_hits_per_inode,
    );
    let wn = writer_pids.len();
    let bound: usize = if wn < max_nodes {
        wn
    } else {
        max_nodes
    };
    let mut out: Vec<WaitGraphNode> = Vec::new();
    let mut w: usize = 0;
    while w < bound
        invariant
            w <= bound,
            bound <= writer_pids@.len(),
            bound <= max_nodes,
            out@.len() == w,
            forall|j: int| 0 <= j < w ==> (#[trigger] out@[j]).pid == writer_pids@[j],
            forall|j: int| 0 <= j < w ==> node_signature_ok(table.procs@, #[trigger] out@[j]),
            forall|j: int|
                0 <= j < w ==> exists|k: int|
                    0 <= k < table.procs@.len() && (#[trigger] table.procs@[k]).pid == (
                    #[trigger] out@[j]).pid && crate::waitgraph::proc_has_writer_fd(
                        table.procs@[k],
                        one@,
                    ),
        decreases bound - w,
    {
        let wp = writer_pids[w];
        proof {
            assert(writer_pids@[w as int] == wp);
            assert(writer_pids@.contains(wp));
        }
        out.push(WaitGraphNode { pid: wp, signature: sample_task_signature(table, wp, 8) });
        proof {
            let k0 = choose|k: int|
                0 <= k < table.procs@.len() && (#[trigger] table.procs@[k]).pid == wp
                    && crate::waitgraph::proc_has_writer_fd(table.procs@[k], one@);
            assert(out@.last().pid == wp);
            assert(0 <= k0 < table.procs@.len() && table.procs@[k0].pid == out@.last().pid
                && crate::waitgraph::proc_has_writer_fd(table.procs@[k0], one@));
        }
        w += 1;
    }
    out
}

/// No process of the table holds a write-open fd to pipe inode `n`.
pub open spec fn no_writer_anywhere(ps: Seq<ProcRecord>, n: u64) -> bool {
    forall|k: int|
        0 <= k < ps.len() ==> !crate::waitgraph::proc_has_writer_fd(#[trigger] ps[k], seq![n])
}

/// The header line the one-hop walk renders per pipe inode.
pub open spec fn one_hop_inode_header(n: u64) -> Seq<char> {
    "    -- waits_on pipe_inode "@ + dec_str(n as nat) + " --\n"@
}

/// Append one hop of the wait graph below a resolved writer: the pipes the
/// writer itself waits on through an eventfd-bearing set, and the owners of
/// those pipes with their signatures.  At most three inodes and four owners
/// per inode are expanded, and the walk never recurses further.  When the
/// inode list is small enough that every inode is expanded, each gets its
/// header line, and an inode no process writes to gets the no-writer line.
pub fn emit_one_hop_pipe_wait_graph(
    out: &mut String,
    table: &ProcTable,
    pid: u32,
    pipe_inodes: &Vec<u64>,
    max_pids: usize,
    max_fds_per_pid: usize,
    max_hits_per_inode: usize,
)
    ensures
        old(out)@.is_prefix_of(final(out)@),
        final(out)@.len() > old(out)@.len(),
        starts_with_seq(
            final(out)@.skip(old(out)@.len() as int),
            "    pid="@ + dec_str(pid as nat) + " waits_on_eventfd_pipe_inodes:"@,
        ),
        forall|n: u64|
            pipe_inodes@.contains(n) && pipe_inodes@.len() <= 3 ==> contains_seq(
                final(out)@,
                one_hop_inode_header(n),
            ),
        forall|n: u64|
            (pipe_inodes@.contains(n) && pipe_inodes@.len() <= 3 && no_writer_anywhere(
                table.procs@,
                n,
            )) ==> contains_seq(
                final(out)@,
                "      (no writer owners found within scan bounds)\n"@,
            ),
{
    let mut body = String::new();
    proof {
        reveal_strlit("    pid=");
        reveal_strlit(" waits_on_eventfd_pipe_inodes:");
    }
    body.append("    pid=");
    body.append(u64_to_dec(pid as u64).as_str());
    body.append(" waits_on_eventfd_pipe_inodes:");
    let ghost hdr = "    pid="@ + dec_str(pid as nat) + " waits_on_eventfd_pipe_inodes:"@;
    proof {
        assert(body@ =~= hdr);
    }
    let inodes = sort_dedup_u64s(pipe_inodes);
    let ni = inodes.len();
    let mut i: usize = 0;
    while i < ni
        invariant
            i <= ni,
            ni == inodes@.len(),
            body@.len() >= hdr.len(),
            body@.subrange(0, hdr.len() as int) == hdr,
        decreases ni - i,
    {
        body.append(" ");
        body.append(u64_to_dec(inodes[i]).as_str());
        proof {
            assert(body@.subrange(0, hdr.len() as int) =~= hdr);
        }
        i += 1;
    }
    body.append("\n");
    let bound: usize = if ni < 3 {
        ni
    } else {
        3
    };
    let mut i2: usize = 0;
    proof {
        assert(body@.subrange(0, hdr.len() as int) =~= hdr);
    }
    while i2 < bound
        invariant
            i2 <= bound,
            bound <= inodes@.len(),
            body@.len() >= hdr.len(),
            body@.subrange(0, hdr.len() as int) == hdr,
            forall|x: u64| inodes@.contains(x) <==> pipe_inodes@.contains(x),
            forall|q: int|
                0 <= q < i2 ==> contains_seq(body@, one_hop_inode_header(#[trigger] inodes@[q])),
            forall|q: int|
                (0 <= q < i2 && no_writer_anywhere(table.procs@, #[trigger] inodes@[q]))
                    ==> contains_seq(
                    body@,
                    "      (no writer owners found within scan bounds)\n"@,
                ),
        decreases bound - i2,
    {
        let ghost body0 = body@;
        let inode = inodes[i2];
        body.append("    -- waits_on pipe_inode ");
        body.append(u64_to_dec(inode).as_str());
        body.append(" --\n");
        proof {
            reveal_strlit("    -- waits_on pipe_inode ");
            reveal_strlit(" --\n");
            assert(body@ =~= body0 + one_hop_inode_header(inodes@[i2 as int]));
            crate::strutil::lemma_append_contains(body0, one_hop_inode_header(inodes@[i2 as int]));
        }
        let ghost body1 = body@;
        let nodes = wait_graph_nodes(table, inode, max_pids, max_fds_per_pid, max_hits_per_inode, 4);
        if nodes.len() == 0 {
            body.append("      (no writer owners found within scan bounds)\n");
            proof {
                reveal_strlit("      (no writer owners found within scan bounds)\n");
                crate::strutil::lemma_append_contains(
                    body1,
                    "      (no writer owners found within scan bounds)\n"@,
                );
            }
        } else {
            proof {
                if no_writer_anywhere(table.procs@, inodes@[i2 as int]) {
                    assert(nodes@.len() > 0);
                    assert(exists|k: int|
                        0 <= k < table.procs@.len() && (#[trigger] table.procs@[k]).pid
                            == nodes@[0].pid && crate::waitgraph::proc_has_writer_fd(
                            table.procs@[k],
                            seq![inodes@[i2 as int]],
                        ));
                    assert(false);
                }
            }
            let wn = nodes.len();
            body.append("      writer_pids:");
            let mut w: usize = 0;
            while w < wn
                invariant
                    w <= wn,
                    wn == nodes@.len(),
                    body@.len() >= body1.len(),
                    body@.subrange(0, body1.len() as int) == body1,
                decreases wn - w,
            {
                body.append(" ");
                body.append(u64_to_dec(nodes[w].pid as u64).as_str());
                proof {
                    assert(body@.subrange(0, body1.len() as int) =~= body1);
                }
                w += 1;
            }
            body.append("\n");
            let mut w2: usize = 0;
            while w2 < wn
                invariant
                    w2 <= wn,
                    wn == nodes@.len(),
                    body@.len() >= body1.len(),
                    body@.subrange(0, body1.len() as int) == body1,
                decreases wn - w2,
            {
                let node = &nodes[w2];
                body.append("      --- owner_pid ");
                body.append(u64_to_dec(node.pid as u64).as_str());
                body.append(" ---\n");
                emit_pid_status_key_fields(&mut body, table, node.pid);
                if let Some(sig) = &node.signature {
                    body.append("      signature: tasks=");
                    body.append(u64_to_dec(sig.task_count as u64).as_str());
                    body.append(" leader_wchan=");
                    body.append(sig.leader_wchan.as_str());
                    body.append(" leader_syscall_nr=");
                    match sig.leader_syscall_nr {
                        Some(nr) => body.append(u64_to_dec(nr).as_str()),
                        None => body.append("?"),
                    }
                    body.append(" digest=0x");
                    body.append(u64_to_hex(sig.digest).as_str());
                    body.append("\n");
                }
                proof {
                    assert(body@.subrange(0, body1.len() as int) =~= body1);
                }
                w2 += 1;
            }
        }
        proof {
            assert(body1.is_prefix_of(body@)) by {
                assert(body@.subrange(0, body1.len() as int) =~= body1);
            }
            assert(body0.is_prefix_of(body@)) by {
                assert(body@.subrange(0, body0.len() as int) =~= body0);
            }
            assert forall|q: int|
                0 <= q < i2 + 1 implies contains_seq(
                body@,
                one_hop_inode_header(#[trigger] inodes@[q]),
            ) by {
                if q < i2 {
                    crate::strutil::lemma_contains_prefix_mono(
                        body0,
                        body@,
                        one_hop_inode_header(inodes@[q]),
                    );
                } else {
                    crate::strutil::lemma_contains_prefix_mono(
                        body1,
                        body@,
                        one_hop_inode_header(inodes@[q]),
                    );
                }
            }
            assert forall|q: int|
                (0 <= q < i2 + 1 && no_writer_anywhere(table.procs@, #[trigger] inodes@[q]))
                    implies contains_seq(
                body@,
                "      (no writer owners found within scan bounds)\n"@,
            ) by {
                if q < i2 {
                    crate::strutil::lemma_contains_prefix_mono(
                        body0,
                        body@,
                        "      (no writer owners found within scan bounds)\n"@,
                    );
                } else {
                    crate::strutil::lemma_contains_prefix_mono(
                        body1 + "      (no writer owners found within scan bounds)\n"@,
                        body@,
                        "      (no writer owners found within scan bounds)\n"@,
                    );
                }
            }
            assert(body@.subrange(0, hdr.len() as int) =~= hdr);
        }
        i2 += 1;
    }
    out.append(body.as_str());
    proof {
        assert(old(out)@.is_prefix_of(out@)) by {
            assert(out@.subrange(0, old(out)@.len() as int) =~= old(out)@);
        }
        assert(out@.skip(old(out)@.len() as int) =~= body@);
        assert(starts_with_seq(body@, hdr)) by {
            assert(body@.subrange(0, hdr.len() as int) =~= hdr);
        }
        assert forall|n: u64|
            pipe_inodes@.contains(n) && pipe_inodes@.len() <= 3 implies contains_seq(
            out@,
            one_hop_inode_header(n),
        ) by {
            assert(inodes@.contains(n));
            let q = choose|q: int| 0 <= q < inodes@.len() && inodes@[q] == n;
            assert(q < bound);
            crate::strutil::lemma_contains_concat_right(old(out)@, body@, one_hop_inode_header(n));
            assert(out@ =~= old(out)@ + body@);
        }
        assert forall|n: u64|
            (pipe_inodes@.contains(n) && pipe_inodes@.len() <= 3 && no_writer_anywhere(
                table.procs@,
                n,
            )) implies contains_seq(
            out@,
            "      (no writer owners found within scan bounds)\n"@,
        ) by {
            assert(inodes@.contains(n));
            let q = choose|q: int| 0 <= q < inodes@.len() && inodes@[q] == n;
            assert(q < bound);
            crate::strutil::lemma_contains_concat_right(
                old(out)@,
                body@,
                "      (no writer owners found within scan bounds)\n"@,
            );
            assert(out@ =~= old(out)@ + body@);
        }
    }
}

/// The header line the wakeup path renders per pipe inode.
pub open spec fn wakeup_inode_header(n: u64) -> Seq<char> {
    "-- pipe_inode "@ + dec_str(n as nat) + " (writer candidates) --\n"@
}

/// Append the pipe-wakeup path: for each pipe inode a blocked
/// eventfd-bearing wait named, the writer candidates found within the
/// budgets, each with its key status fields, a thread sample, and one hop
/// of its own wait graph.  An empty inode list renders as exactly the
/// marker line; otherwise the appended text opens with the path header,
/// and when the inode list is small enough that every inode is expanded,
/// each gets its header line, and an inode no process writes to gets the
/// no-writer line.
pub fn emit_pipe_wakeup_path(
    out: &mut String,
    table: &ProcTable,
    ppoll_pipe_inodes: &Vec<u64>,
    max_inodes: usize,
    max_pids: usize,
    max_fds_per_pid: usize,
    max_hits_per_inode: usize,
)
    ensures
        old(out)@.is_prefix_of(final(out)@),
        final(out)@.len() > old(out)@.len(),
        ppoll_pipe_inodes@.len() == 0 ==> final(out)@ == old(out)@ + "(no ppoll pipe inodes)\n"@,
        ppoll_pipe_inodes@.len() > 0 ==> starts_with_seq(
            final(out)@.skip(old(out)@.len() as int),
            "pipe_wakeup_path:\n"@,
        ),
        forall|n: u64|
            (ppoll_pipe_inodes@.contains(n) && ppoll_pipe_inodes@.len() <= max_inodes)
                ==> contains_seq(final(out)@, wakeup_inode_header(n)),
        forall|n: u64|
            (ppoll_pipe_inodes@.contains(n) && ppoll_pipe_inodes@.len() <= max_inodes
                && no_writer_anywhere(table.procs@, n)) ==> contains_seq(
                final(out)@,
                "  (no writer owners found within scan bounds)\n"@,
            ),
{
    proof {
        reveal_strlit("(no ppoll pipe inodes)\n");
        reveal_strlit("pipe_wakeup_path:\n");
    }
    let inodes = sort_dedup_u64s(ppoll_pipe_inodes);
    if inodes.len() == 0 {
        out.append("(no ppoll pipe inodes)\n");
        proof {
            assert(old(out)@.is_prefix_of(out@)) by {
                assert(out@.subrange(0, old(out)@.len() as int) =~= old(out)@);
            }
            assert forall|n: u64| !ppoll_pipe_inodes@.contains(n) by {
                if ppoll_pipe_inodes@.contains(n) {
                    assert(inodes@.contains(n));
                }
            }
            assert(ppoll_pipe_inodes@.len() == 0) by {
                if ppoll_pipe_inodes@.len() > 0 {
                    assert(ppoll_pipe_inodes@.contains(ppoll_pipe_inodes@[0]));
                }
            }
        }
        return;
    }
    let mut body = String::new();
    body.append("pipe_wakeup_path:\n");
    let ghost hdr = "pipe_wakeup_path:\n"@;
    proof {
        assert(body@ =~= hdr);
        assert(ppoll_pipe_inodes@.len() > 0) by {
            assert(inodes@.contains(inodes@[0]));
            assert(ppoll_pipe_inodes@.contains(inodes@[0]));
        }
    }
    let ni = inodes.len();
    let bound: usize = if ni < max_inodes {
        ni
    } else {
        max_inodes
    };
    let mut i: usize = 0;
    while i < bound
        invariant
            i <= bound,
            bound <= inodes@.len(),
            body@.len() >= hdr.len(),
            body@.subrange(0, hdr.len() as int) == hdr,
            forall|q: int|
                0 <= q < i ==> contains_seq(body@, wakeup_inode_header(#[trigger] inodes@[q])),
            forall|q: int|
                (0 <= q < i && no_writer_anywhere(table.procs@, #[trigger] inodes@[q]))
                    ==> contains_seq(
                    body@,
                    "  (no writer owners found within scan bounds)\n"@,
                ),
        decreases bound - i,
    {
        let ghost body0 = body@;
        let inode = inodes[i];
        body.append("-- pipe_inode ");
        body.append(u64_to_dec(inode).as_str());
        body.append(" (writer candidates) --\n");
        proof {
            reveal_strlit("-- pipe_inode ");
            reveal_strlit(" (writer candidates) --\n");
            assert(body@ =~= body0 + wakeup_inode_header(inodes@[i as int]));
            crate::strutil::lemma_append_contains(body0, wakeup_inode_header(inodes@[i as int]));
        }
        let ghost body1 = body@;
        let mut one: Vec<u64> = Vec::new();
        one.push(inode);
        let writer_pids = collect_pipe_writer_pids(
            table,
            &one,
            max_pids,
            max_fds_per_pid,
            max_hits_per_inode,
        );
        if writer_pids.len() == 0 {
            body.append("  (no writer owners found within scan bounds)\n");
            proof {
                reveal_strlit("  (no writer owners found within scan bounds)\n");
                crate::strutil::lemma_append_contains(
                    body1,
                    "  (no writer owners found within scan bounds)\n"@,
                );
            }
        } else {
            proof {
                assert(one@ =~= seq![inodes@[i as int]]);
                if no_writer_anywhere(table.procs@, inodes@[i as int]) {
                    assert(writer_pids@.contains(writer_pids@[0]));
                    assert(exists|k: int|
                        0 <= k < table.procs@.len() && (#[trigger] table.procs@[k]).pid
                            == writer_pids@[0] && crate::waitgraph::proc_has_writer_fd(
                            table.procs@[k],
                            one@,
                        ));
                    assert(false);
                }
            }
            body.append("  writer_pid_task_samples:\n");
            let wn = writer_pids.len();
            let wb: usize = if wn < 6 {
                wn
            } else {
                6
            };
            let mut w: usize = 0;
            while w < wb
                invariant
                    w <= wb,
                    wb <= writer_pids@.len(),
                    body@.len() >= body1.len(),
                    body@.subrange(0, body1.len() as int) == body1,
                decreases wb - w,
            {
                let wp = writer_pids[w];
                body.append("  --- writer_pid ");
                body.append(u64_to_dec(wp as u64).as_str());
                body.append(" ---\n");
                emit_pid_status_key_fields(&mut body, table, wp);
                proof {
                    assert(body@.subrange(0, body1.len() as int) =~= body1);
                }
                let ghost mid1 = body@;
                let _ = snapshot_tasks(&mut body, table, wp, 12);
                proof {
                    assert(mid1.is_prefix_of(body@));
                    assert(body@.subrange(0, body1.len() as int) =~= body1);
                }
                let ghost mid2 = body@;
                let next_pipe_inodes = collect_ppoll_eventfd_pipe_inodes(table, wp, 24);
                if next_pipe_inodes.len() > 0 {
                    body.append("  writer_wait_graph_one_hop:\n");
                    emit_one_hop_pipe_wait_graph(
                        &mut body,
                        table,
                        wp,
                        &next_pipe_inodes,
                        max_pids,
                        max_fds_per_pid,
                        max_hits_per_inode,
                    );
                    proof {
                        assert(mid2.is_prefix_of(body@)) by {
                            assert(body@.subrange(0, mid2.len() as int) =~= mid2);
                        }
                        assert(body@.subrange(0, body1.len() as int) =~= body1);
                    }
                }
                proof {
                    assert(body@.subrange(0, body1.len() as int) =~= body1);
                }
                w += 1;
            }
        }
        proof {
            assert(body1.is_prefix_of(body@)) by {
                assert(body@.subrange(0, body1.len() as int) =~= body1);
            }
            assert(body0.is_prefix_of(body@)) by {
                assert(body@.subrange(0, body0.len() as int) =~= body0);
            }
            assert forall|q: int|
                0 <= q < i + 1 implies contains_seq(
                body@,
                wakeup_inode_header(#[trigger] inodes@[q]),
            ) by {
                if q < i {
                    crate::strutil::lemma_contains_prefix_mono(
                        body0,
                        body@,
                        wakeup_inode_header(inodes@[q]),
                    );
                } else {
                    crate::strutil::lemma_contains_prefix_mono(
                        body1,
                        body@,
                        wakeup_inode_header(inodes@[q]),
                    );
                }
            }
            assert forall|q: int|
                (0 <= q < i + 1 && no_writer_anywhere(table.procs@, #[trigger] inodes@[q]))
                    implies contains_seq(
                body@,
                "  (no writer owners found within scan bounds)\n"@,
            ) by {
                if q < i {
                    crate::strutil::lemma_contains_prefix_mono(
                        body0,
                        body@,
                        "  (no writer owners found within scan bounds)\n"@,
                    );
                } else {
                    crate::strutil::lemma_contains_prefix_mono(
                        body1 + "  (no writer owners found within scan bounds)\n"@,
                        body@,
                        "  (no writer owners found within scan bounds)\n"@,
                    );
                }
            }
            assert(body@.subrange(0, hdr.len() as int) =~= hdr);
        }
        i += 1;
    }
    out.append(body.as_str());
    proof {
        assert(old(out)@.is_prefix_of(out@)) by {
            assert(out@.subrange(0, old(out)@.len() as int) =~= old(out)@);
        }
        assert(out@.skip(old(out)@.len() as int) =~= body@);
        assert(starts_with_seq(body@, hdr)) by {
            assert(body@.subrange(0, hdr.len() as int) =~= hdr);
        }
        assert forall|n: u64|
            (ppoll_pipe_inodes@.contains(n) && ppoll_pipe_inodes@.len() <= max_inodes)
                implies contains_seq(out@, wakeup_inode_header(n)) by {
            assert(inodes@.contains(n));
            let q = choose|q: int| 0 <= q < inodes@.len() && inodes@[q] == n;
            assert(q < bound);
            crate::strutil::lemma_contains_concat_right(old(out)@, body@, wakeup_inode_header(n));
            assert(out@ =~= old(out)@ + body@);
        }
        assert forall|n: u64|
            (ppoll_pipe_inodes@.contains(n) && ppoll_pipe_inodes@.len() <= max_inodes
                && no_writer_anywhere(table.procs@, n)) implies contains_seq(
            out@,
            "  (no writer owners found within scan bounds)\n"@,
        ) by {
            assert(inodes@.contains(n));
            let q = choose|q: int| 0 <= q < inodes@.len() && inodes@[q] == n;
            assert(q < bound);
            crate::strutil::lemma_contains_concat_right(
                old(out)@,
                body@,
                "  (no writer owners found within scan bounds)\n"@,
            );
            assert(out@ =~= old(out)@ + body@);
        }
    }
}

/// The line one sampled fd renders.
pub open spec fn fd_line_spec(f: FdRecord) -> Seq<char> {
    "  fd "@ + dec_str(f.fd as nat) + ": "@ + f.target@ + "\n"@
}

/// Append a bounded sample of the open fds of `pid`: the target of each fd,
/// the targets registered in any epoll sets, the owners of every pipe and
/// socket inode seen (the extra inodes from the thread sample included), and
/// a head of the raw `fdinfo` text.  A process missing from the table
/// renders as exactly the placeholder line; otherwise the appended text
/// opens with the fd count and holds one line per sampled fd.
pub fn snapshot_fds(
    out: &mut String,
    table: &ProcTable,
    pid: u32,
    max_fds: usize,
    extra_socket_inodes: &Vec<u64>,
    extra_pipe_inodes: &Vec<u64>,
)
    ensures
        old(out)@.is_prefix_of(final(out)@),
        final(out)@.len() > old(out)@.len(),
        find_proc_spec(table.procs@, pid) is None ==> final(out)@ == old(out)@
            + "(unavailable: no such process)\n"@,
        find_proc_spec(table.procs@, pid) matches Some(p) ==> ({
            let fb = if p.fds@.len() < max_fds {
                p.fds@.len() as int
            } else {
                max_fds as int
            };
            &&& starts_with_seq(
                final(out)@.skip(old(out)@.len() as int),
                "fd_count: "@ + dec_str(p.fds@.len() as nat) + "\nfd_targets:\n"@,
            )
            &&& forall|j: int|
                0 <= j < fb ==> contains_seq(final(out)@, fd_line_spec(#[trigger] p.fds@[j]))
        }),
{
    proof {
        reveal_strlit("(unavailable: no such process)\n");
        reveal_strlit("fd_count: ");
        reveal_strlit("\nfd_targets:\n");
    }
    let rec = match proc_of(table, pid) {
        Some(p) => p,
        None => {
            out.append("(unavailable: no such process)\n");
            proof {
                assert(old(out)@.is_prefix_of(out@)) by {
                    assert(out@.subrange(0, old(out)@.len() as int) =~= old(out)@);
                }
            }
            return;
        },
    };
    let ghost p = find_proc_spec(table.procs@, pid)->Some_0;
    let nf = rec.fds.len();
    let mut sect = String::new();
    sect.append("fd_count: ");
    sect.append(u64_to_dec(nf as u64).as_str());
    sect.append("\nfd_targets:\n");
    let ghost hdr = "fd_count: "@ + dec_str(p.fds@.len() as nat) + "\nfd_targets:\n"@;
    proof {
        assert(sect@ =~= hdr);
    }
    let fb: usize = if nf < max_fds {
        nf
    } else {
        max_fds
    };
    let mut j: usize = 0;
    while j < fb
        invariant
            j <= fb,
            fb <= rec.fds@.len(),
            rec.fds@ == p.fds@,
            sect@.len() >= hdr.len(),
            sect@.subrange(0, hdr.len() as int) == hdr,
            forall|j2: int|
                0 <= j2 < j ==> contains_seq(sect@, fd_line_spec(#[trigger] p.fds@[j2])),
        decreases fb - j,
    {
        let ghost sect0 = sect@;
        sect.append("  fd ");
        sect.append(u64_to_dec(rec.fds[j].fd as u64).as_str());
        sect.append(": ");
        sect.append(rec.fds[j].target.as_str());
        sect.append("\n");
        proof {
            let line = fd_line_spec(p.fds@[j as int]);
            assert(sect@ =~= sect0 + line);
            crate::strutil::lemma_append_contains(sect0, line);
            assert forall|j2: int|
                0 <= j2 < j + 1 implies contains_seq(
                sect@,
                fd_line_spec(#[trigger] p.fds@[j2]),
            ) by {
                if j2 < j {
                    assert(sect0.is_prefix_of(sect@)) by {
                        assert(sect@.subrange(0, sect0.len() as int) =~= sect0);
                    }
                    crate::strutil::lemma_contains_prefix_mono(
                        sect0,
                        sect@,
                        fd_line_spec(p.fds@[j2]),
                    );
                }
            }
            assert(sect@.subrange(0, hdr.len() as int) =~= hdr);
        }
        j += 1;
    }
    let ghost sect_loop = sect@;
    if nf > max_fds {
        sect.append("  \u{2026} (");
        sect.append(u64_to_dec((nf - max_fds) as u64).as_str());
        sect.append(" more fds) \u{2026}\n");
        proof {
            assert(sect@.subrange(0, hdr.len() as int) =~= hdr);
            assert(sect_loop.is_prefix_of(sect@)) by {
                assert(sect@.subrange(0, sect_loop.len() as int) =~= sect_loop);
            }
            assert forall|j2: int| 0 <= j2 < fb implies contains_seq(
                sect@,
                fd_line_spec(#[trigger] p.fds@[j2]),
            ) by {
                crate::strutil::lemma_contains_prefix_mono(
                    sect_loop,
                    sect@,
                    fd_line_spec(p.fds@[j2]),
                );
            }
        }
    }
    let ghost sect_final = sect@;
    let mut body = String::new();
    let ghost base_len = body@.len();
    let mut socket_inodes: Vec<u64> = Vec::new();
    let mut pipe_inodes: Vec<u64> = Vec::new();
    let mut x: usize = 0;
    let xn = extra_socket_inodes.len();
    while x < xn
        invariant
            x <= xn,
            xn == extra_socket_inodes@.len(),
            strictly_sorted_u64(socket_inodes@),
        decreases xn - x,
    {
        crate::vecset::insert_sorted_u64(&mut socket_inodes, extra_socket_inodes[x]);
        x += 1;
    }
    let mut y: usize = 0;
    let yn = extra_pipe_inodes.len();
    while y < yn
        invariant
            y <= yn,
            yn == extra_pipe_inodes@.len(),
            strictly_sorted_u64(pipe_inodes@),
        decreases yn - y,
    {
        crate::vecset::insert_sorted_u64(&mut pipe_inodes, extra_pipe_inodes[y]);
        y += 1;
    }
    body.append("epoll_fdinfo:\n");
    let mut epolls: usize = 0;
    let mut j2: usize = 0;
    while j2 < nf
        invariant
            j2 <= nf,
            nf == rec.fds@.len(),
            body@.len() >= base_len,
            strictly_sorted_u64(socket_inodes@),
            strictly_sorted_u64(pipe_inodes@),
        decreases nf - j2,
    {
        let f = &rec.fds[j2];
        if epolls < 16 && str_contains(f.target.as_str(), "anon_inode:[eventpoll]") {
            epolls += 1;
            body.append("-- epoll fdinfo ");
            body.append(u64_to_dec(f.fd as u64).as_str());
            body.append(" --\n");
            body.append(f.fdinfo.as_str());
            body.append("\n");
            let info_lines = split_lines(f.fdinfo.as_str());
            let ln = info_lines.len();
            let mut li: usize = 0;
            while li < ln
                invariant
                    li <= ln,
                    ln == info_lines@.len(),
                    body@.len() >= base_len,
                    strictly_sorted_u64(socket_inodes@),
                    strictly_sorted_u64(pipe_inodes@),
                decreases ln - li,
            {
                let l = crate::strutil::str_trim_start(info_lines[li].as_str());
                if str_starts_with(l, "tfd:") {
                    proof {
                        reveal_strlit("tfd:");
                    }
                    let ll = l.unicode_len();
                    let restv = l.substring_char(4, ll);
                    let toks = split_whitespace(restv);
                    if toks.len() > 0 {
                        if let Some(tfd) = parse_u32_dec(toks[0].as_str()) {
                            let target = read_fd_target(table, pid, tfd);
                            body.append("  tfd ");
                            body.append(u64_to_dec(tfd as u64).as_str());
                            body.append(": ");
                            body.append(target.as_str());
                            body.append("\n");
                            if let Some(n) = parse_socket_inode(target.as_str()) {
                                crate::vecset::insert_sorted_u64(&mut socket_inodes, n);
                            }
                            if let Some(n) = parse_pipe_inode(target.as_str()) {
                                crate::vecset::insert_sorted_u64(&mut pipe_inodes, n);
                            }
                        }
                    }
                }
                li += 1;
            }
        }
        j2 += 1;
    }
    if pipe_inodes.len() > 0 {
        emit_pipe_inode_fd_owners(&mut body, table, &pipe_inodes, 512, 256, 10);
    }
    if socket_inodes.len() > 0 {
        body.append("socket_inode_lookup:\n");
        let sn = socket_inodes.len();
        let sb: usize = if sn < 64 {
            sn
        } else {
            64
        };
        let mut s: usize = 0;
        while s < sb
            invariant
                s <= sb,
                sb <= socket_inodes@.len(),
                body@.len() >= base_len,
            decreases sb - s,
        {
            body.append("-- inode ");
            body.append(u64_to_dec(socket_inodes[s]).as_str());
            body.append(" --\n");
            let tn = table.net.len();
            let mut ti: usize = 0;
            while ti < tn
                invariant
                    ti <= tn,
                    tn == table.net@.len(),
                    s < socket_inodes@.len(),
                    body@.len() >= base_len,
                decreases tn - ti,
            {
                emit_proc_net_inode_matches(
                    &mut body,
                    table.net[ti].name.as_str(),
                    table.net[ti].text.as_str(),
                    socket_inodes[s],
                );
                proof {
                    assert(body@.len() >= base_len);
                }
                ti += 1;
            }
            s += 1;
        }
        emit_socket_inode_fd_owners(&mut body, table, &socket_inodes, 512, 256, 10);
    }
    body.append("fdinfo_sample:\n");
    let ib: usize = if nf < 12 {
        nf
    } else {
        12
    };
    let mut j3: usize = 0;
    while j3 < ib
        invariant
            j3 <= ib,
            ib <= rec.fds@.len(),
            body@.len() >= base_len,
        decreases ib - j3,
    {
        body.append("-- fdinfo ");
        body.append(u64_to_dec(rec.fds[j3].fd as u64).as_str());
        body.append(" --\n");
        body.append(rec.fds[j3].fdinfo.as_str());
        body.append("\n");
        j3 += 1;
    }
    out.append(sect.as_str());
    let ghost mid = out@;
    out.append(body.as_str());
    proof {
        assert(old(out)@.is_prefix_of(out@)) by {
            assert(out@.subrange(0, old(out)@.len() as int) =~= old(out)@);
        }
        assert(out@.skip(old(out)@.len() as int) =~= sect_final + body@);
        assert(starts_with_seq(sect_final + body@, hdr)) by {
            assert((sect_final + body@).subrange(0, hdr.len() as int) =~= sect_final.subrange(
                0,
                hdr.len() as int,
            ));
        }
        let fbg = if p.fds@.len() < max_fds {
            p.fds@.len() as int
        } else {
            max_fds as int
        };
        assert forall|jj: int| 0 <= jj < fbg implies contains_seq(
            out@,
            fd_line_spec(#[trigger] p.fds@[jj]),
        ) by {
            crate::strutil::lemma_contains_concat_right(
                old(out)@,
                sect_final,
                fd_line_spec(p.fds@[jj]),
            );
            assert((old(out)@ + sect_final).is_prefix_of(out@)) by {
                assert(out@.subrange(0, old(out)@.len() + sect_final.len() as int) =~= old(out)@
                    + sect_final);
            }
            crate::strutil::lemma_contains_prefix_mono(
                old(out)@ + sect_final,
                out@,
                fd_line_spec(p.fds@[jj]),
            );
        }
    }
}

fn yesno_na(v: Option<bool>) -> (r: &'static str)
    ensures
        v == Some(true) ==> r@ == "yes"@,
        v == Some(false) ==> r@ == "no"@,
        v is None ==> r@ == "(n/a)"@,
{
    match v {
        Some(true) => "yes",
        Some(false) => "no",
        None => "(n/a)",
    }
}

/// The foreground verdict a job-control record renders.
pub open spec fn fg_verdict_spec(jc: crate::procstat::ProcStatJobControl) -> Seq<char> {
    if jc.tty_nr == 0 || jc.tpgid <= 0 {
        "(n/a)"@
    } else if jc.pgrp == jc.tpgid {
        "yes"@
    } else {
        "no"@
    }
}

/// The indented detail line of one job-control record.
pub open spec fn jc_detail_spec(jc: crate::procstat::ProcStatJobControl) -> Seq<char> {
    "  tty_nr="@ + crate::numfmt::dec_str_i64(jc.tty_nr as int) + crate::procstat::tty_nr_details_spec(
        jc.tty_nr,
    ) + " tpgid="@ + crate::numfmt::dec_str_i64(jc.tpgid as int) + " pgrp="@
        + crate::numfmt::dec_str_i64(jc.pgrp as int) + " fg="@ + fg_verdict_spec(jc) + "\n"@
}

/// A process's comm, or a fallback when it is not in the table.
pub open spec fn comm_or_spec(ps: Seq<ProcRecord>, pid: u32, fallback: Seq<char>) -> Seq<char> {
    match crate::index::comm_spec(ps, pid) {
        Some(c) => c,
        None => fallback,
    }
}

/// A process's clipped command line, or a fallback.
pub open spec fn cmdline_or_spec(ps: Seq<ProcRecord>, pid: u32) -> Seq<char> {
    match find_proc_spec(ps, pid) {
        Some(p) => match crate::index::cmdline_spec(p.cmdline@, 4096) {
            Some(c) => c,
            None => "(no cmdline)"@,
        },
        None => "(no cmdline)"@,
    }
}

/// The first section of the comparison: the target's own line and detail.
pub open spec fn jc_own_spec(ps: Seq<ProcRecord>, pid: u32) -> Seq<char> {
    "pid="@ + dec_str(pid as nat) + " comm="@ + comm_or_spec(ps, pid, "(unknown)"@) + "\n"@ + (
    match crate::index::table_jc_spec(ps, pid) {
        Some(j) => jc_detail_spec(j),
        None => "  (job control unavailable)\n"@,
    })
}

/// The second section: the parent's line and detail, or the no-parent line.
pub open spec fn jc_parent_spec(ps: Seq<ProcRecord>, parent_pid: Option<u32>) -> Seq<char> {
    match parent_pid {
        Some(pp) => "parent_pid="@ + dec_str(pp as nat) + " comm="@ + comm_or_spec(
            ps,
            pp,
            "(none)"@,
        ) + "\n"@ + (match crate::index::table_jc_spec(ps, pp) {
            Some(j) => jc_detail_spec(j),
            None => "  (job control unavailable)\n"@,
        }),
        None => "parent_pid=(none)\n"@,
    }
}

/// The third section: the terminal-match verdict and, when both share a
/// terminal with a live foreground group, who owns that group.
pub open spec fn jc_verdict_spec(ps: Seq<ProcRecord>, pid: u32, parent_pid: Option<u32>) -> Seq<
    char,
> {
    match (crate::index::table_jc_spec(ps, pid), match parent_pid {
        Some(pp) => crate::index::table_jc_spec(ps, pp),
        None => None,
    }) {
        (Some(j), Some(pj)) => if j.tty_nr != 0 && j.tty_nr == pj.tty_nr {
            "tty_match=yes tty_foreground_pgrp="@ + crate::numfmt::dec_str_i64(j.tpgid as int)
                + " target_is_fg="@ + fg_verdict_spec(j) + " parent_is_fg="@ + fg_verdict_spec(pj)
                + "\n"@ + (if j.tpgid > 0 {
                fg_owner_spec(ps, j.tpgid as u32)
            } else {
                Seq::<char>::empty()
            })
        } else {
            "tty_match=(unknown_or_no)\n"@
        },
        _ => Seq::<char>::empty(),
    }
}

/// The whole text [`append_job_control_compare`] appends.
pub open spec fn jc_compare_spec(ps: Seq<ProcRecord>, pid: u32, parent_pid: Option<u32>) -> Seq<
    char,
> {
    jc_own_spec(ps, pid) + jc_parent_spec(ps, parent_pid) + jc_verdict_spec(ps, pid, parent_pid)
}

fn append_jc_detail(body: &mut String, j: &crate::procstat::ProcStatJobControl)
    ensures
        final(body)@ == old(body)@ + jc_detail_spec(*j),
{
    body.append("  tty_nr=");
    body.append(i64_to_dec(j.tty_nr as i64).as_str());
    body.append(format_tty_nr_details(j.tty_nr).as_str());
    body.append(" tpgid=");
    body.append(i64_to_dec(j.tpgid as i64).as_str());
    body.append(" pgrp=");
    body.append(i64_to_dec(j.pgrp as i64).as_str());
    body.append(" fg=");
    body.append(yesno_na(is_foreground_pgrp(j)));
    body.append("\n");
    proof {
        assert(final(body)@ =~= old(body)@ + jc_detail_spec(*j));
    }
}

fn append_jc_own(body: &mut String, table: &ProcTable, pid: u32)
    ensures
        final(body)@ == old(body)@ + jc_own_spec(table.procs@, pid),
{
    proof {
        reveal_strlit("pid=");
    }
    let jc = read_job_control(table, pid);
    let comm = match read_proc_comm(table, pid) {
        Some(c) => c,
        None => "(unknown)".to_owned(),
    };
    body.append("pid=");
    body.append(u64_to_dec(pid as u64).as_str());
    body.append(" comm=");
    body.append(comm.as_str());
    body.append("\n");
    match &jc {
        Some(j) => append_jc_detail(body, j),
        None => body.append("  (job control unavailable)\n"),
    }
    proof {
        assert(final(body)@ =~= old(body)@ + jc_own_spec(table.procs@, pid));
    }
}

fn append_jc_parent(body: &mut String, table: &ProcTable, parent_pid: Option<u32>)
    ensures
        final(body)@ == old(body)@ + jc_parent_spec(table.procs@, parent_pid),
{
    match parent_pid {
        Some(pp) => {
            let pjc = read_job_control(table, pp);
            let pcomm = match read_proc_comm(table, pp) {
                Some(c) => c,
                None => "(none)".to_owned(),
            };
            body.append("parent_pid=");
            body.append(u64_to_dec(pp as u64).as_str());
            body.append(" comm=");
            body.append(pcomm.as_str());
            body.append("\n");
            match &pjc {
                Some(j) => append_jc_detail(body, j),
                None => body.append("  (job control unavailable)\n"),
            }
            proof {
                assert(final(body)@ =~= old(body)@ + jc_parent_spec(table.procs@, parent_pid));
            }
        },
        None => {
            body.append("parent_pid=(none)\n");
        },
    }
}

/// The foreground-owner lines of the verdict section.
pub open spec fn fg_owner_spec(ps: Seq<ProcRecord>, fg_pid: u32) -> Seq<char> {
    "tty_foreground_owner: pid="@ + dec_str(fg_pid as nat) + " comm="@ + comm_or_spec(
        ps,
        fg_pid,
        "(unknown)"@,
    ) + "\n"@ + "tty_foreground_owner_cmdline: "@ + cmdline_or_spec(ps, fg_pid) + "\n"@
}

fn append_jc_fg_owner(body: &mut String, table: &ProcTable, fg_pid: u32)
    ensures
        final(body)@ == old(body)@ + fg_owner_spec(table.procs@, fg_pid),
{
    let fg_comm = match read_proc_comm(table, fg_pid) {
        Some(c) => c,
        None => "(unknown)".to_owned(),
    };
    let fg_cmd = match read_proc_cmdline(table, fg_pid, 4096) {
        Some(c) => c,
        None => "(no cmdline)".to_owned(),
    };
    body.append("tty_foreground_owner: pid=");
    body.append(u64_to_dec(fg_pid as u64).as_str());
    body.append(" comm=");
    body.append(fg_comm.as_str());
    body.append("\n");
    body.append("tty_foreground_owner_cmdline: ");
    body.append(fg_cmd.as_str());
    body.append("\n");
    proof {
        assert(final(body)@ =~= old(body)@ + fg_owner_spec(table.procs@, fg_pid));
    }
}

#[verifier::rlimit(100)]
fn append_jc_verdict(body: &mut String, table: &ProcTable, pid: u32, parent_pid: Option<u32>)
    ensures
        final(body)@ == old(body)@ + jc_verdict_spec(table.procs@, pid, parent_pid),
{
    let jc = read_job_control(table, pid);
    let pjc = match parent_pid {
        Some(pp) => read_job_control(table, pp),
        None => None,
    };
    if let (Some(j), Some(pj)) = (&jc, &pjc) {
        if j.tty_nr != 0 && j.tty_nr == pj.tty_nr {
            body.append("tty_match=yes tty_foreground_pgrp=");
            body.append(i64_to_dec(j.tpgid as i64).as_str());
            body.append(" target_is_fg=");
            body.append(yesno_na(is_foreground_pgrp(j)));
            body.append(" parent_is_fg=");
            body.append(yesno_na(is_foreground_pgrp(pj)));
            body.append("\n");
            if j.tpgid > 0 {
                append_jc_fg_owner(body, table, j.tpgid as u32);
            }
            proof {
                assert(final(body)@ =~= old(body)@ + jc_verdict_spec(
                    table.procs@,
                    pid,
                    parent_pid,
                ));
            }
        } else {
            body.append("tty_match=(unknown_or_no)\n");
        }
    } else {
        proof {
            assert(old(body)@ + jc_verdict_spec(table.procs@, pid, parent_pid) =~= old(body)@);
        }
    }
}

/// Append a side-by-side view of the job control of `pid` and its parent:
/// terminal, foreground group, and who owns the foreground group when both
/// share a terminal.  The appended text is exactly [`jc_compare_spec`].
pub fn append_job_control_compare(
    out: &mut String,
    table: &ProcTable,
    pid: u32,
    parent_pid: Option<u32>,
)
    ensures
        final(out)@ == old(out)@ + jc_compare_spec(table.procs@, pid, parent_pid),
        old(out)@.is_prefix_of(final(out)@),
        final(out)@.len() > old(out)@.len(),
{
    append_jc_own(out, table, pid);
    append_jc_parent(out, table, parent_pid);
    append_jc_verdict(out, table, pid, parent_pid);
    proof {
        reveal_strlit("pid=");
        assert(final(out)@ =~= old(out)@ + jc_compare_spec(table.procs@, pid, parent_pid));
        assert(old(out)@.is_prefix_of(final(out)@)) by {
            assert(final(out)@.subrange(0, old(out)@.len() as int) =~= old(out)@);
        }
    }
}

fn append_section_header(body: &mut String, label: &str, middle: &str, pid: u32, tail: &str)
    ensures
        old(body)@.is_prefix_of(final(body)@),
        final(body)@.len() > old(body)@.len(),
        crate::strutil::contains_seq(final(body)@, dec_str(pid as nat)),
{
    proof {
        reveal_strlit("[");
    }
    body.append("[");
    body.append(label);
    body.append("] ");
    body.append(middle);
    body.append(u64_to_dec(pid as u64).as_str());
    proof {
        crate::strutil::lemma_append_contains(
            body@.subrange(0, body@.len() - dec_str(pid as nat).len()),
            dec_str(pid as nat),
        );
        assert(body@.subrange(0, body@.len() - dec_str(pid as nat).len()) + dec_str(pid as nat)
            =~= body@);
    }
    let ghost mid = body@;
    body.append(tail);
    body.append("\n");
    proof {
        assert(old(body)@.is_prefix_of(body@)) by {
            assert(body@.subrange(0, old(body)@.len() as int) =~= old(body)@);
        }
        assert(mid.is_prefix_of(body@)) by {
            assert(body@.subrange(0, mid.len() as int) =~= mid);
        }
        crate::strutil::lemma_contains_prefix_mono(mid, body@, dec_str(pid as nat));
    }
}

/// Append the whole per-process snapshot of `pid`: status text, map count,
/// decoded signal masks, job control with stdio targets, wchan, stack,
/// blocked syscall, a thread sample, the pipe-wakeup path when the thread
/// sample found an eventfd-bearing wait, and an fd sample.  The report only
/// grows, whatever is missing.
pub fn snapshot_proc(out: &mut String, table: &ProcTable, pid: u32, label: &str)
    ensures
        old(out)@.is_prefix_of(final(out)@),
        final(out)@.len() > old(out)@.len(),
        contains_seq(final(out)@, dec_str(pid as nat)),
        find_proc_spec(table.procs@, pid) is None ==> contains_seq(
            final(out)@,
            "(unavailable: no such process)"@,
        ),
        find_proc_spec(table.procs@, pid) matches Some(p) ==> contains_seq(final(out)@, p.status@),
{
    let mut head = String::new();
    append_section_header(&mut head, label, "/proc/", pid, "/status");
    let ghost head0 = head@;
    match proc_of(table, pid) {
        Some(p) => head.append(p.status.as_str()),
        None => head.append("(unavailable: no such process)\n"),
    }
    proof {
        match find_proc_spec(table.procs@, pid) {
            Some(p) => {
                assert(head@ =~= head0 + p.status@);
                crate::strutil::lemma_append_contains(head0, p.status@);
            },
            None => {
                reveal_strlit("(unavailable: no such process)\n");
                reveal_strlit("(unavailable: no such process)");
                assert(head@ =~= head0 + "(unavailable: no such process)\n"@);
                let needle = "(unavailable: no such process)"@;
                assert(contains_seq(head@, needle)) by {
                    assert(head@.subrange(
                        head0.len() as int,
                        head0.len() + needle.len() as int,
                    ) =~= needle);
                    assert(crate::strutil::match_at(head@, head0.len() as int, needle));
                }
            },
        }
        assert(head0.is_prefix_of(head@)) by {
            assert(head@.subrange(0, head0.len() as int) =~= head0);
        }
        crate::strutil::lemma_contains_prefix_mono(head0, head@, dec_str(pid as nat));
    }
    let ghost head_claim: Seq<char> = match find_proc_spec(table.procs@, pid) {
        Some(p) => p.status@,
        None => "(unavailable: no such process)"@,
    };
    let mut body = String::new();
    body.append("\n\n");
    append_section_header(&mut body, label, "/proc/", pid, "/maps (line count)");
    match proc_of(table, pid) {
        Some(p) => match p.maps_lines {
            Some(n) => {
                body.append("maps_lines=");
                body.append(u64_to_dec(n).as_str());
                body.append("\n");
            },
            None => body.append("(unavailable)\n"),
        },
        None => body.append("(unavailable: no such process)\n"),
    }
    body.append("\n");
    append_section_header(&mut body, label, "status_signals_decoded for pid ", pid, "");
    let status = status_text_of(table, pid);
    if str_starts_with(status.as_str(), "(unavailable:") {
        body.append(status.as_str());
        body.append("\n");
    } else {
        append_decoded_status_signals(&mut body, status.as_str());
    }
    body.append("\n");
    append_section_header(&mut body, label, "job_control (from /proc/", pid, "/stat + stdio)");
    let stat_text: String = match proc_of(table, pid) {
        Some(p) => p.stat.clone(),
        None => "(unavailable: no such process)".to_owned(),
    };
    if str_starts_with(stat_text.as_str(), "(unavailable:") {
        body.append(stat_text.as_str());
        body.append("\n");
    } else if let Some(jc) = parse_proc_stat_job_control(stat_text.as_str()) {
        body.append("state=");
        body.append(state_char_str(jc.state).as_str());
        body.append(" ppid=");
        body.append(u64_to_dec(jc.ppid as u64).as_str());
        body.append(" pgrp=");
        body.append(i64_to_dec(jc.pgrp as i64).as_str());
        body.append(" session=");
        body.append(i64_to_dec(jc.session as i64).as_str());
        body.append(" tpgid=");
        body.append(i64_to_dec(jc.tpgid as i64).as_str());
        body.append(" tty_nr=");
        body.append(i64_to_dec(jc.tty_nr as i64).as_str());
        body.append(format_tty_nr_details(jc.tty_nr).as_str());
        body.append(" is_foreground_pgrp=");
        body.append(yesno_na(is_foreground_pgrp(&jc)));
        body.append("\n");
        let fd0 = read_fd_target(table, pid, 0);
        let fd1 = read_fd_target(table, pid, 1);
        let fd2 = read_fd_target(table, pid, 2);
        body.append("fd0=");
        body.append(fd0.as_str());
        body.append("\nfd1=");
        body.append(fd1.as_str());
        body.append("\nfd2=");
        body.append(fd2.as_str());
        body.append("\n");
    } else {
        body.append("(unavailable: failed to parse the stat line)\n");
    }
    body.append("\n");
    append_section_header(&mut body, label, "/proc/", pid, "/wchan");
    match proc_of(table, pid) {
        Some(p) => body.append(p.wchan.as_str()),
        None => body.append("(unavailable: no such process)"),
    }
    body.append("\n\n");
    append_section_header(&mut body, label, "/proc/", pid, "/stack");
    match proc_of(table, pid) {
        Some(p) => body.append(p.stack.as_str()),
        None => body.append("(unavailable: no such process)"),
    }
    body.append("\n\n");
    append_section_header(&mut body, label, "/proc/", pid, "/syscall");
    match proc_of(table, pid) {
        Some(p) => body.append(p.syscall.as_str()),
        None => body.append("(unavailable: no such process)"),
    }
    body.append("\n\n");
    append_section_header(&mut body, label, "/proc/", pid, "/task/* (sample)");
    let discovered = snapshot_tasks(&mut body, table, pid, 24);
    body.append("\n");
    if discovered.ppoll_pipe_inodes.len() > 0 {
        append_section_header(
            &mut body,
            label,
            "pipe_wakeup_path (from ppoll eventfd+pipe) for pid ",
            pid,
            "",
        );
        emit_pipe_wakeup_path(&mut body, table, &discovered.ppoll_pipe_inodes, 4, 512, 256, 10);
        body.append("\n");
    }
    append_section_header(&mut body, label, "/proc/", pid, "/fd (sample)");
    snapshot_fds(
        &mut body,
        table,
        pid,
        64,
        &discovered.socket_inodes,
        &discovered.pipe_inodes,
    );
    body.append("\n");
    proof {
        crate::strutil::lemma_contains_concat_right(old(out)@, head@, dec_str(pid as nat));
        crate::strutil::lemma_contains_concat_right(old(out)@, head@, head_claim);
    }
    out.append(head.as_str());
    let ghost mid = out@;
    out.append(body.as_str());
    proof {
        assert(mid.is_prefix_of(out@)) by {
            assert(out@.subrange(0, mid.len() as int) =~= mid);
        }
        crate::strutil::lemma_contains_prefix_mono(mid, out@, dec_str(pid as nat));
        crate::strutil::lemma_contains_prefix_mono(mid, out@, head_claim);
        assert(old(out)@.is_prefix_of(out@)) by {
            assert(out@.subrange(0, old(out)@.len() as int) =~= old(out)@);
        }
    }
}

fn state_char_str(c: char) -> (r: String)
    ensures
        r@ == seq![c] || r@ == "?"@,
{
    let lit: &str = char_as_literal(c);
    if lit.unicode_len() == 1 {
        proof {
            assert(lit@ =~= seq![c]);
        }
        lit.to_owned()
    } else {
        "?".to_owned()
    }
}

/// The text an optional syscall number renders to.
pub open spec fn opt_nr_text(n: Option<u64>) -> Seq<char> {
    match n {
        Some(v) => dec_str(v as nat),
        None => "?"@,
    }
}

/// Whether the second sample counts as changed against a first-sample
/// signature: the digest or the leading thread's wchan differs.
pub open spec fn progress_changed(sig0: TaskSignature, p1: ProcRecord) -> bool {
    sig0.digest != sig_digest_of(p1, 12) || sig0.leader_wchan@ != trim_spec(p1.wchan@)
}

/// The per-writer progress entry of the two-sample comparison: the
/// changed=yes/no verdict against the second table, with both leaders'
/// wchan and syscall numbers and both thread counts; the unreadable line
/// when the writer is gone from the second table.
pub open spec fn progress_entry_spec(ps1: Seq<ProcRecord>, wp: u32, sig0: TaskSignature) -> Seq<
    char,
> {
    match find_proc_spec(ps1, wp) {
        None => "  pid="@ + dec_str(wp as nat) + " changed=(unknown) note=missing_or_unreadable\n"@,
        Some(p1) => "  pid="@ + dec_str(wp as nat) + " changed="@ + (if progress_changed(
            sig0,
            p1,
        ) {
            "yes"@
        } else {
            "no"@
        }) + "\n    leader: t0_wchan="@ + sig0.leader_wchan@ + " t0_syscall_nr="@ + opt_nr_text(
            sig0.leader_syscall_nr,
        ) + " -> t1_wchan="@ + trim_spec(p1.wchan@) + " t1_syscall_nr="@ + opt_nr_text(
            leader_nr_spec(p1),
        ) + "\n    tasks: t0_count="@ + dec_str(sig0.task_count as nat) + " t1_count="@ + dec_str(
            p1.tasks@.len() as nat,
        ) + "\n"@,
    }
}

/// Append one writer's progress verdict between the two samples: exactly
/// [`progress_entry_spec`], so `changed=yes` appears iff the digest or the
/// leading wchan moved between the samples.
#[verifier::rlimit(100)]
pub fn append_writer_progress(out: &mut String, t1: &ProcTable, wp: u32, sig0: &TaskSignature)
    ensures
        final(out)@ == old(out)@ + progress_entry_spec(t1.procs@, wp, *sig0),
{
    match sample_task_signature(t1, wp, 12) {
        None => {
            out.append("  pid=");
            out.append(u64_to_dec(wp as u64).as_str());
            out.append(" changed=(unknown) note=missing_or_unreadable\n");
            proof {
                assert(final(out)@ =~= old(out)@ + progress_entry_spec(t1.procs@, wp, *sig0));
            }
        },
        Some(sig1) => {
            let changed: &'static str = if sig0.digest != sig1.digest || !str_eq(
                sig0.leader_wchan.as_str(),
                sig1.leader_wchan.as_str(),
            ) {
                "yes"
            } else {
                "no"
            };
            out.append("  pid=");
            out.append(u64_to_dec(wp as u64).as_str());
            out.append(" changed=");
            out.append(changed);
            out.append("\n    leader: t0_wchan=");
            out.append(sig0.leader_wchan.as_str());
            out.append(" t0_syscall_nr=");
            match sig0.leader_syscall_nr {
                Some(nr) => out.append(u64_to_dec(nr).as_str()),
                None => out.append("?"),
            }
            out.append(" -> t1_wchan=");
            out.append(sig1.leader_wchan.as_str());
            out.append(" t1_syscall_nr=");
            match sig1.leader_syscall_nr {
                Some(nr) => out.append(u64_to_dec(nr).as_str()),
                None => out.append("?"),
            }
            out.append("\n    tasks: t0_count=");
            out.append(u64_to_dec(sig0.task_count as u64).as_str());
            out.append(" t1_count=");
            out.append(u64_to_dec(sig1.task_count as u64).as_str());
            out.append("\n");
            proof {
                reveal_strlit("?");
                assert(final(out)@ =~= old(out)@ + progress_entry_spec(t1.procs@, wp, *sig0));
            }
        },
    }
}

/// Build the whole stuck-process report for `pid` from two `/proc` passes
/// taken a short sleep apart: the full snapshot at each instant, the
/// job-control comparison with the parent, a per-writer progress verdict
/// between the two samples, and a snapshot of up to three direct children.
/// The report is never empty, whatever the tables hold.
pub fn write_stuck_snapshot_named(
    t0: &ProcTable,
    t1: &ProcTable,
    pid: u32,
    label: &str,
    date: &str,
) -> (r: String)
    ensures
        starts_with_seq(r@, "### stuck snapshot\n"@),
        r@.len() > 0,
        crate::strutil::contains_seq(r@, dec_str(pid as nat)),
{
    let mut intro = "pid: ".to_owned();
    intro.append(u64_to_dec(pid as u64).as_str());
    proof {
        crate::strutil::lemma_append_contains(
            intro@.subrange(0, intro@.len() - dec_str(pid as nat).len()),
            dec_str(pid as nat),
        );
        assert(intro@.subrange(0, intro@.len() - dec_str(pid as nat).len()) + dec_str(pid as nat)
            =~= intro@);
    }
    let ghost named = intro@;
    intro.append("\ndate: ");
    intro.append(date);
    intro.append("\n\n");
    proof {
        assert(named.is_prefix_of(intro@)) by {
            assert(intro@.subrange(0, named.len() as int) =~= named);
        }
        crate::strutil::lemma_contains_prefix_mono(named, intro@, dec_str(pid as nat));
    }
    let mut body = String::new();
    let ppoll_pipe_inodes_t0 = collect_ppoll_eventfd_pipe_inodes(t0, pid, 24);
    let writer_pids_t0 = collect_pipe_writer_pids(t0, &ppoll_pipe_inodes_t0, 512, 256, 10);
    let wn = writer_pids_t0.len();
    let wb: usize = if wn < 6 {
        wn
    } else {
        6
    };
    let mut sigs_t0: Vec<(u32, Option<TaskSignature>)> = Vec::new();
    let mut w: usize = 0;
    while w < wb
        invariant
            w <= wb,
            wb <= writer_pids_t0@.len(),
        decreases wb - w,
    {
        let wp = writer_pids_t0[w];
        sigs_t0.push((wp, sample_task_signature(t0, wp, 12)));
        w += 1;
    }
    let mut label_t0 = label.to_owned();
    label_t0.append("_t0");
    snapshot_proc(&mut body, t0, pid, label_t0.as_str());
    let parent_pid = match read_parent_pid(t0, pid) {
        Some(pp) => if pp > 1 && pp != pid {
            Some(pp)
        } else {
            None
        },
        None => None,
    };
    if let Some(pp) = parent_pid {
        body.append("\n--- ");
        body.append(label);
        body.append("_parent (ppid=");
        body.append(u64_to_dec(pp as u64).as_str());
        body.append(") ---\n");
        let mut label_parent = label.to_owned();
        label_parent.append("_parent");
        snapshot_proc(&mut body, t0, pp, label_parent.as_str());
    }
    body.append("\n[");
    body.append(label);
    body.append("] job_control_compare\n");
    append_job_control_compare(&mut body, t0, pid, parent_pid);
    body.append("\n--- ");
    body.append(label);
    body.append("_timeseries_sleep_ms: 250 ---\n");
    let mut label_t1 = label.to_owned();
    label_t1.append("_t1");
    snapshot_proc(&mut body, t1, pid, label_t1.as_str());
    if sigs_t0.len() > 0 {
        body.append("\n[");
        body.append(label);
        body.append("_timeseries] writer_pid_progress (t0 -> t1)\nwriter_pid_progress:\n");
        let sn = sigs_t0.len();
        let mut s: usize = 0;
        while s < sn
            invariant
                s <= sn,
                sn == sigs_t0@.len(),
            decreases sn - s,
        {
            let wp = sigs_t0[s].0;
            match &sigs_t0[s].1 {
                None => {
                    body.append("  pid=");
                    body.append(u64_to_dec(wp as u64).as_str());
                    body.append(" changed=(unknown) note=missing_or_unreadable\n");
                },
                Some(sig0) => {
                    append_writer_progress(&mut body, t1, wp, sig0);
                },
            }
            s += 1;
        }
    }
    let children = pids_by_ppid(t0, pid);
    let cn = children.len();
    let cb: usize = if cn < 3 {
        cn
    } else {
        3
    };
    let mut c: usize = 0;
    while c < cb
        invariant
            c <= cb,
            cb <= children@.len(),
        decreases cb - c,
    {
        body.append("\n--- child[");
        body.append(u64_to_dec(c as u64).as_str());
        body.append("] ---\n");
        snapshot_proc(&mut body, t0, children[c], "child");
        c += 1;
    }
    let mut out = "### stuck snapshot\n".to_owned();
    proof {
        crate::strutil::lemma_contains_concat_right(out@, intro@, dec_str(pid as nat));
    }
    out.append(intro.as_str());
    let ghost mid = out@;
    out.append(body.as_str());
    proof {
        assert(mid.is_prefix_of(out@)) by {
            assert(out@.subrange(0, mid.len() as int) =~= mid);
        }
        crate::strutil::lemma_contains_prefix_mono(mid, out@, dec_str(pid as nat));
        assert(starts_with_seq(out@, "### stuck snapshot\n"@)) by {
            assert(out@.subrange(0, "### stuck snapshot\n"@.len() as int)
                =~= "### stuck snapshot\n"@);
        }
        reveal_strlit("### stuck snapshot\n");
    }
    out
}

/// The stuck-process report under its default label.
pub fn write_stuck_snapshot(t0: &ProcTable, t1: &ProcTable, pid: u32, date: &str) -> (r: String)
    ensures
        starts_with_seq(r@, "### stuck snapshot\n"@),
        r@.len() > 0,
        crate::strutil::contains_seq(r@, dec_str(pid as nat)),
{
    write_stuck_snapshot_named(t0, t1, pid, "edge", date)
}

fn char_as_literal(c: char) -> (r: &'static str)
    ensures
        r@.len() == 1 ==> r@ == seq![c],
{
    proof {
        reveal_strlit("R");
        reveal_strlit("S");
        reveal_strlit("D");
        reveal_strlit("Z");
        reveal_strlit("T");
        reveal_strlit("t");
        reveal_strlit("X");
        reveal_strlit("I");
        reveal_strlit("");
    }
    if c == 'R' {
        "R"
    } else if c == 'S' {
        "S"
    } else if c == 'D' {
        "D"
    } else if c == 'Z' {
        "Z"
    } else if c == 'T' {
        "T"
    } else if c == 't' {
        "t"
    } else if c == 'X' {
        "X"
    } else if c == 'I' {
        "I"
    } else {
        ""
    }
}

} // verus!
