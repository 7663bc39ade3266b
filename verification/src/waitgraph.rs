//! Finding who holds the far end of a pipe a thread is parked on.
//!
//! Linux has no direct "who holds the other end of this pipe" query, so the
//! resolver brute-forces it: walk every process's fd table in the
//! [`ProcTable`], classify each fd's symlink target, and keep the pids whose
//! fd for a wanted pipe inode is open for writing.  Every walk is bounded by
//! explicit pid, fd and per-inode hit budgets: `/proc` is live and racy, and
//! diagnosis must never become the hang.

use vstd::prelude::*;
use vstd::string::*;
use crate::fdres::{
    bracket_inode_spec, fdinfo_flags_spec, is_write_mode, parse_pipe_inode, parse_fdinfo_flags,
    flags_can_write,
};
use crate::index::{ProcTable, ProcRecord, FdRecord};
use crate::syscall::{parse_proc_syscall_line, decode_pollfds};
use crate::strutil::str_trim;
use crate::vecset::{
    strictly_sorted_u32, strictly_sorted_u64, insert_sorted_u32, insert_sorted_u64,
    sort_dedup_u64s, contains_u64,
};

verus! {

/// The pipe inode an fd record points at, if any.
pub open spec fn fd_pipe_inode(f: FdRecord) -> Option<u64> {
    bracket_inode_spec(f.target@, "pipe:["@)
}

/// The fd points at one of the wanted pipe inodes.
pub open spec fn fd_matches(f: FdRecord, inodes: Seq<u64>) -> bool {
    match fd_pipe_inode(f) {
        Some(n) => inodes.contains(n),
        None => false,
    }
}

/// The fd's `fdinfo` flags parse and allow writing.
pub open spec fn fd_writable(f: FdRecord) -> bool {
    match fdinfo_flags_spec(f.fdinfo@) {
        Some(fl) => is_write_mode(fl),
        None => false,
    }
}

/// The fd is a plausible writer to one of the wanted pipes.
pub open spec fn is_pipe_writer_fd(f: FdRecord, inodes: Seq<u64>) -> bool {
    fd_matches(f, inodes) && fd_writable(f)
}

/// The process holds some plausible writer fd to one of the wanted pipes.
pub open spec fn proc_has_writer_fd(p: ProcRecord, inodes: Seq<u64>) -> bool {
    exists|j: int| 0 <= j < p.fds@.len() && is_pipe_writer_fd(#[trigger] p.fds@[j], inodes)
}

/// How many of the first `j_budget` fds match a wanted pipe inode with
/// parseable `fdinfo` flags: the fds the scan credits against the hit
/// budget.
pub open spec fn match_count_fds(fds: Seq<FdRecord>, wanted: Seq<u64>, j_budget: int) -> nat
    decreases fds.len(),
{
    if fds.len() == 0 || j_budget <= 0 {
        0nat
    } else {
        (if fd_matches(fds[0], wanted) && fdinfo_flags_spec(fds[0].fdinfo@) is Some {
            1nat
        } else {
            0nat
        }) + match_count_fds(fds.drop_first(), wanted, j_budget - 1)
    }
}

/// The credited fds over the first `pid_budget` processes.
pub open spec fn match_count(
    ps: Seq<ProcRecord>,
    wanted: Seq<u64>,
    pid_budget: int,
    max_fds: int,
) -> nat
    decreases ps.len(),
{
    if ps.len() == 0 || pid_budget <= 0 {
        0nat
    } else {
        match_count_fds(ps[0].fds@, wanted, max_fds) + match_count(
            ps.drop_first(),
            wanted,
            pid_budget - 1,
            max_fds,
        )
    }
}

proof fn lemma_match_fds_succ(fds: Seq<FdRecord>, wanted: Seq<u64>, j: int)
    requires
        0 <= j < fds.len(),
    ensures
        match_count_fds(fds, wanted, j + 1) == match_count_fds(fds, wanted, j) + (if fd_matches(
            fds[j],
            wanted,
        ) && fdinfo_flags_spec(fds[j].fdinfo@) is Some {
            1nat
        } else {
            0nat
        }),
    decreases j,
{
    if j > 0 {
        lemma_match_fds_succ(fds.drop_first(), wanted, j - 1);
        assert(fds.drop_first()[j - 1] == fds[j]);
    } else {
        assert(match_count_fds(fds.drop_first(), wanted, 0) == 0);
    }
}

proof fn lemma_match_fds_mono(fds: Seq<FdRecord>, wanted: Seq<u64>, a: int, b: int)
    requires
        a <= b,
    ensures
        match_count_fds(fds, wanted, a) <= match_count_fds(fds, wanted, b),
    decreases fds.len(),
{
    if fds.len() > 0 && a > 0 {
        lemma_match_fds_mono(fds.drop_first(), wanted, a - 1, b - 1);
    }
}

proof fn lemma_match_count_succ(ps: Seq<ProcRecord>, wanted: Seq<u64>, k: int, max_fds: int)
    requires
        0 <= k < ps.len(),
    ensures
        match_count(ps, wanted, k + 1, max_fds) == match_count(ps, wanted, k, max_fds)
            + match_count_fds(ps[k].fds@, wanted, max_fds),
    decreases k,
{
    if k > 0 {
        lemma_match_count_succ(ps.drop_first(), wanted, k - 1, max_fds);
        assert(ps.drop_first()[k - 1] == ps[k]);
    } else {
        assert(match_count(ps.drop_first(), wanted, 0, max_fds) == 0);
    }
}

proof fn lemma_match_count_mono(ps: Seq<ProcRecord>, wanted: Seq<u64>, a: int, b: int, max_fds: int)
    requires
        a <= b,
    ensures
        match_count(ps, wanted, a, max_fds) <= match_count(ps, wanted, b, max_fds),
    decreases ps.len(),
{
    if ps.len() > 0 && a > 0 {
        lemma_match_count_mono(ps.drop_first(), wanted, a - 1, b - 1, max_fds);
    }
}

#[verifier::loop_isolation(false)]
fn count_get(counts: &Vec<(u64, usize)>, inode: u64) -> (r: Option<usize>)
    ensures
        match r {
            Some(c) => exists|idx: int|
                0 <= idx < counts@.len() && (#[trigger] counts@[idx]).0 == inode && counts@[idx].1
                    == c,
            None => forall|idx: int| 0 <= idx < counts@.len() ==> (#[trigger] counts@[idx]).0
                != inode,
        },
{
    let n = counts.len();
    let mut k: usize = 0;
    while k < n
        invariant
            k <= n,
            forall|idx: int| 0 <= idx < k ==> (#[trigger] counts@[idx]).0 != inode,
        decreases n - k,
    {
        if counts[k].0 == inode {
            return Some(counts[k].1);
        }
        k += 1;
    }
    None
}

#[verifier::loop_isolation(false)]
fn count_incr(counts: &mut Vec<(u64, usize)>, inode: u64)
    requires
        forall|idx: int|
            (0 <= idx < old(counts)@.len() && (#[trigger] old(counts)@[idx]).0 == inode) ==> old(
                counts,
            )@[idx].1 < usize::MAX,
    ensures
        final(counts)@.len() == old(counts)@.len(),
        forall|idx: int|
            0 <= idx < old(counts)@.len() ==> (#[trigger] final(counts)@[idx]).0 == old(
                counts,
            )@[idx].0 && (final(counts)@[idx].1 == old(counts)@[idx].1 || final(counts)@[idx].1
                == old(counts)@[idx].1 + 1),
{
    let n = counts.len();
    let mut k: usize = 0;
    while k < n
        invariant
            k <= n,
            counts@ == old(counts)@,
        decreases n - k,
    {
        if counts[k].0 == inode {
            let c = counts[k].1;
            counts.set(k, (inode, c + 1));
            return;
        }
        k += 1;
    }
}

/// Scan every process's fd table for plausible writers to the wanted pipe
/// inodes, and return their pids, ascending and duplicate-free.
///
/// At most `max_pids` processes and `max_fds_per_pid` fds per process are
/// looked at, and each inode is credited at most `max_hits_per_inode`
/// matching fds.  Every returned pid really holds a write-open fd to a
/// wanted pipe; and whenever the hit budget covers every credited fd in
/// the scanned rectangle, every writer fd that lies within the pid and fd
/// budgets has its process returned — a writer inside the budgets is
/// found even in a larger table.
#[verifier::loop_isolation(false)]
#[verifier::rlimit(100)]
pub fn collect_pipe_writer_pids(
    table: &ProcTable,
    pipe_inodes: &Vec<u64>,
    max_pids: usize,
    max_fds_per_pid: usize,
    max_hits_per_inode: usize,
) -> (r: Vec<u32>)
    ensures
        strictly_sorted_u32(r@),
        forall|p: u32|
            r@.contains(p) ==> exists|k: int|
                0 <= k < table.procs@.len() && (#[trigger] table.procs@[k]).pid == p
                    && proc_has_writer_fd(table.procs@[k], pipe_inodes@),
        max_hits_per_inode >= match_count(
            table.procs@,
            pipe_inodes@,
            max_pids as int,
            max_fds_per_pid as int,
        ) ==> forall|k: int, j: int|
            (0 <= k < table.procs@.len() && k < max_pids && 0 <= j
                < (#[trigger] table.procs@[k]).fds@.len() && j < max_fds_per_pid
                && is_pipe_writer_fd(#[trigger] table.procs@[k].fds@[j], pipe_inodes@))
                ==> r@.contains(table.procs@[k].pid),
{
    let ghost ps = table.procs@;
    let ghost fbudget = max_fds_per_pid as int;
    let ghost rect = match_count(ps, pipe_inodes@, max_pids as int, fbudget);
    let ghost hyp = max_hits_per_inode >= rect;
    let mut writers: Vec<u32> = Vec::new();
    if pipe_inodes.len() == 0 {
        return writers;
    }
    let wanted = sort_dedup_u64s(pipe_inodes);
    let mut counts: Vec<(u64, usize)> = Vec::new();
    let wn = wanted.len();
    let mut w: usize = 0;
    while w < wn
        invariant
            w <= wn,
            counts@.len() == w,
            forall|idx: int| 0 <= idx < w ==> (#[trigger] counts@[idx]).0 == wanted@[idx],
            forall|idx: int| 0 <= idx < w ==> (#[trigger] counts@[idx]).1 == 0,
        decreases wn - w,
    {
        counts.push((wanted[w], 0));
        w += 1;
    }
    let np = table.procs.len();
    let mut k: usize = 0;
    while k < np && k < max_pids
        invariant
            k <= np,
            k <= max_pids,
            strictly_sorted_u32(writers@),
            counts@.len() == wn,
            forall|idx: int| 0 <= idx < wn ==> (#[trigger] counts@[idx]).0 == wanted@[idx],
            forall|idx: int| 0 <= idx < wn ==> (#[trigger] counts@[idx]).1 <= match_count(
                ps,
                pipe_inodes@,
                k as int,
                fbudget,
            ),
            forall|p: u32|
                writers@.contains(p) ==> exists|k2: int|
                    0 <= k2 < ps.len() && (#[trigger] ps[k2]).pid == p && proc_has_writer_fd(
                        ps[k2],
                        pipe_inodes@,
                    ),
            hyp ==> forall|k2: int, j2: int|
                (0 <= k2 < k && 0 <= j2 < (#[trigger] ps[k2]).fds@.len() && j2 < max_fds_per_pid
                    && is_pipe_writer_fd(#[trigger] ps[k2].fds@[j2], pipe_inodes@))
                    ==> writers@.contains(ps[k2].pid),
        decreases np - k,
    {
        let pid = table.procs[k].pid;
        let nf = table.procs[k].fds.len();
        let mut j: usize = 0;
        while j < nf && j < max_fds_per_pid
            invariant
                k < np,
                j <= nf,
                j <= max_fds_per_pid,
                nf == ps[k as int].fds@.len(),
                strictly_sorted_u32(writers@),
                counts@.len() == wn,
                forall|idx: int| 0 <= idx < wn ==> (#[trigger] counts@[idx]).0 == wanted@[idx],
                forall|idx: int|
                    0 <= idx < wn ==> (#[trigger] counts@[idx]).1 <= match_count(
                        ps,
                        pipe_inodes@,
                        k as int,
                        fbudget,
                    ) + match_count_fds(ps[k as int].fds@, pipe_inodes@, j as int),
                forall|p: u32|
                    writers@.contains(p) ==> exists|k2: int|
                        0 <= k2 < ps.len() && (#[trigger] ps[k2]).pid == p && proc_has_writer_fd(
                            ps[k2],
                            pipe_inodes@,
                        ),
                hyp ==> forall|k2: int, j2: int|
                    (0 <= k2 < k && 0 <= j2 < (#[trigger] ps[k2]).fds@.len() && j2 < max_fds_per_pid
                        && is_pipe_writer_fd(#[trigger] ps[k2].fds@[j2], pipe_inodes@))
                        ==> writers@.contains(ps[k2].pid),
                hyp ==> forall|j2: int|
                    (0 <= j2 < j && is_pipe_writer_fd(
                        #[trigger] ps[k as int].fds@[j2],
                        pipe_inodes@,
                    )) ==> writers@.contains(pid),
            decreases nf - j,
        {
            let ghost fds_k = ps[k as int].fds@;
            let f = &table.procs[k].fds[j];
            proof {
                lemma_match_fds_succ(fds_k, pipe_inodes@, j as int);
            }
            let inode = match parse_pipe_inode(f.target.as_str()) {
                Some(n) => n,
                None => {
                    j += 1;
                    continue;
                },
            };
            if !contains_u64(&wanted, inode) {
                j += 1;
                continue;
            }
            let cnt = match count_get(&counts, inode) {
                Some(c) => c,
                None => 0,
            };
            if cnt >= max_hits_per_inode {
                proof {
                    if hyp && is_pipe_writer_fd(fds_k[j as int], pipe_inodes@) {
                        lemma_match_fds_mono(fds_k, pipe_inodes@, j as int + 1, fbudget);
                        lemma_match_count_succ(ps, pipe_inodes@, k as int, fbudget);
                        lemma_match_count_mono(
                            ps,
                            pipe_inodes@,
                            k as int + 1,
                            max_pids as int,
                            fbudget,
                        );
                        assert(cnt < max_hits_per_inode);
                    }
                }
                j += 1;
                continue;
            }
            let flags = match parse_fdinfo_flags(f.fdinfo.as_str()) {
                Some(fl) => fl,
                None => {
                    j += 1;
                    continue;
                },
            };
            if flags_can_write(flags) {
                proof {
                    assert(is_pipe_writer_fd(ps[k as int].fds@[j as int], pipe_inodes@));
                    assert(proc_has_writer_fd(ps[k as int], pipe_inodes@));
                }
                insert_sorted_u32(&mut writers, pid);
            }
            count_incr(&mut counts, inode);
            j += 1;
        }
        proof {
            lemma_match_fds_mono(ps[k as int].fds@, pipe_inodes@, j as int, fbudget);
            lemma_match_count_succ(ps, pipe_inodes@, k as int, fbudget);
        }
        k += 1;
    }
    proof {
        if hyp {
            assert forall|k2: int, j2: int|
                (0 <= k2 < ps.len() && k2 < max_pids && 0 <= j2 < (#[trigger] ps[k2]).fds@.len()
                    && j2 < max_fds_per_pid && is_pipe_writer_fd(
                    #[trigger] ps[k2].fds@[j2],
                    pipe_inodes@,
                )) implies writers@.contains(ps[k2].pid) by {
                assert(k2 < k);
            }
        }
    }
    writers
}

/// The first seven tokens of a syscall line all parse.
pub open spec fn syscall_line_parses(line: Seq<char>) -> bool {
    let toks = crate::strutil::split_ws_spec(line);
    toks.len() >= 7 && forall|k: int| 0 <= k < 7 ==> crate::syscall::mixed_val_spec(
        #[trigger] toks[k],
    ) is Some
}

/// Value of token `k` of a parsed syscall line.
pub open spec fn syscall_tok(line: Seq<char>, k: int) -> u64 {
    crate::syscall::mixed_val_spec(crate::strutil::split_ws_spec(line)[k])->Some_0
}

/// The task is parked in the fixed-set wait syscall over a set that holds
/// an eventfd, and entry `e` of its remote pollfd array is an fd whose
/// symlink target names pipe inode `n`.
pub open spec fn task_ppoll_pipe_evidence(
    ps: Seq<ProcRecord>,
    pid: u32,
    tk: crate::index::TaskRecord,
    n: u64,
) -> bool {
    let line = crate::strutil::trim_spec(tk.syscall@);
    &&& syscall_line_parses(line)
    &&& syscall_tok(line, 0) == 73
    &&& 1 <= syscall_tok(line, 2) <= 8
    &&& match tk.poll_buf {
        Some(buf) => {
            let nfds = syscall_tok(line, 2) as int;
            &&& buf@.len() == nfds * 8
            &&& exists|e2: int|
                0 <= e2 < nfds && crate::syscall::as_i32(crate::syscall::le32(buf@, e2 * 8)) >= 0
                    && crate::strutil::contains_seq(
                    crate::index::fd_target_spec(
                        ps,
                        pid,
                        crate::syscall::le32(buf@, #[trigger] (e2 * 8)) as u32,
                    ),
                    "anon_inode:[eventfd]"@,
                )
            &&& exists|e: int|
                0 <= e < nfds && crate::syscall::as_i32(crate::syscall::le32(buf@, e * 8)) >= 0
                    && bracket_inode_spec(
                    crate::index::fd_target_spec(
                        ps,
                        pid,
                        crate::syscall::le32(buf@, #[trigger] (e * 8)) as u32,
                    ),
                    "pipe:["@,
                ) == Some(n)
        },
        None => false,
    }
}

/// The pipe inodes that the threads of `pid` are parked on in eventfd-bearing
/// fixed-set waits, ascending and duplicate-free.  At most `max_tasks`
/// threads are examined; every returned inode is really present in such a
/// wait set.
#[verifier::loop_isolation(false)]
pub fn collect_ppoll_eventfd_pipe_inodes(table: &ProcTable, pid: u32, max_tasks: usize) -> (r: Vec<
    u64,
>)
    ensures
        strictly_sorted_u64(r@),
        forall|n: u64|
            r@.contains(n) ==> ({
                &&& crate::index::find_proc_spec(table.procs@, pid) is Some
                &&& exists|t: int|
                    0 <= t < crate::index::find_proc_spec(table.procs@, pid)->Some_0.tasks@.len()
                        && t < max_tasks && task_ppoll_pipe_evidence(
                        table.procs@,
                        pid,
                        #[trigger] crate::index::find_proc_spec(
                            table.procs@,
                            pid,
                        )->Some_0.tasks@[t],
                        n,
                    )
            }),
{
    let mut out: Vec<u64> = Vec::new();
    let rec = match crate::index::proc_of(table, pid) {
        Some(p) => p,
        None => {
            return out;
        },
    };
    let ghost precs = table.procs@;
    let tn = rec.tasks.len();
    let bound: usize = if max_tasks < tn {
        max_tasks
    } else {
        tn
    };
    let mut t: usize = 0;
    while t < bound
        invariant
            t <= bound,
            strictly_sorted_u64(out@),
            forall|n: u64|
                out@.contains(n) ==> ({
                    &&& crate::index::find_proc_spec(precs, pid) is Some
                    &&& exists|t2: int|
                        0 <= t2 < crate::index::find_proc_spec(precs, pid)->Some_0.tasks@.len()
                            && t2 < max_tasks && task_ppoll_pipe_evidence(
                            precs,
                            pid,
                            #[trigger] crate::index::find_proc_spec(precs, pid)->Some_0.tasks@[t2],
                            n,
                        )
                }),
        decreases bound - t,
    {
        let task = &rec.tasks[t];
        let line = str_trim(task.syscall.as_str());
        let sc = match parse_proc_syscall_line(line) {
            Some(sc) => sc,
            None => {
                t += 1;
                continue;
            },
        };
        if sc.nr != 73 {
            t += 1;
            continue;
        }
        let nfds64 = sc.args[1];
        if nfds64 < 1 || nfds64 > 8 {
            t += 1;
            continue;
        }
        let nfds = nfds64 as usize;
        let buf = match &task.poll_buf {
            Some(b) => b,
            None => {
                t += 1;
                continue;
            },
        };
        let entries = match decode_pollfds(buf.as_slice(), nfds) {
            Some(es) => es,
            None => {
                t += 1;
                continue;
            },
        };
        let mut has_eventfd = false;
        let ghost mut efd_idx: int = 0;
        let mut e: usize = 0;
        while e < nfds
            invariant
                e <= nfds,
                entries@.len() == nfds,
                has_eventfd ==> 0 <= efd_idx < e && crate::syscall::as_i32(
                    crate::syscall::le32(buf@, efd_idx * 8),
                ) >= 0 && crate::strutil::contains_seq(
                    crate::index::fd_target_spec(precs, pid, crate::syscall::le32(
                        buf@,
                        efd_idx * 8,
                    ) as u32),
                    "anon_inode:[eventfd]"@,
                ),
            decreases nfds - e,
        {
            let fd = entries[e].fd;
            if fd >= 0 {
                let target = crate::index::read_fd_target(table, pid, fd as u32);
                proof {
                    let w = crate::syscall::le32(buf@, e as int * 8);
                    assert(fd as int == crate::syscall::as_i32(w));
                    assert(w < 0x80000000);
                    assert(fd as u32 == w);
                }
                if crate::strutil::str_contains(target.as_str(), "anon_inode:[eventfd]") {
                    if !has_eventfd {
                        has_eventfd = true;
                        proof {
                            efd_idx = e as int;
                        }
                    }
                }
            }
            e += 1;
        }
        if has_eventfd {
            let mut e2: usize = 0;
            while e2 < nfds
                invariant
                    e2 <= nfds,
                    entries@.len() == nfds,
                    has_eventfd,
                    0 <= efd_idx < nfds && crate::syscall::as_i32(
                        crate::syscall::le32(buf@, efd_idx * 8),
                    ) >= 0 && crate::strutil::contains_seq(
                        crate::index::fd_target_spec(precs, pid, crate::syscall::le32(
                            buf@,
                            efd_idx * 8,
                        ) as u32),
                        "anon_inode:[eventfd]"@,
                    ),
                    strictly_sorted_u64(out@),
                    forall|n: u64|
                        out@.contains(n) ==> ({
                            &&& crate::index::find_proc_spec(precs, pid) is Some
                            &&& exists|t2: int|
                                0 <= t2 < crate::index::find_proc_spec(
                                    precs,
                                    pid,
                                )->Some_0.tasks@.len() && t2 < max_tasks
                                    && task_ppoll_pipe_evidence(
                                    precs,
                                    pid,
                                    #[trigger] crate::index::find_proc_spec(
                                        precs,
                                        pid,
                                    )->Some_0.tasks@[t2],
                                    n,
                                )
                        }),
                decreases nfds - e2,
            {
                let fd = entries[e2].fd;
                if fd >= 0 {
                    let target = crate::index::read_fd_target(table, pid, fd as u32);
                    if let Some(n) = parse_pipe_inode(target.as_str()) {
                        proof {
                            let line_g = crate::strutil::trim_spec(rec.tasks@[t as int].syscall@);
                            let tkg = crate::strutil::split_ws_spec(line_g);
                            assert(crate::syscall::mixed_val_spec(tkg[1int + 1]) == Some(sc.args[1]));
                            assert forall|k2: int| 0 <= k2 < 7 implies crate::syscall::mixed_val_spec(
                                #[trigger] tkg[k2],
                            ) is Some by {
                                if k2 >= 1 {
                                    assert(crate::syscall::mixed_val_spec(tkg[(k2 - 1) + 1])
                                        == Some(sc.args[k2 - 1]));
                                }
                            }
                            assert(syscall_line_parses(line_g));
                            assert(syscall_tok(line_g, 0) == sc.nr);
                            assert(syscall_tok(line_g, 2) == sc.args[1]);
                            let w = crate::syscall::le32(buf@, e2 as int * 8);
                            assert(fd as int == crate::syscall::as_i32(w));
                            assert(w < 0x80000000);
                            assert(fd as u32 == w);
                            assert(task_ppoll_pipe_evidence(precs, pid, rec.tasks@[t as int], n));
                        }
                        insert_sorted_u64(&mut out, n);
                    }
                }
                e2 += 1;
            }
        }
        t += 1;
    }
    out
}

} // verus!
