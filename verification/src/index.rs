//! A value model of what `/proc` exposes about processes, and the bounded
//! process index built over it.
//!
//! The diagnosis engine never reads the live filesystem itself: the caller
//! hands it a [`ProcTable`] holding the text that was read, best-effort, for
//! each process of interest — a missing or unreadable file appears as a
//! placeholder string, never as an error.  Everything derived from the table
//! is then ordinary verified computation.

use vstd::prelude::*;
use vstd::string::*;
use crate::strutil::{
    starts_with_seq, trim_spec, split_char_spec, join_sep, seq_views, str_trim, str_starts_with,
    split_on_char, join_with,
};
use crate::procstat::{ProcStatJobControl, stat_jc_spec, stat_ppid_spec};

verus! {

/// One thread of a process, as `/proc/<pid>/task/<tid>/...` shows it.
pub struct TaskRecord {
    pub tid: u32,
    pub comm: String,
    pub wchan: String,
    pub syscall: String,
    pub stack: String,
    /// Bytes read out of the thread's blocked-poll argument array, when the
    /// caller could read them.
    pub poll_buf: Option<Vec<u8>>,
}

/// One open fd of a process: its symlink target and its `fdinfo` text.
pub struct FdRecord {
    pub fd: u32,
    pub target: String,
    pub fdinfo: String,
}

/// One process, as `/proc/<pid>/...` shows it.
pub struct ProcRecord {
    pub pid: u32,
    pub comm: String,
    /// Raw `cmdline` text, arguments still separated by NUL characters.
    pub cmdline: String,
    pub stat: String,
    pub status: String,
    pub wchan: String,
    pub stack: String,
    pub syscall: String,
    /// Line count of `maps`, when it could be counted.
    pub maps_lines: Option<u64>,
    pub tasks: Vec<TaskRecord>,
    pub fds: Vec<FdRecord>,
}

/// One table of `/proc/net/...`, kept verbatim.
pub struct NetTable {
    pub name: String,
    pub text: String,
}

/// Everything one pass over `/proc` gathered.
pub struct ProcTable {
    pub procs: Vec<ProcRecord>,
    pub net: Vec<NetTable>,
}

/// The first record for `pid`, if any.
pub open spec fn find_proc_spec(ps: Seq<ProcRecord>, pid: u32) -> Option<ProcRecord>
    decreases ps.len(),
{
    if ps.len() == 0 {
        None
    } else if ps[0].pid == pid {
        Some(ps[0])
    } else {
        find_proc_spec(ps.drop_first(), pid)
    }
}

/// The first record for `fd`, if any.
pub open spec fn find_fd_spec(fds: Seq<FdRecord>, fd: u32) -> Option<FdRecord>
    decreases fds.len(),
{
    if fds.len() == 0 {
        None
    } else if fds[0].fd == fd {
        Some(fds[0])
    } else {
        find_fd_spec(fds.drop_first(), fd)
    }
}

/// Look a process up by pid.
pub fn proc_of<'a>(table: &'a ProcTable, pid: u32) -> (r: Option<&'a ProcRecord>)
    ensures
        match r {
            Some(p) => find_proc_spec(table.procs@, pid) == Some(*p),
            None => find_proc_spec(table.procs@, pid) is None,
        },
{
    let n = table.procs.len();
    let mut i: usize = 0;
    proof {
        assert(table.procs@.subrange(0, n as int) =~= table.procs@);
    }
    while i < n
        invariant
            n == table.procs@.len(),
            i <= n,
            find_proc_spec(table.procs@, pid) == find_proc_spec(
                table.procs@.subrange(i as int, n as int),
                pid,
            ),
        decreases n - i,
    {
        proof {
            assert(table.procs@.subrange(i as int, n as int)[0] == table.procs@[i as int]);
            assert(table.procs@.subrange(i as int, n as int).drop_first() =~= table.procs@.subrange(
                i + 1,
                n as int,
            ));
        }
        if table.procs[i].pid == pid {
            return Some(&table.procs[i]);
        }
        i += 1;
    }
    proof {
        assert(table.procs@.subrange(n as int, n as int) =~= Seq::<ProcRecord>::empty());
    }
    None
}

/// Look an fd record up in a process.
pub fn fd_of<'a>(rec: &'a ProcRecord, fd: u32) -> (r: Option<&'a FdRecord>)
    ensures
        match r {
            Some(f) => find_fd_spec(rec.fds@, fd) == Some(*f),
            None => find_fd_spec(rec.fds@, fd) is None,
        },
{
    let n = rec.fds.len();
    let mut i: usize = 0;
    proof {
        assert(rec.fds@.subrange(0, n as int) =~= rec.fds@);
    }
    while i < n
        invariant
            n == rec.fds@.len(),
            i <= n,
            find_fd_spec(rec.fds@, fd) == find_fd_spec(rec.fds@.subrange(i as int, n as int), fd),
        decreases n - i,
    {
        proof {
            assert(rec.fds@.subrange(i as int, n as int)[0] == rec.fds@[i as int]);
            assert(rec.fds@.subrange(i as int, n as int).drop_first() =~= rec.fds@.subrange(
                i + 1,
                n as int,
            ));
        }
        if rec.fds[i].fd == fd {
            return Some(&rec.fds[i]);
        }
        i += 1;
    }
    proof {
        assert(rec.fds@.subrange(n as int, n as int) =~= Seq::<FdRecord>::empty());
    }
    None
}

/// The target an fd symlink shows, or a placeholder when the process or the
/// fd is not in the table.
pub open spec fn fd_target_spec(ps: Seq<ProcRecord>, pid: u32, fd: u32) -> Seq<char> {
    match find_proc_spec(ps, pid) {
        Some(p) => match find_fd_spec(p.fds@, fd) {
            Some(f) => f.target@,
            None => "(unreadable: no such fd)"@,
        },
        None => "(unreadable: no such fd)"@,
    }
}

/// Resolve an fd's symlink target out of the table, best effort.
pub fn read_fd_target(table: &ProcTable, pid: u32, fd: u32) -> (r: String)
    ensures
        r@ == fd_target_spec(table.procs@, pid, fd),
{
    match proc_of(table, pid) {
        Some(p) => match fd_of(p, fd) {
            Some(f) => f.target.clone(),
            None => "(unreadable: no such fd)".to_owned(),
        },
        None => "(unreadable: no such fd)".to_owned(),
    }
}

/// Job control of a process in the table: nothing when the process is
/// missing or its `stat` text is a placeholder.
pub open spec fn table_jc_spec(ps: Seq<ProcRecord>, pid: u32) -> Option<ProcStatJobControl> {
    match find_proc_spec(ps, pid) {
        Some(p) => if starts_with_seq(p.stat@, "(unavailable:"@) {
            None
        } else {
            stat_jc_spec(p.stat@)
        },
        None => None,
    }
}

/// Job-control fields of `pid`, best effort.
pub fn read_job_control(table: &ProcTable, pid: u32) -> (r: Option<ProcStatJobControl>)
    ensures
        r == table_jc_spec(table.procs@, pid),
{
    match proc_of(table, pid) {
        Some(p) => {
            if str_starts_with(p.stat.as_str(), "(unavailable:") {
                None
            } else {
                crate::procstat::parse_proc_stat_job_control(p.stat.as_str())
            }
        },
        None => None,
    }
}

/// Parent pid of `pid`, read out of its `stat` text, best effort.
pub fn read_parent_pid(table: &ProcTable, pid: u32) -> (r: Option<u32>)
    ensures
        r == match table_jc_spec(table.procs@, pid) {
            Some(jc) => Some(jc.ppid),
            None => None,
        },
{
    match read_job_control(table, pid) {
        Some(jc) => Some(jc.ppid),
        None => None,
    }
}

/// The trimmed comm of a process in the table.
pub open spec fn comm_spec(ps: Seq<ProcRecord>, pid: u32) -> Option<Seq<char>> {
    match find_proc_spec(ps, pid) {
        Some(p) => Some(trim_spec(p.comm@)),
        None => None,
    }
}

/// The short command name of `pid`, trimmed, best effort.
pub fn read_proc_comm(table: &ProcTable, pid: u32) -> (r: Option<String>)
    ensures
        match r {
            Some(s) => comm_spec(table.procs@, pid) == Some(s@),
            None => comm_spec(table.procs@, pid) is None,
        },
{
    match proc_of(table, pid) {
        Some(p) => Some(str_trim(p.comm.as_str()).to_owned()),
        None => None,
    }
}

/// The non-empty pieces of `ls`, in order.
pub open spec fn nonempty_pieces(ls: Seq<Seq<char>>) -> Seq<Seq<char>>
    decreases ls.len(),
{
    if ls.len() == 0 {
        Seq::empty()
    } else {
        let head: Seq<Seq<char>> = if ls[0].len() > 0 {
            seq![ls[0]]
        } else {
            Seq::empty()
        };
        head + nonempty_pieces(ls.drop_first())
    }
}

/// The command line a raw NUL-separated `cmdline` text denotes, clipped to
/// `max` characters: the non-empty arguments joined with spaces, a clip
/// marker appended when the text was longer, nothing when that leaves an
/// empty string.
pub open spec fn cmdline_spec(raw: Seq<char>, max: nat) -> Option<Seq<char>> {
    let clipped = if raw.len() > max {
        raw.subrange(0, max as int)
    } else {
        raw
    };
    let kept = nonempty_pieces(split_char_spec(clipped, '\u{0}'));
    let joined = join_sep(kept, " "@);
    let full = if raw.len() > max {
        joined + " \u{2026}(clipped)\u{2026}"@
    } else {
        joined
    };
    if full.len() == 0 {
        None
    } else {
        Some(full)
    }
}

/// The command line of `pid`, clipped to `max_chars`, best effort.
pub fn read_proc_cmdline(table: &ProcTable, pid: u32, max_chars: usize) -> (r: Option<String>)
    ensures
        match find_proc_spec(table.procs@, pid) {
            Some(p) => match r {
                Some(s) => cmdline_spec(p.cmdline@, max_chars as nat) == Some(s@),
                None => cmdline_spec(p.cmdline@, max_chars as nat) is None,
            },
            None => r is None,
        },
{
    let p = match proc_of(table, pid) {
        Some(p) => p,
        None => {
            return None;
        },
    };
    let raw: &str = p.cmdline.as_str();
    let rl = raw.unicode_len();
    let clipped: &str = if rl > max_chars {
        raw.substring_char(0, max_chars)
    } else {
        raw
    };
    proof {
        if rl <= max_chars {
            assert(raw@.subrange(0, rl as int) =~= raw@);
        }
    }
    let pieces = split_on_char(clipped, '\u{0}');
    let ghost pv = seq_views(pieces@);
    let mut kept: Vec<String> = Vec::new();
    let n = pieces.len();
    let mut i: usize = 0;
    proof {
        assert(pv.subrange(0, n as int) =~= pv);
        assert(seq_views(kept@) =~= Seq::<Seq<char>>::empty());
        assert(seq_views(kept@) + nonempty_pieces(pv) =~= nonempty_pieces(pv));
    }
    while i < n
        invariant
            n == pieces@.len(),
            pv == seq_views(pieces@),
            i <= n,
            nonempty_pieces(pv) == seq_views(kept@) + nonempty_pieces(
                pv.subrange(i as int, n as int),
            ),
        decreases n - i,
    {
        let ghost rest = pv.subrange(i as int, n as int);
        proof {
            assert(rest[0] == pieces@[i as int]@);
            assert(rest.drop_first() =~= pv.subrange(i + 1, n as int));
        }
        if pieces[i].as_str().unicode_len() > 0 {
            let piece = pieces[i].clone();
            kept.push(piece);
            proof {
                assert(seq_views(kept@) =~= seq_views(kept@.drop_last()) + seq![pieces@[i as int]@]);
                assert(seq_views(kept@.drop_last()) + (seq![pieces@[i as int]@] + nonempty_pieces(
                    rest.drop_first(),
                )) =~= seq_views(kept@) + nonempty_pieces(rest.drop_first()));
            }
        } else {
            proof {
                assert(pieces@[i as int]@.len() == 0);
            }
        }
        i += 1;
    }
    proof {
        assert(pv.subrange(n as int, n as int) =~= Seq::<Seq<char>>::empty());
        assert(seq_views(kept@) + Seq::<Seq<char>>::empty() =~= seq_views(kept@));
    }
    let mut joined = join_with(&kept, " ");
    if rl > max_chars {
        joined.append(" \u{2026}(clipped)\u{2026}");
    }
    if joined.unicode_len() == 0 {
        None
    } else {
        Some(joined)
    }
}

/// The pids whose `stat` text names `ppid` as parent, in table order.
pub open spec fn children_spec(ps: Seq<ProcRecord>, ppid: u32) -> Seq<u32>
    decreases ps.len(),
{
    if ps.len() == 0 {
        Seq::empty()
    } else {
        let head: Seq<u32> = if stat_ppid_spec(ps[0].stat@) == Some(ppid) {
            seq![ps[0].pid]
        } else {
            Seq::empty()
        };
        head + children_spec(ps.drop_first(), ppid)
    }
}

/// All processes whose reported parent is `ppid`.
pub fn pids_by_ppid(table: &ProcTable, ppid: u32) -> (r: Vec<u32>)
    ensures
        r@ == children_spec(table.procs@, ppid),
{
    let n = table.procs.len();
    let mut out: Vec<u32> = Vec::new();
    let mut i: usize = 0;
    proof {
        assert(table.procs@.subrange(0, n as int) =~= table.procs@);
        assert(out@ + children_spec(table.procs@, ppid) =~= children_spec(table.procs@, ppid));
    }
    while i < n
        invariant
            n == table.procs@.len(),
            i <= n,
            children_spec(table.procs@, ppid) == out@ + children_spec(
                table.procs@.subrange(i as int, n as int),
                ppid,
            ),
        decreases n - i,
    {
        let ghost rest = table.procs@.subrange(i as int, n as int);
        proof {
            assert(rest[0] == table.procs@[i as int]);
            assert(rest.drop_first() =~= table.procs@.subrange(i + 1, n as int));
        }
        let jc = crate::procstat::parse_proc_stat_job_control(table.procs[i].stat.as_str());
        let matches = match jc {
            Some(jc) => jc.ppid == ppid,
            None => false,
        };
        if matches {
            let pid = table.procs[i].pid;
            out.push(pid);
            proof {
                assert(out@.drop_last() + (seq![pid] + children_spec(rest.drop_first(), ppid))
                    =~= out@ + children_spec(rest.drop_first(), ppid));
            }
        }
        i += 1;
    }
    proof {
        assert(table.procs@.subrange(n as int, n as int) =~= Seq::<ProcRecord>::empty());
        assert(out@ + Seq::<u32>::empty() =~= out@);
    }
    out
}

/// `p` is `root` or reachable from it through at most `d` parent-to-child
/// edges of the table's reported parents.
pub open spec fn is_descendant_within(ps: Seq<ProcRecord>, root: u32, p: u32, d: int) -> bool
    decreases d,
{
    if p == root {
        true
    } else if d <= 0 {
        false
    } else {
        exists|q: u32|
            is_descendant_within(ps, root, q, d - 1) && #[trigger] children_spec(ps, q).contains(p)
    }
}

/// Reachability within a smaller budget implies it within a larger one.
pub proof fn lemma_descendant_mono(ps: Seq<ProcRecord>, root: u32, p: u32, d: int, d2: int)
    requires
        is_descendant_within(ps, root, p, d),
        d <= d2,
    ensures
        is_descendant_within(ps, root, p, d2),
    decreases d2,
{
    if p != root && d > 0 {
        let q = choose|q: u32|
            is_descendant_within(ps, root, q, d - 1) && #[trigger] children_spec(ps, q).contains(p);
        lemma_descendant_mono(ps, root, q, d - 1, d2 - 1);
    }
}

/// Breadth-first search below `root_pid` for a process whose comm begins
/// with `VM:`, visiting at most `max_nodes` processes and descending at
/// most `max_depth` levels.  A returned pid really has such a comm and is
/// `root_pid` or a descendant reachable within `max_depth` parent-to-child
/// edges; within the budgets the search is best effort.
pub fn find_vm_like_descendant_pid(
    table: &ProcTable,
    root_pid: u32,
    max_depth: usize,
    max_nodes: usize,
) -> (r: Option<u32>)
    ensures
        match r {
            Some(p) => comm_spec(table.procs@, p) matches Some(c) && starts_with_seq(c, "VM:"@)
                && is_descendant_within(table.procs@, root_pid, p, max_depth as int),
            None => true,
        },
{
    let ghost ps = table.procs@;
    let mut queue: Vec<(u32, usize)> = Vec::new();
    queue.push((root_pid, 0));
    let mut head: usize = 0;
    let mut visited: usize = 0;
    while head < queue.len() && visited < max_nodes
        invariant
            head <= queue@.len(),
            visited <= max_nodes,
            ps == table.procs@,
            forall|qi: int|
                0 <= qi < queue@.len() ==> is_descendant_within(
                    ps,
                    root_pid,
                    (#[trigger] queue@[qi]).0,
                    queue@[qi].1 as int,
                ) && queue@[qi].1 <= max_depth,
        decreases max_nodes - visited,
    {
        let (pid, depth) = queue[head];
        head += 1;
        visited += 1;
        if let Some(comm) = read_proc_comm(table, pid) {
            if str_starts_with(comm.as_str(), "VM:") {
                proof {
                    lemma_descendant_mono(ps, root_pid, pid, depth as int, max_depth as int);
                }
                return Some(pid);
            }
        }
        if depth >= max_depth {
            continue;
        }
        let children = pids_by_ppid(table, pid);
        let cn = children.len();
        let mut k: usize = 0;
        while k < cn
            invariant
                cn == children@.len(),
                children@ == children_spec(ps, pid),
                is_descendant_within(ps, root_pid, pid, depth as int),
                depth < max_depth,
                ps == table.procs@,
                k <= cn,
                head <= queue@.len(),
                forall|qi: int|
                    0 <= qi < queue@.len() ==> is_descendant_within(
                        ps,
                        root_pid,
                        (#[trigger] queue@[qi]).0,
                        queue@[qi].1 as int,
                    ) && queue@[qi].1 <= max_depth,
            decreases cn - k,
        {
            proof {
                assert(children_spec(ps, pid).contains(children@[k as int]));
                assert(is_descendant_within(ps, root_pid, children@[k as int], depth + 1));
            }
            queue.push((children[k], depth + 1));
            k += 1;
        }
    }
    None
}

/// Enumerate `root` and its descendants depth-first, deduplicated, at most
/// `max_pids` of them, and return them in reverse discovery order: every
/// listed process other than `root` is a child of another listed process
/// that appears after it, so signals go to leaves first and `root` last.
pub fn kill_tree_plan(table: &ProcTable, root: u32, max_pids: usize) -> (r: Vec<u32>)
    ensures
        forall|i: int, j: int| 0 <= i < j < r@.len() ==> r@[i] != r@[j],
        r@.len() <= max_pids,
        max_pids > 0 ==> r@.len() > 0 && r@.last() == root,
        forall|i: int|
            0 <= i < r@.len() ==> (#[trigger] r@[i] == root || exists|j: int|
                i < j < r@.len() && children_spec(table.procs@, r@[j]).contains(r@[i])),
{
    let ghost ps = table.procs@;
    let mut queue: Vec<u32> = Vec::new();
    queue.push(root);
    let mut all: Vec<u32> = Vec::new();
    loop
        invariant
            ps == table.procs@,
            all@.len() <= max_pids,
            forall|i: int, j: int| 0 <= i < j < all@.len() ==> all@[i] != all@[j],
            max_pids > 0 && all@.len() > 0 ==> all@[0] == root,
            max_pids > 0 && all@.len() == 0 ==> queue@ == seq![root],
            forall|i: int|
                0 <= i < all@.len() ==> (#[trigger] all@[i] == root || exists|j: int|
                    0 <= j < i && children_spec(ps, all@[j]).contains(all@[i])),
            forall|qi: int|
                0 <= qi < queue@.len() ==> (#[trigger] queue@[qi] == root || exists|j: int|
                    0 <= j < all@.len() && children_spec(ps, all@[j]).contains(queue@[qi])),
        ensures
            all@.len() <= max_pids,
            forall|i: int, j: int| 0 <= i < j < all@.len() ==> all@[i] != all@[j],
            max_pids > 0 ==> all@.len() > 0 && all@[0] == root,
            forall|i: int|
                0 <= i < all@.len() ==> (#[trigger] all@[i] == root || exists|j: int|
                    0 <= j < i && children_spec(ps, all@[j]).contains(all@[i])),
        decreases max_pids - all@.len(), queue@.len(),
    {
        let pid = match queue.pop() {
            Some(pid) => pid,
            None => {
                proof {
                    assert(max_pids > 0 ==> all@.len() > 0);
                }
                break;
            },
        };
        if all.len() >= max_pids {
            break;
        }
        if crate::vecset::contains_u32(&all, pid) {
            continue;
        }
        proof {
            assert(pid == root || exists|j: int|
                0 <= j < all@.len() && children_spec(ps, all@[j]).contains(pid));
        }
        let ghost all0 = all@;
        all.push(pid);
        proof {
            assert forall|i: int|
                0 <= i < all@.len() implies (#[trigger] all@[i] == root || exists|j: int|
                0 <= j < i && children_spec(ps, all@[j]).contains(all@[i])) by {
                if i < all@.len() - 1 {
                    assert(all@[i] == all0[i]);
                    if all0[i] != root {
                        let j = choose|j: int|
                            0 <= j < i && children_spec(ps, all0[j]).contains(all0[i]);
                        assert(all@[j] == all0[j]);
                        assert(children_spec(ps, all@[j]).contains(all@[i]));
                    }
                } else {
                    assert(all@[i] == pid);
                    if pid != root {
                        let j = choose|j: int|
                            0 <= j < all0.len() && children_spec(ps, all0[j]).contains(pid);
                        assert(all@[j] == all0[j]);
                        assert(children_spec(ps, all@[j]).contains(all@[i]));
                    }
                }
            }
            assert forall|qi: int|
                0 <= qi < queue@.len() implies (#[trigger] queue@[qi] == root || exists|j: int|
                0 <= j < all@.len() && children_spec(ps, all@[j]).contains(queue@[qi])) by {
                if queue@[qi] != root {
                    let j = choose|j: int|
                        0 <= j < all0.len() && children_spec(ps, all0[j]).contains(queue@[qi]);
                    assert(all@[j] == all0[j]);
                }
            }
        }
        let children = pids_by_ppid(table, pid);
        let cn = children.len();
        let mut k: usize = 0;
        proof {
            assert(all@.last() == pid);
        }
        while k < cn
            invariant
                ps == table.procs@,
                cn == children@.len(),
                children@ == children_spec(ps, pid),
                all@.len() > 0,
                all@.last() == pid,
                k <= cn,
                forall|qi: int|
                    0 <= qi < queue@.len() ==> (#[trigger] queue@[qi] == root || exists|j: int|
                        0 <= j < all@.len() && children_spec(ps, all@[j]).contains(queue@[qi])),
            decreases cn - k,
        {
            if !crate::vecset::contains_u32(&all, children[k]) {
                proof {
                    assert(children_spec(ps, all@[all@.len() - 1]).contains(children@[k as int]));
                }
                queue.push(children[k]);
            }
            k += 1;
        }
    }
    let n = all.len();
    let mut out: Vec<u32> = Vec::new();
    let mut i: usize = 0;
    while i < n
        invariant
            n == all@.len(),
            i <= n,
            out@.len() == i,
            forall|k: int| 0 <= k < i ==> out@[k] == all@[n - 1 - k],
        decreases n - i,
    {
        out.push(all[n - 1 - i]);
        i += 1;
    }
    proof {
        assert forall|i: int|
            0 <= i < out@.len() implies (#[trigger] out@[i] == root || exists|j: int|
            i < j < out@.len() && children_spec(ps, out@[j]).contains(out@[i])) by {
            if out@[i] != root {
                assert(out@[i] == all@[n - 1 - i]);
                let j2 = choose|j2: int|
                    0 <= j2 < n - 1 - i && children_spec(ps, all@[j2]).contains(all@[n - 1 - i]);
                assert(out@[n - 1 - j2] == all@[j2]);
                assert(i < n - 1 - j2 < out@.len());
                assert(children_spec(ps, out@[n - 1 - j2]).contains(out@[i]));
            }
        }
    }
    out
}

} // verus!
