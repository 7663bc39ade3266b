//! The thread-stack-exhaustion signature in a captured syscall trace: a
//! fresh anonymous stack mapping followed, within a short window, by a
//! failed attempt to make part of it writable.  The match is heuristic and
//! order-sensitive: first match per mapping wins, and the lookahead is
//! bounded so a huge trace cannot stall the analysis.

use vstd::prelude::*;
use vstd::string::*;
use crate::strutil::{
    contains_seq, starts_with_seq, trim_spec, lines_spec, split_char_spec, find_idx, seq_views,
    str_trim, str_contains, str_find, str_starts_with, split_lines, split_on_char, str_eq,
};
use crate::numfmt::{all_digits, radix_val, parse_u64_dec, parse_u64_radix, u64_to_dec, u64_to_hex,
    dec_str};
use crate::syscall::{bracket_pair_spec, hex_word_after_equals, parse_bracket_pid_tid, unique_pids,
    unique_pids_acc};

verus! {

/// What the stderr and trace analysis found.
pub struct PthreadStackAnalysis {
    pub pthread_ids: Vec<(u32, u32)>,
    pub pthread_pids: Vec<u32>,
    pub events_total: u64,
}

/// The kept lines of a filtered stderr: everything that does not mention
/// the crash handler or tracing refusals.
pub open spec fn stderr_keep(l: Seq<char>) -> bool {
    !contains_seq(l, "crashpad"@) && !contains_seq(l, "ptrace:"@)
}

/// The filtered text: every kept line with its newline.
pub open spec fn filter_stderr_acc(ls: Seq<Seq<char>>) -> Seq<char>
    decreases ls.len(),
{
    if ls.len() == 0 {
        Seq::empty()
    } else {
        let head: Seq<char> = if stderr_keep(ls[0]) {
            ls[0] + seq!['\n']
        } else {
            Seq::empty()
        };
        head + filter_stderr_acc(ls.drop_first())
    }
}

/// Drop the crash-handler noise out of a stderr capture.
pub fn filter_stderr(input: &str) -> (r: String)
    ensures
        r@ == filter_stderr_acc(lines_spec(input@)),
{
    let lines = split_lines(input);
    let ghost ls = lines_spec(input@);
    let n = lines.len();
    let mut out = String::new();
    let mut i: usize = 0;
    proof {
        assert(ls.subrange(0, n as int) =~= ls);
        assert(out@ + filter_stderr_acc(ls) =~= filter_stderr_acc(ls));
    }
    while i < n
        invariant
            i <= n,
            n == lines@.len(),
            seq_views(lines@) == ls,
            ls == lines_spec(input@),
            filter_stderr_acc(ls) == out@ + filter_stderr_acc(ls.subrange(i as int, n as int)),
        decreases n - i,
    {
        let ghost rest = ls.subrange(i as int, n as int);
        proof {
            assert(lines@[i as int]@ == ls[i as int]);
            assert(rest[0] == ls[i as int]);
            assert(rest.drop_first() =~= ls.subrange(i + 1, n as int));
        }
        let l: &str = lines[i].as_str();
        if !str_contains(l, "crashpad") && !str_contains(l, "ptrace:") {
            out.append(l);
            out.append("\n");
            proof {
                reveal_strlit("\n");
                assert("\n"@ =~= seq!['\n']);
                let piece = ls[i as int] + seq!['\n'];
                assert(out@ =~= out@.subrange(0, out@.len() - piece.len()) + piece);
                assert(out@.subrange(0, out@.len() - piece.len()) + (piece + filter_stderr_acc(
                    rest.drop_first(),
                )) =~= out@ + filter_stderr_acc(rest.drop_first()));
            }
        }
        i += 1;
    }
    proof {
        assert(ls.subrange(n as int, n as int) =~= Seq::<Seq<char>>::empty());
        assert(out@ + Seq::<char>::empty() =~= out@);
    }
    out
}

/// How many newline characters `s` holds.
pub open spec fn count_nl(s: Seq<char>) -> nat
    decreases s.len(),
{
    if s.len() == 0 {
        0nat
    } else {
        (if s[0] == '\n' {
            1nat
        } else {
            0nat
        }) + count_nl(s.drop_first())
    }
}

/// Count a text's newline characters.
pub fn count_lines(text: &str) -> (r: u64)
    requires
        text@.len() <= u64::MAX,
    ensures
        r == count_nl(text@),
{
    let sl = text.unicode_len();
    let mut n: u64 = 0;
    let mut i: usize = 0;
    proof {
        assert(text@.subrange(0, sl as int) =~= text@);
    }
    while i < sl
        invariant
            i <= sl,
            sl == text@.len(),
            sl <= u64::MAX,
            n + count_nl(text@.subrange(i as int, sl as int)) == count_nl(text@),
            n <= i,
        decreases sl - i,
    {
        let ghost rest = text@.subrange(i as int, sl as int);
        proof {
            assert(rest[0] == text@[i as int]);
            assert(rest.drop_first() =~= text@.subrange(i + 1, sl as int));
        }
        if text.get_char(i) == '\n' {
            n += 1;
        }
        i += 1;
    }
    proof {
        assert(text@.subrange(sl as int, sl as int) =~= Seq::<char>::empty());
    }
    n
}

/// How many lines of `ls` carry `needle`.
pub open spec fn count_with(ls: Seq<Seq<char>>, needle: Seq<char>) -> nat
    decreases ls.len(),
{
    if ls.len() == 0 {
        0nat
    } else {
        (if contains_seq(ls[0], needle) {
            1nat
        } else {
            0nat
        }) + count_with(ls.drop_first(), needle)
    }
}

/// Count the lines of a text that carry `needle`.
pub fn count_substring_lines(text: &str, needle: &str) -> (r: u64)
    requires
        text@.len() <= u64::MAX,
    ensures
        r == count_with(lines_spec(text@), needle@),
{
    let lines = split_lines(text);
    let ghost ls = lines_spec(text@);
    let n = lines.len();
    let mut count: u64 = 0;
    let mut i: usize = 0;
    proof {
        assert(ls.subrange(0, n as int) =~= ls);
        crate::stacklog::lemma_lines_at_most_chars(text@);
    }
    while i < n
        invariant
            i <= n,
            n == lines@.len(),
            seq_views(lines@) == ls,
            ls == lines_spec(text@),
            count <= i,
            n <= u64::MAX,
            count + count_with(ls.subrange(i as int, n as int), needle@) == count_with(
                ls,
                needle@,
            ),
        decreases n - i,
    {
        let ghost rest = ls.subrange(i as int, n as int);
        proof {
            assert(lines@[i as int]@ == ls[i as int]);
            assert(rest[0] == ls[i as int]);
            assert(rest.drop_first() =~= ls.subrange(i + 1, n as int));
        }
        if str_contains(lines[i].as_str(), needle) {
            count += 1;
        }
        i += 1;
    }
    proof {
        assert(ls.subrange(n as int, n as int) =~= Seq::<Seq<char>>::empty());
    }
    count
}

/// A text never has more lines than characters, plus one.
pub proof fn lemma_lines_at_most_chars(s: Seq<char>)
    ensures
        lines_spec(s).len() <= s.len() + 1,
{
    lemma_lines_acc_bound(s, Seq::empty());
}

proof fn lemma_lines_acc_bound(s: Seq<char>, cur: Seq<char>)
    ensures
        crate::strutil::lines_acc(s, cur).len() <= s.len() + 1,
    decreases s.len(),
{
    if s.len() > 0 {
        if s[0] == '\n' {
            lemma_lines_acc_bound(s.drop_first(), Seq::empty());
        } else {
            lemma_lines_acc_bound(s.drop_first(), cur.push(s[0]));
        }
    }
}

/// The value of a hexadecimal token, an optional `0x` prefix dropped.
pub open spec fn hex_tok_val(s: Seq<char>) -> Option<u64> {
    let t = trim_spec(s);
    let h = if starts_with_seq(t, "0x"@) {
        t.subrange(2, t.len() as int)
    } else {
        t
    };
    if h.len() > 0 && all_digits(h, 16) && radix_val(h, 16) <= u64::MAX {
        Some(radix_val(h, 16) as u64)
    } else {
        None
    }
}

/// The value of a decimal token.
pub open spec fn dec_tok_val(s: Seq<char>) -> Option<u64> {
    if s.len() > 0 && all_digits(s, 10) && radix_val(s, 10) <= u64::MAX {
        Some(radix_val(s, 10) as u64)
    } else {
        None
    }
}

/// Read a hexadecimal word, an optional `0x` prefix dropped.
pub fn parse_u64_hex(s: &str) -> (r: Option<u64>)
    ensures
        r == hex_tok_val(s@),
{
    let t = str_trim(s);
    proof {
        reveal_strlit("0x");
    }
    let h: &str = if str_starts_with(t, "0x") {
        let tl = t.unicode_len();
        t.substring_char(2, tl)
    } else {
        t
    };
    parse_u64_radix(h, 16)
}

/// The arguments inside the first `name(` of a trace line, up to the first
/// closing parenthesis after it, split at commas and trimmed.
pub open spec fn syscall_args_spec(line: Seq<char>, name: Seq<char>) -> Option<Seq<Seq<char>>> {
    let i = find_idx(line, name + "("@);
    if i < 0 {
        None
    } else {
        let rest = line.subrange(i + (name + "("@).len(), line.len() as int);
        let e = find_idx(rest, ")"@);
        if e < 0 {
            None
        } else {
            Some(split_char_spec(rest.subrange(0, e), ',').map_values(|p: Seq<char>| trim_spec(p)))
        }
    }
}

/// The arguments inside the first `name(...)` of a trace line, split at
/// commas and trimmed.
pub fn parse_syscall_args(line: &str, name: &str) -> (r: Option<Vec<String>>)
    ensures
        match r {
            Some(v) => syscall_args_spec(line@, name@) == Some(seq_views(v@)),
            None => syscall_args_spec(line@, name@) is None,
        },
{
    let mut needle = name.to_owned();
    needle.append("(");
    let ll = line.unicode_len();
    let nl = needle.as_str().unicode_len();
    let start = match str_find(line, needle.as_str()) {
        Some(idx) => {
            proof {
                assert(idx + needle@.len() <= line@.len());
            }
            idx + nl
        },
        None => {
            return None;
        },
    };
    let rest = line.substring_char(start, ll);
    proof {
        reveal_strlit(")");
    }
    let end = match str_find(rest, ")") {
        Some(e) => e,
        None => {
            return None;
        },
    };
    let inside = rest.substring_char(0, end);
    let pieces = split_on_char(inside, ',');
    let pn = pieces.len();
    let mut out: Vec<String> = Vec::new();
    let mut i: usize = 0;
    while i < pn
        invariant
            i <= pn,
            pn == pieces@.len(),
            out@.len() == i,
            forall|k: int| 0 <= k < i ==> out@[k]@ == trim_spec(#[trigger] pieces@[k]@),
        decreases pn - i,
    {
        out.push(str_trim(pieces[i].as_str()).to_owned());
        i += 1;
    }
    proof {
        assert(seq_views(out@) =~= split_char_spec(
            rest@.subrange(0, end as int),
            ',',
        ).map_values(|p: Seq<char>| trim_spec(p)));
    }
    Some(out)
}

/// The fresh anonymous stack mapping a trace line denotes: its returned
/// base address and its length.
pub open spec fn mmap_stack_spec(line: Seq<char>) -> Option<(u64, u64)> {
    if !contains_seq(line, "mmap("@) || !contains_seq(line, "MAP_STACK"@) {
        None
    } else {
        match syscall_args_spec(line, "mmap"@) {
            None => None,
            Some(args) => if args.len() < 2 {
                None
            } else {
                match dec_tok_val(args[1]) {
                    None => None,
                    Some(l) => match hex_word_after_equals(line) {
                        None => None,
                        Some(w) => match hex_tok_val(w) {
                            None => None,
                            Some(b) => Some((b, l)),
                        },
                    },
                }
            },
        }
    }
}

/// A trace line that maps a fresh anonymous stack: its returned base
/// address and its length.
pub fn parse_strace_mmap_stack(line: &str) -> (r: Option<(u64, u64)>)
    ensures
        r == mmap_stack_spec(line@),
        r is Some ==> contains_seq(line@, "MAP_STACK"@),
{
    if !str_contains(line, "mmap(") || !str_contains(line, "MAP_STACK") {
        return None;
    }
    let args = match parse_syscall_args(line, "mmap") {
        Some(a) => a,
        None => {
            return None;
        },
    };
    if args.len() < 2 {
        return None;
    }
    proof {
        assert(seq_views(args@)[1] == args@[1]@);
    }
    let len = match parse_u64_dec(args[1].as_str()) {
        Some(v) => v,
        None => {
            return None;
        },
    };
    let base_text = match crate::syscall::extract_hex_after_equals(line) {
        Some(t) => t,
        None => {
            return None;
        },
    };
    let base = match parse_u64_hex(base_text.as_str()) {
        Some(v) => v,
        None => {
            return None;
        },
    };
    Some((base, len))
}

/// The failed writable-protect a trace line denotes: the address and
/// length it named.
pub open spec fn mprotect_enomem_spec(line: Seq<char>) -> Option<(u64, u64)> {
    if !contains_seq(line, "mprotect("@) || !contains_seq(line, "PROT_READ|PROT_WRITE"@)
        || !contains_seq(line, "= -1 ENOMEM"@) {
        None
    } else {
        match syscall_args_spec(line, "mprotect"@) {
            None => None,
            Some(args) => if args.len() < 2 {
                None
            } else {
                match hex_tok_val(args[0]) {
                    None => None,
                    Some(a) => match dec_tok_val(args[1]) {
                        None => None,
                        Some(l) => Some((a, l)),
                    },
                }
            },
        }
    }
}

/// A trace line where making part of a mapping writable failed for lack of
/// memory: the address and length it named.
pub fn parse_strace_mprotect_enomem(line: &str) -> (r: Option<(u64, u64)>)
    ensures
        r == mprotect_enomem_spec(line@),
        r is Some ==> contains_seq(line@, "PROT_READ|PROT_WRITE"@) && contains_seq(
            line@,
            "= -1 ENOMEM"@,
        ),
{
    if !str_contains(line, "mprotect(") {
        return None;
    }
    if !str_contains(line, "PROT_READ|PROT_WRITE") || !str_contains(line, "= -1 ENOMEM") {
        return None;
    }
    let args = match parse_syscall_args(line, "mprotect") {
        Some(a) => a,
        None => {
            return None;
        },
    };
    if args.len() < 2 {
        return None;
    }
    proof {
        assert(seq_views(args@)[0] == args@[0]@);
        assert(seq_views(args@)[1] == args@[1]@);
    }
    let addr = match parse_u64_hex(args[0].as_str()) {
        Some(v) => v,
        None => {
            return None;
        },
    };
    let len = match parse_u64_dec(args[1].as_str()) {
        Some(v) => v,
        None => {
            return None;
        },
    };
    Some((addr, len))
}

/// Saturating 64-bit addition, as address arithmetic over a live target
/// must not wrap.
pub open spec fn sat_add64(a: u64, b: u64) -> u64 {
    if a + b > u64::MAX {
        u64::MAX
    } else {
        (a + b) as u64
    }
}

/// Saturating 64-bit subtraction.
pub open spec fn sat_sub64(a: u64, b: u64) -> u64 {
    if a >= b {
        (a - b) as u64
    } else {
        0
    }
}

/// A failed writable-protect hits the mapping `(base, mlen)`: its range
/// lies within the mapping, or it has the guard-page shape.
pub open spec fn mprotect_hit(l: Seq<char>, base: u64, mlen: u64) -> bool {
    match mprotect_enomem_spec(l) {
        Some(p) => {
            let a = p.0;
            let len2 = p.1;
            (a >= base && sat_add64(a, len2) <= sat_add64(base, mlen)) || (a == sat_add64(base, 4096)
                && (len2 == sat_sub64(mlen, 4096) || len2 == sat_sub64(mlen, 8192)))
        },
        None => false,
    }
}

/// Where the bounded lookahead window after line `i` ends.
pub open spec fn window_end(i: int, n: int) -> int {
    if i + 250 < n {
        i + 250
    } else {
        n
    }
}

/// Some line of the window after `i` hits the mapping.
pub open spec fn window_has_hit(ls: Seq<Seq<char>>, i: int, base: u64, mlen: u64) -> bool {
    exists|j: int| i < j < window_end(i, ls.len() as int) && mprotect_hit(#[trigger] ls[j], base, mlen)
}

/// How many stack-exhaustion events a trace holds from line `i` on: one
/// per stack mapping whose bounded window holds a hit.
pub open spec fn trace_events(ls: Seq<Seq<char>>, i: int) -> nat
    decreases ls.len() - i,
{
    if !(0 <= i < ls.len()) {
        0nat
    } else {
        (if mmap_stack_spec(ls[i]) matches Some(p) && window_has_hit(ls, i, p.0, p.1) {
            1nat
        } else {
            0nat
        }) + trace_events(ls, i + 1)
    }
}

/// The `(pid, tid)` pairs of the thread-creation lines, first appearance
/// first, duplicates dropped.
pub open spec fn bracket_ids_acc(ls: Seq<Seq<char>>, acc: Seq<(u32, u32)>) -> Seq<(u32, u32)>
    decreases ls.len(),
{
    if ls.len() == 0 {
        acc
    } else {
        let acc2 = if contains_seq(ls[0], "pthread_create"@) && bracket_pair_spec(ls[0]) is Some
            && !acc.contains(bracket_pair_spec(ls[0])->Some_0) {
            acc.push(bracket_pair_spec(ls[0])->Some_0)
        } else {
            acc
        };
        bracket_ids_acc(ls.drop_first(), acc2)
    }
}

/// The per-thread trace file an id pair reads: the first whose name is the
/// thread-id name or the process-id name.
pub open spec fn find_trace_spec(fs: Seq<(String, String)>, n1: Seq<char>, n2: Seq<char>) -> Option<
    Seq<char>,
>
    decreases fs.len(),
{
    if fs.len() == 0 {
        None
    } else if fs[0].0@ == n1 || fs[0].0@ == n2 {
        Some(fs[0].1@)
    } else {
        find_trace_spec(fs.drop_first(), n1, n2)
    }
}

/// The trace name an id component selects.
pub open spec fn strace_name_of(id: nat) -> Seq<char> {
    "strace."@ + dec_str(id)
}

/// The total event count over the ids' traces.
pub open spec fn traces_total(ids: Seq<(u32, u32)>, fs: Seq<(String, String)>) -> nat
    decreases ids.len(),
{
    if ids.len() == 0 {
        0nat
    } else {
        (match find_trace_spec(fs, strace_name_of(ids[0].1 as nat), strace_name_of(
            ids[0].0 as nat,
        )) {
            Some(txt) => trace_events(lines_spec(txt), 0),
            None => 0nat,
        }) + traces_total(ids.drop_first(), fs)
    }
}

fn contains_pair(v: &Vec<(u32, u32)>, x: (u32, u32)) -> (r: bool)
    ensures
        r == v@.contains(x),
{
    let n = v.len();
    let mut k: usize = 0;
    while k < n
        invariant
            n == v@.len(),
            k <= n,
            forall|j: int| 0 <= j < k ==> v@[j] != x,
        decreases n - k,
    {
        if v[k].0 == x.0 && v[k].1 == x.1 {
            return true;
        }
        k += 1;
    }
    false
}

fn saturating_add_u64(a: u64, b: u64) -> (r: u64)
    ensures
        r == sat_add64(a, b),
{
    match a.checked_add(b) {
        Some(v) => v,
        None => u64::MAX,
    }
}

fn saturating_sub_u64(a: u64, b: u64) -> (r: u64)
    ensures
        r == sat_sub64(a, b),
{
    if a >= b {
        a - b
    } else {
        0
    }
}

fn find_trace<'a>(traces: &'a Vec<(String, String)>, n1: &str, n2: &str) -> (r: Option<&'a String>)
    ensures
        match r {
            Some(t) => find_trace_spec(traces@, n1@, n2@) == Some(t@),
            None => find_trace_spec(traces@, n1@, n2@) is None,
        },
{
    let tn = traces.len();
    let mut f: usize = 0;
    proof {
        assert(traces@.subrange(0, tn as int) =~= traces@);
    }
    while f < tn
        invariant
            f <= tn,
            tn == traces@.len(),
            find_trace_spec(traces@, n1@, n2@) == find_trace_spec(
                traces@.subrange(f as int, tn as int),
                n1@,
                n2@,
            ),
        decreases tn - f,
    {
        proof {
            assert(traces@.subrange(f as int, tn as int)[0] == traces@[f as int]);
            assert(traces@.subrange(f as int, tn as int).drop_first() =~= traces@.subrange(
                f + 1,
                tn as int,
            ));
        }
        if str_eq(traces[f].0.as_str(), n1) || str_eq(traces[f].0.as_str(), n2) {
            return Some(&traces[f].1);
        }
        f += 1;
    }
    proof {
        assert(traces@.subrange(tn as int, tn as int) =~= Seq::<(String, String)>::empty());
    }
    None
}

/// Count one trace's stack-exhaustion events and render each first hit.
#[verifier::rlimit(100)]
fn scan_trace(report: &mut String, trace: &str) -> (events: u64)
    ensures
        old(report)@.is_prefix_of(final(report)@),
        trace_events(lines_spec(trace@), 0) <= u64::MAX ==> events == trace_events(
            lines_spec(trace@),
            0,
        ),
{
    let tlines = split_lines(trace);
    let ghost ls = lines_spec(trace@);
    let tln = tlines.len();
    let mut pid_events: u64 = 0;
    let mut li: usize = 0;
    while li < tln
        invariant
            li <= tln,
            tln == tlines@.len(),
            seq_views(tlines@) == ls,
            ls == lines_spec(trace@),
            old(report)@.is_prefix_of(report@),
            trace_events(ls, 0) <= u64::MAX ==> pid_events + trace_events(ls, li as int)
                == trace_events(ls, 0),
            pid_events <= li,
        decreases tln - li,
    {
        proof {
            assert(tlines@[li as int]@ == ls[li as int]);
        }
        if let Some((mmap_base, mmap_len)) = parse_strace_mmap_stack(tlines[li].as_str()) {
            let mmap_end = saturating_add_u64(mmap_base, mmap_len);
            let window_to: usize = if tln < 250 || li >= tln - 250 {
                tln
            } else {
                li + 250
            };
            proof {
                assert(window_to as int == window_end(li as int, ls.len() as int));
            }
            let mut hit = false;
            let mut j: usize = li + 1;
            while j < window_to
                invariant
                    li < j <= window_to,
                    window_to <= tln,
                    tln == tlines@.len(),
                    seq_views(tlines@) == ls,
                    window_to as int == window_end(li as int, ls.len() as int),
                    mmap_end == sat_add64(mmap_base, mmap_len),
                    old(report)@.is_prefix_of(report@),
                    hit <==> exists|j2: int|
                        li < j2 < j && mprotect_hit(#[trigger] ls[j2], mmap_base, mmap_len),
                decreases window_to - j,
            {
                proof {
                    assert(tlines@[j as int]@ == ls[j as int]);
                }
                if let Some((mp_addr, mp_len)) = parse_strace_mprotect_enomem(
                    tlines[j].as_str(),
                ) {
                    let mp_end = saturating_add_u64(mp_addr, mp_len);
                    let within = mp_addr >= mmap_base && mp_end <= mmap_end;
                    let guard = mp_addr == saturating_add_u64(mmap_base, 4096) && (mp_len
                        == saturating_sub_u64(mmap_len, 4096) || mp_len == saturating_sub_u64(
                        mmap_len,
                        8192,
                    ));
                    if (within || guard) && !hit {
                        hit = true;
                        proof {
                            assert(mprotect_hit(ls[j as int], mmap_base, mmap_len));
                        }
                        report.append("\n-- stack mprotect ENOMEM event --\n");
                        report.append("mmap_base: 0x");
                        report.append(u64_to_hex(mmap_base).as_str());
                        report.append(" mmap_len: ");
                        report.append(u64_to_dec(mmap_len).as_str());
                        report.append(" mmap_end: 0x");
                        report.append(u64_to_hex(mmap_end).as_str());
                        report.append("\nmprotect_addr: 0x");
                        report.append(u64_to_hex(mp_addr).as_str());
                        report.append(" mprotect_len: ");
                        report.append(u64_to_dec(mp_len).as_str());
                        report.append(" mprotect_end: 0x");
                        report.append(u64_to_hex(mp_end).as_str());
                        report.append("\n");
                        report.append(tlines[j].as_str());
                        report.append("\n");
                        proof {
                            assert(old(report)@.is_prefix_of(report@)) by {
                                assert(report@.subrange(0, old(report)@.len() as int) =~= old(
                                    report,
                                )@);
                            }
                        }
                    } else {
                        proof {
                            if within || guard {
                                assert(mprotect_hit(ls[j as int], mmap_base, mmap_len));
                            }
                        }
                    }
                }
                j += 1;
            }
            if hit && pid_events < u64::MAX {
                pid_events += 1;
            }
            proof {
                if trace_events(ls, 0) <= u64::MAX {
                    assert(hit <==> window_has_hit(ls, li as int, mmap_base, mmap_len));
                    assert(trace_events(ls, li as int) == (if mmap_stack_spec(
                        ls[li as int],
                    ) matches Some(p) && window_has_hit(ls, li as int, p.0, p.1) {
                        1nat
                    } else {
                        0nat
                    }) + trace_events(ls, li + 1));
                }
            }
        }
        li += 1;
    }
    proof {
        assert(trace_events(ls, tln as int) == 0);
    }
    pid_events
}

/// Walk a stderr capture and the per-thread traces for the stack-exhaustion
/// signature: the id pairs are exactly the first-appearance bracket
/// prefixes of the thread-creation lines, the unique pids are theirs, and
/// the event total counts, per id's trace, each stack mapping followed
/// within the bounded window by a failed writable-protect within the
/// mapping or of guard-page shape.  The report opens with the id list.
pub fn analyze_pthread_stack_mprotect_enomem(
    stderr_text: &str,
    traces: &Vec<(String, String)>,
) -> (r: (String, PthreadStackAnalysis))
    ensures
        starts_with_seq(r.0@, "pthread_ids_from_stderr:"@),
        r.1.pthread_ids@ == bracket_ids_acc(lines_spec(stderr_text@), Seq::empty()),
        r.1.pthread_pids@ == unique_pids_acc(r.1.pthread_ids@, Seq::empty()),
        traces_total(r.1.pthread_ids@, traces@) <= u64::MAX ==> r.1.events_total == traces_total(
            r.1.pthread_ids@,
            traces@,
        ),
{
    let mut ids: Vec<(u32, u32)> = Vec::new();
    let lines = split_lines(stderr_text);
    let ghost ls = lines_spec(stderr_text@);
    let n = lines.len();
    let mut i: usize = 0;
    proof {
        assert(ls.subrange(0, n as int) =~= ls);
    }
    while i < n
        invariant
            i <= n,
            n == lines@.len(),
            seq_views(lines@) == ls,
            ls == lines_spec(stderr_text@),
            bracket_ids_acc(ls, Seq::empty()) == bracket_ids_acc(
                ls.subrange(i as int, n as int),
                ids@,
            ),
        decreases n - i,
    {
        let ghost rest = ls.subrange(i as int, n as int);
        proof {
            assert(lines@[i as int]@ == ls[i as int]);
            assert(rest[0] == ls[i as int]);
            assert(rest.drop_first() =~= ls.subrange(i + 1, n as int));
        }
        if str_contains(lines[i].as_str(), "pthread_create") {
            if let Some(pt) = parse_bracket_pid_tid(lines[i].as_str()) {
                if !contains_pair(&ids, pt) {
                    ids.push(pt);
                }
            }
        }
        i += 1;
    }
    proof {
        assert(ls.subrange(n as int, n as int) =~= Seq::<Seq<char>>::empty());
    }
    let pids = unique_pids(ids.as_slice());
    proof {
        reveal_strlit("pthread_ids_from_stderr:");
    }
    let mut report = "pthread_ids_from_stderr:".to_owned();
    let ghost hdr = "pthread_ids_from_stderr:"@;
    proof {
        assert(starts_with_seq(report@, hdr)) by {
            assert(report@.subrange(0, hdr.len() as int) =~= hdr);
        }
    }
    let idn = ids.len();
    if idn == 0 {
        report.append(" (none)\n");
    } else {
        let mut k: usize = 0;
        while k < idn
            invariant
                k <= idn,
                idn == ids@.len(),
                starts_with_seq(report@, hdr),
            decreases idn - k,
        {
            report.append(" ");
            report.append(u64_to_dec(ids[k].0 as u64).as_str());
            report.append(":");
            report.append(u64_to_dec(ids[k].1 as u64).as_str());
            proof {
                assert(starts_with_seq(report@, hdr)) by {
                    assert(report@.subrange(0, hdr.len() as int) =~= hdr);
                }
            }
            k += 1;
        }
        report.append("\n");
    }
    let mut events_total: u64 = 0;
    let mut t: usize = 0;
    proof {
        assert(starts_with_seq(report@, hdr)) by {
            assert(report@.subrange(0, hdr.len() as int) =~= hdr);
        }
        assert(ids@.subrange(0, idn as int) =~= ids@);
    }
    while t < idn
        invariant
            t <= idn,
            idn == ids@.len(),
            starts_with_seq(report@, hdr),
            traces_total(ids@, traces@) <= u64::MAX ==> events_total + traces_total(
                ids@.subrange(t as int, idn as int),
                traces@,
            ) == traces_total(ids@, traces@),
        decreases idn - t,
    {
        let ghost idrest = ids@.subrange(t as int, idn as int);
        proof {
            assert(idrest[0] == ids@[t as int]);
            assert(idrest.drop_first() =~= ids@.subrange(t + 1, idn as int));
        }
        let (pid, tid) = ids[t];
        report.append("\n== pid ");
        report.append(u64_to_dec(pid as u64).as_str());
        report.append(" tid ");
        report.append(u64_to_dec(tid as u64).as_str());
        report.append(" ==\n");
        let mut tid_name = "strace.".to_owned();
        tid_name.append(u64_to_dec(tid as u64).as_str());
        let mut pid_name = "strace.".to_owned();
        pid_name.append(u64_to_dec(pid as u64).as_str());
        proof {
            reveal_strlit("strace.");
        }
        match find_trace(traces, tid_name.as_str(), pid_name.as_str()) {
            None => {
                report.append("strace: (missing)\n");
            },
            Some(trace) => {
                let ghost report_pre = report@;
                let got = scan_trace(&mut report, trace.as_str());
                proof {
                    assert(report_pre.is_prefix_of(report@));
                    assert(starts_with_seq(report@, hdr)) by {
                        assert(report@.subrange(0, hdr.len() as int) =~= hdr);
                    }
                }
                if events_total <= u64::MAX - got {
                    events_total += got;
                } else {
                    events_total = u64::MAX;
                }
                report.append("stack_mprotect_enomem_events: ");
                report.append(u64_to_dec(got).as_str());
                report.append("\n");
                proof {
                    if traces_total(ids@, traces@) <= u64::MAX {
                        assert(trace_events(lines_spec(trace@), 0) <= traces_total(ids@, traces@))
                            by {
                            assert(traces_total(idrest, traces@) == trace_events(
                                lines_spec(trace@),
                                0,
                            ) + traces_total(idrest.drop_first(), traces@));
                        }
                    }
                }
            },
        }
        proof {
            assert(starts_with_seq(report@, hdr)) by {
                assert(report@.subrange(0, hdr.len() as int) =~= hdr);
            }
        }
        t += 1;
    }
    report.append("\nstack_mprotect_enomem_events_total: ");
    report.append(u64_to_dec(events_total).as_str());
    report.append("\n");
    proof {
        assert(starts_with_seq(report@, hdr)) by {
            assert(report@.subrange(0, hdr.len() as int) =~= hdr);
        }
        assert(ids@.subrange(idn as int, idn as int) =~= Seq::<(u32, u32)>::empty());
    }
    let analysis = PthreadStackAnalysis { pthread_ids: ids, pthread_pids: pids, events_total };
    (report, analysis)
}

} // verus!
