//! Decoding what a thread is blocked in: the `/proc/<pid>/task/<tid>/syscall`
//! line, and the remote `pollfd` array of a multiplexed wait.

use vstd::prelude::*;
use vstd::string::*;
use crate::strutil::{
    starts_with_seq, trim_spec, trim_start_spec, split_ws_spec, seq_views, str_trim,
    str_trim_start, str_starts_with, str_rfind_char, split_whitespace, contains_str,
    vec_contains_str,
};
use crate::numfmt::{
    all_digits, radix_val, parse_u64_dec, parse_u64_radix, is_dec_digit, is_hex_digit,
    char_is_digit, char_is_hex, dec_str, u64_to_dec,
};

verus! {

/// One thread's currently blocked syscall: its number and up to six raw
/// argument words.
pub struct ProcSyscall {
    pub nr: u64,
    pub args: [u64; 6],
}

/// Value of a token as `/proc` prints argument words: hexadecimal after a
/// `0x` prefix, decimal otherwise, surrounding whitespace ignored.
pub open spec fn mixed_val_spec(s: Seq<char>) -> Option<u64> {
    let t = trim_spec(s);
    if starts_with_seq(t, "0x"@) {
        let h = t.subrange("0x"@.len() as int, t.len() as int);
        if h.len() > 0 && all_digits(h, 16) && radix_val(h, 16) <= u64::MAX {
            Some(radix_val(h, 16) as u64)
        } else {
            None
        }
    } else {
        if t.len() > 0 && all_digits(t, 10) && radix_val(t, 10) <= u64::MAX {
            Some(radix_val(t, 10) as u64)
        } else {
            None
        }
    }
}

/// Parse one argument word, hex with `0x` prefix or decimal.
pub fn parse_u64_mixed(s: &str) -> (r: Option<u64>)
    ensures
        r == mixed_val_spec(s@),
{
    let t = str_trim(s);
    proof {
        reveal_strlit("0x");
    }
    if str_starts_with(t, "0x") {
        let tl = t.unicode_len();
        let h = t.substring_char(2, tl);
        parse_u64_radix(h, 16)
    } else {
        parse_u64_dec(t)
    }
}

/// Parse a `/proc/<pid>/task/<tid>/syscall` line: the syscall number
/// followed by six argument words.  Extra tokens are ignored; a missing or
/// malformed token refuses the line.
pub fn parse_proc_syscall_line(line: &str) -> (r: Option<ProcSyscall>)
    ensures
        ({
            let tk = split_ws_spec(line@);
            match r {
                Some(ps) => tk.len() >= 7 && mixed_val_spec(tk[0]) == Some(ps.nr) && (forall|
                    k: int,
                |
                    0 <= k < 6 ==> #[trigger] mixed_val_spec(tk[k + 1]) == Some(ps.args[k])),
                None => tk.len() < 7 || exists|k: int|
                    0 <= k < 7 && #[trigger] mixed_val_spec(tk[k]) is None,
            }
        }),
{
    let toks = split_whitespace(line);
    let ghost tk = split_ws_spec(line@);
    if toks.len() < 7 {
        return None;
    }
    proof {
        assert forall|k: int| 0 <= k < 7 implies toks@[k]@ == tk[k] by {
            assert(seq_views(toks@)[k] == toks@[k]@);
        }
    }
    let nr = match parse_u64_mixed(toks[0].as_str()) {
        Some(v) => v,
        None => {
            return None;
        },
    };
    let mut args: [u64; 6] = [0u64, 0u64, 0u64, 0u64, 0u64, 0u64];
    let mut k: usize = 1;
    while k < 7
        invariant
            1 <= k <= 7,
            toks@.len() >= 7,
            tk == split_ws_spec(line@),
            forall|j: int| 0 <= j < 7 ==> toks@[j]@ == tk[j],
            forall|j: int| 1 <= j < k ==> #[trigger] mixed_val_spec(tk[j]) == Some(args[j - 1]),
        decreases 7 - k,
    {
        match parse_u64_mixed(toks[k].as_str()) {
            Some(v) => {
                args[k - 1] = v;
            },
            None => {
                proof {
                    assert(mixed_val_spec(tk[k as int]) is None);
                }
                return None;
            },
        }
        k += 1;
    }
    Some(ProcSyscall { nr, args })
}

/// One element of a remote multiplexed-wait argument array.
pub struct PollSetEntry {
    pub fd: i32,
    pub events: u16,
    pub revents: u16,
}

/// Little-endian 16-bit word at byte offset `i` of `b`.
pub open spec fn le16(b: Seq<u8>, i: int) -> u16 {
    (b[i] + b[i + 1] * 0x100) as u16
}

/// Little-endian 32-bit word at byte offset `i` of `b`.
pub open spec fn le32(b: Seq<u8>, i: int) -> u32 {
    (b[i] + b[i + 1] * 0x100 + b[i + 2] * 0x10000 + b[i + 3] * 0x1000000) as u32
}

/// The signed reading of a 32-bit word.
pub open spec fn as_i32(w: u32) -> int {
    if w < 0x80000000 {
        w as int
    } else {
        w - 0x100000000
    }
}

/// Decode a buffer read out of a blocked thread's memory as an array of
/// `nfds` pollfd records of eight bytes each: a signed fd, then the
/// requested and returned event masks.
pub fn decode_pollfds(buf: &[u8], nfds: usize) -> (r: Option<Vec<PollSetEntry>>)
    ensures
        r is Some <==> buf@.len() == nfds * 8,
        match r {
            Some(v) => v@.len() == nfds && forall|k: int|
                0 <= k < nfds ==> (#[trigger] v@[k]).fd as int == as_i32(le32(buf@, k * 8))
                    && v@[k].events == le16(buf@, k * 8 + 4) && v@[k].revents == le16(
                    buf@,
                    k * 8 + 6,
                ),
            None => true,
        },
{
    let blen = buf.len();
    let need = match nfds.checked_mul(8) {
        Some(n) => n,
        None => {
            return None;
        },
    };
    if blen != need {
        return None;
    }
    let mut out: Vec<PollSetEntry> = Vec::new();
    let mut k: usize = 0;
    while k < nfds
        invariant
            buf@.len() == nfds * 8,
            nfds * 8 <= usize::MAX,
            k <= nfds,
            out@.len() == k,
            forall|j: int|
                0 <= j < k ==> (#[trigger] out@[j]).fd as int == as_i32(le32(buf@, j * 8))
                    && out@[j].events == le16(buf@, j * 8 + 4) && out@[j].revents == le16(
                    buf@,
                    j * 8 + 6,
                ),
        decreases nfds - k,
    {
        let base = k * 8;
        let w: u32 = buf[base] as u32 + (buf[base + 1] as u32) * 0x100 + (buf[base + 2] as u32)
            * 0x10000 + (buf[base + 3] as u32) * 0x1000000;
        let fd: i32 = if w < 0x80000000 {
            w as i32
        } else {
            ((w as i64) - 0x100000000i64) as i32
        };
        let events: u16 = buf[base + 4] as u16 + (buf[base + 5] as u16) * 0x100;
        let revents: u16 = buf[base + 6] as u16 + (buf[base + 7] as u16) * 0x100;
        out.push(PollSetEntry { fd, events, revents });
        k += 1;
    }
    Some(out)
}

/// `v` clamped to the range of a `u32`.
pub open spec fn sat_u32(v: nat) -> nat {
    if v > u32::MAX {
        u32::MAX as nat
    } else {
        v
    }
}

/// The shape of a `[PID:TID:...]` log prefix: `i` is the first `[` of the
/// line, a non-empty decimal run reaches `e1`, a colon follows, and a second
/// non-empty maximal decimal run reaches `e2`.
pub open spec fn pid_tid_shape(s: Seq<char>, i: int, e1: int, e2: int) -> bool {
    &&& 0 <= i < s.len()
    &&& s[i] == '['
    &&& (forall|k: int| 0 <= k < i ==> s[k] != '[')
    &&& i + 1 < e1 <= s.len()
    &&& (forall|k: int| i + 1 <= k < e1 ==> is_dec_digit(#[trigger] s[k]))
    &&& e1 < s.len()
    &&& s[e1] == ':'
    &&& e1 + 1 < e2 <= s.len()
    &&& (forall|k: int| e1 + 1 <= k < e2 ==> is_dec_digit(#[trigger] s[k]))
    &&& (e2 == s.len() || !is_dec_digit(s[e2]))
}

/// Read a saturating decimal run of `line` starting at `from`: its end, and
/// its value clamped to `u32`.
fn dec_run(line: &str, from: usize) -> (r: (usize, u32))
    requires
        from <= line@.len(),
    ensures
        from <= r.0 <= line@.len(),
        forall|k: int| from <= k < r.0 ==> is_dec_digit(#[trigger] line@[k]),
        r.0 == line@.len() || !is_dec_digit(line@[r.0 as int]),
        r.1 == sat_u32(radix_val(line@.subrange(from as int, r.0 as int), 10)),
{
    let sl = line.unicode_len();
    let mut p = from;
    let mut v: u64 = 0;
    proof {
        assert(line@.subrange(from as int, from as int) =~= Seq::<char>::empty());
    }
    while p < sl && char_is_digit(line.get_char(p))
        invariant
            from <= p <= sl,
            sl == line@.len(),
            forall|k: int| from <= k < p ==> is_dec_digit(#[trigger] line@[k]),
            v == sat_u32(radix_val(line@.subrange(from as int, p as int), 10)),
            v <= u32::MAX,
        decreases sl - p,
    {
        let c = line.get_char(p);
        let d: u64 = match crate::numfmt::digit_of(c, 10) {
            Some(d) => d as u64,
            None => 0,
        };
        let next: u64 = v * 10 + d;
        let clamped: u64 = if next > u32::MAX as u64 {
            u32::MAX as u64
        } else {
            next
        };
        proof {
            let pre = line@.subrange(from as int, p as int);
            let ext = line@.subrange(from as int, p + 1);
            assert(ext.drop_last() =~= pre);
            assert(ext.last() == line@[p as int]);
            let full = radix_val(pre, 10);
            if full > u32::MAX {
                assert(full * 10 >= full) by (nonlinear_arith)
                    requires
                        full >= 0,
                ;
            }
        }
        v = clamped;
        p += 1;
    }
    (p, v as u32)
}

/// The end of the decimal digit run of `s` that starts at `i`.
pub open spec fn digit_run_end_from(s: Seq<char>, i: int) -> int
    decreases s.len() - i,
{
    if 0 <= i < s.len() && is_dec_digit(s[i]) {
        digit_run_end_from(s, i + 1)
    } else {
        i
    }
}

proof fn lemma_digit_run_end(s: Seq<char>, from: int, e: int)
    requires
        0 <= from <= e <= s.len(),
        forall|k: int| from <= k < e ==> is_dec_digit(#[trigger] s[k]),
        e == s.len() || !is_dec_digit(s[e]),
    ensures
        digit_run_end_from(s, from) == e,
    decreases e - from,
{
    if from < e {
        lemma_digit_run_end(s, from + 1, e);
    }
}

/// The `[PID:TID` pair a log line's first bracket prefix denotes: two
/// non-empty decimal runs around a colon, each clamped to `u32`.
pub open spec fn bracket_pair_spec(s: Seq<char>) -> Option<(u32, u32)> {
    let i = crate::strutil::find_idx(s, "["@);
    if i < 0 {
        None
    } else {
        let e1 = digit_run_end_from(s, i + 1);
        if e1 == i + 1 || e1 >= s.len() || s[e1] != ':' {
            None
        } else {
            let e2 = digit_run_end_from(s, e1 + 1);
            if e2 == e1 + 1 {
                None
            } else {
                Some(
                    (
                        sat_u32(radix_val(s.subrange(i + 1, e1), 10)) as u32,
                        sat_u32(radix_val(s.subrange(e1 + 1, e2), 10)) as u32,
                    ),
                )
            }
        }
    }
}

/// Pull the first `[PID:TID` pair out of a log line's bracket prefix.
/// Values too large for a `u32` saturate.
pub fn parse_bracket_pid_tid(line: &str) -> (r: Option<(u32, u32)>)
    ensures
        r == bracket_pair_spec(line@),
        match r {
            Some(pt) => exists|i: int, e1: int, e2: int|
                #[trigger] pid_tid_shape(line@, i, e1, e2) && pt.0 == sat_u32(
                    radix_val(line@.subrange(i + 1, e1), 10),
                ) && pt.1 == sat_u32(radix_val(line@.subrange(e1 + 1, e2), 10)),
            None => forall|i: int, e1: int, e2: int| !#[trigger] pid_tid_shape(line@, i, e1, e2),
        },
{
    let sl = line.unicode_len();
    let mut i: usize = 0;
    while i < sl && line.get_char(i) != '['
        invariant
            sl == line@.len(),
            i <= sl,
            forall|k: int| 0 <= k < i ==> line@[k] != '[',
        decreases sl - i,
    {
        i += 1;
    }
    proof {
        reveal_strlit("[");
        if i < sl {
            assert(crate::strutil::match_at(line@, i as int, "["@)) by {
                assert(line@.subrange(i as int, i + 1) =~= "["@);
            }
            assert forall|k: int| 0 <= k < i implies !crate::strutil::match_at(line@, k, "["@) by {
                if crate::strutil::match_at(line@, k, "["@) {
                    assert(line@.subrange(k, k + 1)[0] == line@[k]);
                }
            }
            crate::strutil::lemma_find_idx_at_pub(line@, "["@, i as int);
        } else {
            assert forall|k: int| !crate::strutil::match_at(line@, k, "["@) by {
                if 0 <= k < line@.len() && crate::strutil::match_at(line@, k, "["@) {
                    assert(line@.subrange(k, k + 1)[0] == line@[k]);
                }
            }
            crate::strutil::lemma_find_idx_none_pub(line@, "["@);
        }
    }
    if i == sl {
        return None;
    }
    let (e1, pid) = dec_run(line, i + 1);
    proof {
        lemma_digit_run_end(line@, i + 1, e1 as int);
    }
    if e1 == i + 1 {
        proof {
            assert forall|i2: int, a: int, b: int| !#[trigger] pid_tid_shape(line@, i2, a, b) by {
                if pid_tid_shape(line@, i2, a, b) {
                    assert(i2 == i);
                    assert(is_dec_digit(line@[i + 1]));
                }
            }
        }
        return None;
    }
    if e1 == sl {
        proof {
            assert forall|i2: int, a: int, b: int| !#[trigger] pid_tid_shape(line@, i2, a, b) by {
                if pid_tid_shape(line@, i2, a, b) {
                    assert(i2 == i);
                    if a < e1 {
                        assert(is_dec_digit(line@[a]));
                    }
                    assert(a == e1);
                }
            }
        }
        return None;
    }
    if line.get_char(e1) != ':' {
        proof {
            assert forall|i2: int, a: int, b: int| !#[trigger] pid_tid_shape(line@, i2, a, b) by {
                if pid_tid_shape(line@, i2, a, b) {
                    assert(i2 == i);
                    if a < e1 {
                        assert(is_dec_digit(line@[a]));
                    }
                    if a > e1 {
                        assert(is_dec_digit(line@[e1 as int]));
                    }
                    assert(a == e1);
                }
            }
        }
        return None;
    }
    let (e2, tid) = dec_run(line, e1 + 1);
    proof {
        lemma_digit_run_end(line@, e1 + 1, e2 as int);
    }
    if e2 == e1 + 1 {
        proof {
            assert forall|i2: int, a: int, b: int| !#[trigger] pid_tid_shape(line@, i2, a, b) by {
                if pid_tid_shape(line@, i2, a, b) {
                    assert(i2 == i);
                    if a < e1 {
                        assert(is_dec_digit(line@[a]));
                    }
                    if a > e1 {
                        assert(is_dec_digit(line@[e1 as int]));
                    }
                    assert(a == e1);
                    assert(is_dec_digit(line@[e1 + 1]));
                }
            }
        }
        return None;
    }
    proof {
        assert(pid_tid_shape(line@, i as int, e1 as int, e2 as int));
    }
    Some((pid, tid))
}

/// The end of the hexadecimal digit run of `t` that starts at `i`.
pub open spec fn hex_run_end_from(t: Seq<char>, i: int) -> int
    decreases t.len() - i,
{
    if 0 <= i < t.len() && is_hex_digit(t[i]) {
        hex_run_end_from(t, i + 1)
    } else {
        i
    }
}

/// The `0x`-prefixed hexadecimal word after the last `=`, when one stands
/// there: the trimmed tail cut at its first non-hex character.
pub open spec fn hex_word_after_equals(line: Seq<char>) -> Option<Seq<char>> {
    let q = crate::strutil::rfind_spec(line, '=');
    if q < 0 {
        None
    } else {
        let t = trim_start_spec(line.subrange(q + 1, line.len() as int));
        if !starts_with_seq(t, "0x"@) {
            None
        } else {
            Some(t.subrange(0, hex_run_end_from(t, 2)))
        }
    }
}

proof fn lemma_hex_run_end(t: Seq<char>, from: int, e: int)
    requires
        0 <= from <= e <= t.len(),
        forall|k: int| from <= k < e ==> is_hex_digit(#[trigger] t[k]),
        e == t.len() || !is_hex_digit(t[e]),
    ensures
        hex_run_end_from(t, from) == e,
    decreases e - from,
{
    if from < e {
        lemma_hex_run_end(t, from + 1, e);
    }
}

/// The `0x`-prefixed word after the last `=` of a trace line, as
/// `mmap(...) = 0x7fffdfea0000` prints one: the text after the `=` is
/// stripped of leading whitespace, must begin with `0x`, and is cut at the
/// first character that is no hexadecimal digit.
pub fn extract_hex_after_equals(line: &str) -> (r: Option<String>)
    ensures
        match r {
            Some(out) => hex_word_after_equals(line@) == Some(out@),
            None => hex_word_after_equals(line@) is None,
        },
{
    let sl = line.unicode_len();
    let q = match str_rfind_char(line, '=') {
        Some(q) => q,
        None => {
            return None;
        },
    };
    let tail = line.substring_char(q + 1, sl);
    let t = str_trim_start(tail);
    proof {
        reveal_strlit("0x");
    }
    if !str_starts_with(t, "0x") {
        return None;
    }
    let tl = t.unicode_len();
    let mut e: usize = 2;
    while e < tl && char_is_hex(t.get_char(e))
        invariant
            2 <= e <= tl,
            tl == t@.len(),
            forall|k: int| 2 <= k < e ==> is_hex_digit(#[trigger] t@[k]),
        decreases tl - e,
    {
        e += 1;
    }
    let out = t.substring_char(0, e).to_owned();
    proof {
        lemma_hex_run_end(t@, 2, e as int);
    }
    Some(out)
}

/// The file name that a per-thread trace would have under `run_dir`, for
/// candidate index `j`: thread id before process id, plain prefix before the
/// host-side prefix.
pub open spec fn strace_candidate(j: int, pid: u32, tid: u32) -> Seq<char> {
    if j == 0 {
        "strace."@ + dec_str(tid as nat)
    } else if j == 1 {
        "host.strace."@ + dec_str(tid as nat)
    } else if j == 2 {
        "strace."@ + dec_str(pid as nat)
    } else {
        "host.strace."@ + dec_str(pid as nat)
    }
}

/// The note that [`pick_strace_path`] returns for candidate index `j`.
pub open spec fn strace_note(j: int, pid: u32, tid: u32) -> Seq<char> {
    if j < 2 {
        "matched tid="@ + dec_str(tid as nat)
    } else {
        "matched pid="@ + dec_str(pid as nat)
    }
}

/// Choose the trace file to read for a `(pid, tid)` pair: the first of the
/// four candidate names that is present in `run_dir`, keyed by thread id
/// first.  Returns the joined path and a note naming what matched.
pub fn pick_strace_path(run_dir: &str, pid: u32, tid: u32, present: &Vec<String>) -> (r: Option<
    (String, String),
>)
    ensures
        match r {
            Some(pn) => exists|j: int|
                0 <= j < 4 && contains_str(present@, #[trigger] strace_candidate(j, pid, tid)) && (
                forall|k: int|
                    0 <= k < j ==> !contains_str(present@, #[trigger] strace_candidate(k, pid, tid)))
                    && pn.0@ == run_dir@ + "/"@ + strace_candidate(j, pid, tid) && pn.1@
                    == strace_note(j, pid, tid),
            None => forall|j: int|
                0 <= j < 4 ==> !contains_str(present@, #[trigger] strace_candidate(j, pid, tid)),
        },
{
    let tid_s = u64_to_dec(tid as u64);
    let pid_s = u64_to_dec(pid as u64);
    let mut name0 = "strace.".to_owned();
    name0.append(tid_s.as_str());
    let mut name1 = "host.strace.".to_owned();
    name1.append(tid_s.as_str());
    let mut name2 = "strace.".to_owned();
    name2.append(pid_s.as_str());
    let mut name3 = "host.strace.".to_owned();
    name3.append(pid_s.as_str());
    let mut note_tid = "matched tid=".to_owned();
    note_tid.append(tid_s.as_str());
    let mut note_pid = "matched pid=".to_owned();
    note_pid.append(pid_s.as_str());
    if vec_contains_str(present, name0.as_str()) {
        let mut path = run_dir.to_owned();
        path.append("/");
        path.append(name0.as_str());
        proof {
            assert(contains_str(present@, strace_candidate(0, pid, tid)));
        }
        return Some((path, note_tid));
    }
    if vec_contains_str(present, name1.as_str()) {
        let mut path = run_dir.to_owned();
        path.append("/");
        path.append(name1.as_str());
        proof {
            assert(contains_str(present@, strace_candidate(1, pid, tid)));
            assert(!contains_str(present@, strace_candidate(0, pid, tid)));
        }
        return Some((path, note_tid));
    }
    if vec_contains_str(present, name2.as_str()) {
        let mut path = run_dir.to_owned();
        path.append("/");
        path.append(name2.as_str());
        proof {
            assert(contains_str(present@, strace_candidate(2, pid, tid)));
        }
        return Some((path, note_pid));
    }
    if vec_contains_str(present, name3.as_str()) {
        let mut path = run_dir.to_owned();
        path.append("/");
        path.append(name3.as_str());
        proof {
            assert(contains_str(present@, strace_candidate(3, pid, tid)));
        }
        return Some((path, note_pid));
    }
    proof {
        assert forall|j: int| 0 <= j < 4 implies !contains_str(
            present@,
            #[trigger] strace_candidate(j, pid, tid),
        ) by {
            assert(strace_candidate(0, pid, tid) == name0@);
            assert(strace_candidate(1, pid, tid) == name1@);
            assert(strace_candidate(2, pid, tid) == name2@);
            assert(strace_candidate(3, pid, tid) == name3@);
        }
    }
    None
}

/// The accumulator of [`unique_pids`]: first components of `ids` in first
/// appearance order, those already in `seen` skipped.
pub open spec fn unique_pids_acc(ids: Seq<(u32, u32)>, seen: Seq<u32>) -> Seq<u32>
    decreases ids.len(),
{
    if ids.len() == 0 {
        Seq::empty()
    } else {
        let p = ids[0].0;
        if seen.contains(p) {
            unique_pids_acc(ids.drop_first(), seen)
        } else {
            seq![p] + unique_pids_acc(ids.drop_first(), seen.push(p))
        }
    }
}

fn vec_contains_u32(v: &Vec<u32>, x: u32) -> (r: bool)
    ensures
        r == v@.contains(x),
{
    let n = v.len();
    let mut k: usize = 0;
    while k < n
        invariant
            n == v@.len(),
            k <= n,
            forall|j: int| 0 <= j < k ==> v@[j] != x,
        decreases n - k,
    {
        if v[k] == x {
            return true;
        }
        k += 1;
    }
    false
}

/// The distinct pids of a `(pid, tid)` list, in order of first appearance.
pub fn unique_pids(ids: &[(u32, u32)]) -> (r: Vec<u32>)
    ensures
        r@ == unique_pids_acc(ids@, Seq::empty()),
{
    let n = ids.len();
    let mut out: Vec<u32> = Vec::new();
    let mut i: usize = 0;
    proof {
        assert(ids@.subrange(0, n as int) =~= ids@);
        assert(Seq::<u32>::empty() + unique_pids_acc(ids@, out@) =~= unique_pids_acc(ids@, out@));
    }
    while i < n
        invariant
            n == ids@.len(),
            i <= n,
            unique_pids_acc(ids@, Seq::empty()) == out@ + unique_pids_acc(
                ids@.subrange(i as int, n as int),
                out@,
            ),
        decreases n - i,
    {
        let ghost rest = ids@.subrange(i as int, n as int);
        proof {
            assert(rest[0] == ids@[i as int]);
            assert(rest.drop_first() =~= ids@.subrange(i + 1, n as int));
        }
        let p = ids[i].0;
        if !vec_contains_u32(&out, p) {
            out.push(p);
            proof {
                assert(out@.drop_last().push(p) =~= out@);
                assert(out@.drop_last() + (seq![p] + unique_pids_acc(rest.drop_first(), out@))
                    =~= out@ + unique_pids_acc(rest.drop_first(), out@));
            }
        }
        i += 1;
    }
    proof {
        assert(ids@.subrange(n as int, n as int) =~= Seq::<(u32, u32)>::empty());
        assert(out@ + Seq::<u32>::empty() =~= out@);
    }
    out
}

} // verus!
