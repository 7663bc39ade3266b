//! Job-control fields out of `/proc/<pid>/stat`, signal masks out of
//! `/proc/<pid>/status`, and the text details derived from them.

use vstd::prelude::*;
use vstd::string::*;
use crate::strutil::{
    starts_with_seq, trim_spec, split_ws_spec, seq_views, lines_spec, rfind_spec, str_trim,
    str_starts_with, str_rfind_char, split_lines, split_whitespace,
    lemma_split_ws_tokens_nonempty,
};
use crate::numfmt::{
    all_digits, radix_val, is_i32_str, i32_val, parse_u32_dec, parse_i32_dec, parse_u64_radix,
    dec_str, hex_str, u64_to_dec, u64_to_hex, char_is_hex, is_hex_digit, linux_major, linux_minor,
};

verus! {

/// Job-control state of one process: the fields of `/proc/<pid>/stat` that
/// say which session, process group and controlling terminal it has.
pub struct ProcStatJobControl {
    pub state: char,
    pub ppid: u32,
    pub pgrp: i32,
    pub session: i32,
    pub tty_nr: i32,
    pub tpgid: i32,
}

/// The text after the `) ` that closes the comm field.
pub open spec fn stat_tail(t: Seq<char>, q: int) -> Seq<char> {
    t.subrange(q + 2, t.len() as int)
}

/// The job-control fields a `/proc/<pid>/stat` line denotes.  The comm
/// field may hold spaces and parentheses, so the fields start after the
/// last `)`: a state word, a `u32` parent pid, and four `i32` fields.
pub open spec fn stat_jc_spec(stat: Seq<char>) -> Option<ProcStatJobControl> {
    let t = trim_spec(stat);
    let q = rfind_spec(t, ')');
    if q < 0 || t.len() - q < 2 {
        None
    } else {
        let toks = split_ws_spec(stat_tail(t, q));
        if toks.len() < 6 {
            None
        } else if !(toks[1].len() > 0 && all_digits(toks[1], 10) && radix_val(toks[1], 10)
            <= u32::MAX) {
            None
        } else if !(is_i32_str(toks[2]) && is_i32_str(toks[3]) && is_i32_str(toks[4]) && is_i32_str(
            toks[5],
        )) {
            None
        } else {
            Some(
                ProcStatJobControl {
                    state: toks[0][0],
                    ppid: radix_val(toks[1], 10) as u32,
                    pgrp: i32_val(toks[2]) as i32,
                    session: i32_val(toks[3]) as i32,
                    tty_nr: i32_val(toks[4]) as i32,
                    tpgid: i32_val(toks[5]) as i32,
                },
            )
        }
    }
}

/// The parent pid a `/proc/<pid>/stat` line reports.
pub open spec fn stat_ppid_spec(stat: Seq<char>) -> Option<u32> {
    match stat_jc_spec(stat) {
        Some(jc) => Some(jc.ppid),
        None => None,
    }
}

/// Parse the job-control fields of a `/proc/<pid>/stat` line.
pub fn parse_proc_stat_job_control(stat_text: &str) -> (r: Option<ProcStatJobControl>)
    ensures
        r == stat_jc_spec(stat_text@),
{
    let t = str_trim(stat_text);
    let tl = t.unicode_len();
    let q = match str_rfind_char(t, ')') {
        Some(q) => q,
        None => {
            return None;
        },
    };
    if tl - q < 2 {
        return None;
    }
    let after = t.substring_char(q + 2, tl);
    let toks = split_whitespace(after);
    proof {
        assert(after@ == stat_tail(t@, q as int));
        lemma_split_ws_tokens_nonempty(after@, Seq::empty());
        assert forall|j: int| 0 <= j < toks@.len() implies toks@[j]@ == split_ws_spec(after@)[j] by {
            assert(seq_views(toks@)[j] == toks@[j]@);
        }
    }
    if toks.len() < 6 {
        return None;
    }
    proof {
        assert(toks@[0]@ == split_ws_spec(after@)[0]);
        assert(split_ws_spec(after@) == crate::strutil::split_ws_acc(after@, Seq::<char>::empty()));
        assert(crate::strutil::split_ws_acc(after@, Seq::<char>::empty())[0].len() > 0);
    }
    let state = toks[0].as_str().get_char(0);
    let ppid = match parse_u32_dec(toks[1].as_str()) {
        Some(v) => v,
        None => {
            return None;
        },
    };
    let pgrp = match parse_i32_dec(toks[2].as_str()) {
        Some(v) => v,
        None => {
            return None;
        },
    };
    let session = match parse_i32_dec(toks[3].as_str()) {
        Some(v) => v,
        None => {
            return None;
        },
    };
    let tty_nr = match parse_i32_dec(toks[4].as_str()) {
        Some(v) => v,
        None => {
            return None;
        },
    };
    let tpgid = match parse_i32_dec(toks[5].as_str()) {
        Some(v) => v,
        None => {
            return None;
        },
    };
    let jc = ProcStatJobControl { state, ppid, pgrp, session, tty_nr, tpgid };
    proof {
        let toksg = split_ws_spec(stat_tail(t@, q as int));
        assert(toks@[0]@ == toksg[0]);
        assert(toks@[1]@ == toksg[1]);
        assert(toks@[2]@ == toksg[2]);
        assert(toks@[3]@ == toksg[3]);
        assert(toks@[4]@ == toksg[4]);
        assert(toks@[5]@ == toksg[5]);
        assert(stat_jc_spec(stat_text@) == Some(jc));
    }
    Some(jc)
}

/// Whether the process is in its terminal's foreground process group:
/// meaningless without a controlling terminal or a foreground group.
pub fn is_foreground_pgrp(jc: &ProcStatJobControl) -> (r: Option<bool>)
    ensures
        r == (if jc.tty_nr == 0 || jc.tpgid <= 0 {
            Option::<bool>::None
        } else {
            Some(jc.pgrp == jc.tpgid)
        }),
{
    if jc.tty_nr == 0 || jc.tpgid <= 0 {
        return None;
    }
    Some(jc.pgrp == jc.tpgid)
}

/// A run of `n` zero characters.
pub open spec fn zeros(n: nat) -> Seq<char>
    decreases n,
{
    if n == 0 {
        Seq::empty()
    } else {
        seq!['0'] + zeros((n - 1) as nat)
    }
}

pub proof fn lemma_zeros(n: nat)
    ensures
        zeros(n).len() == n,
        forall|i: int| 0 <= i < n ==> zeros(n)[i] == '0',
    decreases n,
{
    if n > 0 {
        lemma_zeros((n - 1) as nat);
    }
}

/// `s` padded with leading zeros to at least eight characters.
pub open spec fn pad8(s: Seq<char>) -> Seq<char> {
    if s.len() >= 8 {
        s
    } else {
        zeros((8 - s.len()) as nat) + s
    }
}

/// `v` printed as eight or more hexadecimal digits.
fn hex_pad8(v: u64) -> (r: String)
    ensures
        r@ == pad8(hex_str(v as nat)),
{
    let h = u64_to_hex(v);
    let hl = h.unicode_len();
    if hl >= 8 {
        return h;
    }
    let mut out = String::new();
    let mut k: usize = 0;
    proof {
        assert(out@ =~= zeros(0));
    }
    while k < 8 - hl
        invariant
            hl < 8,
            k <= 8 - hl,
            hl == h@.len(),
            h@ == hex_str(v as nat),
            out@ == zeros(k as nat),
        decreases 8 - hl - k,
    {
        out.append("0");
        proof {
            reveal_strlit("0");
            lemma_zeros(k as nat);
            lemma_zeros((k + 1) as nat);
            assert(out@ =~= zeros((k + 1) as nat));
        }
        k += 1;
    }
    out.append(h.as_str());
    out
}

/// `s` padded with leading zeros to at least `w` characters.
pub open spec fn pad_zeros(s: Seq<char>, w: nat) -> Seq<char> {
    if s.len() >= w {
        s
    } else {
        zeros((w - s.len()) as nat) + s
    }
}

/// `v` printed as at least `width` hexadecimal digits.
pub fn hex_pad(v: u64, width: usize) -> (r: String)
    ensures
        r@ == pad_zeros(hex_str(v as nat), width as nat),
{
    let h = u64_to_hex(v);
    let hl = h.unicode_len();
    if hl >= width {
        return h;
    }
    let mut out = String::new();
    let mut k: usize = 0;
    proof {
        assert(out@ =~= zeros(0));
    }
    while k < width - hl
        invariant
            hl < width,
            k <= width - hl,
            hl == h@.len(),
            h@ == hex_str(v as nat),
            out@ == zeros(k as nat),
        decreases width - hl - k,
    {
        out.append("0");
        proof {
            reveal_strlit("0");
            lemma_zeros(k as nat);
            lemma_zeros((k + 1) as nat);
            assert(out@ =~= zeros((k + 1) as nat));
        }
        k += 1;
    }
    out.append(h.as_str());
    out
}

/// The unsigned reading of a 32-bit value.
pub open spec fn as_u32_word(v: i32) -> u32 {
    if v >= 0 {
        v as u32
    } else {
        (v + 0x100000000) as u32
    }
}

/// The text that [`format_tty_nr_details`] appends after a `tty_nr` value.
pub open spec fn tty_nr_details_spec(tty_nr: i32) -> Seq<char> {
    if tty_nr == 0 {
        " (no controlling tty)"@
    } else {
        let dev = as_u32_word(tty_nr);
        " dev=0x"@ + pad8(hex_str(dev as nat)) + " major="@ + dec_str(((dev >> 8) & 0xfff) as nat)
            + " minor="@ + dec_str(((dev & 0xff) | ((dev >> 12) & 0xfff00)) as nat)
    }
}

/// Render the device behind a `tty_nr`: nothing for no terminal, otherwise
/// the packed device word with its major and minor parts.
pub fn format_tty_nr_details(tty_nr: i32) -> (r: String)
    ensures
        r@ == tty_nr_details_spec(tty_nr),
{
    if tty_nr == 0 {
        return " (no controlling tty)".to_owned();
    }
    let dev: u32 = if tty_nr >= 0 {
        tty_nr as u32
    } else {
        ((tty_nr as i64) + 0x100000000i64) as u32
    };
    let maj = linux_major(dev);
    let min = linux_minor(dev);
    let mut out = " dev=0x".to_owned();
    out.append(hex_pad8(dev as u64).as_str());
    out.append(" major=");
    out.append(u64_to_dec(maj as u64).as_str());
    out.append(" minor=");
    out.append(u64_to_dec(min as u64).as_str());
    proof {
        assert(dev == as_u32_word(tty_nr));
    }
    out
}

/// A line of `status` text that carries the mask named `key`: the key, a
/// colon and a tab.
pub open spec fn is_mask_line(l: Seq<char>, key: Seq<char>) -> bool {
    starts_with_seq(l, key + ":\t"@)
}

/// The mask value on such a line: the rest of the line trimmed, an optional
/// `0x` prefix dropped, read as hexadecimal.
pub open spec fn mask_line_val(l: Seq<char>, key: Seq<char>) -> Option<u64> {
    let rest = l.subrange(key.len() as int + 2, l.len() as int);
    let h0 = trim_spec(rest);
    let h = if starts_with_seq(h0, "0x"@) {
        h0.subrange(2, h0.len() as int)
    } else {
        h0
    };
    if h.len() > 0 && all_digits(h, 16) && radix_val(h, 16) <= u64::MAX {
        Some(radix_val(h, 16) as u64)
    } else {
        None
    }
}

/// The value of the first mask line for `key`, if any.
pub open spec fn first_mask_val(ls: Seq<Seq<char>>, key: Seq<char>) -> Option<u64>
    decreases ls.len(),
{
    if ls.len() == 0 {
        None
    } else if is_mask_line(ls[0], key) {
        mask_line_val(ls[0], key)
    } else {
        first_mask_val(ls.drop_first(), key)
    }
}

/// The mask that `status` text reports for `key`: the first line of the
/// form `key:<tab>` decides.
pub open spec fn status_mask_spec(s: Seq<char>, key: Seq<char>) -> Option<u64> {
    first_mask_val(lines_spec(s), key)
}

/// The hexadecimal mask after `key:` on the first line of `status_text`
/// that carries it.
pub fn parse_status_hex_mask(status_text: &str, key: &str) -> (r: Option<u64>)
    ensures
        r == status_mask_spec(status_text@, key@),
{
    let mut prefix = key.to_owned();
    prefix.append(":\t");
    proof {
        reveal_strlit(":\t");
    }
    let pl = prefix.unicode_len();
    let lines = split_lines(status_text);
    let ghost ls = lines_spec(status_text@);
    let n = lines.len();
    let mut i: usize = 0;
    proof {
        assert(ls.subrange(0, n as int) =~= ls);
    }
    while i < n
        invariant
            n == lines@.len(),
            seq_views(lines@) == ls,
            ls == lines_spec(status_text@),
            prefix@ == key@ + ":\t"@,
            pl == prefix@.len(),
            pl == key@.len() + 2,
            i <= n,
            first_mask_val(ls, key@) == first_mask_val(ls.subrange(i as int, n as int), key@),
        decreases n - i,
    {
        proof {
            assert(lines@[i as int]@ == ls[i as int]);
            assert(ls.subrange(i as int, n as int)[0] == ls[i as int]);
            assert(ls.subrange(i as int, n as int).drop_first() =~= ls.subrange(i + 1, n as int));
        }
        let l: &str = lines[i].as_str();
        if str_starts_with(l, prefix.as_str()) {
            let ll = l.unicode_len();
            let rest = l.substring_char(pl, ll);
            let h0 = str_trim(rest);
            proof {
                reveal_strlit("0x");
            }
            let h: &str = if str_starts_with(h0, "0x") {
                let hl = h0.unicode_len();
                h0.substring_char(2, hl)
            } else {
                h0
            };
            let r = parse_u64_radix(h, 16);
            proof {
                assert(first_mask_val(ls.subrange(i as int, n as int), key@) == mask_line_val(
                    ls[i as int],
                    key@,
                ));
            }
            return r;
        }
        i += 1;
    }
    proof {
        assert(ls.subrange(n as int, n as int) =~= Seq::<Seq<char>>::empty());
    }
    None
}

/// The name of signal `sig` as this crate prints it: the classic names up
/// to 31, the glibc-reserved slots 32 and 33, real-time signals relative to
/// `SIGRTMIN`, and a numbered fallback.
pub open spec fn signal_name_spec(sig: nat) -> Seq<char> {
    if sig == 1 {
        "SIGHUP"@
    } else if sig == 2 {
        "SIGINT"@
    } else if sig == 3 {
        "SIGQUIT"@
    } else if sig == 4 {
        "SIGILL"@
    } else if sig == 5 {
        "SIGTRAP"@
    } else if sig == 6 {
        "SIGABRT"@
    } else if sig == 7 {
        "SIGBUS"@
    } else if sig == 8 {
        "SIGFPE"@
    } else if sig == 9 {
        "SIGKILL"@
    } else if sig == 10 {
        "SIGUSR1"@
    } else if sig == 11 {
        "SIGSEGV"@
    } else if sig == 12 {
        "SIGUSR2"@
    } else if sig == 13 {
        "SIGPIPE"@
    } else if sig == 14 {
        "SIGALRM"@
    } else if sig == 15 {
        "SIGTERM"@
    } else if sig == 16 {
        "SIGSTKFLT"@
    } else if sig == 17 {
        "SIGCHLD"@
    } else if sig == 18 {
        "SIGCONT"@
    } else if sig == 19 {
        "SIGSTOP"@
    } else if sig == 20 {
        "SIGTSTP"@
    } else if sig == 21 {
        "SIGTTIN"@
    } else if sig == 22 {
        "SIGTTOU"@
    } else if sig == 23 {
        "SIGURG"@
    } else if sig == 24 {
        "SIGXCPU"@
    } else if sig == 25 {
        "SIGXFSZ"@
    } else if sig == 26 {
        "SIGVTALRM"@
    } else if sig == 27 {
        "SIGPROF"@
    } else if sig == 28 {
        "SIGWINCH"@
    } else if sig == 29 {
        "SIGIO"@
    } else if sig == 30 {
        "SIGPWR"@
    } else if sig == 31 {
        "SIGSYS"@
    } else if sig == 32 {
        "SIGRTMIN-2"@
    } else if sig == 33 {
        "SIGRTMIN-1"@
    } else if 34 <= sig && sig <= 64 {
        "SIGRTMIN+"@ + dec_str((sig - 34) as nat)
    } else {
        "SIG"@ + dec_str(sig)
    }
}

/// Name signal number `sig`.
pub fn signal_name(sig: u32) -> (r: String)
    ensures
        r@ == signal_name_spec(sig as nat),
{
    if sig == 1 {
        "SIGHUP".to_owned()
    } else if sig == 2 {
        "SIGINT".to_owned()
    } else if sig == 3 {
        "SIGQUIT".to_owned()
    } else if sig == 4 {
        "SIGILL".to_owned()
    } else if sig == 5 {
        "SIGTRAP".to_owned()
    } else if sig == 6 {
        "SIGABRT".to_owned()
    } else if sig == 7 {
        "SIGBUS".to_owned()
    } else if sig == 8 {
        "SIGFPE".to_owned()
    } else if sig == 9 {
        "SIGKILL".to_owned()
    } else if sig == 10 {
        "SIGUSR1".to_owned()
    } else if sig == 11 {
        "SIGSEGV".to_owned()
    } else if sig == 12 {
        "SIGUSR2".to_owned()
    } else if sig == 13 {
        "SIGPIPE".to_owned()
    } else if sig == 14 {
        "SIGALRM".to_owned()
    } else if sig == 15 {
        "SIGTERM".to_owned()
    } else if sig == 16 {
        "SIGSTKFLT".to_owned()
    } else if sig == 17 {
        "SIGCHLD".to_owned()
    } else if sig == 18 {
        "SIGCONT".to_owned()
    } else if sig == 19 {
        "SIGSTOP".to_owned()
    } else if sig == 20 {
        "SIGTSTP".to_owned()
    } else if sig == 21 {
        "SIGTTIN".to_owned()
    } else if sig == 22 {
        "SIGTTOU".to_owned()
    } else if sig == 23 {
        "SIGURG".to_owned()
    } else if sig == 24 {
        "SIGXCPU".to_owned()
    } else if sig == 25 {
        "SIGXFSZ".to_owned()
    } else if sig == 26 {
        "SIGVTALRM".to_owned()
    } else if sig == 27 {
        "SIGPROF".to_owned()
    } else if sig == 28 {
        "SIGWINCH".to_owned()
    } else if sig == 29 {
        "SIGIO".to_owned()
    } else if sig == 30 {
        "SIGPWR".to_owned()
    } else if sig == 31 {
        "SIGSYS".to_owned()
    } else if sig == 32 {
        "SIGRTMIN-2".to_owned()
    } else if sig == 33 {
        "SIGRTMIN-1".to_owned()
    } else if 34 <= sig && sig <= 64 {
        let mut s = "SIGRTMIN+".to_owned();
        s.append(u64_to_dec((sig - 34) as u64).as_str());
        s
    } else {
        let mut s = "SIG".to_owned();
        s.append(u64_to_dec(sig as u64).as_str());
        s
    }
}

/// The names of the signals whose bits at `bit` and above are set in
/// `mask`; bit `b` stands for signal `b + 1`.
pub open spec fn decode_sigs(mask: u64, bit: int) -> Seq<Seq<char>>
    decreases 64 - bit,
{
    if bit < 0 || bit >= 64 {
        Seq::empty()
    } else if (mask >> (bit as u64)) & 1 == 1 {
        seq![signal_name_spec((bit + 1) as nat)] + decode_sigs(mask, bit + 1)
    } else {
        decode_sigs(mask, bit + 1)
    }
}

/// The names of all signals set in `mask`.
pub fn decode_signal_mask(mask: u64) -> (r: Vec<String>)
    ensures
        seq_views(r@) == decode_sigs(mask, 0),
{
    let mut out: Vec<String> = Vec::new();
    let mut bit: u32 = 0;
    proof {
        assert(seq_views(out@) =~= Seq::<Seq<char>>::empty());
        assert(seq_views(out@) + decode_sigs(mask, 0) =~= decode_sigs(mask, 0));
    }
    while bit < 64
        invariant
            bit <= 64,
            decode_sigs(mask, 0) == seq_views(out@) + decode_sigs(mask, bit as int),
        decreases 64 - bit,
    {
        if (mask >> (bit as u64)) & 1 == 1 {
            let name = signal_name(bit + 1);
            out.push(name);
            proof {
                assert(seq_views(out@) =~= seq_views(out@.drop_last()) + seq![signal_name_spec(
                    (bit + 1) as nat,
                )]);
                assert(seq_views(out@.drop_last()) + (seq![signal_name_spec((bit + 1) as nat)]
                    + decode_sigs(mask, bit + 1)) =~= seq_views(out@) + decode_sigs(
                    mask,
                    bit + 1,
                ));
            }
        }
        bit += 1;
    }
    proof {
        assert(seq_views(out@) + Seq::<Seq<char>>::empty() =~= seq_views(out@));
    }
    out
}

/// A line that begins with one of the given prefixes.
pub open spec fn keep_line(l: Seq<char>, prefixes: Seq<Seq<char>>) -> bool {
    exists|j: int| 0 <= j < prefixes.len() && starts_with_seq(l, #[trigger] prefixes[j])
}

/// The kept lines, each followed by a newline.
pub open spec fn filter_acc(ls: Seq<Seq<char>>, prefixes: Seq<Seq<char>>) -> Seq<char>
    decreases ls.len(),
{
    if ls.len() == 0 {
        Seq::empty()
    } else {
        let head: Seq<char> = if keep_line(ls[0], prefixes) {
            ls[0] + seq!['\n']
        } else {
            Seq::empty()
        };
        head + filter_acc(ls.drop_first(), prefixes)
    }
}

/// What [`filter_lines`] returns: the kept lines, or a fixed marker when
/// none is kept.
pub open spec fn filtered_report(ls: Seq<Seq<char>>, prefixes: Seq<Seq<char>>) -> Seq<char> {
    if filter_acc(ls, prefixes).len() > 0 {
        filter_acc(ls, prefixes)
    } else {
        "(no matches)\n"@
    }
}

fn starts_with_any(l: &str, prefixes: &Vec<String>) -> (r: bool)
    ensures
        r == keep_line(l@, seq_views(prefixes@)),
{
    let n = prefixes.len();
    let mut j: usize = 0;
    while j < n
        invariant
            n == prefixes@.len(),
            j <= n,
            forall|k: int| 0 <= k < j ==> !starts_with_seq(l@, #[trigger] seq_views(prefixes@)[k]),
        decreases n - j,
    {
        proof {
            assert(seq_views(prefixes@)[j as int] == prefixes@[j as int]@);
        }
        if str_starts_with(l, prefixes[j].as_str()) {
            return true;
        }
        j += 1;
    }
    false
}

/// Keep the lines of `input` that begin with one of `prefixes`, each with a
/// newline; a fixed marker when nothing matches.
#[verifier::loop_isolation(false)]
pub fn filter_lines(input: &str, prefixes: &Vec<String>) -> (r: String)
    ensures
        r@ == filtered_report(lines_spec(input@), seq_views(prefixes@)),
{
    let lines = split_lines(input);
    let ghost ls = lines_spec(input@);
    let ghost pv = seq_views(prefixes@);
    let n = lines.len();
    let mut out = String::new();
    let mut i: usize = 0;
    proof {
        assert(ls.subrange(0, n as int) =~= ls);
        assert(out@ + filter_acc(ls, pv) =~= filter_acc(ls, pv));
    }
    while i < n
        invariant
            i <= n,
            filter_acc(ls, pv) == out@ + filter_acc(ls.subrange(i as int, n as int), pv),
        decreases n - i,
    {
        let ghost rest = ls.subrange(i as int, n as int);
        proof {
            assert(lines@[i as int]@ == ls[i as int]);
            assert(rest[0] == ls[i as int]);
            assert(rest.drop_first() =~= ls.subrange(i + 1, n as int));
        }
        if starts_with_any(lines[i].as_str(), prefixes) {
            out.append(lines[i].as_str());
            out.append("\n");
            proof {
                reveal_strlit("\n");
                assert("\n"@ =~= seq!['\n']);
                assert(out@ =~= (out@.subrange(0, out@.len() - ls[i as int].len() - 1)) + (
                ls[i as int] + seq!['\n']));
                assert((out@.subrange(0, out@.len() - ls[i as int].len() - 1)) + ((ls[i as int]
                    + seq!['\n']) + filter_acc(rest.drop_first(), pv)) =~= out@ + filter_acc(
                    rest.drop_first(),
                    pv,
                ));
            }
        }
        i += 1;
    }
    proof {
        assert(ls.subrange(n as int, n as int) =~= Seq::<Seq<char>>::empty());
        assert(out@ + Seq::<char>::empty() =~= out@);
    }
    if out.as_str().unicode_len() == 0 {
        return "(no matches)\n".to_owned();
    }
    out
}

/// One decoded mask section: the key, its hexadecimal mask and the names
/// of the signals set in it; nothing when the key's line does not parse.
pub open spec fn mask_section_spec(s: Seq<char>, key: Seq<char>) -> Seq<char> {
    match status_mask_spec(s, key) {
        Some(m) => key + ": 0x"@ + hex_str(m as nat) + "\n"@ + (if decode_sigs(m, 0).len() == 0 {
            "  (none)\n"@
        } else {
            "  "@ + crate::strutil::join_sep(decode_sigs(m, 0), " "@) + "\n"@
        }),
        None => Seq::empty(),
    }
}

/// The whole decoded-signals block: one section per mask field, in the
/// fixed order, or the marker line when none of the five fields parses.
pub open spec fn signal_report_spec(s: Seq<char>) -> Seq<char> {
    if status_mask_spec(s, "SigPnd"@) is None && status_mask_spec(s, "ShdPnd"@) is None
        && status_mask_spec(s, "SigBlk"@) is None && status_mask_spec(s, "SigIgn"@) is None
        && status_mask_spec(s, "SigCgt"@) is None {
        "(no signal masks found)\n"@
    } else {
        mask_section_spec(s, "SigPnd"@) + mask_section_spec(s, "ShdPnd"@) + mask_section_spec(
            s,
            "SigBlk"@,
        ) + mask_section_spec(s, "SigIgn"@) + mask_section_spec(s, "SigCgt"@)
    }
}

fn append_mask_section(out: &mut String, status_text: &str, key: &str) -> (r: bool)
    ensures
        final(out)@ == old(out)@ + mask_section_spec(status_text@, key@),
        r == (status_mask_spec(status_text@, key@) is Some),
{
    match parse_status_hex_mask(status_text, key) {
        Some(mask) => {
            out.append(key);
            out.append(": 0x");
            out.append(u64_to_hex(mask).as_str());
            out.append("\n");
            let names = decode_signal_mask(mask);
            if names.len() == 0 {
                out.append("  (none)\n");
            } else {
                out.append("  ");
                let joined = crate::strutil::join_with(&names, " ");
                out.append(joined.as_str());
                out.append("\n");
            }
            proof {
                assert(final(out)@ =~= old(out)@ + mask_section_spec(status_text@, key@));
            }
            true
        },
        None => {
            proof {
                assert(old(out)@ + Seq::<char>::empty() =~= old(out)@);
            }
            false
        },
    }
}

/// Append the decoded signal-mask block of a `status` text: each of the
/// five mask fields that parses is shown with its hexadecimal value and
/// the names of the signals set in it, and the marker line appears exactly
/// when none of them parses.
#[verifier::rlimit(50)]
pub fn append_decoded_status_signals(out: &mut String, status_text: &str)
    ensures
        final(out)@ == old(out)@ + signal_report_spec(status_text@),
        old(out)@.is_prefix_of(final(out)@),
        final(out)@.len() > old(out)@.len(),
{
    let ghost m1 = mask_section_spec(status_text@, "SigPnd"@);
    let ghost m2 = mask_section_spec(status_text@, "ShdPnd"@);
    let ghost m3 = mask_section_spec(status_text@, "SigBlk"@);
    let ghost m4 = mask_section_spec(status_text@, "SigIgn"@);
    let ghost m5 = mask_section_spec(status_text@, "SigCgt"@);
    let a1 = append_mask_section(out, status_text, "SigPnd");
    let a2 = append_mask_section(out, status_text, "ShdPnd");
    let a3 = append_mask_section(out, status_text, "SigBlk");
    let a4 = append_mask_section(out, status_text, "SigIgn");
    let a5 = append_mask_section(out, status_text, "SigCgt");
    proof {
        assert(out@ == old(out)@ + m1 + m2 + m3 + m4 + m5);
    }
    let any = a1 || a2 || a3 || a4 || a5;
    if !any {
        proof {
            assert(m1 =~= Seq::<char>::empty());
            assert(m2 =~= Seq::<char>::empty());
            assert(m3 =~= Seq::<char>::empty());
            assert(m4 =~= Seq::<char>::empty());
            assert(m5 =~= Seq::<char>::empty());
            assert(out@ =~= old(out)@);
        }
        out.append("(no signal masks found)\n");
        proof {
            reveal_strlit("(no signal masks found)\n");
            assert(signal_report_spec(status_text@) == "(no signal masks found)\n"@);
        }
    } else {
        proof {
            assert(signal_report_spec(status_text@) == m1 + m2 + m3 + m4 + m5);
            assert(out@ =~= old(out)@ + (m1 + m2 + m3 + m4 + m5));
            if a1 {
                reveal_strlit(": 0x");
                assert(m1.len() > 0);
            } else if a2 {
                reveal_strlit(": 0x");
                assert(m2.len() > 0);
            } else if a3 {
                reveal_strlit(": 0x");
                assert(m3.len() > 0);
            } else if a4 {
                reveal_strlit(": 0x");
                assert(m4.len() > 0);
            } else {
                reveal_strlit(": 0x");
                assert(m5.len() > 0);
            }
        }
    }
    proof {
        assert(old(out)@.is_prefix_of(final(out)@)) by {
            assert(final(out)@.subrange(0, old(out)@.len() as int) =~= old(out)@);
        }
    }
}

} // verus!
