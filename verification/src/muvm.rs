//! Around the VM launcher: parsing its exit markers out of a PTY
//! transcript, deciding a run's overall exit, wrapping its argv in a
//! transient service, preparing the emulator image list, and the small
//! helpers the runner needs for paths and timestamps.

use vstd::prelude::*;
use vstd::string::*;
use crate::strutil::{
    starts_with_seq, trim_spec, trim_start_matches_spec, trim_end_matches_spec, lines_spec,
    find_idx, seq_views, contains_str, str_trim, str_find, str_eq, str_trim_start_matches,
    split_lines, vec_contains_str,
};
use crate::numfmt::{is_i32_str, i32_val, parse_i32_dec, dec_str, dec_str_i64, u64_to_dec,
    i32_to_dec};

verus! {

/// The marker value one line carries: the text after the first occurrence
/// of `needle`, trimmed, read as an `i32`.
pub open spec fn marker_line_val(l: Seq<char>, needle: Seq<char>) -> Option<int> {
    let i = find_idx(l, needle);
    if i < 0 {
        None
    } else {
        let tail = trim_spec(l.subrange(i + needle.len(), l.len() as int));
        if is_i32_str(tail) {
            Some(i32_val(tail))
        } else {
            None
        }
    }
}

/// The value of the last line whose marker parses; the last occurrence
/// wins.
pub open spec fn last_marker_val(ls: Seq<Seq<char>>, needle: Seq<char>) -> Option<int>
    decreases ls.len(),
{
    if ls.len() == 0 {
        None
    } else {
        match marker_line_val(ls.last(), needle) {
            Some(v) => Some(v),
            None => last_marker_val(ls.drop_last(), needle),
        }
    }
}

fn parse_marker_last(text: &str, needle: &str) -> (r: Option<i32>)
    ensures
        match r {
            Some(v) => last_marker_val(lines_spec(text@), needle@) == Some(v as int),
            None => last_marker_val(lines_spec(text@), needle@) is None,
        },
{
    let lines = split_lines(text);
    let ghost ls = lines_spec(text@);
    let n = lines.len();
    let mut last: Option<i32> = None;
    let mut i: usize = 0;
    proof {
        assert(ls.subrange(0, 0) =~= Seq::<Seq<char>>::empty());
    }
    while i < n
        invariant
            i <= n,
            n == lines@.len(),
            seq_views(lines@) == ls,
            ls == lines_spec(text@),
            match last {
                Some(v) => last_marker_val(ls.subrange(0, i as int), needle@) == Some(v as int),
                None => last_marker_val(ls.subrange(0, i as int), needle@) is None,
            },
        decreases n - i,
    {
        proof {
            assert(lines@[i as int]@ == ls[i as int]);
            assert(ls.subrange(0, i + 1).drop_last() =~= ls.subrange(0, i as int));
            assert(ls.subrange(0, i + 1).last() == ls[i as int]);
        }
        let l: &str = lines[i].as_str();
        if let Some(idx) = str_find(l, needle) {
            let ll = l.unicode_len();
            let nl = needle.unicode_len();
            let tail = str_trim(l.substring_char(idx + nl, ll));
            if let Some(v) = parse_i32_dec(tail) {
                last = Some(v);
            }
        }
        i += 1;
    }
    proof {
        assert(ls.subrange(0, n as int) =~= ls);
    }
    last
}

/// The guest's exit code out of the launcher's transcript: the value after
/// the last `process exited with status code:` marker.
pub fn parse_muvm_guest_status_code(text: &str) -> (r: Option<i32>)
    ensures
        match r {
            Some(v) => last_marker_val(lines_spec(text@), "process exited with status code:"@)
                == Some(v as int),
            None => last_marker_val(lines_spec(text@), "process exited with status code:"@)
                is None,
        },
{
    parse_marker_last(text, "process exited with status code:")
}

/// The guest's terminating signal out of the launcher's transcript: the
/// value after the last `process terminated by signal:` marker.
pub fn parse_muvm_guest_terminated_signal(text: &str) -> (r: Option<i32>)
    ensures
        match r {
            Some(v) => last_marker_val(lines_spec(text@), "process terminated by signal:"@)
                == Some(v as int),
            None => last_marker_val(lines_spec(text@), "process terminated by signal:"@) is None,
        },
{
    parse_marker_last(text, "process terminated by signal:")
}

/// What one launcher run reported, as the runner records it.
pub struct RunReport {
    pub muvm_succeeded: bool,
    pub muvm_exit_status: i32,
    pub muvm_guest_status_code: Option<i32>,
    pub muvm_guest_terminated_signal: Option<i32>,
    pub timed_out: bool,
}

/// Decide the runner's own exit from a run report: an error naming the
/// launcher's status when it failed, an error naming the guest's code when
/// the guest exited non-zero, success otherwise.
pub fn exit_from_run_report(run_report: &RunReport) -> (r: Result<(), String>)
    ensures
        r is Ok <==> run_report.muvm_succeeded && (match run_report.muvm_guest_status_code {
            Some(code) => code == 0,
            None => true,
        }),
        !run_report.muvm_succeeded ==> (r matches Err(e) && e@ == "muvm failed with status: "@
            + dec_str_i64(run_report.muvm_exit_status as int)),
{
    if !run_report.muvm_succeeded {
        proof {
            reveal_strlit("muvm failed with status: ");
        }
        let mut msg = "muvm failed with status: ".to_owned();
        msg.append(i32_to_dec(run_report.muvm_exit_status).as_str());
        return Err(msg);
    }
    if let Some(code) = run_report.muvm_guest_status_code {
        if code != 0 {
            let mut msg = "guest process exited with status code: ".to_owned();
            msg.append(i32_to_dec(code).as_str());
            return Err(msg);
        }
    }
    Ok(())
}

/// Where the guest browser profile lives.
pub enum ProfileLocation {
    Shared,
    GuestTmp,
}

impl ProfileLocation {
    /// The flag value this location is named by.
    pub fn as_arg(&self) -> (r: &'static str)
        ensures
            self is Shared ==> r@ == "shared"@,
            self is GuestTmp ==> r@ == "guest-tmp"@,
    {
        match self {
            ProfileLocation::Shared => "shared",
            ProfileLocation::GuestTmp => "guest-tmp",
        }
    }
}

/// Wrap a launcher argv in a transient service with a task limit, when one
/// was asked for: unchanged without a limit, refused without the service
/// runner's path, otherwise the runner with its flags, the limit, a
/// separator, and the original argv.
pub fn wrap_muvm_args_if_requested(
    argv: Vec<String>,
    systemd_run_path: Option<String>,
    systemd_tasks_max: Option<u64>,
) -> (r: Result<Vec<String>, String>)
    ensures
        systemd_tasks_max is None ==> (r matches Ok(v) && v == argv),
        systemd_tasks_max is Some && systemd_run_path is None ==> r is Err,
        systemd_tasks_max matches Some(tm) ==> systemd_run_path matches Some(p) ==> (r matches Ok(
            v,
        ) && seq_views(v@) == seq![
            p@,
            "--user"@,
            "--pty"@,
            "--wait"@,
            "--collect"@,
            "-p"@,
            "TasksMax="@ + dec_str(tm as nat),
            "--same-dir"@,
            "--"@,
        ] + seq_views(argv@)),
{
    let tasks_max = match systemd_tasks_max {
        Some(tm) => tm,
        None => {
            return Ok(argv);
        },
    };
    let path = match systemd_run_path {
        Some(p) => p,
        None => {
            return Err("a task limit needs the transient service runner".to_owned());
        },
    };
    let mut out: Vec<String> = Vec::new();
    out.push(path);
    out.push("--user".to_owned());
    out.push("--pty".to_owned());
    out.push("--wait".to_owned());
    out.push("--collect".to_owned());
    out.push("-p".to_owned());
    let mut tm_arg = "TasksMax=".to_owned();
    tm_arg.append(u64_to_dec(tasks_max).as_str());
    out.push(tm_arg);
    out.push("--same-dir".to_owned());
    out.push("--".to_owned());
    let ghost prefix = out@;
    let n = argv.len();
    let mut i: usize = 0;
    while i < n
        invariant
            i <= n,
            n == argv@.len(),
            out@.len() == prefix.len() + i,
            out@.subrange(0, prefix.len() as int) == prefix,
            forall|k: int| 0 <= k < i ==> out@[prefix.len() + k] == argv@[k],
        decreases n - i,
    {
        let a = argv[i].clone();
        out.push(a);
        proof {
            assert(out@.subrange(0, prefix.len() as int) =~= prefix);
        }
        i += 1;
    }
    proof {
        assert(seq_views(out@) =~= seq_views(prefix) + seq_views(argv@));
        assert(seq_views(prefix) =~= seq![
            seq_views(prefix)[0],
            "--user"@,
            "--pty"@,
            "--wait"@,
            "--collect"@,
            "-p"@,
            "TasksMax="@ + dec_str(tasks_max as nat),
            "--same-dir"@,
            "--"@,
        ]);
    }
    Ok(out)
}

/// Merge the image list for the emulator: the caller's images, or the
/// discovered defaults when none were given, with the compatibility overlay
/// appended once when it is not already among them.
pub fn prepare_fex_images(
    images: Vec<String>,
    discovered: Vec<String>,
    overlay: Option<String>,
) -> (r: (Vec<String>, Option<String>))
    ensures
        ({
            let base = if images@.len() == 0 {
                discovered
            } else {
                images
            };
            match overlay {
                Some(o) => {
                    if contains_str(base@, o@) {
                        r.0 == base && r.1 is None
                    } else {
                        r.0@ == base@.push(o) && (r.1 matches Some(ro) && ro@ == o@)
                    }
                },
                None => r.0 == base && r.1 is None,
            }
        }),
{
    let mut fex_images = if images.len() == 0 {
        discovered
    } else {
        images
    };
    let mut note: Option<String> = None;
    if let Some(o) = overlay {
        if !vec_contains_str(&fex_images, o.as_str()) {
            note = Some(o.clone());
            fex_images.push(o);
        } else {
            proof {
                assert(contains_str(fex_images@, o@));
            }
        }
    }
    (fex_images, note)
}

/// A path component with everything but letters, digits, `-`, `_` and `.`
/// replaced by `-`, then stripped of leading and trailing `-`.
pub open spec fn is_component_char(c: char) -> bool {
    ('a' <= c && c <= 'z') || ('A' <= c && c <= 'Z') || ('0' <= c && c <= '9') || c == '-' || c
        == '_' || c == '.'
}

/// `s` mapped character-wise to the component alphabet.
pub open spec fn component_map(s: Seq<char>) -> Seq<char> {
    s.map_values(|c: char| if is_component_char(c) { c } else { '-' })
}

/// Make a string safe as one path component.
pub fn sanitize_path_component(s: &str) -> (r: String)
    ensures
        r@ == trim_end_matches_spec(
            trim_start_matches_spec(component_map(s@), '-'),
            '-',
        ),
{
    let sl = s.unicode_len();
    let mut mapped = String::new();
    let mut i: usize = 0;
    while i < sl
        invariant
            i <= sl,
            sl == s@.len(),
            mapped@.len() == i,
            forall|k: int|
                0 <= k < i ==> mapped@[k] == (if is_component_char(s@[k]) {
                    s@[k]
                } else {
                    '-'
                }),
        decreases sl - i,
    {
        let c = s.get_char(i);
        let keep = ('a' <= c && c <= 'z') || ('A' <= c && c <= 'Z') || ('0' <= c && c <= '9') || c
            == '-' || c == '_' || c == '.';
        if keep {
            let piece = s.substring_char(i, i + 1);
            mapped.append(piece);
            proof {
                assert(piece@ =~= seq![s@[i as int]]);
            }
        } else {
            proof {
                reveal_strlit("-");
            }
            mapped.append("-");
        }
        i += 1;
    }
    proof {
        assert(mapped@ =~= component_map(s@));
    }
    let front = str_trim_start_matches(mapped.as_str(), '-');
    crate::strutil::str_trim_end_matches(front, '-').to_owned()
}

/// The first cgroup-v2 line of `/proc/self/cgroup` decides: the path after
/// `0::`, trimmed; nothing when it trims to nothing.
pub open spec fn cgroup_v2_rel_spec(ls: Seq<Seq<char>>) -> Option<Seq<char>>
    decreases ls.len(),
{
    if ls.len() == 0 {
        None
    } else if starts_with_seq(ls[0], "0::"@) {
        let rel = trim_spec(ls[0].subrange("0::"@.len() as int, ls[0].len() as int));
        if rel.len() == 0 {
            None
        } else {
            Some(rel)
        }
    } else {
        cgroup_v2_rel_spec(ls.drop_first())
    }
}

/// The cgroup-v2 relative path out of `/proc/self/cgroup` text.
pub fn parse_cgroup_v2_relative_path(proc_self_cgroup: &str) -> (r: Option<String>)
    ensures
        match r {
            Some(s) => cgroup_v2_rel_spec(lines_spec(proc_self_cgroup@)) == Some(s@),
            None => cgroup_v2_rel_spec(lines_spec(proc_self_cgroup@)) is None,
        },
{
    let lines = split_lines(proc_self_cgroup);
    let ghost ls = lines_spec(proc_self_cgroup@);
    let n = lines.len();
    let mut i: usize = 0;
    proof {
        assert(ls.subrange(0, n as int) =~= ls);
    }
    while i < n
        invariant
            i <= n,
            n == lines@.len(),
            seq_views(lines@) == ls,
            ls == lines_spec(proc_self_cgroup@),
            cgroup_v2_rel_spec(ls) == cgroup_v2_rel_spec(ls.subrange(i as int, n as int)),
        decreases n - i,
    {
        proof {
            reveal_strlit("0::");
            assert(lines@[i as int]@ == ls[i as int]);
            assert(ls.subrange(i as int, n as int)[0] == ls[i as int]);
            assert(ls.subrange(i as int, n as int).drop_first() =~= ls.subrange(i + 1, n as int));
        }
        let l: &str = lines[i].as_str();
        if str_starts_with_local(l, "0::") {
            let ll = l.unicode_len();
            let rel = str_trim(l.substring_char(3, ll));
            if rel.unicode_len() == 0 {
                return None;
            }
            return Some(rel.to_owned());
        }
        i += 1;
    }
    proof {
        assert(ls.subrange(n as int, n as int) =~= Seq::<Seq<char>>::empty());
    }
    None
}

fn str_starts_with_local(s: &str, p: &str) -> (r: bool)
    ensures
        r == starts_with_seq(s@, p@),
{
    crate::strutil::str_starts_with(s, p)
}

/// The absolute cgroup directory a relative path names: the mount root for
/// `/`, otherwise the path appended under it.
pub fn cgroup_v2_dir_from_relative_path(rel: &str) -> (r: String)
    ensures
        rel@ == "/"@ ==> r@ == "/sys/fs/cgroup"@,
        rel@ != "/"@ ==> r@ == "/sys/fs/cgroup/"@ + trim_start_matches_spec(rel@, '/'),
{
    if str_eq(rel, "/") {
        return "/sys/fs/cgroup".to_owned();
    }
    let trimmed = str_trim_start_matches(rel, '/');
    let mut out = "/sys/fs/cgroup/".to_owned();
    out.append(trimmed);
    out
}

/// Append a path to an argv.
pub fn targs_push_path(args: &mut Vec<String>, p: &str)
    ensures
        final(args)@.len() == old(args)@.len() + 1,
        final(args)@.last()@ == p@,
        forall|k: int| 0 <= k < old(args)@.len() ==> final(args)@[k] == old(args)@[k],
{
    args.push(p.to_owned());
}

/// A millisecond timestamp rendered for a file name.
pub fn chrono_stamp(unix_millis: u64) -> (r: String)
    ensures
        r@ == dec_str(unix_millis as nat),
{
    u64_to_dec(unix_millis)
}

/// A second-resolution timestamp rendered for a report header.
pub fn iso_now(unix_seconds: u64) -> (r: String)
    ensures
        r@ == "unix-seconds:"@ + dec_str(unix_seconds as nat),
{
    proof {
        reveal_strlit("unix-seconds:");
    }
    let mut out = "unix-seconds:".to_owned();
    out.append(u64_to_dec(unix_seconds).as_str());
    out
}

/// The guard that wires a smart-card socket bridge into a guest run; a
/// disabled guard passes everything through unchanged.
pub struct PcscBridgeGuard {
    pub enabled: bool,
    pub host_port: u32,
    pub guest_socket: String,
    pub runner_exe: String,
    pub host_link_path: Option<String>,
}

impl PcscBridgeGuard {
    /// The guard that does nothing.
    pub fn disabled() -> (r: PcscBridgeGuard)
        ensures
            !r.enabled,
            r.host_port == 0,
            r.guest_socket@ == Seq::<char>::empty(),
            r.runner_exe@ == Seq::<char>::empty(),
            r.host_link_path is None,
    {
        PcscBridgeGuard {
            enabled: false,
            host_port: 0,
            guest_socket: String::new(),
            runner_exe: String::new(),
            host_link_path: None,
        }
    }

    /// The guest environment with the bridge's socket name appended when
    /// the bridge is on.
    pub fn apply_env(&self, envs: &Vec<String>) -> (r: Vec<String>)
        ensures
            !self.enabled ==> seq_views(r@) == seq_views(envs@),
            self.enabled ==> seq_views(r@) == seq_views(envs@).push(
                "PCSCLITE_CSOCK_NAME="@ + self.guest_socket@,
            ),
    {
        let mut out: Vec<String> = Vec::new();
        let n = envs.len();
        let mut i: usize = 0;
        while i < n
            invariant
                i <= n,
                n == envs@.len(),
                out@.len() == i,
                forall|k: int| 0 <= k < i ==> out@[k] == envs@[k],
            decreases n - i,
        {
            out.push(envs[i].clone());
            i += 1;
        }
        proof {
            assert(seq_views(out@) =~= seq_views(envs@));
        }
        if !self.enabled {
            return out;
        }
        proof {
            reveal_strlit("PCSCLITE_CSOCK_NAME=");
        }
        let mut var = "PCSCLITE_CSOCK_NAME=".to_owned();
        var.append(self.guest_socket.as_str());
        out.push(var);
        proof {
            assert(seq_views(out@) =~= seq_views(out@.drop_last()).push(
                "PCSCLITE_CSOCK_NAME="@ + self.guest_socket@,
            ));
        }
        out
    }

    /// The guest-side shell prelude that starts the bridge client before
    /// the user's own prelude, when the bridge is on.
    pub fn apply_guest_pre(&self, user_pre: Option<&str>) -> (r: Option<String>)
        ensures
            !self.enabled ==> match (r, user_pre) {
                (Some(s), Some(u)) => s@ == u@,
                (None, None) => true,
                _ => false,
            },
            self.enabled ==> (r matches Some(s) && starts_with_seq(
                s@,
                "# pcsc bridge (guest)\nexport PCSCLITE_CSOCK_NAME=\""@,
            )),
    {
        if !self.enabled {
            return match user_pre {
                Some(u) => Some(u.to_owned()),
                None => None,
            };
        }
        let mut prelude = "# pcsc bridge (guest)\nexport PCSCLITE_CSOCK_NAME=\"".to_owned();
        prelude.append(self.guest_socket.as_str());
        prelude.append("\"\nrm -f \"$PCSCLITE_CSOCK_NAME\" || true\n\"/run/muvm-host");
        prelude.append(self.runner_exe.as_str());
        prelude.append(
            "\" pcsc-guest --host-port ",
        );
        prelude.append(u64_to_dec(self.host_port as u64).as_str());
        prelude.append(
            " --listen \"$PCSCLITE_CSOCK_NAME\" >/tmp/pcsc-guest.log 2>&1 &\nfor i in $(seq 1 50); do\n    [ -S \"$PCSCLITE_CSOCK_NAME\" ] && break\n    sleep 0.05\ndone\nls -l \"$PCSCLITE_CSOCK_NAME\" || true\n",
        );
        proof {
            let hdr = "# pcsc bridge (guest)\nexport PCSCLITE_CSOCK_NAME=\""@;
            assert(starts_with_seq(prelude@, hdr)) by {
                assert(prelude@.subrange(0, hdr.len() as int) =~= hdr);
            }
        }
        match user_pre {
            Some(u) => {
                prelude.append("\n");
                prelude.append(u);
                proof {
                    let hdr = "# pcsc bridge (guest)\nexport PCSCLITE_CSOCK_NAME=\""@;
                    assert(starts_with_seq(prelude@, hdr)) by {
                        assert(prelude@.subrange(0, hdr.len() as int) =~= hdr);
                    }
                }
                Some(prelude)
            },
            None => Some(prelude),
        }
    }
}


/// A key of `acc` already reads as `k`.
pub open spec fn kv_has_key(acc: Seq<(Seq<char>, Seq<char>)>, k: Seq<char>) -> bool {
    exists|j: int| 0 <= j < acc.len() && #[trigger] acc[j].0 == k
}

/// The wanted key/value pairs of a preflight capture: each line split at
/// its first colon, the key trimmed; only wanted keys, the first
/// appearance of each.
pub open spec fn preflight_acc(
    ls: Seq<Seq<char>>,
    want: Seq<Seq<char>>,
    acc: Seq<(Seq<char>, Seq<char>)>,
) -> Seq<(Seq<char>, Seq<char>)>
    decreases ls.len(),
{
    if ls.len() == 0 {
        acc
    } else {
        let i = find_idx(ls[0], ":"@);
        let acc2 = if i < 0 {
            acc
        } else {
            let k = trim_spec(ls[0].subrange(0, i));
            if (exists|j: int| 0 <= j < want.len() && #[trigger] want[j] == k) && !kv_has_key(
                acc,
                k,
            ) {
                acc.push((k, trim_spec(ls[0].subrange(i + 1, ls[0].len() as int))))
            } else {
                acc
            }
        };
        preflight_acc(ls.drop_first(), want, acc2)
    }
}

fn kv_find_key(out: &Vec<(String, String)>, k: &str) -> (r: bool)
    ensures
        r == kv_has_key(crate::inventory::pair_views(out@), k@),
{
    let n = out.len();
    let mut j: usize = 0;
    while j < n
        invariant
            j <= n,
            n == out@.len(),
            forall|q: int| 0 <= q < j ==> out@[q].0@ != k@,
        decreases n - j,
    {
        proof {
            assert(crate::inventory::pair_views(out@)[j as int].0 == out@[j as int].0@);
        }
        if str_eq(out[j].0.as_str(), k) {
            return true;
        }
        j += 1;
    }
    proof {
        assert forall|q: int|
            0 <= q < crate::inventory::pair_views(out@).len() implies #[trigger] crate::inventory::pair_views(
            out@,
        )[q].0 != k@ by {
            assert(crate::inventory::pair_views(out@)[q].0 == out@[q].0@);
        }
    }
    false
}

fn want_has(keys: &Vec<String>, k: &str) -> (r: bool)
    ensures
        r == exists|j: int| 0 <= j < seq_views(keys@).len() && #[trigger] seq_views(keys@)[j] == k@,
{
    let n = keys.len();
    let mut j: usize = 0;
    while j < n
        invariant
            j <= n,
            n == keys@.len(),
            forall|q: int| 0 <= q < j ==> seq_views(keys@)[q] != k@,
        decreases n - j,
    {
        proof {
            assert(seq_views(keys@)[j as int] == keys@[j as int]@);
        }
        if str_eq(keys[j].as_str(), k) {
            proof {
                assert(seq_views(keys@)[j as int] == k@);
            }
            return true;
        }
        j += 1;
    }
    false
}

/// Pull the wanted `key: value` pairs out of a preflight capture, first
/// appearance of each key winning.
pub fn extract_preflight_kvs(text: &str, keys: &Vec<String>) -> (r: Vec<(String, String)>)
    ensures
        crate::inventory::pair_views(r@) == preflight_acc(
            lines_spec(text@),
            seq_views(keys@),
            Seq::empty(),
        ),
{
    let lines = split_lines(text);
    let ghost ls = lines_spec(text@);
    let ghost want = seq_views(keys@);
    let n = lines.len();
    let mut out: Vec<(String, String)> = Vec::new();
    let mut i: usize = 0;
    proof {
        assert(ls.subrange(0, n as int) =~= ls);
        assert(crate::inventory::pair_views(out@) =~= Seq::<(Seq<char>, Seq<char>)>::empty());
    }
    while i < n
        invariant
            i <= n,
            n == lines@.len(),
            seq_views(lines@) == ls,
            ls == lines_spec(text@),
            want == seq_views(keys@),
            preflight_acc(ls, want, Seq::empty()) == preflight_acc(
                ls.subrange(i as int, n as int),
                want,
                crate::inventory::pair_views(out@),
            ),
        decreases n - i,
    {
        let ghost rest = ls.subrange(i as int, n as int);
        proof {
            reveal_strlit(":");
            assert(lines@[i as int]@ == ls[i as int]);
            assert(rest[0] == ls[i as int]);
            assert(rest.drop_first() =~= ls.subrange(i + 1, n as int));
        }
        let l: &str = lines[i].as_str();
        let ghost acc_pre = crate::inventory::pair_views(out@);
        if let Some(ci) = str_find(l, ":") {
            let k = str_trim(l.substring_char(0, ci));
            let wanted = want_has(keys, k);
            let seen = kv_find_key(&out, k);
            if wanted && !seen {
                let ll = l.unicode_len();
                let v = str_trim(l.substring_char(ci + 1, ll));
                out.push((k.to_owned(), v.to_owned()));
                proof {
                    assert(crate::inventory::pair_views(out@) =~= acc_pre.push(
                        (
                            trim_spec(rest[0].subrange(0, ci as int)),
                            trim_spec(rest[0].subrange(ci + 1, rest[0].len() as int)),
                        ),
                    ));
                    assert(preflight_acc(rest, want, acc_pre) == preflight_acc(
                        rest.drop_first(),
                        want,
                        crate::inventory::pair_views(out@),
                    ));
                }
            } else {
                proof {
                    assert(preflight_acc(rest, want, acc_pre) == preflight_acc(
                        rest.drop_first(),
                        want,
                        acc_pre,
                    ));
                }
            }
        } else {
            proof {
                assert(preflight_acc(rest, want, acc_pre) == preflight_acc(
                    rest.drop_first(),
                    want,
                    acc_pre,
                ));
            }
        }
        i += 1;
    }
    proof {
        assert(ls.subrange(n as int, n as int) =~= Seq::<Seq<char>>::empty());
    }
    out
}

} // verus!
