//! The diagnostic report of the desktop setup: a fixed set of command
//! probes, configuration reads and settings queries, folded into one
//! structured report.  Every probe is best effort: a command that cannot be
//! spawned becomes a sentinel entry, a privileged read that was refused
//! becomes a skip note, and the report always builds.

use vstd::prelude::*;
use vstd::string::*;
use crate::strutil::{
    contains_seq, trim_spec, lower_spec, lines_spec, seq_views, join_nl, str_trim, str_contains,
    split_lines, join_lines, to_ascii_lower,
};

verus! {

/// What one command probe captured.
pub struct CommandProbe {
    pub status: i32,
    pub stdout: String,
    pub stderr: String,
}

/// How an attempt to spawn a probe command ended.
pub enum ProbeOutcome {
    /// The command ran; its exit status and captured streams.
    Ran { status: i32, stdout: String, stderr: String },
    /// The command does not exist.
    NotFound,
    /// The spawn failed for another reason.
    SpawnFailed { message: String },
}

/// How an attempt to read a file ended.
pub enum ReadOutcome {
    Got { contents: String },
    PermissionDenied,
    Failed { message: String },
}

/// The whole diagnostic report.  Map-like fields keep their entries in
/// insertion order.
pub struct DoctorReport {
    pub timestamp: Option<String>,
    pub uname: Option<String>,
    pub os_release: Option<String>,
    pub gsettings: Vec<(String, String)>,
    pub files: Vec<(String, String)>,
    pub commands: Vec<(String, CommandProbe)>,
    pub skipped: Vec<(String, String)>,
}

/// The spawn attempt could not even find the command.
pub fn is_not_found(outcome: &ProbeOutcome) -> (r: bool)
    ensures
        r == (outcome is NotFound),
{
    match outcome {
        ProbeOutcome::NotFound => true,
        _ => false,
    }
}

/// The read was refused for lack of privilege.
pub fn is_permission_denied(outcome: &ReadOutcome) -> (r: bool)
    ensures
        r == (outcome is PermissionDenied),
{
    match outcome {
        ReadOutcome::PermissionDenied => true,
        _ => false,
    }
}

/// A probe whose stderr hints that only privilege separates us from the
/// system journal.
pub fn looks_like_journal_permission_problem(p: &CommandProbe) -> (r: bool)
    ensures
        r == (contains_seq(
            lower_spec(p.stderr@),
            "not seeing messages from other users and the system"@,
        ) || contains_seq(lower_spec(p.stderr@), "permission denied"@) || contains_seq(
            lower_spec(p.stderr@),
            "access denied"@,
        ) || contains_seq(lower_spec(p.stderr@), "not authorized"@)),
{
    let stderr = to_ascii_lower(p.stderr.as_str());
    str_contains(stderr.as_str(), "not seeing messages from other users and the system")
        || str_contains(stderr.as_str(), "permission denied") || str_contains(
        stderr.as_str(),
        "access denied",
    ) || str_contains(stderr.as_str(), "not authorized")
}

/// The first `max_lines` lines, with a truncation marker line appended when
/// more follow.
pub open spec fn trimmed_multiline_spec(s: Seq<char>, max_lines: nat) -> Seq<char> {
    let ls = lines_spec(s);
    if ls.len() > max_lines {
        join_nl(ls.subrange(0, max_lines as int).push("\u{2026}<truncated>\u{2026}"@))
    } else {
        join_nl(ls)
    }
}

/// Clip a capture to its first `max_lines` lines.
pub fn trimmed_multiline(s: String, max_lines: usize) -> (r: String)
    ensures
        r@ == trimmed_multiline_spec(s@, max_lines as nat),
{
    let lines = split_lines(s.as_str());
    let ghost ls = lines_spec(s@);
    let n = lines.len();
    let bound: usize = if n < max_lines {
        n
    } else {
        max_lines
    };
    let mut kept: Vec<String> = Vec::new();
    let mut i: usize = 0;
    while i < bound
        invariant
            i <= bound,
            bound <= lines@.len(),
            seq_views(lines@) == ls,
            kept@.len() == i,
            forall|k: int| 0 <= k < i ==> kept@[k]@ == ls[k],
        decreases bound - i,
    {
        proof {
            assert(lines@[i as int]@ == ls[i as int]);
        }
        kept.push(lines[i].clone());
        i += 1;
    }
    if n > max_lines {
        kept.push("\u{2026}<truncated>\u{2026}".to_owned());
        proof {
            assert(seq_views(kept@) =~= ls.subrange(0, max_lines as int).push(
                "\u{2026}<truncated>\u{2026}"@,
            ));
        }
    } else {
        proof {
            assert(seq_views(kept@) =~= ls);
        }
    }
    join_lines(&kept)
}

/// The first line, trimmed; empty for empty input.
pub fn one_line(s: &str) -> (r: String)
    ensures
        lines_spec(s@).len() > 0 ==> r@ == trim_spec(lines_spec(s@)[0]),
        lines_spec(s@).len() == 0 ==> r@ == Seq::<char>::empty(),
{
    let lines = split_lines(s);
    if lines.len() == 0 {
        return String::new();
    }
    proof {
        assert(lines@[0]@ == lines_spec(s@)[0]);
    }
    str_trim(lines[0].as_str()).to_owned()
}

/// A probe key whose output is worth printing across several lines.
pub fn is_multiline_worth_printing(key: &str) -> (r: bool)
    ensures
        r == (contains_seq(key@, "status titdb"@) || contains_seq(key@, "journalctl -u titdb"@)
            || contains_seq(key@, "journald (native)"@)),
{
    str_contains(key, "status titdb") || str_contains(key, "journalctl -u titdb") || str_contains(
        key,
        "journald (native)",
    )
}

fn spawn_error_probe(message: &str) -> (r: CommandProbe)
    ensures
        r.status == 127,
        r.stdout@ == Seq::<char>::empty(),
        r.stderr@ == "<spawn error: "@ + message@ + ">"@,
{
    proof {
        reveal_strlit("<spawn error: ");
    }
    let mut stderr = "<spawn error: ".to_owned();
    stderr.append(message);
    stderr.append(">");
    CommandProbe { status: 127, stdout: String::new(), stderr }
}

/// Run one probe's bookkeeping: a spawn failure becomes a sentinel entry
/// under `key`; a run becomes a clipped entry; success hands back the
/// trimmed stdout.
pub fn probe_cmd(key: &str, outcome: &ProbeOutcome, commands: &mut Vec<(String, CommandProbe)>)
    -> (r: Option<String>)
    ensures
        final(commands)@.len() == old(commands)@.len() + 1,
        forall|k: int| 0 <= k < old(commands)@.len() ==> final(commands)@[k] == old(commands)@[k],
        final(commands)@.last().0@ == key@,
        match outcome {
            ProbeOutcome::Ran { status, stdout, stderr } => {
                &&& final(commands)@.last().1.status == status
                &&& final(commands)@.last().1.stdout@ == trimmed_multiline_spec(stdout@, 200)
                &&& final(commands)@.last().1.stderr@ == trimmed_multiline_spec(stderr@, 200)
                &&& (r matches Some(s) <==> *status == 0)
                &&& (r matches Some(s) ==> s@ == trim_spec(stdout@))
            },
            _ => r is None && final(commands)@.last().1.status == 127,
        },
{
    match outcome {
        ProbeOutcome::Ran { status, stdout, stderr } => {
            let probe = CommandProbe {
                status: *status,
                stdout: trimmed_multiline(stdout.clone(), 200),
                stderr: trimmed_multiline(stderr.clone(), 200),
            };
            commands.push((key.to_owned(), probe));
            if *status == 0 {
                Some(str_trim(stdout.as_str()).to_owned())
            } else {
                None
            }
        },
        ProbeOutcome::NotFound => {
            commands.push((key.to_owned(), spawn_error_probe("command not found")));
            None
        },
        ProbeOutcome::SpawnFailed { message } => {
            commands.push((key.to_owned(), spawn_error_probe(message.as_str())));
            None
        },
    }
}

/// Like [`probe_cmd`], but a missing command becomes a skip note rather
/// than a sentinel entry.
pub fn probe_cmd_optional(
    key: &str,
    outcome: &ProbeOutcome,
    commands: &mut Vec<(String, CommandProbe)>,
    skipped: &mut Vec<(String, String)>,
    skip_reason: &str,
) -> (r: Option<String>)
    ensures
        match outcome {
            ProbeOutcome::NotFound => {
                &&& final(skipped)@.len() == old(skipped)@.len() + 1
                &&& final(skipped)@.last().0@ == key@
                &&& final(skipped)@.last().1@ == skip_reason@
                &&& final(commands)@ == old(commands)@
                &&& r is None
            },
            _ => final(skipped)@ == old(skipped)@ && final(commands)@.len() == old(
                commands,
            )@.len() + 1,
        },
{
    match outcome {
        ProbeOutcome::NotFound => {
            skipped.push((key.to_owned(), skip_reason.to_owned()));
            None
        },
        _ => probe_cmd(key, outcome, commands),
    }
}

/// Capture one probe as an entry value: an error message when it could not
/// spawn.
pub fn run_cmd_capture(outcome: &ProbeOutcome) -> (r: Result<CommandProbe, String>)
    ensures
        match outcome {
            ProbeOutcome::Ran { status, stdout, stderr } => r matches Ok(p) && p.status == status
                && p.stdout@ == trimmed_multiline_spec(stdout@, 200) && p.stderr@
                == trimmed_multiline_spec(stderr@, 200),
            _ => r is Err,
        },
{
    match outcome {
        ProbeOutcome::Ran { status, stdout, stderr } => Ok(
            CommandProbe {
                status: *status,
                stdout: trimmed_multiline(stdout.clone(), 200),
                stderr: trimmed_multiline(stderr.clone(), 200),
            },
        ),
        ProbeOutcome::NotFound => Err("command not found".to_owned()),
        ProbeOutcome::SpawnFailed { message } => Err(message.clone()),
    }
}

/// The journal probe with a privilege fallback: try unprivileged first;
/// when the output hints at a permission problem, use the privileged
/// attempt if the caller may, otherwise record a skip.
pub fn probe_cmd_sudo_fallback(
    allow_sudo: bool,
    is_root: bool,
    key: &str,
    first: &ProbeOutcome,
    sudo_retry: &Option<ProbeOutcome>,
    commands: &mut Vec<(String, CommandProbe)>,
    skipped: &mut Vec<(String, String)>,
    skip_reason: &str,
) -> (r: Option<String>)
    ensures
        first is NotFound ==> final(commands)@ == old(commands)@ && final(skipped)@.len() == old(
            skipped,
        )@.len() + 1,
        first matches ProbeOutcome::Ran { status, stdout, stderr } ==> (*status == 0 ==> (r is Some
            && final(commands)@.len() == old(commands)@.len() + 1 && final(skipped)@ == old(
            skipped,
        )@)),
{
    match first {
        ProbeOutcome::NotFound => {
            let mut reason = String::new();
            reason.append("command not installed");
            skipped.push((key.to_owned(), reason));
            return None;
        },
        ProbeOutcome::SpawnFailed { message } => {
            commands.push((key.to_owned(), spawn_error_probe(message.as_str())));
            return None;
        },
        ProbeOutcome::Ran { status, stdout, stderr } => {
            let initial = CommandProbe {
                status: *status,
                stdout: trimmed_multiline(stdout.clone(), 200),
                stderr: trimmed_multiline(stderr.clone(), 200),
            };
            if initial.status == 0 {
                let first_line = one_line(initial.stdout.as_str());
                commands.push((key.to_owned(), initial));
                return Some(first_line);
            }
            if looks_like_journal_permission_problem(&initial) {
                if allow_sudo && !is_root {
                    match sudo_retry {
                        Some(ProbeOutcome::Ran {
                            status: s2,
                            stdout: so2,
                            stderr: se2,
                        }) => {
                            let p2 = CommandProbe {
                                status: *s2,
                                stdout: trimmed_multiline(so2.clone(), 200),
                                stderr: trimmed_multiline(se2.clone(), 200),
                            };
                            let trimmed = str_trim(p2.stdout.as_str()).to_owned();
                            let first_line = one_line(p2.stdout.as_str());
                            commands.push((key.to_owned(), p2));
                            if trimmed.as_str().unicode_len() == 0 {
                                return None;
                            }
                            return Some(first_line);
                        },
                        _ => {
                            skipped.push((key.to_owned(), skip_reason.to_owned()));
                            return None;
                        },
                    }
                }
                skipped.push((key.to_owned(), skip_reason.to_owned()));
                return None;
            }
            commands.push((key.to_owned(), initial));
            None
        },
    }
}

/// One settings query and what it returned.
pub struct GsQuery {
    pub schema: String,
    pub key: String,
    pub value: GsOutcome,
}

/// How a settings query ended.
pub enum GsOutcome {
    Value { value: String },
    Absent,
    Error { message: String },
}

/// One privileged file read and what it returned.
pub struct FileRead {
    pub path: String,
    pub outcome: ReadOutcome,
}

/// One named probe with the note to record when its command is missing.
pub struct NamedProbe {
    pub key: String,
    pub skip_reason: String,
    pub outcome: ProbeOutcome,
}

/// Everything the probe schedule captured, ready to be folded into a
/// report.
pub struct DoctorProbes {
    pub date: ProbeOutcome,
    pub uname: ProbeOutcome,
    pub os_release: Option<String>,
    pub gsettings: Vec<GsQuery>,
    pub files: Vec<FileRead>,
    pub libinput: ProbeOutcome,
    pub libinput_sudo: Option<ProbeOutcome>,
    pub service_probes: Vec<NamedProbe>,
    pub journal: NamedProbe,
    pub journal_sudo: Option<ProbeOutcome>,
    pub journal_native: Option<CommandProbe>,
    pub journal_native_skip: Option<String>,
}

/// The report text a settings outcome renders to.
pub open spec fn gs_value_spec(o: GsOutcome) -> Seq<char> {
    match o {
        GsOutcome::Value { value } => value@,
        GsOutcome::Absent => "<absent>"@,
        GsOutcome::Error { message } => "<error: "@ + message@ + ">"@,
    }
}

fn clone_probe(p: &CommandProbe) -> (r: CommandProbe)
    ensures
        r.status == p.status,
        r.stdout@ == p.stdout@,
        r.stderr@ == p.stderr@,
{
    CommandProbe { status: p.status, stdout: p.stdout.clone(), stderr: p.stderr.clone() }
}

/// Fold the captured probes into the report.  The timestamp and kernel
/// line come from their probes' trimmed output on success; the settings
/// queries keep their order, absent keys and errors rendered inline; a
/// refused privileged read becomes a skip note for an unprivileged caller;
/// the journal probe goes through the privilege fallback; and every
/// command entry is clipped.  The report always builds.
pub fn collect(probes: &DoctorProbes, allow_sudo: bool, is_root: bool) -> (r: DoctorReport)
    ensures
        match &probes.date {
            ProbeOutcome::Ran { status, stdout, stderr } => (r.timestamp is Some <==> *status == 0)
                && (r.timestamp matches Some(t) ==> t@ == trim_spec(stdout@)),
            _ => r.timestamp is None,
        },
        match &probes.uname {
            ProbeOutcome::Ran { status, stdout, stderr } => (r.uname is Some <==> *status == 0) && (
            r.uname matches Some(t) ==> t@ == trim_spec(stdout@)),
            _ => r.uname is None,
        },
        match &probes.os_release {
            Some(s) => r.os_release matches Some(o) && o@ == trimmed_multiline_spec(s@, 40),
            None => r.os_release is None,
        },
        r.gsettings@.len() == probes.gsettings@.len(),
        forall|k: int|
            0 <= k < probes.gsettings@.len() ==> (#[trigger] r.gsettings@[k]).0@
                == probes.gsettings@[k].schema@ + " "@ + probes.gsettings@[k].key@
                && r.gsettings@[k].1@ == gs_value_spec(probes.gsettings@[k].value),
{
    let mut gsettings: Vec<(String, String)> = Vec::new();
    let mut files: Vec<(String, String)> = Vec::new();
    let mut commands: Vec<(String, CommandProbe)> = Vec::new();
    let mut skipped: Vec<(String, String)> = Vec::new();

    let timestamp = probe_cmd("date -Iseconds", &probes.date, &mut commands);
    let uname = probe_cmd("uname -a", &probes.uname, &mut commands);
    let os_release = match &probes.os_release {
        Some(s) => Some(trimmed_multiline(s.clone(), 40)),
        None => None,
    };

    let gn = probes.gsettings.len();
    let mut g: usize = 0;
    while g < gn
        invariant
            g <= gn,
            gn == probes.gsettings@.len(),
            gsettings@.len() == g,
            forall|k: int|
                0 <= k < g ==> (#[trigger] gsettings@[k]).0@ == probes.gsettings@[k].schema@ + " "@
                    + probes.gsettings@[k].key@ && gsettings@[k].1@ == gs_value_spec(
                    probes.gsettings@[k].value,
                ),
        decreases gn - g,
    {
        let q = &probes.gsettings[g];
        let mut key = q.schema.clone();
        key.append(" ");
        key.append(q.key.as_str());
        let value: String = match &q.value {
            GsOutcome::Value { value } => value.clone(),
            GsOutcome::Absent => "<absent>".to_owned(),
            GsOutcome::Error { message } => {
                proof {
                    reveal_strlit("<error: ");
                }
                let mut v = "<error: ".to_owned();
                v.append(message.as_str());
                v.append(">");
                v
            },
        };
        gsettings.push((key, value));
        g += 1;
    }

    let fnn = probes.files.len();
    let mut f: usize = 0;
    while f < fnn
        invariant
            f <= fnn,
            fnn == probes.files@.len(),
        decreases fnn - f,
    {
        let fr = &probes.files[f];
        match &fr.outcome {
            ReadOutcome::Got { contents } => {
                files.push((fr.path.clone(), trimmed_multiline(contents.clone(), 80)));
            },
            ReadOutcome::PermissionDenied => {
                if !allow_sudo && !is_root {
                    let mut key = "read ".to_owned();
                    key.append(fr.path.as_str());
                    skipped.push((key, "requires privilege; retry as root".to_owned()));
                }
            },
            ReadOutcome::Failed { message: _ } => {},
        }
        f += 1;
    }

    // The input-device listing often needs privilege to see `/dev/input`.
    let libinput_key = "libinput list-devices";
    match &probes.libinput {
        ProbeOutcome::Ran { status, stdout, stderr } => {
            let initial = CommandProbe {
                status: *status,
                stdout: trimmed_multiline(stdout.clone(), 200),
                stderr: trimmed_multiline(stderr.clone(), 200),
            };
            let lowered = to_ascii_lower(initial.stderr.as_str());
            let denied = str_contains(lowered.as_str(), "permission denied") || str_contains(
                lowered.as_str(),
                "failed to open /dev/input",
            );
            if *status == 0 && !denied {
                commands.push((libinput_key.to_owned(), initial));
            } else if denied {
                if allow_sudo && !is_root {
                    match &probes.libinput_sudo {
                        Some(retry) => {
                            let _ = probe_cmd(libinput_key, retry, &mut commands);
                        },
                        None => {
                            skipped.push((
                                libinput_key.to_owned(),
                                "requires privilege to inspect the input devices".to_owned(),
                            ));
                        },
                    }
                } else if !allow_sudo && !is_root {
                    skipped.push((
                        libinput_key.to_owned(),
                        "requires privilege to inspect the input devices".to_owned(),
                    ));
                } else {
                    commands.push((libinput_key.to_owned(), initial));
                }
            } else {
                commands.push((libinput_key.to_owned(), initial));
            }
        },
        _ => {},
    }

    let sn = probes.service_probes.len();
    let mut s: usize = 0;
    while s < sn
        invariant
            s <= sn,
            sn == probes.service_probes@.len(),
        decreases sn - s,
    {
        let p = &probes.service_probes[s];
        let _ = probe_cmd_optional(
            p.key.as_str(),
            &p.outcome,
            &mut commands,
            &mut skipped,
            p.skip_reason.as_str(),
        );
        s += 1;
    }

    let _ = probe_cmd_sudo_fallback(
        allow_sudo,
        is_root,
        probes.journal.key.as_str(),
        &probes.journal.outcome,
        &probes.journal_sudo,
        &mut commands,
        &mut skipped,
        probes.journal.skip_reason.as_str(),
    );

    let native_key = "journald (native) titdb since service start";
    match &probes.journal_native {
        Some(p) => {
            commands.push((native_key.to_owned(), clone_probe(p)));
        },
        None => {
            if let Some(reason) = &probes.journal_native_skip {
                skipped.push((native_key.to_owned(), reason.clone()));
            }
        },
    }

    DoctorReport { timestamp, uname, os_release, gsettings, files, commands, skipped }
}

/// A file name with everything but letters, digits, `.`, `_` and `-`
/// replaced by `_`.
pub open spec fn filename_char(c: char) -> char {
    if ('a' <= c && c <= 'z') || ('A' <= c && c <= 'Z') || ('0' <= c && c <= '9') || c == '.' || c
        == '_' || c == '-' {
        c
    } else {
        '_'
    }
}

/// Make a string safe as a file name.
pub fn sanitize_filename(s: &str) -> (r: String)
    ensures
        r@ == s@.map_values(|c: char| filename_char(c)),
{
    let sl = s.unicode_len();
    let mut out = String::new();
    let mut i: usize = 0;
    while i < sl
        invariant
            i <= sl,
            sl == s@.len(),
            out@.len() == i,
            forall|k: int| 0 <= k < i ==> out@[k] == filename_char(#[trigger] s@[k]),
        decreases sl - i,
    {
        let c = s.get_char(i);
        let keep = ('a' <= c && c <= 'z') || ('A' <= c && c <= 'Z') || ('0' <= c && c <= '9') || c
            == '.' || c == '_' || c == '-';
        if keep {
            let piece = s.substring_char(i, i + 1);
            out.append(piece);
            proof {
                assert(piece@ =~= seq![s@[i as int]]);
            }
        } else {
            proof {
                reveal_strlit("_");
            }
            out.append("_");
        }
        i += 1;
    }
    proof {
        assert(out@ =~= s@.map_values(|c: char| filename_char(c)));
    }
    out
}

/// The default file for a saved report: under the state directory, named by
/// the report's sanitized timestamp.
pub fn default_snapshot_path(state_dir: &str, timestamp: Option<&str>) -> (r: String)
    ensures
        r@ == state_dir@ + "/asahi/doctor/doctor-"@ + (match timestamp {
            Some(ts) => ts@.map_values(|c: char| filename_char(c)),
            None => "unknown-time"@,
        }) + ".json"@,
{
    let mut out = state_dir.to_owned();
    out.append("/asahi/doctor/doctor-");
    match timestamp {
        Some(ts) => {
            let safe = sanitize_filename(ts);
            out.append(safe.as_str());
        },
        None => {
            out.append("unknown-time");
        },
    }
    out.append(".json");
    out
}

/// Where to write the report: an explicit path wins; without `save` nothing
/// is written; otherwise the default under the state directory, refused
/// when no state directory is known.
pub fn resolve_output_path(
    output: Option<String>,
    save: bool,
    state_dir: Option<String>,
    timestamp: Option<&str>,
) -> (r: Result<Option<String>, String>)
    ensures
        output is Some ==> (r matches Ok(p) && p == output),
        output is None && !save ==> (r matches Ok(p) && p is None),
        output is None && save && state_dir is None ==> r is Err,
        output is None && save ==> (state_dir matches Some(sd) ==> (r matches Ok(p) && p is Some)),
{
    if output.is_some() {
        return Ok(output);
    }
    if !save {
        return Ok(None);
    }
    match state_dir {
        Some(sd) => Ok(Some(default_snapshot_path(sd.as_str(), timestamp))),
        None => Err("cannot determine state directory".to_owned()),
    }
}

} // verus!
