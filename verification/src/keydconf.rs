//! Editing keyboard-remapping configuration: the conservative patch that
//! rewires the command key, the analysis that says whether it is already in
//! place, and the systemd unit-file edit that points a service at a stable
//! input-device path.

use vstd::prelude::*;
use vstd::string::*;
use crate::strutil::{
    contains_seq, starts_with_seq, trim_spec, trim_end_spec, lines_spec, split_ws_spec, seq_views,
    join_nl, str_trim, str_trim_end, str_starts_with, str_contains, str_eq, split_lines,
    split_whitespace, join_lines,
};

verus! {

/// `yes` or `no`.
pub fn yesno(b: bool) -> (r: &'static str)
    ensures
        b ==> r@ == "yes"@,
        !b ==> r@ == "no"@,
{
    if b {
        "yes"
    } else {
        "no"
    }
}

/// What [`analyze_keyd`] reports of a configuration text.
pub open spec fn keyd_has_cmd_tap(s: Seq<char>) -> bool {
    contains_seq(s, "leftmeta = overload(layer(meta_mac), M)"@)
}

pub open spec fn keyd_has_cmd_space(s: Seq<char>) -> bool {
    contains_seq(s, "space = M-space"@)
}

pub open spec fn keyd_cmd_l_is_lock(s: Seq<char>) -> bool {
    contains_seq(s, "l = M-l"@)
}

pub open spec fn keyd_has_lock_chord(s: Seq<char>) -> bool {
    contains_seq(s, "[meta_mac+control]"@) && contains_seq(s, "q = M-l"@)
}

/// `yes` or `no`, at the specification level.
pub open spec fn yn(b: bool) -> Seq<char> {
    if b {
        "yes"@
    } else {
        "no"@
    }
}

/// The one-line summary [`analyze_keyd`] renders.
pub open spec fn keyd_details_spec(s: Seq<char>) -> Seq<char> {
    "Cmd-tap->Overview: "@ + yn(keyd_has_cmd_tap(s)) + ", Cmd+Space->Super+Space: "@ + yn(
        keyd_has_cmd_space(s),
    ) + ", Cmd+L locks: "@ + yn(keyd_cmd_l_is_lock(s)) + ", Cmd+Ctrl+Q locks: "@ + yn(
        keyd_has_lock_chord(s),
    )
}

/// Whether a keyd configuration already has the wanted command-key wiring,
/// with a one-line summary rendering each of the four flags as yes or no.
pub fn analyze_keyd(contents: &str) -> (r: (bool, String))
    ensures
        r.0 == (keyd_has_cmd_tap(contents@) && keyd_has_cmd_space(contents@)
            && !keyd_cmd_l_is_lock(contents@) && keyd_has_lock_chord(contents@)),
        r.1@ == keyd_details_spec(contents@),
{
    let has_cmd_tap_overview = str_contains(contents, "leftmeta = overload(layer(meta_mac), M)");
    let has_cmd_space = str_contains(contents, "space = M-space");
    let cmd_l_is_lock = str_contains(contents, "l = M-l");
    let has_lock_chord = str_contains(contents, "[meta_mac+control]") && str_contains(
        contents,
        "q = M-l",
    );
    let ok = has_cmd_tap_overview && has_cmd_space && !cmd_l_is_lock && has_lock_chord;
    proof {
        reveal_strlit("Cmd-tap->Overview: ");
    }
    let mut details = "Cmd-tap->Overview: ".to_owned();
    details.append(yesno(has_cmd_tap_overview));
    details.append(", Cmd+Space->Super+Space: ");
    details.append(yesno(has_cmd_space));
    details.append(", Cmd+L locks: ");
    details.append(yesno(cmd_l_is_lock));
    details.append(", Cmd+Ctrl+Q locks: ");
    details.append(yesno(has_lock_chord));
    (ok, details)
}

/// The running state of the keyd patch: the output built so far and which
/// section the walk is in.
pub struct KeydPatchState {
    pub out: Seq<char>,
    pub in_main: bool,
    pub in_meta_mac_a: bool,
    pub seen_control: bool,
    pub wrote_lock: bool,
}

/// A trimmed line that is a `[section]` header.
pub open spec fn is_section_header(t: Seq<char>) -> bool {
    t.len() > 0 && t[0] == '[' && t[t.len() - 1] == ']'
}

/// One step of the keyd patch over one raw line.
pub open spec fn keyd_patch_step(st: KeydPatchState, line: Seq<char>) -> KeydPatchState {
    let t = trim_spec(line);
    let in_main = if is_section_header(t) {
        t == "[main]"@
    } else {
        st.in_main
    };
    let in_mm = if is_section_header(t) {
        t == "[meta_mac:A]"@
    } else {
        st.in_meta_mac_a
    };
    let seen = st.seen_control || (is_section_header(t) && t == "[meta_mac+control]"@);
    let wrote0 = if is_section_header(t) && t == "[meta_mac+control]"@ {
        false
    } else {
        st.wrote_lock
    };
    let has_eq = contains_seq(t, "="@);
    if in_main && starts_with_seq(t, "leftmeta"@) && has_eq && contains_seq(t, "layer(meta_mac)"@)
        && !contains_seq(t, "overload("@) {
        KeydPatchState {
            out: st.out + "leftmeta = overload(layer(meta_mac), M)\n"@,
            in_main,
            in_meta_mac_a: in_mm,
            seen_control: seen,
            wrote_lock: wrote0,
        }
    } else if in_mm && starts_with_seq(t, "space"@) && has_eq {
        KeydPatchState {
            out: st.out + "space = M-space\n"@,
            in_main,
            in_meta_mac_a: in_mm,
            seen_control: seen,
            wrote_lock: wrote0,
        }
    } else if in_mm && starts_with_seq(t, "l"@) && has_eq {
        KeydPatchState {
            out: st.out + "l = C-l\n"@,
            in_main,
            in_meta_mac_a: in_mm,
            seen_control: seen,
            wrote_lock: wrote0,
        }
    } else if seen && starts_with_seq(t, "q"@) && has_eq {
        KeydPatchState {
            out: st.out + "q = M-l\n"@,
            in_main,
            in_meta_mac_a: in_mm,
            seen_control: seen,
            wrote_lock: true,
        }
    } else {
        KeydPatchState {
            out: st.out + line + "\n"@,
            in_main,
            in_meta_mac_a: in_mm,
            seen_control: seen,
            wrote_lock: wrote0,
        }
    }
}

/// The keyd patch folded over a line list.
pub open spec fn keyd_patch_lines(st: KeydPatchState, ls: Seq<Seq<char>>) -> KeydPatchState
    decreases ls.len(),
{
    if ls.len() == 0 {
        st
    } else {
        keyd_patch_lines(keyd_patch_step(st, ls[0]), ls.drop_first())
    }
}

/// The starting state of the patch.
pub open spec fn keyd_patch_init() -> KeydPatchState {
    KeydPatchState {
        out: Seq::empty(),
        in_main: false,
        in_meta_mac_a: false,
        seen_control: false,
        wrote_lock: false,
    }
}

/// The whole patched text: the per-line rewrite, then the appends that make
/// sure a `[meta_mac+control]` section with the deliberate lock chord
/// exists.
pub open spec fn keyd_patched(input: Seq<char>) -> Seq<char> {
    let st = keyd_patch_lines(keyd_patch_init(), lines_spec(input));
    if !contains_seq(st.out, "[meta_mac+control]"@) {
        st.out + "\n[meta_mac+control]\n"@ + "# Cmd+Ctrl+Q -> Lock Screen (macOS-like deliberate chord)\n"@
            + "q = M-l\n"@
    } else if !contains_seq(st.out, "[meta_mac+control]\nq = M-l"@) && !contains_seq(
        st.out,
        "\nq = M-l\n"@,
    ) {
        st.out + "\n# Ensure Cmd+Ctrl+Q locks even if control section existed\n"@
            + "[meta_mac+control]\nq = M-l\n"@
    } else if !st.wrote_lock && !contains_seq(st.out, "q = M-l"@) {
        st.out + "\n[meta_mac+control]\nq = M-l\n"@
    } else {
        st.out
    }
}

/// Patch a keyd configuration conservatively: in `[main]` turn a plain
/// `layer(meta_mac)` binding of the command key into the tap-or-hold
/// overload, in `[meta_mac:A]` send the space chord through to the desktop
/// and stop the accidental lock on `l`, and make sure a deliberate
/// `[meta_mac+control]` lock chord exists.  Everything else passes through
/// line by line.
pub fn patch_keyd(original: &str) -> (r: Result<String, String>)
    ensures
        match r {
            Ok(out) => out@ == keyd_patched(original@) && keyd_patched(original@).len() > 0,
            Err(_) => keyd_patched(original@).len() == 0,
        },
{
    let lines = split_lines(original);
    let ghost ls = lines_spec(original@);
    let n = lines.len();
    let mut out = String::new();
    let mut in_main = false;
    let mut in_meta_mac_a = false;
    let mut seen_meta_mac_control = false;
    let mut wrote_lock_mapping = false;
    let mut i: usize = 0;
    proof {
        assert(ls.subrange(0, n as int) =~= ls);
    }
    while i < n
        invariant
            i <= n,
            n == lines@.len(),
            seq_views(lines@) == ls,
            ls == lines_spec(original@),
            keyd_patch_lines(keyd_patch_init(), ls) == keyd_patch_lines(
                KeydPatchState {
                    out: out@,
                    in_main: in_main,
                    in_meta_mac_a: in_meta_mac_a,
                    seen_control: seen_meta_mac_control,
                    wrote_lock: wrote_lock_mapping,
                },
                ls.subrange(i as int, n as int),
            ),
        decreases n - i,
    {
        let ghost rest = ls.subrange(i as int, n as int);
        let ghost st_pre = KeydPatchState {
            out: out@,
            in_main: in_main,
            in_meta_mac_a: in_meta_mac_a,
            seen_control: seen_meta_mac_control,
            wrote_lock: wrote_lock_mapping,
        };
        proof {
            assert(lines@[i as int]@ == ls[i as int]);
            assert(rest[0] == ls[i as int]);
            assert(rest.drop_first() =~= ls.subrange(i + 1, n as int));
        }
        let line: &str = lines[i].as_str();
        let trimmed = str_trim(line);
        let tl = trimmed.unicode_len();
        let is_header = tl > 0 && trimmed.get_char(0) == '[' && trimmed.get_char(tl - 1) == ']';
        if is_header {
            in_main = str_eq(trimmed, "[main]");
            in_meta_mac_a = str_eq(trimmed, "[meta_mac:A]");
            if str_eq(trimmed, "[meta_mac+control]") {
                seen_meta_mac_control = true;
                wrote_lock_mapping = false;
            }
        }
        let has_eq = str_contains(trimmed, "=");
        if in_main && str_starts_with(trimmed, "leftmeta") && has_eq && str_contains(
            trimmed,
            "layer(meta_mac)",
        ) && !str_contains(trimmed, "overload(") {
            out.append("leftmeta = overload(layer(meta_mac), M)\n");
        } else if in_meta_mac_a && str_starts_with(trimmed, "space") && has_eq {
            out.append("space = M-space\n");
        } else if in_meta_mac_a && str_starts_with(trimmed, "l") && has_eq {
            out.append("l = C-l\n");
        } else if seen_meta_mac_control && str_starts_with(trimmed, "q") && has_eq {
            out.append("q = M-l\n");
            wrote_lock_mapping = true;
        } else {
            out.append(line);
            out.append("\n");
        }
        proof {
            assert(KeydPatchState {
                out: out@,
                in_main: in_main,
                in_meta_mac_a: in_meta_mac_a,
                seen_control: seen_meta_mac_control,
                wrote_lock: wrote_lock_mapping,
            } == keyd_patch_step(st_pre, ls[i as int]));
        }
        i += 1;
    }
    proof {
        assert(ls.subrange(n as int, n as int) =~= Seq::<Seq<char>>::empty());
    }
    proof {
        reveal_strlit("\n[meta_mac+control]\n");
    }
    if !str_contains(out.as_str(), "[meta_mac+control]") {
        out.append("\n[meta_mac+control]\n");
        out.append("# Cmd+Ctrl+Q -> Lock Screen (macOS-like deliberate chord)\n");
        out.append("q = M-l\n");
        return Ok(out);
    }
    if !str_contains(out.as_str(), "[meta_mac+control]\nq = M-l") && !str_contains(
        out.as_str(),
        "\nq = M-l\n",
    ) {
        out.append("\n# Ensure Cmd+Ctrl+Q locks even if control section existed\n");
        out.append("[meta_mac+control]\nq = M-l\n");
    } else if !wrote_lock_mapping && !str_contains(out.as_str(), "q = M-l") {
        out.append("\n[meta_mac+control]\nq = M-l\n");
    }
    if out.as_str().unicode_len() == 0 {
        return Err("patch produced empty output".to_owned());
    }
    Ok(out)
}

/// Lines trimmed at their ends, joined, the whole trimmed: the equality
/// under which two configurations count as the same.
pub open spec fn normalize_spec(s: Seq<char>) -> Seq<char> {
    trim_spec(join_nl(lines_spec(s).map_values(|l: Seq<char>| trim_end_spec(l))))
}

/// Normalise a configuration text for comparison.
pub fn normalize(s: &str) -> (r: String)
    ensures
        r@ == normalize_spec(s@),
{
    let lines = split_lines(s);
    let ghost ls = lines_spec(s@);
    let n = lines.len();
    let mut trimmed: Vec<String> = Vec::new();
    let mut i: usize = 0;
    while i < n
        invariant
            i <= n,
            n == lines@.len(),
            seq_views(lines@) == ls,
            trimmed@.len() == i,
            forall|k: int| 0 <= k < i ==> trimmed@[k]@ == trim_end_spec(#[trigger] ls[k]),
        decreases n - i,
    {
        proof {
            assert(lines@[i as int]@ == ls[i as int]);
        }
        trimmed.push(str_trim_end(lines[i].as_str()).to_owned());
        i += 1;
    }
    let joined = join_lines(&trimmed);
    proof {
        assert(seq_views(trimmed@) =~= ls.map_values(|l: Seq<char>| trim_end_spec(l)));
    }
    str_trim(joined.as_str()).to_owned()
}

/// `allow_sudo && !is_root`: when a privileged read or write goes through
/// `sudo`.
pub fn should_use_sudo(allow_sudo: bool, is_root: bool) -> (r: bool)
    ensures
        r == (allow_sudo && !is_root),
{
    allow_sudo && !is_root
}

/// The verdict of a `systemctl` yes/no query: available and successful.
pub fn systemctl_bool(systemctl_exists: bool, status_success: bool) -> (r: bool)
    ensures
        r == (systemctl_exists && status_success),
{
    systemctl_exists && status_success
}

/// `s` with every `c` replaced by `rep`.
pub open spec fn replace_char_spec(s: Seq<char>, c: char, rep: Seq<char>) -> Seq<char>
    decreases s.len(),
{
    if s.len() == 0 {
        Seq::empty()
    } else {
        let head: Seq<char> = if s[0] == c {
            rep
        } else {
            seq![s[0]]
        };
        head + replace_char_spec(s.drop_first(), c, rep)
    }
}

fn replace_char(s: &str, c: char, rep: &str) -> (r: String)
    ensures
        r@ == replace_char_spec(s@, c, rep@),
{
    let sl = s.unicode_len();
    let mut out = String::new();
    let mut i: usize = 0;
    proof {
        assert(s@.subrange(0, sl as int) =~= s@);
        assert(out@ + replace_char_spec(s@, c, rep@) =~= replace_char_spec(s@, c, rep@));
    }
    while i < sl
        invariant
            i <= sl,
            sl == s@.len(),
            replace_char_spec(s@, c, rep@) == out@ + replace_char_spec(
                s@.subrange(i as int, sl as int),
                c,
                rep@,
            ),
        decreases sl - i,
    {
        let ghost rest = s@.subrange(i as int, sl as int);
        proof {
            assert(rest[0] == s@[i as int]);
            assert(rest.drop_first() =~= s@.subrange(i + 1, sl as int));
        }
        if s.get_char(i) == c {
            out.append(rep);
            proof {
                assert(out@ =~= out@.subrange(0, out@.len() - rep@.len()) + rep@);
                assert(out@.subrange(0, out@.len() - rep@.len()) + (rep@ + replace_char_spec(
                    rest.drop_first(),
                    c,
                    rep@,
                )) =~= out@ + replace_char_spec(rest.drop_first(), c, rep@));
            }
        } else {
            let piece = s.substring_char(i, i + 1);
            out.append(piece);
            proof {
                assert(piece@ =~= seq![s@[i as int]]);
                assert(out@ =~= out@.subrange(0, out@.len() - 1) + seq![s@[i as int]]);
                assert(out@.subrange(0, out@.len() - 1) + (seq![s@[i as int]] + replace_char_spec(
                    rest.drop_first(),
                    c,
                    rep@,
                )) =~= out@ + replace_char_spec(rest.drop_first(), c, rep@));
            }
        }
        i += 1;
    }
    proof {
        assert(s@.subrange(sl as int, sl as int) =~= Seq::<char>::empty());
        assert(out@ + Seq::<char>::empty() =~= out@);
    }
    out
}

/// Quote a value as a GVariant string literal, escaping quotes and
/// backslashes.
pub fn quote_gvariant_string(s: &str) -> (r: String)
    ensures
        r@ == "'"@ + replace_char_spec(
            replace_char_spec(s@, '"', "\\\""@),
            '\\',
            "\\\\"@,
        ) + "'"@,
{
    let pass1 = replace_char(s, '"', "\\\"");
    let pass2 = replace_char(pass1.as_str(), '\\', "\\\\");
    let mut out = "'".to_owned();
    out.append(pass2.as_str());
    out.append("'");
    out
}

/// Escape a program name for a `command -v` query: double quotes only.
pub fn shell_escape(s: &str) -> (r: String)
    ensures
        r@ == replace_char_spec(s@, '"', "\\\""@),
{
    replace_char(s, '"', "\\\"")
}

/// The first `ExecStart=` line's value, trimmed.
pub open spec fn first_execstart(ls: Seq<Seq<char>>) -> Option<Seq<char>>
    decreases ls.len(),
{
    if ls.len() == 0 {
        None
    } else if starts_with_seq(ls[0], "ExecStart="@) {
        Some(trim_spec(ls[0].subrange("ExecStart="@.len() as int, ls[0].len() as int)))
    } else {
        first_execstart(ls.drop_first())
    }
}

/// The command of the first `ExecStart=` line of a unit file, trimmed.
pub fn execstart_line(unit: &str) -> (r: Option<String>)
    ensures
        match r {
            Some(s) => first_execstart(lines_spec(unit@)) == Some(s@),
            None => first_execstart(lines_spec(unit@)) is None,
        },
{
    let lines = split_lines(unit);
    let ghost ls = lines_spec(unit@);
    let n = lines.len();
    let mut i: usize = 0;
    proof {
        assert(ls.subrange(0, n as int) =~= ls);
        reveal_strlit("ExecStart=");
    }
    while i < n
        invariant
            i <= n,
            n == lines@.len(),
            seq_views(lines@) == ls,
            ls == lines_spec(unit@),
            first_execstart(ls) == first_execstart(ls.subrange(i as int, n as int)),
        decreases n - i,
    {
        proof {
            reveal_strlit("ExecStart=");
            assert(lines@[i as int]@ == ls[i as int]);
            assert(ls.subrange(i as int, n as int)[0] == ls[i as int]);
            assert(ls.subrange(i as int, n as int).drop_first() =~= ls.subrange(i + 1, n as int));
        }
        let l: &str = lines[i].as_str();
        if str_starts_with(l, "ExecStart=") {
            let ll = l.unicode_len();
            let rest = l.substring_char(10, ll);
            return Some(str_trim(rest).to_owned());
        }
        i += 1;
    }
    proof {
        assert(ls.subrange(n as int, n as int) =~= Seq::<Seq<char>>::empty());
    }
    None
}

/// The token after the first `-d` flag among whitespace tokens; nothing
/// when the flag is absent or stands last.
pub open spec fn dev_from_toks(toks: Seq<Seq<char>>) -> Option<Seq<char>>
    decreases toks.len(),
{
    if toks.len() == 0 {
        None
    } else if toks[0] == "-d"@ {
        if toks.len() >= 2 {
            Some(toks[1])
        } else {
            None
        }
    } else {
        dev_from_toks(toks.drop_first())
    }
}

/// The device path after `-d` in an `ExecStart` command.
pub fn device_path_from_execstart(exec: &str) -> (r: Option<String>)
    ensures
        match r {
            Some(s) => dev_from_toks(split_ws_spec(exec@)) == Some(s@),
            None => dev_from_toks(split_ws_spec(exec@)) is None,
        },
{
    let toks = split_whitespace(exec);
    let ghost tk = split_ws_spec(exec@);
    let n = toks.len();
    let mut i: usize = 0;
    proof {
        assert(tk.subrange(0, n as int) =~= tk);
    }
    while i < n
        invariant
            i <= n,
            n == toks@.len(),
            seq_views(toks@) == tk,
            tk == split_ws_spec(exec@),
            dev_from_toks(tk) == dev_from_toks(tk.subrange(i as int, n as int)),
        decreases n - i,
    {
        proof {
            assert(toks@[i as int]@ == tk[i as int]);
            assert(tk.subrange(i as int, n as int)[0] == tk[i as int]);
            assert(tk.subrange(i as int, n as int).drop_first() =~= tk.subrange(i + 1, n as int));
        }
        if str_eq(toks[i].as_str(), "-d") {
            if i + 1 < n {
                proof {
                    assert(toks@[i + 1]@ == tk[i + 1]);
                    assert(tk.subrange(i as int, n as int)[1] == tk[i + 1]);
                }
                return Some(toks[i + 1].clone());
            }
            return None;
        }
        i += 1;
    }
    proof {
        assert(tk.subrange(n as int, n as int) =~= Seq::<Seq<char>>::empty());
    }
    None
}

/// The current device path of a unit file: the `-d` value of its first
/// `ExecStart=` line.
pub fn current_device_path(unit: &str) -> (r: Result<String, String>)
    ensures
        match r {
            Ok(s) => first_execstart(lines_spec(unit@)) matches Some(ex) && dev_from_toks(
                split_ws_spec(ex),
            ) == Some(s@),
            Err(_) => first_execstart(lines_spec(unit@)) is None || (first_execstart(
                lines_spec(unit@),
            ) matches Some(ex) && dev_from_toks(split_ws_spec(ex)) is None),
        },
{
    let ex = match execstart_line(unit) {
        Some(e) => e,
        None => {
            return Err("no ExecStart= line found".to_owned());
        },
    };
    match device_path_from_execstart(ex.as_str()) {
        Some(d) => Ok(d),
        None => Err("ExecStart missing -d <device>".to_owned()),
    }
}

/// The tokens of `exec` with the value after each `flag` replaced by
/// `desired` where it currently reads `current`; a `flag` that stands last
/// is kept doubled, as the conservative token walk leaves it.
pub open spec fn replace_toks(
    toks: Seq<Seq<char>>,
    flag: Seq<char>,
    current: Seq<char>,
    desired: Seq<char>,
) -> Seq<Seq<char>>
    decreases toks.len(),
{
    if toks.len() == 0 {
        Seq::empty()
    } else if toks[0] == flag {
        if toks.len() >= 2 {
            let v: Seq<char> = if toks[1] == current {
                desired
            } else {
                toks[1]
            };
            seq![flag, v] + replace_toks(toks.skip(2), flag, current, desired)
        } else {
            seq![flag, flag]
        }
    } else {
        seq![toks[0]] + replace_toks(toks.drop_first(), flag, current, desired)
    }
}

/// Replace the value after `flag` among the whitespace tokens of `exec`,
/// only where it matches `current`, and join the tokens with single spaces.
pub fn replace_arg_value(exec: &str, flag: &str, current: &str, desired: &str) -> (r: String)
    ensures
        r@ == join_sep_toks(replace_toks(split_ws_spec(exec@), flag@, current@, desired@)),
{
    let toks = split_whitespace(exec);
    let ghost tk = split_ws_spec(exec@);
    let n = toks.len();
    let mut out: Vec<String> = Vec::new();
    let mut i: usize = 0;
    proof {
        assert(tk.subrange(0, n as int) =~= tk);
        assert(seq_views(out@) =~= Seq::<Seq<char>>::empty());
        assert(seq_views(out@) + replace_toks(tk, flag@, current@, desired@) =~= replace_toks(
            tk,
            flag@,
            current@,
            desired@,
        ));
    }
    while i < n
        invariant
            i <= n,
            n == toks@.len(),
            seq_views(toks@) == tk,
            tk == split_ws_spec(exec@),
            replace_toks(tk, flag@, current@, desired@) == seq_views(out@) + replace_toks(
                tk.subrange(i as int, n as int),
                flag@,
                current@,
                desired@,
            ),
        decreases n - i,
    {
        let ghost rest = tk.subrange(i as int, n as int);
        proof {
            assert(toks@[i as int]@ == tk[i as int]);
            assert(rest[0] == tk[i as int]);
            assert(rest.drop_first() =~= tk.subrange(i + 1, n as int));
        }
        if str_eq(toks[i].as_str(), flag) {
            out.push(flag.to_owned());
            if i + 1 < n {
                proof {
                    assert(toks@[i + 1]@ == tk[i + 1]);
                    assert(rest[1] == tk[i + 1]);
                    assert(rest.skip(2) =~= tk.subrange(i + 2, n as int));
                }
                if str_eq(toks[i + 1].as_str(), current) {
                    out.push(desired.to_owned());
                } else {
                    out.push(toks[i + 1].clone());
                }
                proof {
                    assert(seq_views(out@) =~= seq_views(out@.drop_last().drop_last()) + seq![
                        flag@,
                        seq_views(out@).last(),
                    ]);
                    assert(seq_views(out@.drop_last().drop_last()) + (seq![
                        flag@,
                        seq_views(out@).last(),
                    ] + replace_toks(rest.skip(2), flag@, current@, desired@)) =~= seq_views(out@)
                        + replace_toks(rest.skip(2), flag@, current@, desired@));
                }
                i += 2;
                continue;
            }
            out.push(flag.to_owned());
            proof {
                assert(rest.len() == 1);
                assert(seq_views(out@) =~= seq_views(out@.drop_last().drop_last()) + seq![
                    flag@,
                    flag@,
                ]);
                assert(tk.subrange(n as int, n as int) =~= Seq::<Seq<char>>::empty());
                assert(seq_views(out@.drop_last().drop_last()) + (seq![flag@, flag@]
                    + Seq::<Seq<char>>::empty()) =~= seq_views(out@) + Seq::<Seq<char>>::empty());
                assert(seq_views(out@) + replace_toks(
                    tk.subrange(n as int, n as int),
                    flag@,
                    current@,
                    desired@,
                ) =~= seq_views(out@));
            }
            i = n;
            continue;
        }
        out.push(toks[i].clone());
        proof {
            assert(seq_views(out@) =~= seq_views(out@.drop_last()) + seq![tk[i as int]]);
            assert(seq_views(out@.drop_last()) + (seq![tk[i as int]] + replace_toks(
                rest.drop_first(),
                flag@,
                current@,
                desired@,
            )) =~= seq_views(out@) + replace_toks(rest.drop_first(), flag@, current@, desired@));
        }
        i += 1;
    }
    proof {
        assert(tk.subrange(n as int, n as int) =~= Seq::<Seq<char>>::empty());
        assert(seq_views(out@) + Seq::<Seq<char>>::empty() =~= seq_views(out@));
    }
    crate::strutil::join_with(&out, " ")
}

/// Tokens joined with single spaces.
pub open spec fn join_sep_toks(toks: Seq<Seq<char>>) -> Seq<char> {
    crate::strutil::join_sep(toks, " "@)
}

/// `s` with every leading copy of the prefix `p` removed.
pub open spec fn strip_rep_prefix(s: Seq<char>, p: Seq<char>) -> Seq<char>
    decreases s.len(),
{
    if p.len() > 0 && starts_with_seq(s, p) {
        strip_rep_prefix(s.skip(p.len() as int), p)
    } else {
        s
    }
}

fn str_strip_rep_prefix<'a>(s: &'a str, p: &str) -> (r: &'a str)
    requires
        p@.len() > 0,
    ensures
        r@ == strip_rep_prefix(s@, p@),
    decreases s@.len(),
{
    if str_starts_with(s, p) {
        let sl = s.unicode_len();
        let pl = p.unicode_len();
        let rest = s.substring_char(pl, sl);
        proof {
            assert(rest@ =~= s@.skip(p@.len() as int));
        }
        str_strip_rep_prefix(rest, p)
    } else {
        s
    }
}

/// The unit text rewritten line by line: each `ExecStart=` line has the
/// value after `-d` replaced by `desired`; the second component says
/// whether any line was rewritten; nothing at all when an `ExecStart=`
/// line has no `-d` value.
pub open spec fn replace_dev_lines(ls: Seq<Seq<char>>, desired: Seq<char>) -> Option<
    (Seq<char>, bool),
>
    decreases ls.len(),
{
    if ls.len() == 0 {
        Some((Seq::empty(), false))
    } else if starts_with_seq(ls[0], "ExecStart="@) {
        let ex = strip_rep_prefix(ls[0], "ExecStart="@);
        match dev_from_toks(split_ws_spec(ex)) {
            None => None,
            Some(cur) => match replace_dev_lines(ls.drop_first(), desired) {
                None => None,
                Some(rest) => Some(
                    (
                        "ExecStart="@ + join_sep_toks(
                            replace_toks(split_ws_spec(ex), "-d"@, cur, desired),
                        ) + "\n"@ + rest.0,
                        true,
                    ),
                ),
            },
        }
    } else {
        match replace_dev_lines(ls.drop_first(), desired) {
            None => None,
            Some(rest) => Some((ls[0] + "\n"@ + rest.0, rest.1)),
        }
    }
}

/// Rewrite every `ExecStart=` line of a unit file to use `desired` as the
/// `-d` device.  Refused when no `ExecStart=` line exists or one of them
/// carries no `-d` value.
pub fn replace_device_path(unit: &str, desired: &str) -> (r: Result<String, String>)
    ensures
        match r {
            Ok(out) => replace_dev_lines(lines_spec(unit@), desired@) matches Some(p) && p.1
                && out@ == p.0,
            Err(_) => replace_dev_lines(lines_spec(unit@), desired@) is None || (replace_dev_lines(
                lines_spec(unit@),
                desired@,
            ) matches Some(p) && !p.1),
        },
{
    let lines = split_lines(unit);
    let ghost ls = lines_spec(unit@);
    let n = lines.len();
    let mut out = String::new();
    let mut replaced = false;
    let mut i: usize = 0;
    proof {
        assert(ls.subrange(0, n as int) =~= ls);
    }
    while i < n
        invariant
            i <= n,
            n == lines@.len(),
            seq_views(lines@) == ls,
            ls == lines_spec(unit@),
            match replace_dev_lines(ls.subrange(i as int, n as int), desired@) {
                Some(rest) => replace_dev_lines(ls, desired@) == Some(
                    (out@ + rest.0, replaced || rest.1),
                ),
                None => replace_dev_lines(ls, desired@) is None,
            },
        decreases n - i,
    {
        let ghost rest_ls = ls.subrange(i as int, n as int);
        proof {
            reveal_strlit("ExecStart=");
            assert(lines@[i as int]@ == ls[i as int]);
            assert(rest_ls[0] == ls[i as int]);
            assert(rest_ls.drop_first() =~= ls.subrange(i + 1, n as int));
        }
        let line: &str = lines[i].as_str();
        if str_starts_with(line, "ExecStart=") {
            let ex = str_strip_rep_prefix(line, "ExecStart=");
            let cur = match device_path_from_execstart(ex) {
                Some(c) => c,
                None => {
                    return Err("cannot update ExecStart: missing -d <device>".to_owned());
                },
            };
            let updated = replace_arg_value(ex, "-d", cur.as_str(), desired);
            out.append("ExecStart=");
            out.append(updated.as_str());
            out.append("\n");
            replaced = true;
            proof {
                let piece = "ExecStart="@ + join_sep_toks(
                    replace_toks(split_ws_spec(ex@), "-d"@, cur@, desired@),
                ) + "\n"@;
                assert(out@ =~= out@.subrange(0, out@.len() - piece.len()) + piece);
                assert forall|rest0: Seq<char>|
                    true implies (out@.subrange(0, out@.len() - piece.len()) + (piece + rest0))
                    =~= out@ + rest0 by {}
            }
        } else {
            out.append(line);
            out.append("\n");
            proof {
                let piece = ls[i as int] + "\n"@;
                assert(out@ =~= out@.subrange(0, out@.len() - piece.len()) + piece);
                assert forall|rest0: Seq<char>|
                    true implies (out@.subrange(0, out@.len() - piece.len()) + (piece + rest0))
                    =~= out@ + rest0 by {}
            }
        }
        i += 1;
    }
    proof {
        assert(ls.subrange(n as int, n as int) =~= Seq::<Seq<char>>::empty());
        assert(out@ + Seq::<char>::empty() =~= out@);
    }
    if !replaced {
        return Err("no ExecStart= line found".to_owned());
    }
    Ok(out)
}

/// The stable touchpad detection over `libinput list-devices` output:
/// blocks are separated by blank lines; the kernel node of the first block
/// whose capabilities mention gestures wins.
pub open spec fn touchpad_scan(
    ls: Seq<Seq<char>>,
    dev: Option<Seq<char>>,
    ker: Option<Seq<char>>,
    caps: Option<Seq<char>>,
) -> Option<Seq<char>>
    decreases ls.len(),
{
    if ls.len() == 0 {
        if dev is Some && ker is Some && caps is Some && contains_seq(caps->Some_0, "gesture"@) {
            Some(ker->Some_0)
        } else {
            None
        }
    } else {
        let line = trim_end_spec(ls[0]);
        if line.len() == 0 {
            if dev is Some && ker is Some && caps is Some && contains_seq(
                caps->Some_0,
                "gesture"@,
            ) {
                Some(ker->Some_0)
            } else {
                touchpad_scan(ls.drop_first(), None, None, None)
            }
        } else if starts_with_seq(line, "Device:"@) {
            touchpad_scan(
                ls.drop_first(),
                Some(trim_spec(line.skip("Device:"@.len() as int))),
                ker,
                caps,
            )
        } else if starts_with_seq(line, "Kernel:"@) {
            touchpad_scan(
                ls.drop_first(),
                dev,
                Some(trim_spec(line.skip("Kernel:"@.len() as int))),
                caps,
            )
        } else if starts_with_seq(line, "Capabilities:"@) {
            touchpad_scan(
                ls.drop_first(),
                dev,
                ker,
                Some(trim_spec(line.skip("Capabilities:"@.len() as int))),
            )
        } else {
            touchpad_scan(ls.drop_first(), dev, ker, caps)
        }
    }
}

/// Find the kernel event node of a touchpad-like device in `libinput
/// list-devices` output: the first device block with a gesture capability.
pub fn detect_touchpad_event_via_libinput(text: &str) -> (r: Result<String, String>)
    ensures
        match r {
            Ok(s) => touchpad_scan(lines_spec(text@), None, None, None) == Some(s@),
            Err(_) => touchpad_scan(lines_spec(text@), None, None, None) is None,
        },
{
    let lines = split_lines(text);
    let ghost ls = lines_spec(text@);
    let n = lines.len();
    let mut cur_device: Option<String> = None;
    let mut cur_kernel: Option<String> = None;
    let mut cur_caps: Option<String> = None;
    let mut i: usize = 0;
    proof {
        assert(ls.subrange(0, n as int) =~= ls);
    }
    while i < n
        invariant
            i <= n,
            n == lines@.len(),
            seq_views(lines@) == ls,
            ls == lines_spec(text@),
            touchpad_scan(ls, None, None, None) == touchpad_scan(
                ls.subrange(i as int, n as int),
                match cur_device {
                    Some(ref d) => Some(d@),
                    None => None,
                },
                match cur_kernel {
                    Some(ref k) => Some(k@),
                    None => None,
                },
                match cur_caps {
                    Some(ref c) => Some(c@),
                    None => None,
                },
            ),
        decreases n - i,
    {
        let ghost rest_ls = ls.subrange(i as int, n as int);
        proof {
            reveal_strlit("Device:");
            reveal_strlit("Kernel:");
            reveal_strlit("Capabilities:");
            assert(lines@[i as int]@ == ls[i as int]);
            assert(rest_ls[0] == ls[i as int]);
            assert(rest_ls.drop_first() =~= ls.subrange(i + 1, n as int));
        }
        let line = str_trim_end(lines[i].as_str());
        let ll = line.unicode_len();
        if ll == 0 {
            let done = match (&cur_device, &cur_kernel, &cur_caps) {
                (Some(_), Some(k), Some(c)) => {
                    if str_contains(c.as_str(), "gesture") {
                        Some(k.clone())
                    } else {
                        None
                    }
                },
                _ => None,
            };
            if let Some(k) = done {
                return Ok(k);
            }
            cur_device = None;
            cur_kernel = None;
            cur_caps = None;
        } else if str_starts_with(line, "Device:") {
            let rest = line.substring_char(7, ll);
            proof {
                assert(rest@ =~= trim_end_spec(ls[i as int]).skip(7));
            }
            cur_device = Some(str_trim(rest).to_owned());
        } else if str_starts_with(line, "Kernel:") {
            let rest = line.substring_char(7, ll);
            proof {
                assert(rest@ =~= trim_end_spec(ls[i as int]).skip(7));
            }
            cur_kernel = Some(str_trim(rest).to_owned());
        } else if str_starts_with(line, "Capabilities:") {
            let rest = line.substring_char(13, ll);
            proof {
                assert(rest@ =~= trim_end_spec(ls[i as int]).skip(13));
            }
            cur_caps = Some(str_trim(rest).to_owned());
        }
        i += 1;
    }
    proof {
        assert(ls.subrange(n as int, n as int) =~= Seq::<Seq<char>>::empty());
    }
    let done = match (&cur_device, &cur_kernel, &cur_caps) {
        (Some(_), Some(k), Some(c)) => {
            if str_contains(c.as_str(), "gesture") {
                Some(k.clone())
            } else {
                None
            }
        },
        _ => None,
    };
    match done {
        Some(k) => Ok(k),
        None => Err("unable to find a touchpad-like device in the listing".to_owned()),
    }
}

} // verus!
