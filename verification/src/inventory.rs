//! Host-inventory helpers: file digests, command captures, and the
//! wrong-architecture scan over a staged filesystem tree.

use vstd::prelude::*;
use vstd::string::*;
use sha2::Digest;
use crate::strutil::{
    trim_spec, trim_start_matches_spec, trim_end_matches_spec, starts_with_seq, contains_str,
    lines_spec, seq_views, str_trim, str_starts_with, str_eq, str_trim_start_matches,
    str_trim_end_matches, split_lines, vec_contains_str,
};
use crate::numfmt::hex_char;

verus! {

/// What the SHA-256 function returns for a byte sequence.  The digest is a
/// pure function of the bytes alone.
pub uninterp spec fn sha256_of(data: Seq<u8>) -> Seq<u8>;

/// Relies on the `sha2` crate's `Sha256`: a 32-byte digest computed from
/// the input bytes alone.
#[verifier::external_body]
fn sha256_digest(data: &[u8]) -> (r: Vec<u8>)
    ensures
        r@ == sha256_of(data@),
        r@.len() == 32,
{
    sha2::Sha256::digest(data).to_vec()
}

/// Bytes rendered as lower-case hexadecimal, two digits each.
pub open spec fn bytes_hex(bs: Seq<u8>) -> Seq<char>
    decreases bs.len(),
{
    if bs.len() == 0 {
        Seq::empty()
    } else {
        seq![hex_char((bs[0] >> 4) as nat), hex_char((bs[0] & 0xf) as nat)] + bytes_hex(
            bs.drop_first(),
        )
    }
}

/// Render bytes as lower-case hexadecimal.
pub fn to_hex(bs: &Vec<u8>) -> (r: String)
    ensures
        r@ == bytes_hex(bs@),
{
    let n = bs.len();
    let mut out = String::new();
    let mut i: usize = 0;
    proof {
        assert(bs@.subrange(0, n as int) =~= bs@);
        assert(out@ + bytes_hex(bs@) =~= bytes_hex(bs@));
    }
    while i < n
        invariant
            i <= n,
            n == bs@.len(),
            bytes_hex(bs@) == out@ + bytes_hex(bs@.subrange(i as int, n as int)),
        decreases n - i,
    {
        let ghost rest = bs@.subrange(i as int, n as int);
        proof {
            assert(rest[0] == bs@[i as int]);
            assert(rest.drop_first() =~= bs@.subrange(i + 1, n as int));
        }
        let b = bs[i];
        proof {
            assert(b >> 4 < 16 && b & 0xf < 16) by (bit_vector);
        }
        let hi = crate::numfmt::hex_digit_str((b >> 4) as u64);
        let lo = crate::numfmt::hex_digit_str((b & 0xf) as u64);
        out.append(hi);
        out.append(lo);
        proof {
            let pair = seq![
                hex_char((bs@[i as int] >> 4) as nat),
                hex_char((bs@[i as int] & 0xf) as nat),
            ];
            assert(out@ =~= out@.subrange(0, out@.len() - 2) + pair);
            assert(out@.subrange(0, out@.len() - 2) + (pair + bytes_hex(rest.drop_first()))
                =~= out@ + bytes_hex(rest.drop_first()));
        }
        i += 1;
    }
    proof {
        assert(bs@.subrange(n as int, n as int) =~= Seq::<u8>::empty());
        assert(out@ + Seq::<char>::empty() =~= out@);
    }
    out
}

/// One file's identity in the inventory.
pub struct FileInfo {
    pub path: String,
    pub exists: bool,
    pub sha256: Option<String>,
}

/// Digest a file's bytes, best effort: a file that could not be read is
/// reported as present without a digest, a missing file as absent.
pub fn hash_file(path: &str, contents: &Option<Vec<u8>>, exists: bool) -> (r: FileInfo)
    ensures
        r.path@ == path@,
        r.exists == exists,
        match contents {
            Some(bytes) => r.sha256 matches Some(h) && h@ == bytes_hex(sha256_of(bytes@)),
            None => r.sha256 is None,
        },
{
    let sha256 = match contents {
        Some(bytes) => {
            let digest = sha256_digest(bytes.as_slice());
            Some(to_hex(&digest))
        },
        None => None,
    };
    FileInfo { path: path.to_owned(), exists, sha256 }
}

/// What one command invocation captured.
pub struct Capture {
    pub status: Option<i32>,
    pub ok: bool,
    pub stdout: String,
    pub stderr: String,
}

/// A capture together with the argv that produced it.
pub struct CommandInfo {
    pub argv: Vec<String>,
    pub status: Option<i32>,
    pub ok: bool,
    pub stdout: String,
    pub stderr: String,
}

impl Capture {
    /// Pair this capture with its argv.
    pub fn to_command_info(&self, argv: Vec<String>) -> (r: CommandInfo)
        ensures
            seq_views(r.argv@) == seq_views(argv@),
            r.status == self.status,
            r.ok == self.ok,
            r.stdout@ == self.stdout@,
            r.stderr@ == self.stderr@,
    {
        CommandInfo {
            argv,
            status: self.status,
            ok: self.ok,
            stdout: self.stdout.clone(),
            stderr: self.stderr.clone(),
        }
    }
}

/// Record one capture in the inventory's command list and hand it back.
pub fn run_capture(commands: &mut Vec<CommandInfo>, argv: Vec<String>, cap: &Capture) -> (r:
    CommandInfo)
    ensures
        final(commands)@.len() == old(commands)@.len() + 1,
        forall|k: int| 0 <= k < old(commands)@.len() ==> final(commands)@[k] == old(commands)@[k],
        final(commands)@.last().ok == cap.ok,
        final(commands)@.last().status == cap.status,
        r.ok == cap.ok,
        r.status == cap.status,
        r.stdout@ == cap.stdout@,
{
    let mut argv_copy: Vec<String> = Vec::new();
    let an = argv.len();
    let mut i: usize = 0;
    while i < an
        invariant
            i <= an,
            an == argv@.len(),
        decreases an - i,
    {
        argv_copy.push(argv[i].clone());
        i += 1;
    }
    let info = cap.to_command_info(argv);
    let returned = cap.to_command_info(argv_copy);
    commands.push(info);
    returned
}

/// The trimmed field a `uname` invocation printed, absent when the command
/// was unavailable or printed nothing.
pub fn uname_field(stdout: Option<&str>) -> (r: Option<String>)
    ensures
        match stdout {
            Some(s) => if trim_spec(s@).len() == 0 {
                r is None
            } else {
                r matches Some(v) && v@ == trim_spec(s@)
            },
            None => r is None,
        },
{
    match stdout {
        Some(s) => {
            let t = str_trim(s);
            if t.unicode_len() == 0 {
                None
            } else {
                Some(t.to_owned())
            }
        },
        None => None,
    }
}

/// A UTC timestamp out of a `date` capture: its trimmed output, or the
/// empty string when unavailable.
pub fn iso_utc_now(date_stdout: Option<&str>) -> (r: String)
    ensures
        match date_stdout {
            Some(s) => r@ == (if trim_spec(s@).len() == 0 {
                Seq::<char>::empty()
            } else {
                trim_spec(s@)
            }),
            None => r@ == Seq::<char>::empty(),
        },
{
    match date_stdout {
        Some(s) => {
            let t = str_trim(s);
            if t.unicode_len() == 0 {
                String::new()
            } else {
                t.to_owned()
            }
        },
        None => String::new(),
    }
}

/// Where a built binary is expected: the workspace target directory when
/// the build left it there, the legacy per-tool layout otherwise.
pub fn asahi_setup_binary_path(debug: bool, primary_exists: bool) -> (r: String)
    ensures
        primary_exists ==> r@ == "target/"@ + (if debug {
            "debug"@
        } else {
            "release"@
        }) + "/asahi-setup"@,
        !primary_exists ==> r@ == "tools/asahi-setup/target/"@ + (if debug {
            "debug"@
        } else {
            "release"@
        }) + "/asahi-setup"@,
{
    let profile: &str = if debug {
        "debug"
    } else {
        "release"
    };
    if primary_exists {
        let mut out = "target/".to_owned();
        out.append(profile);
        out.append("/asahi-setup");
        out
    } else {
        let mut out = "tools/asahi-setup/target/".to_owned();
        out.append(profile);
        out.append("/asahi-setup");
        out
    }
}

/// An ELF object that is present in the tree but never loaded by guest
/// userspace: kernel program objects and firmware-like blobs.
pub fn is_non_load_bearing_elf_path(rel: &str) -> (r: bool)
    ensures
        r == (starts_with_seq(rel@, "usr/lib/bpf"@) || starts_with_seq(rel@, "usr/lib64/bpf"@)
            || starts_with_seq(rel@, "usr/share/seabios"@)),
{
    str_starts_with(rel, "usr/lib/bpf") || str_starts_with(rel, "usr/lib64/bpf")
        || str_starts_with(rel, "usr/share/seabios")
}

/// A staged overlay must not ship ABI-boundary libraries or base
/// executables, and every load-bearing ELF in it must be for the guest's
/// architecture.  `present` lists the relative paths that exist in the
/// tree; `elf_machines` lists each ELF file with its machine word.
pub fn validate_staging_tree(
    present: &Vec<String>,
    elf_machines: &Vec<(String, u16)>,
    allow_abi_boundary: bool,
) -> (r: Result<(), String>)
    ensures
        r is Ok ==> forall|k: int|
            0 <= k < elf_machines@.len() ==> ((#[trigger] elf_machines@[k]).1 == 62
                || is_non_load_bearing_spec(elf_machines@[k].0@)),
        !allow_abi_boundary && r is Ok ==> !contains_str(present@, "lib64/ld-linux-x86-64.so.2"@)
            && !contains_str(present@, "bin"@) && !contains_str(present@, "usr/bin"@),
{
    if !allow_abi_boundary {
        let forbidden = [
            "lib64/ld-linux-x86-64.so.2",
            "usr/lib64/ld-linux-x86-64.so.2",
            "lib64/libc.so.6",
            "usr/lib64/libc.so.6",
            "lib64/libstdc++.so.6",
            "usr/lib64/libstdc++.so.6",
            "lib64/libgcc_s.so.1",
            "usr/lib64/libgcc_s.so.1",
        ];
        let mut fi: usize = 0;
        while fi < 8
            invariant
                fi <= 8,
                forall|k: int|
                    0 <= k < fi ==> !contains_str(present@, #[trigger] forbidden@[k]@),
            decreases 8 - fi,
        {
            if vec_contains_str(present, forbidden[fi]) {
                return Err("overlay contains ABI-boundary files".to_owned());
            }
            fi += 1;
        }
        let base_dirs = ["bin", "sbin", "usr/bin", "usr/sbin"];
        let mut bi: usize = 0;
        while bi < 4
            invariant
                bi <= 4,
                forall|k: int|
                    0 <= k < bi ==> !contains_str(present@, #[trigger] base_dirs@[k]@),
            decreases 4 - bi,
        {
            if vec_contains_str(present, base_dirs[bi]) {
                return Err("overlay ships base executables".to_owned());
            }
            bi += 1;
        }
        proof {
            assert(!contains_str(present@, "lib64/ld-linux-x86-64.so.2"@));
            assert(!contains_str(present@, "bin"@));
            assert(!contains_str(present@, "usr/bin"@));
        }
    }
    let n = elf_machines.len();
    let mut k: usize = 0;
    while k < n
        invariant
            k <= n,
            n == elf_machines@.len(),
            forall|j: int|
                0 <= j < k ==> ((#[trigger] elf_machines@[j]).1 == 62 || is_non_load_bearing_spec(
                    elf_machines@[j].0@,
                )),
        decreases n - k,
    {
        if !is_non_load_bearing_elf_path(elf_machines[k].0.as_str()) && elf_machines[k].1 != 62 {
            return Err("overlay contains ELF files of a foreign architecture".to_owned());
        }
        k += 1;
    }
    Ok(())
}

/// The spec counterpart of [`is_non_load_bearing_elf_path`].
pub open spec fn is_non_load_bearing_spec(rel: Seq<char>) -> bool {
    starts_with_seq(rel, "usr/lib/bpf"@) || starts_with_seq(rel, "usr/lib64/bpf"@)
        || starts_with_seq(rel, "usr/share/seabios"@)
}

/// The Fedora package a Debian package maps to: a fixed table, with
/// `apt` and `dpkg` deliberately excluded, names that do not begin with
/// `lib` passed through, and everything else refused.
pub open spec fn debian_map_spec(s: Seq<char>) -> Option<Seq<char>> {
    if s == "bash"@ {
        Some("bash"@)
    } else if s == "coreutils"@ {
        Some("coreutils"@)
    } else if s == "libc6"@ {
        Some("glibc"@)
    } else if s == "zlib1g"@ {
        Some("zlib"@)
    } else if s == "systemd"@ {
        Some("systemd"@)
    } else if s == "adduser"@ {
        Some("shadow-utils"@)
    } else if s == "passwd"@ {
        Some("shadow-utils"@)
    } else if s == "g++"@ {
        Some("gcc-c++"@)
    } else if s == "gcc"@ {
        Some("gcc"@)
    } else if s == "perl-base"@ {
        Some("perl"@)
    } else if s == "python3.9"@ {
        Some("python3"@)
    } else if s == "python3.9-minimal"@ {
        Some("python3"@)
    } else if s == "gnupg"@ {
        Some("gnupg2"@)
    } else if s == "gpg"@ {
        Some("gnupg2"@)
    } else if s == "gpgv"@ {
        Some("gnupg2"@)
    } else if s == "tar"@ {
        Some("tar"@)
    } else if s == "gzip"@ {
        Some("gzip"@)
    } else if s == "bzip2"@ {
        Some("bzip2"@)
    } else if s == "xz-utils"@ {
        Some("xz"@)
    } else if s == "file"@ {
        Some("file"@)
    } else if s == "make"@ {
        Some("make"@)
    } else if s == "patch"@ {
        Some("patch"@)
    } else if s == "diffutils"@ {
        Some("diffutils"@)
    } else if s == "findutils"@ {
        Some("findutils"@)
    } else if s == "sed"@ {
        Some("sed"@)
    } else if s == "grep"@ {
        Some("grep"@)
    } else if s == "gawk"@ {
        Some("gawk"@)
    } else if s == "less"@ {
        Some("less"@)
    } else if s == "which"@ {
        Some("which"@)
    } else if s == "curl"@ {
        Some("curl"@)
    } else if s == "wget"@ {
        Some("wget"@)
    } else if s == "ca-certificates"@ {
        Some("ca-certificates"@)
    } else if s == "openssl"@ {
        Some("openssl"@)
    } else if s == "sudo"@ {
        Some("sudo"@)
    } else if s == "git"@ {
        Some("git"@)
    } else if s == "nano"@ {
        Some("nano"@)
    } else if s == "vim-tiny"@ {
        Some("vim-minimal"@)
    } else if s == "procps"@ {
        Some("procps-ng"@)
    } else if s == "net-tools"@ {
        Some("net-tools"@)
    } else if s == "iproute2"@ {
        Some("iproute"@)
    } else if s == "iputils-ping"@ {
        Some("iputils"@)
    } else if s == "hostname"@ {
        Some("hostname"@)
    } else if s == "tzdata"@ {
        Some("tzdata"@)
    } else if s == "locales"@ {
        Some("glibc-langpack-en"@)
    } else if s == "libgl1-mesa-dri"@ {
        Some("mesa-dri-drivers"@)
    } else if s == "libgl1"@ {
        Some("mesa-libGL"@)
    } else if s == "libegl1"@ {
        Some("mesa-libEGL"@)
    } else if s == "libvulkan1"@ {
        Some("vulkan-loader"@)
    } else if s == "mesa-vulkan-drivers"@ {
        Some("mesa-vulkan-drivers"@)
    } else if s == "libx11-6"@ {
        Some("libX11"@)
    } else if s == "libxext6"@ {
        Some("libXext"@)
    } else if s == "libxrandr2"@ {
        Some("libXrandr"@)
    } else if s == "libxi6"@ {
        Some("libXi"@)
    } else if s == "libwayland-client0"@ {
        Some("libwayland-client"@)
    } else if s == "libwayland-server0"@ {
        Some("libwayland-server"@)
    } else if s == "libasound2"@ {
        Some("alsa-lib"@)
    } else if s == "libpulse0"@ {
        Some("pulseaudio-libs"@)
    } else if s == "libpipewire-0.3-0"@ {
        Some("pipewire-libs"@)
    } else if s == "libgtk-3-0"@ {
        Some("gtk3"@)
    } else if s == "libgdk-pixbuf-2.0-0"@ {
        Some("gdk-pixbuf2"@)
    } else if s == "libpango-1.0-0"@ {
        Some("pango"@)
    } else if s == "libcairo2"@ {
        Some("cairo"@)
    } else if s == "libuuid1"@ {
        Some("libuuid"@)
    } else if s == "libxml2"@ {
        Some("libxml2"@)
    } else if s == "libfreetype6"@ {
        Some("freetype"@)
    } else if s == "fontconfig"@ {
        Some("fontconfig"@)
    } else if s == "apt"@ {
        None
    } else if s == "dpkg"@ {
        None
    } else if !starts_with_seq(s, "lib"@) {
        Some(s)
    } else {
        None
    }
}

/// Map a Debian package name to its Fedora counterpart.
pub fn map_debian_to_fedora(debian: &str) -> (r: Option<String>)
    ensures
        match r {
            Some(v) => debian_map_spec(debian@) == Some(v@),
            None => debian_map_spec(debian@) is None,
        },
{
    if str_eq(debian, "bash") {
        Some("bash".to_owned())
    } else if str_eq(debian, "coreutils") {
        Some("coreutils".to_owned())
    } else if str_eq(debian, "libc6") {
        Some("glibc".to_owned())
    } else if str_eq(debian, "zlib1g") {
        Some("zlib".to_owned())
    } else if str_eq(debian, "systemd") {
        Some("systemd".to_owned())
    } else if str_eq(debian, "adduser") {
        Some("shadow-utils".to_owned())
    } else if str_eq(debian, "passwd") {
        Some("shadow-utils".to_owned())
    } else if str_eq(debian, "g++") {
        Some("gcc-c++".to_owned())
    } else if str_eq(debian, "gcc") {
        Some("gcc".to_owned())
    } else if str_eq(debian, "perl-base") {
        Some("perl".to_owned())
    } else if str_eq(debian, "python3.9") {
        Some("python3".to_owned())
    } else if str_eq(debian, "python3.9-minimal") {
        Some("python3".to_owned())
    } else if str_eq(debian, "gnupg") {
        Some("gnupg2".to_owned())
    } else if str_eq(debian, "gpg") {
        Some("gnupg2".to_owned())
    } else if str_eq(debian, "gpgv") {
        Some("gnupg2".to_owned())
    } else if str_eq(debian, "tar") {
        Some("tar".to_owned())
    } else if str_eq(debian, "gzip") {
        Some("gzip".to_owned())
    } else if str_eq(debian, "bzip2") {
        Some("bzip2".to_owned())
    } else if str_eq(debian, "xz-utils") {
        Some("xz".to_owned())
    } else if str_eq(debian, "file") {
        Some("file".to_owned())
    } else if str_eq(debian, "make") {
        Some("make".to_owned())
    } else if str_eq(debian, "patch") {
        Some("patch".to_owned())
    } else if str_eq(debian, "diffutils") {
        Some("diffutils".to_owned())
    } else if str_eq(debian, "findutils") {
        Some("findutils".to_owned())
    } else if str_eq(debian, "sed") {
        Some("sed".to_owned())
    } else if str_eq(debian, "grep") {
        Some("grep".to_owned())
    } else if str_eq(debian, "gawk") {
        Some("gawk".to_owned())
    } else if str_eq(debian, "less") {
        Some("less".to_owned())
    } else if str_eq(debian, "which") {
        Some("which".to_owned())
    } else if str_eq(debian, "curl") {
        Some("curl".to_owned())
    } else if str_eq(debian, "wget") {
        Some("wget".to_owned())
    } else if str_eq(debian, "ca-certificates") {
        Some("ca-certificates".to_owned())
    } else if str_eq(debian, "openssl") {
        Some("openssl".to_owned())
    } else if str_eq(debian, "sudo") {
        Some("sudo".to_owned())
    } else if str_eq(debian, "git") {
        Some("git".to_owned())
    } else if str_eq(debian, "nano") {
        Some("nano".to_owned())
    } else if str_eq(debian, "vim-tiny") {
        Some("vim-minimal".to_owned())
    } else if str_eq(debian, "procps") {
        Some("procps-ng".to_owned())
    } else if str_eq(debian, "net-tools") {
        Some("net-tools".to_owned())
    } else if str_eq(debian, "iproute2") {
        Some("iproute".to_owned())
    } else if str_eq(debian, "iputils-ping") {
        Some("iputils".to_owned())
    } else if str_eq(debian, "hostname") {
        Some("hostname".to_owned())
    } else if str_eq(debian, "tzdata") {
        Some("tzdata".to_owned())
    } else if str_eq(debian, "locales") {
        Some("glibc-langpack-en".to_owned())
    } else if str_eq(debian, "libgl1-mesa-dri") {
        Some("mesa-dri-drivers".to_owned())
    } else if str_eq(debian, "libgl1") {
        Some("mesa-libGL".to_owned())
    } else if str_eq(debian, "libegl1") {
        Some("mesa-libEGL".to_owned())
    } else if str_eq(debian, "libvulkan1") {
        Some("vulkan-loader".to_owned())
    } else if str_eq(debian, "mesa-vulkan-drivers") {
        Some("mesa-vulkan-drivers".to_owned())
    } else if str_eq(debian, "libx11-6") {
        Some("libX11".to_owned())
    } else if str_eq(debian, "libxext6") {
        Some("libXext".to_owned())
    } else if str_eq(debian, "libxrandr2") {
        Some("libXrandr".to_owned())
    } else if str_eq(debian, "libxi6") {
        Some("libXi".to_owned())
    } else if str_eq(debian, "libwayland-client0") {
        Some("libwayland-client".to_owned())
    } else if str_eq(debian, "libwayland-server0") {
        Some("libwayland-server".to_owned())
    } else if str_eq(debian, "libasound2") {
        Some("alsa-lib".to_owned())
    } else if str_eq(debian, "libpulse0") {
        Some("pulseaudio-libs".to_owned())
    } else if str_eq(debian, "libpipewire-0.3-0") {
        Some("pipewire-libs".to_owned())
    } else if str_eq(debian, "libgtk-3-0") {
        Some("gtk3".to_owned())
    } else if str_eq(debian, "libgdk-pixbuf-2.0-0") {
        Some("gdk-pixbuf2".to_owned())
    } else if str_eq(debian, "libpango-1.0-0") {
        Some("pango".to_owned())
    } else if str_eq(debian, "libcairo2") {
        Some("cairo".to_owned())
    } else if str_eq(debian, "libuuid1") {
        Some("libuuid".to_owned())
    } else if str_eq(debian, "libxml2") {
        Some("libxml2".to_owned())
    } else if str_eq(debian, "libfreetype6") {
        Some("freetype".to_owned())
    } else if str_eq(debian, "fontconfig") {
        Some("fontconfig".to_owned())
    } else if str_eq(debian, "apt") {
        None
    } else if str_eq(debian, "dpkg") {
        None
    } else if !str_starts_with(debian, "lib") {
        Some(debian.to_owned())
    } else {
        None
    }
}


/// A value with surrounding quotes stripped, after trimming.
pub open spec fn os_release_value(v: Seq<char>) -> Seq<char> {
    trim_end_matches_spec(trim_start_matches_spec(trim_spec(v), '"'), '"')
}

/// The key/value pairs an `os-release` text denotes, in file order:
/// comments and blank lines skipped, each remaining line split at its first
/// `=`, the key trimmed and the value trimmed and unquoted.
pub open spec fn os_release_pairs(ls: Seq<Seq<char>>) -> Seq<(Seq<char>, Seq<char>)>
    decreases ls.len(),
{
    if ls.len() == 0 {
        Seq::empty()
    } else {
        let t = trim_spec(ls[0]);
        let rest = os_release_pairs(ls.drop_first());
        if t.len() == 0 || t[0] == '#' {
            rest
        } else {
            let i = crate::strutil::find_idx(t, "="@);
            if i < 0 {
                rest
            } else {
                seq![
                    (trim_spec(t.subrange(0, i)), os_release_value(t.subrange(i + 1, t.len() as int))),
                ] + rest
            }
        }
    }
}

/// The character views of a pair list.
pub open spec fn pair_views(v: Seq<(String, String)>) -> Seq<(Seq<char>, Seq<char>)> {
    v.map_values(|p: (String, String)| (p.0@, p.1@))
}

/// Parse an `os-release` text into its key/value pairs, in file order.
pub fn parse_os_release(content: &str) -> (r: Vec<(String, String)>)
    ensures
        pair_views(r@) == os_release_pairs(lines_spec(content@)),
{
    let lines = split_lines(content);
    let ghost ls = lines_spec(content@);
    let n = lines.len();
    let mut out: Vec<(String, String)> = Vec::new();
    let mut i: usize = 0;
    proof {
        assert(ls.subrange(0, n as int) =~= ls);
        assert(pair_views(out@) =~= Seq::<(Seq<char>, Seq<char>)>::empty());
        assert(pair_views(out@) + os_release_pairs(ls) =~= os_release_pairs(ls));
    }
    while i < n
        invariant
            i <= n,
            n == lines@.len(),
            seq_views(lines@) == ls,
            ls == lines_spec(content@),
            os_release_pairs(ls) == pair_views(out@) + os_release_pairs(
                ls.subrange(i as int, n as int),
            ),
        decreases n - i,
    {
        let ghost rest = ls.subrange(i as int, n as int);
        proof {
            assert(lines@[i as int]@ == ls[i as int]);
            assert(rest[0] == ls[i as int]);
            assert(rest.drop_first() =~= ls.subrange(i + 1, n as int));
        }
        let t = str_trim(lines[i].as_str());
        let tl = t.unicode_len();
        let skip = tl == 0 || t.get_char(0) == '#';
        if !skip {
            proof {
                reveal_strlit("=");
            }
            if let Some(eq) = crate::strutil::str_find(t, "=") {
                let key = str_trim(t.substring_char(0, eq)).to_owned();
                let raw = t.substring_char(eq + 1, tl);
                let v0 = str_trim(raw);
                let v1 = str_trim_start_matches(v0, '"');
                let value = str_trim_end_matches(v1, '"').to_owned();
                proof {
                    assert(t@.subrange(eq + 1, t@.len() as int) =~= raw@);
                    assert(value@ == os_release_value(t@.subrange(eq + 1, t@.len() as int)));
                }
                out.push((key, value));
                proof {
                    assert(pair_views(out@) =~= pair_views(out@.drop_last()) + seq![
                        (key@, value@),
                    ]);
                    assert(pair_views(out@.drop_last()) + (seq![(key@, value@)]
                        + os_release_pairs(rest.drop_first())) =~= pair_views(out@)
                        + os_release_pairs(rest.drop_first()));
                }
            }
        }
        i += 1;
    }
    proof {
        assert(ls.subrange(n as int, n as int) =~= Seq::<Seq<char>>::empty());
        assert(pair_views(out@) + Seq::<(Seq<char>, Seq<char>)>::empty() =~= pair_views(out@));
    }
    out
}

} // verus!
