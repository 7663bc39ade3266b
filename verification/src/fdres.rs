//! Resolving a file descriptor's symlink text to a kernel-object identity,
//! and reading open-mode flags out of `fdinfo` text.

use vstd::prelude::*;
use vstd::string::*;
use crate::strutil::{
    starts_with_seq, trim_start_spec, split_ws_spec, lines_spec, seq_views, str_starts_with,
    str_eq, str_trim_start, split_lines, split_whitespace,
};
use crate::numfmt::{all_digits, radix_val, parse_u64_dec, parse_u64_radix};

verus! {

/// What an fd points at, read off its `/proc/<pid>/fd/<n>` symlink text.
pub enum FdTarget {
    /// `pipe:[inode]`
    Pipe(u64),
    /// `socket:[inode]`
    Socket(u64),
    /// `anon_inode:[eventfd]`
    EventFd,
    /// Anything else, kept verbatim.
    Other(String),
}

/// Whether `s` is `prefix` + digits + `]`, with the digits' value.
pub open spec fn bracket_inode_spec(s: Seq<char>, prefix: Seq<char>) -> Option<u64> {
    if s.len() >= prefix.len() + 1 && starts_with_seq(s, prefix) && s.last() == ']' {
        let mid = s.subrange(prefix.len() as int, s.len() - 1);
        if mid.len() > 0 && all_digits(mid, 10) && radix_val(mid, 10) <= u64::MAX {
            Some(radix_val(mid, 10) as u64)
        } else {
            None
        }
    } else {
        None
    }
}

fn parse_bracket_inode(target: &str, prefix: &str) -> (r: Option<u64>)
    ensures
        r == bracket_inode_spec(target@, prefix@),
{
    if !str_starts_with(target, prefix) {
        return None;
    }
    let sl = target.unicode_len();
    let pl = prefix.unicode_len();
    if sl <= pl {
        return None;
    }
    if target.get_char(sl - 1) != ']' {
        return None;
    }
    let mid = target.substring_char(pl, sl - 1);
    parse_u64_dec(mid)
}

/// Inode of a `pipe:[N]` symlink target.
pub fn parse_pipe_inode(target: &str) -> (r: Option<u64>)
    ensures
        r == bracket_inode_spec(target@, "pipe:["@),
{
    parse_bracket_inode(target, "pipe:[")
}

/// Inode of a `socket:[N]` symlink target.
pub fn parse_socket_inode(target: &str) -> (r: Option<u64>)
    ensures
        r == bracket_inode_spec(target@, "socket:["@),
{
    parse_bracket_inode(target, "socket:[")
}

/// Classify a symlink target as a pipe, a socket, an eventfd, or other.
pub fn classify(target: &str) -> (r: FdTarget)
    ensures
        match r {
            FdTarget::Pipe(n) => bracket_inode_spec(target@, "pipe:["@) == Some(n),
            FdTarget::Socket(n) => bracket_inode_spec(target@, "socket:["@) == Some(n),
            FdTarget::EventFd => target@ == "anon_inode:[eventfd]"@,
            FdTarget::Other(s) => s@ == target@ && bracket_inode_spec(target@, "pipe:["@) is None
                && bracket_inode_spec(target@, "socket:["@) is None && target@
                != "anon_inode:[eventfd]"@,
        },
{
    if let Some(n) = parse_pipe_inode(target) {
        return FdTarget::Pipe(n);
    }
    if let Some(n) = parse_socket_inode(target) {
        return FdTarget::Socket(n);
    }
    if str_eq(target, "anon_inode:[eventfd]") {
        return FdTarget::EventFd;
    }
    FdTarget::Other(target.to_owned())
}

/// The access mode that open flags encode, as a short word.
pub open spec fn access_mode_spec(flags: u64) -> Seq<char> {
    if flags & 3 == 1 {
        "wronly"@
    } else if flags & 3 == 2 {
        "rdwr"@
    } else {
        "rdonly"@
    }
}

/// Access mode of the masked open-flags field: `O_ACCMODE` is the low two
/// bits, `O_WRONLY` is 1, `O_RDWR` is 2 and `O_RDONLY` is 0.
pub fn access_mode_from_open_flags(flags: u64) -> (r: &'static str)
    ensures
        r@ == access_mode_spec(flags),
{
    let accmode = flags & 3;
    if accmode == 1 {
        "wronly"
    } else if accmode == 2 {
        "rdwr"
    } else {
        "rdonly"
    }
}

/// Whether open flags mean the fd can write: mode `wronly` or `rdwr`.
pub open spec fn is_write_mode(flags: u64) -> bool {
    flags & 3 == 1 || flags & 3 == 2
}

/// Executable test for [`is_write_mode`].
pub fn flags_can_write(flags: u64) -> (r: bool)
    ensures
        r == is_write_mode(flags),
{
    let accmode = flags & 3;
    accmode == 1 || accmode == 2
}

/// A line of `fdinfo` text that carries the flags field.
pub open spec fn is_flags_line(l: Seq<char>) -> bool {
    starts_with_seq(trim_start_spec(l), "flags:"@)
}

/// The octal value on a flags line, `None` when it does not parse.
pub open spec fn flags_line_val(l: Seq<char>) -> Option<u64> {
    let t = trim_start_spec(l);
    let rest = t.subrange(6, t.len() as int);
    let toks = split_ws_spec(rest);
    if toks.len() > 0 && all_digits(toks[0], 8) && radix_val(toks[0], 8) <= u64::MAX {
        Some(radix_val(toks[0], 8) as u64)
    } else {
        None
    }
}

/// The value of the first flags line among `ls`, if any.
pub open spec fn first_flags_val(ls: Seq<Seq<char>>) -> Option<u64>
    decreases ls.len(),
{
    if ls.len() == 0 {
        None
    } else if is_flags_line(ls[0]) {
        flags_line_val(ls[0])
    } else {
        first_flags_val(ls.drop_first())
    }
}

/// The open flags that `fdinfo` text reports: the octal token after
/// `flags:` on the first line that carries one.
pub open spec fn fdinfo_flags_spec(s: Seq<char>) -> Option<u64> {
    first_flags_val(lines_spec(s))
}

/// Open flags out of `fdinfo` text; the first `flags:` line decides.
pub fn parse_fdinfo_flags(fdinfo: &str) -> (r: Option<u64>)
    ensures
        r == fdinfo_flags_spec(fdinfo@),
{
    let lines = split_lines(fdinfo);
    let ghost ls = lines_spec(fdinfo@);
    let n = lines.len();
    let mut i: usize = 0;
    proof {
        assert(ls.subrange(0, n as int) =~= ls);
    }
    while i < n
        invariant
            n == lines@.len(),
            seq_views(lines@) == ls,
            ls == lines_spec(fdinfo@),
            i <= n,
            first_flags_val(ls) == first_flags_val(ls.subrange(i as int, n as int)),
        decreases n - i,
    {
        proof {
            assert(lines@[i as int]@ == ls[i as int]);
            assert(ls.subrange(i as int, n as int)[0] == ls[i as int]);
            assert(ls.subrange(i as int, n as int).drop_first() =~= ls.subrange(i + 1, n as int));
        }
        let l: &str = lines[i].as_str();
        let t = str_trim_start(l);
        if str_starts_with(t, "flags:") {
            proof {
                reveal_strlit("flags:");
            }
            let tl = t.unicode_len();
            let rest = t.substring_char(6, tl);
            let toks = split_whitespace(rest);
            if toks.len() == 0 {
                proof {
                    assert(first_flags_val(ls.subrange(i as int, n as int)) == flags_line_val(
                        ls[i as int],
                    ));
                }
                return None;
            }
            proof {
                assert(toks@[0]@ == split_ws_spec(rest@)[0]);
                crate::strutil::lemma_split_ws_tokens_nonempty(rest@, Seq::empty());
                assert(first_flags_val(ls.subrange(i as int, n as int)) == flags_line_val(
                    ls[i as int],
                ));
            }
            return parse_u64_radix(toks[0].as_str(), 8);
        }
        i += 1;
    }
    proof {
        assert(ls.subrange(n as int, n as int) =~= Seq::<Seq<char>>::empty());
    }
    None
}

} // verus!
