//! A round trip against the live `/proc`: a freshly created pipe's write
//! end, read back through its own fd symlink, classifies as a pipe with a
//! write-only open mode.

use hangscope::fdres::{access_mode_from_open_flags, classify, parse_fdinfo_flags, FdTarget};
use nix::fcntl::{open, OFlag};
use nix::sys::stat::Mode;
use nix::unistd::{close, pipe, read};

fn read_whole_file(path: &str) -> String {
    let fd = open(path, OFlag::O_RDONLY, Mode::empty()).expect("open");
    let mut out = Vec::new();
    let mut buf = [0u8; 4096];
    loop {
        let n = read(fd, &mut buf).expect("read");
        if n == 0 {
            break;
        }
        out.extend_from_slice(&buf[..n]);
    }
    close(fd).expect("close");
    String::from_utf8_lossy(&out).into_owned()
}

#[test]
fn fresh_pipe_write_end_classifies_as_writable_pipe() {
    let (r, w) = pipe().expect("pipe");

    let link = format!("/proc/self/fd/{}", w);
    let target = nix::fcntl::readlink(link.as_str())
        .expect("readlink")
        .into_string()
        .expect("utf8 target");
    match classify(target.as_str()) {
        FdTarget::Pipe(inode) => assert!(inode > 0),
        other => panic!("write end should classify as a pipe, got {:?}", kind_of(&other)),
    }

    let fdinfo = read_whole_file(&format!("/proc/self/fdinfo/{}", w));
    let flags = parse_fdinfo_flags(fdinfo.as_str()).expect("fdinfo flags");
    assert_eq!(access_mode_from_open_flags(flags), "wronly");

    let rlink = format!("/proc/self/fd/{}", r);
    let rtarget = nix::fcntl::readlink(rlink.as_str())
        .expect("readlink")
        .into_string()
        .expect("utf8 target");
    let rfdinfo = read_whole_file(&format!("/proc/self/fdinfo/{}", r));
    let rflags = parse_fdinfo_flags(rfdinfo.as_str()).expect("fdinfo flags");
    assert_eq!(access_mode_from_open_flags(rflags), "rdonly");
    match classify(rtarget.as_str()) {
        FdTarget::Pipe(_) => {},
        other => panic!("read end should classify as a pipe, got {:?}", kind_of(&other)),
    }

    close(r).ok();
    close(w).ok();
}

fn kind_of(t: &FdTarget) -> &'static str {
    match t {
        FdTarget::Pipe(_) => "pipe",
        FdTarget::Socket(_) => "socket",
        FdTarget::EventFd => "eventfd",
        FdTarget::Other(_) => "other",
    }
}
