use stipple::sandbox::{
    sandbox_filter, SockFilter, AUDIT_ARCH_X86_64, RET_ALLOW, RET_ERRNO_EPERM, RET_KILL_PROCESS,
};

/// Run a classic-BPF seccomp program (loads, `jeq`, returns) on one syscall.
fn run(prog: &[SockFilter], nr: u32, arch: u32) -> Option<u32> {
    let mut pc = 0usize;
    let mut acc = 0u32;
    while pc < prog.len() {
        let f = prog[pc];
        match f.code {
            0x20 => {
                acc = match f.k {
                    0 => nr,
                    4 => arch,
                    _ => return None,
                };
                pc += 1;
            }
            0x15 => pc += 1 + if acc == f.k { f.jt as usize } else { f.jf as usize },
            0x06 => return Some(f.k),
            _ => return None,
        }
    }
    None
}

#[test]
fn sandbox_denies_network_exec_and_ptrace() {
    let prog = sandbox_filter();
    assert_eq!(prog.len(), 15);
    for nr in [41, 42, 59, 101, 322] {
        assert_eq!(run(&prog, nr, AUDIT_ARCH_X86_64), Some(RET_ERRNO_EPERM), "syscall {nr}");
    }
    for nr in [0, 1, 9, 43, 60, 321, 323, 1000] {
        assert_eq!(run(&prog, nr, AUDIT_ARCH_X86_64), Some(RET_ALLOW), "syscall {nr}");
    }
    assert_eq!(run(&prog, 0, 0x4000_0003), Some(RET_KILL_PROCESS));
    assert_eq!(RET_ERRNO_EPERM, 0x0005_0000 | 1);
}
