//! The content-process syscall sandbox: the seccomp-BPF program that makes a
//! few dangerous syscalls fail (creating sockets, connecting, `execve`,
//! `execveat`, `ptrace`) while allowing everything else, and a model of how
//! the kernel runs such a program. Loading it (`prctl`) is the caller's part.

use vstd::prelude::*;

verus! {

/// A classic BPF instruction (`struct sock_filter`).
#[derive(Clone, Copy, Debug, PartialEq, Eq, Structural)]
pub struct SockFilter {
    pub code: u16,
    pub jt: u8,
    pub jf: u8,
    pub k: u32,
}

/// `BPF_LD | BPF_W | BPF_ABS`: load the 32-bit word at offset `k`.
pub const LD_W_ABS: u16 = 0x20;

/// `BPF_JMP | BPF_JEQ | BPF_K`: skip `jt` instructions if the accumulator
/// equals `k`, else `jf`.
pub const JEQ_K: u16 = 0x15;

/// `BPF_RET | BPF_K`: stop with verdict `k`.
pub const RET_K: u16 = 0x06;

/// Offset of the syscall number in `struct seccomp_data`.
pub const OFF_NR: u32 = 0;

/// Offset of the audit architecture in `struct seccomp_data`.
pub const OFF_ARCH: u32 = 4;

/// `AUDIT_ARCH_X86_64`.
pub const AUDIT_ARCH_X86_64: u32 = 0xC000_003E;

/// `SECCOMP_RET_ALLOW`.
pub const RET_ALLOW: u32 = 0x7FFF_0000;

/// `SECCOMP_RET_ERRNO | EPERM`.
pub const RET_ERRNO_EPERM: u32 = 0x0005_0001;

/// `SECCOMP_RET_KILL_PROCESS`.
pub const RET_KILL_PROCESS: u32 = 0x8000_0000;

/// x86-64 `socket`.
pub const NR_SOCKET: u32 = 41;

/// x86-64 `connect`.
pub const NR_CONNECT: u32 = 42;

/// x86-64 `execve`.
pub const NR_EXECVE: u32 = 59;

/// x86-64 `ptrace`.
pub const NR_PTRACE: u32 = 101;

/// x86-64 `execveat`.
pub const NR_EXECVEAT: u32 = 322;

/// The 32-bit word at offset `k` of the `seccomp_data` of a syscall `nr` made
/// through ABI `arch` (only the two fields the sandbox reads).
pub open spec fn seccomp_word(k: u32, nr: u32, arch: u32) -> Option<u32> {
    if k == OFF_NR {
        Some(nr)
    } else if k == OFF_ARCH {
        Some(arch)
    } else {
        None
    }
}

/// The verdict of running `prog` from instruction `pc` with accumulator
/// `acc` on syscall `nr` made through ABI `arch`: loads, forward conditional
/// jumps and returns; `None` when the program runs off its end or uses
/// anything else.
pub open spec fn bpf_verdict(prog: Seq<SockFilter>, pc: int, acc: u32, nr: u32, arch: u32) -> Option<u32>
    decreases prog.len() - pc,
{
    if pc < 0 || pc >= prog.len() {
        None
    } else {
        let ins = prog[pc];
        if ins.code == LD_W_ABS {
            match seccomp_word(ins.k, nr, arch) {
                Some(w) => bpf_verdict(prog, pc + 1, w, nr, arch),
                None => None,
            }
        } else if ins.code == JEQ_K {
            let next = pc + 1 + if acc == ins.k { ins.jt as int } else { ins.jf as int };
            if next > prog.len() {
                None
            } else {
                bpf_verdict(prog, next, acc, nr, arch)
            }
        } else if ins.code == RET_K {
            Some(ins.k)
        } else {
            None
        }
    }
}

/// `if syscall == nr { fall through to the deny } else { skip it }`.
pub open spec fn jeq(nr: u32) -> SockFilter {
    SockFilter { code: JEQ_K, jt: 0, jf: 1, k: nr }
}

/// Fail the syscall with `EPERM`.
pub open spec fn deny() -> SockFilter {
    SockFilter { code: RET_K, jt: 0, jf: 0, k: RET_ERRNO_EPERM }
}

/// The sandbox program: kill the process for a foreign syscall ABI, fail
/// the denied syscalls with `EPERM`, allow the rest.
pub open spec fn sandbox_program() -> Seq<SockFilter> {
    seq![
        SockFilter { code: LD_W_ABS, jt: 0, jf: 0, k: OFF_ARCH },
        SockFilter { code: JEQ_K, jt: 1, jf: 0, k: AUDIT_ARCH_X86_64 },
        SockFilter { code: RET_K, jt: 0, jf: 0, k: RET_KILL_PROCESS },
        SockFilter { code: LD_W_ABS, jt: 0, jf: 0, k: OFF_NR },
        jeq(NR_SOCKET),
        deny(),
        jeq(NR_CONNECT),
        deny(),
        jeq(NR_EXECVE),
        deny(),
        jeq(NR_EXECVEAT),
        deny(),
        jeq(NR_PTRACE),
        deny(),
        SockFilter { code: RET_K, jt: 0, jf: 0, k: RET_ALLOW },
    ]
}

/// The syscalls the sandbox refuses.
pub open spec fn denied(nr: u32) -> bool {
    nr == NR_SOCKET || nr == NR_CONNECT || nr == NR_EXECVE || nr == NR_EXECVEAT || nr == NR_PTRACE
}

/// The seccomp-BPF program of the content-process sandbox.
pub fn sandbox_filter() -> (r: Vec<SockFilter>)
    ensures
        r@ == sandbox_program(),
{
    let jeq = |nr: u32| -> (f: SockFilter)
        ensures
            f == jeq(nr),
        { SockFilter { code: JEQ_K, jt: 0, jf: 1, k: nr } };
    let deny = SockFilter { code: RET_K, jt: 0, jf: 0, k: RET_ERRNO_EPERM };
    let prog = vec![
        SockFilter { code: LD_W_ABS, jt: 0, jf: 0, k: OFF_ARCH },
        SockFilter { code: JEQ_K, jt: 1, jf: 0, k: AUDIT_ARCH_X86_64 },
        SockFilter { code: RET_K, jt: 0, jf: 0, k: RET_KILL_PROCESS },
        SockFilter { code: LD_W_ABS, jt: 0, jf: 0, k: OFF_NR },
        jeq(NR_SOCKET),
        deny,
        jeq(NR_CONNECT),
        deny,
        jeq(NR_EXECVE),
        deny,
        jeq(NR_EXECVEAT),
        deny,
        jeq(NR_PTRACE),
        deny,
        SockFilter { code: RET_K, jt: 0, jf: 0, k: RET_ALLOW },
    ];
    assert(prog@ =~= sandbox_program());
    prog
}

/// The sandbox kills the process on a syscall made through any ABI but
/// x86-64's, fails the denied syscalls with `EPERM`, and allows every other
/// syscall.
pub proof fn law_sandbox_verdict(nr: u32, arch: u32)
    ensures
        bpf_verdict(sandbox_program(), 0, 0, nr, arch) == Some(
            if arch != AUDIT_ARCH_X86_64 {
                RET_KILL_PROCESS
            } else if denied(nr) {
                RET_ERRNO_EPERM
            } else {
                RET_ALLOW
            },
        ),
{
    reveal_with_fuel(bpf_verdict, 16);
}

} // verus!
