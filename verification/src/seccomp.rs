//! The system calls that a container is denied.

use crate::error::{RuntimeError, RuntimeErrorView};
use crate::text::{cat, decimal};
use std::collections::BTreeMap;
use vstd::prelude::*;

verus! {

broadcast use vstd::std_specs::btree::group_btree_axioms;

/// The numbers that this machine gives to the system calls of the profile.
#[derive(Debug, Clone, Copy)]
pub struct SyscallNumbers {
    pub ptrace: i64,
    pub keyctl: i64,
    pub add_key: i64,
    pub request_key: i64,
    pub mount: i64,
    pub umount2: i64,
    pub pivot_root: i64,
    pub reboot: i64,
    pub swapon: i64,
    pub swapoff: i64,
    pub init_module: i64,
    pub finit_module: i64,
    pub delete_module: i64,
    pub kexec_load: i64,
    pub perf_event_open: i64,
}

/// Syscalls we refuse to let containers make. Denying these blocks whole
/// classes of container escapes / kernel-surface attacks while leaving normal
/// workloads untouched.
pub open spec fn blocked(numbers: SyscallNumbers) -> Seq<i64> {
    seq![
        numbers.ptrace,
        numbers.keyctl,
        numbers.add_key,
        numbers.request_key,
        numbers.mount,
        numbers.umount2,
        numbers.pivot_root,
        numbers.reboot,
        numbers.swapon,
        numbers.swapoff,
        numbers.init_module,
        numbers.finit_module,
        numbers.delete_module,
        numbers.kexec_load,
        numbers.perf_event_open,
    ]
}

impl SyscallNumbers {
    /// Whether the numbers can be those of a machine: each fits into 32 bits without
    /// a sign, and no two are the same.
    pub open spec fn wf(self) -> bool {
        &&& blocked(self).no_duplicates()
        &&& forall|i: int| 0 <= i < 15 ==> 0 <= #[trigger] blocked(self)[i] <= u32::MAX
    }
}

/// Whether `list` holds the numbers that some kind of Linux machine gives to the system
/// calls of the profile, in the order of [`blocked`]: x86_64; aarch64, riscv and the
/// others with the generic numbers; x86_64 with 32-bit pointers; x86; arm; powerpc;
/// s390x; sparc; and mips with 32 and with 64 bits.
pub open spec fn known_numbers(list: Seq<i64>) -> bool {
    ||| list == seq![
        101i64, 250, 248, 249, 165, 166, 155, 169, 167, 168, 175, 313, 176, 246, 298,
    ]
    ||| list == seq![
        117i64, 219, 217, 218, 40, 39, 41, 142, 224, 225, 105, 273, 106, 104, 241,
    ]
    ||| list == seq![
        1073742345i64, 1073742074, 1073742072, 1073742073, 1073741989, 1073741990, 1073741979,
        1073741993, 1073741991, 1073741992, 1073741999, 1073742137, 1073742000, 1073742352,
        1073742122,
    ]
    ||| list == seq![26i64, 288, 286, 287, 21, 52, 217, 88, 87, 115, 128, 350, 129, 283, 336]
    ||| list == seq![26i64, 311, 309, 310, 21, 52, 218, 88, 87, 115, 128, 379, 129, 347, 364]
    ||| list == seq![26i64, 271, 269, 270, 21, 52, 203, 88, 87, 115, 128, 353, 129, 268, 319]
    ||| list == seq![26i64, 280, 278, 279, 21, 52, 217, 88, 87, 115, 128, 344, 129, 277, 331]
    ||| list == seq![26i64, 283, 281, 282, 167, 45, 146, 55, 85, 213, 190, 342, 222, 306, 327]
    ||| list == seq![
        4026i64, 4282, 4280, 4281, 4021, 4052, 4216, 4088, 4087, 4115, 4128, 4348, 4129, 4311, 4333,
    ]
    ||| list == seq![
        5099i64, 5241, 5239, 5240, 5160, 5161, 5151, 5164, 5162, 5163, 5168, 5307, 5169, 5270, 5292,
    ]
}

/// Reads the constants `libc::SYS_ptrace` to `libc::SYS_perf_event_open`.
///
/// Their values belong to the machine. Claimed is that they are one of the tables that
/// libc has for its Linux targets; in each of those the numbers fit into 32 bits and
/// differ.
#[verifier::external_body]
fn syscall_numbers() -> (r: SyscallNumbers)
    ensures
        r.wf(),
        known_numbers(blocked(r)),
{
    SyscallNumbers {
        ptrace: libc::SYS_ptrace as i64, keyctl: libc::SYS_keyctl as i64,
        add_key: libc::SYS_add_key as i64, request_key: libc::SYS_request_key as i64,
        mount: libc::SYS_mount as i64, umount2: libc::SYS_umount2 as i64,
        pivot_root: libc::SYS_pivot_root as i64, reboot: libc::SYS_reboot as i64,
        swapon: libc::SYS_swapon as i64, swapoff: libc::SYS_swapoff as i64,
        init_module: libc::SYS_init_module as i64, finit_module: libc::SYS_finit_module as i64,
        delete_module: libc::SYS_delete_module as i64, kexec_load: libc::SYS_kexec_load as i64,
        perf_event_open: libc::SYS_perf_event_open as i64,
    }
}

/// Reads the constant `libc::EPERM`, which is 1 on Linux.
#[verifier::external_body]
fn eperm() -> (r: i32)
    ensures
        r == 1,
{
    libc::EPERM
}

/// Syscalls we refuse to let containers make, by the numbers of a machine.
pub fn blocked_syscalls(numbers: &SyscallNumbers) -> (r: Vec<i64>)
    ensures
        r@ == blocked(*numbers),
{
    let r: Vec<i64> = vec![
        numbers.ptrace,
        numbers.keyctl,
        numbers.add_key,
        numbers.request_key,
        numbers.mount,
        numbers.umount2,
        numbers.pivot_root,
        numbers.reboot,
        numbers.swapon,
        numbers.swapoff,
        numbers.init_module,
        numbers.finit_module,
        numbers.delete_module,
        numbers.kexec_load,
        numbers.perf_event_open,
    ];
    assert(r@ =~= blocked(*numbers));
    r
}

/// Number of syscalls the active profile denies.
pub fn blocked_count() -> (n: usize)
    ensures
        n == 15,
{
    let numbers: SyscallNumbers = syscall_numbers();
    blocked_syscalls(&numbers).len()
}

/// What the kernel does with a system call.
#[derive(Debug, Clone, Copy, PartialEq, Eq, Structural)]
pub enum FilterAction {
    /// It is carried out.
    Allow,
    /// It fails with this error number.
    Errno(u32),
}

/// A machine architecture that a filter can be made for.
#[derive(Debug, Clone, Copy, PartialEq, Eq, Structural)]
pub enum Arch {
    X86_64,
    Aarch64,
    Riscv64,
}

/// One instruction of a compiled filter.
#[derive(Debug, Clone, Copy, PartialEq, Eq, Structural)]
pub struct BpfInstruction {
    pub code: u16,
    pub jt: u8,
    pub jf: u8,
    pub k: u32,
}

#[verifier::external_type_specification]
#[verifier::external_body]
pub struct ExSeccompRule(seccompiler::SeccompRule);

#[verifier::external_type_specification]
#[verifier::external_body]
pub struct ExSeccompFilter(seccompiler::SeccompFilter);

/// The system calls that a filter matches unconditionally.
pub uninterp spec fn filter_syscalls(filter: seccompiler::SeccompFilter) -> Set<i64>;

/// Whether a filter holds no rule with a condition.
pub uninterp spec fn filter_is_plain(filter: seccompiler::SeccompFilter) -> bool;

/// What a filter does with a system call that it does not match, what with one that it
/// matches, and the architecture that it is for.
pub uninterp spec fn filter_setting(filter: seccompiler::SeccompFilter) -> (
    FilterAction,
    FilterAction,
    Arch,
);

/// `c` in lower case, where it is an ASCII letter.
pub open spec fn ascii_lower(c: char) -> char {
    if 'A' <= c <= 'Z' {
        ((c as u32) + 32) as char
    } else {
        c
    }
}

/// The architecture that goes by the name `name`, in letters of either case.
pub open spec fn arch_named(name: Seq<char>) -> Option<Arch> {
    let lower = name.map_values(|c: char| ascii_lower(c));
    if lower == "x86_64"@ {
        Some(Arch::X86_64)
    } else if lower == "aarch64"@ {
        Some(Arch::Aarch64)
    } else if lower == "riscv64"@ {
        Some(Arch::Riscv64)
    } else {
        None
    }
}

/// How `seccompiler` tells of an architecture name that it does not know.
pub uninterp spec fn arch_complaint(name: Seq<char>) -> Seq<char>;

/// Calls `seccompiler::TargetArch::try_from` on a name.
///
/// It compares the name in lower case with the names of the three architectures. No
/// letter beyond ASCII has one of the letters of those names as its lower case, so
/// that ASCII letters are all that matters. Where it knows no such name, its error is
/// given as `{:?}` writes it.
#[verifier::external_body]
fn target_arch(name: &str) -> (r: Result<Arch, String>)
    ensures
        match r {
            Ok(arch) => arch_named(name@) == Some(arch),
            Err(e) => arch_named(name@) is None && e@ == arch_complaint(name@),
        },
{
    match seccompiler::TargetArch::try_from(name) {
        Ok(seccompiler::TargetArch::x86_64) => Ok(Arch::X86_64),
        Ok(seccompiler::TargetArch::aarch64) => Ok(Arch::Aarch64),
        Ok(seccompiler::TargetArch::riscv64) => Ok(Arch::Riscv64),
        Err(e) => Err(format!("{e:?}")),
    }
}

/// Calls `seccompiler::SeccompFilter::new`.
///
/// It keeps the rules, both actions and the architecture, and refuses only two actions
/// that are the same. A system call with no conditions, an empty list of rules, is
/// matched unconditionally; the contract is about filters of these alone.
#[verifier::external_body]
fn new_filter(
    rules: BTreeMap<i64, Vec<seccompiler::SeccompRule>>,
    otherwise: FilterAction,
    on_match: FilterAction,
    arch: Arch,
) -> (r: Result<seccompiler::SeccompFilter, String>)
    requires
        forall|n: i64| #[trigger] rules@.contains_key(n) ==> rules@[n]@.len() == 0,
    ensures
        match r {
            Ok(f) => {
                &&& otherwise != on_match
                &&& filter_is_plain(f)
                &&& filter_syscalls(f) == rules@.dom()
                &&& filter_setting(f) == (otherwise, on_match, arch)
            },
            Err(e) => otherwise == on_match && e@
                == "`match_action` and `mismatch_action` are equal."@,
        },
{
    let action = |a: FilterAction| match a {
        FilterAction::Allow => seccompiler::SeccompAction::Allow,
        FilterAction::Errno(e) => seccompiler::SeccompAction::Errno(e),
    };
    let target = match arch {
        Arch::X86_64 => seccompiler::TargetArch::x86_64,
        Arch::Aarch64 => seccompiler::TargetArch::aarch64,
        Arch::Riscv64 => seccompiler::TargetArch::riscv64,
    };
    seccompiler::SeccompFilter::new(rules, action(otherwise), action(on_match), target)
        .map_err(|e| e.to_string())
}

/// What the kernel makes of a filter program, run on the system call `nr` of a process
/// of the architecture `arch`, from the instruction at `at` on and with `acc` in the
/// accumulator: the value that the program returns.
///
/// Of the instructions there are those that filters without conditions are made of:
/// load a word of the call's description, jump, jump if equal, and return.
pub open spec fn verdict(
    program: Seq<BpfInstruction>,
    arch: u32,
    nr: u32,
    at: int,
    acc: u32,
) -> Option<u32>
    decreases
            (if at < program.len() {
                program.len() - at
            } else {
                0
            }),
{
    if at < 0 || at >= program.len() {
        None
    } else {
        let i = program[at];
        if i.code == 0x20 {
            let word = if i.k == 0 {
                nr
            } else {
                arch
            };
            verdict(program, arch, nr, at + 1, word)
        } else if i.code == 0x05 {
            verdict(program, arch, nr, at + 1 + i.k, acc)
        } else if i.code == 0x15 {
            let skip = if acc == i.k {
                i.jt
            } else {
                i.jf
            };
            verdict(program, arch, nr, at + 1 + skip, acc)
        } else if i.code == 0x06 {
            Some(i.k)
        } else {
            None
        }
    }
}

/// The value by which a filter program orders `action`.
pub open spec fn order(action: FilterAction) -> u32 {
    match action {
        FilterAction::Allow => 0x7fff_0000,
        FilterAction::Errno(e) => 0x0005_0000 | (e & 0xffff),
    }
}

/// The value by which the kernel knows an architecture.
pub open spec fn audit_value(arch: Arch) -> u32 {
    match arch {
        Arch::X86_64 => 0xc000_003e,
        Arch::Aarch64 => 0xc000_00b7,
        Arch::Riscv64 => 0xc000_00f3,
    }
}

/// Whether a filter program does what a filter says that matches `syscalls`
/// unconditionally: it orders `on_match` for these and `otherwise` for all others, and
/// for a process of another architecture that it be killed.
pub open spec fn enforces(
    program: Seq<BpfInstruction>,
    syscalls: Set<i64>,
    otherwise: FilterAction,
    on_match: FilterAction,
    arch: Arch,
) -> bool {
    forall|a: u32, nr: u32| #[trigger]
        verdict(program, a, nr, 0, 0) == Some(
            if a != audit_value(arch) {
                0x8000_0000
            } else if syscalls.contains(nr as i64) {
                order(on_match)
            } else {
                order(otherwise)
            },
        )
}

/// The program that `seccompiler` compiles a filter to that matches `syscalls`
/// unconditionally.
pub uninterp spec fn bpf_program(
    syscalls: Set<i64>,
    otherwise: FilterAction,
    on_match: FilterAction,
    arch: Arch,
) -> Seq<BpfInstruction>;

/// How many instructions a filter takes that matches `n` system calls
/// unconditionally: three that check the architecture, five for each system call, and
/// two around those; or one, where there is none.
pub open spec fn program_length(n: nat) -> nat {
    if n == 0 {
        4
    } else {
        5 + 5 * n
    }
}

/// Converts a `seccompiler::SeccompFilter` into a `seccompiler::BpfProgram` by
/// `try_into`.
///
/// The program is a function of the filter. Of it the contract states what it orders
/// for each system call, and its length: a filter is refused exactly where there is
/// something to match and the program would have 4096 instructions or more. A number
/// that does not fit into 32 bits would make the conversion panic.
#[verifier::external_body]
fn compile_filter(filter: seccompiler::SeccompFilter) -> (r: Result<Vec<BpfInstruction>, String>)
    requires
        filter_is_plain(filter),
        filter_syscalls(filter).finite(),
        forall|n: i64| #[trigger] filter_syscalls(filter).contains(n) ==> 0 <= n <= u32::MAX,
    ensures
        ({
            let setting = filter_setting(filter);
            let length = program_length(filter_syscalls(filter).len());
            match r {
                Ok(p) => {
                    &&& length < 4096
                    &&& p@ == bpf_program(
                        filter_syscalls(filter),
                        setting.0,
                        setting.1,
                        setting.2,
                    )
                    &&& p@.len() == length
                    &&& enforces(
                        p@,
                        filter_syscalls(filter),
                        setting.0,
                        setting.1,
                        setting.2,
                    )
                },
                Err(e) => length >= 4096 && e@
                    == "The seccomp filter contains too many BPF instructions: "@ + decimal(length)
                    + ". Max length is 4096."@,
            }
        }),
{
    let program: Result<seccompiler::BpfProgram, seccompiler::BackendError> = filter.try_into();
    match program {
        Ok(p) => Ok(
            p.into_iter()
                .map(|i| BpfInstruction { code: i.code, jt: i.jt, jf: i.jf, k: i.k })
                .collect(),
        ),
        Err(e) => Err(e.to_string()),
    }
}

/// A rule map that matches each of `numbers` unconditionally.
fn unconditional(numbers: &Vec<i64>) -> (rules: BTreeMap<i64, Vec<seccompiler::SeccompRule>>)
    ensures
        rules@.dom() == numbers@.to_set(),
        forall|n: i64| #[trigger] rules@.contains_key(n) ==> rules@[n]@.len() == 0,
{
    let mut rules: BTreeMap<i64, Vec<seccompiler::SeccompRule>> = BTreeMap::new();
    assert(rules@.dom() =~= numbers@.take(0).to_set());
    for i in 0..numbers.len()
        invariant
            rules@.dom() =~= numbers@.take(i as int).to_set(),
            forall|n: i64| #[trigger] rules@.contains_key(n) ==> rules@[n]@.len() == 0,
    {
        let n: i64 = numbers[i];
        // An empty list of rules is an unconditional match.
        rules.insert(n, Vec::new());
        proof {
            let now = numbers@.take(i as int);
            let next = numbers@.take(i + 1);
            assert(next =~= now.push(n));
            assert forall|x: i64| next.contains(x) <==> (now.contains(x) || x == n) by {
                if x == n {
                    assert(next[i as int] == n);
                }
                if now.contains(x) {
                    let j = choose|j: int| 0 <= j < i && now[j] == x;
                    assert(next[j] == x);
                }
            }
            assert(next.to_set() =~= now.to_set().insert(n));
        }
    }
    assert(numbers@.take(numbers@.len() as int) =~= numbers@);
    rules
}

/// The filter of a machine: default ALLOW, explicit deny-list -> EPERM.
pub open spec fn profile(numbers: SyscallNumbers, arch: Arch) -> Seq<BpfInstruction> {
    bpf_program(blocked(numbers).to_set(), FilterAction::Allow, FilterAction::Errno(1), arch)
}

/// Whether a filter program denies with EPERM the system calls of the profile, and
/// allows all others.
pub open spec fn denies_profile(
    program: Seq<BpfInstruction>,
    numbers: SyscallNumbers,
    arch: Arch,
) -> bool {
    forall|nr: u32| #[trigger]
        verdict(program, audit_value(arch), nr, 0, 0) == Some(
            if blocked(numbers).contains(nr as i64) {
                0x0005_0001u32
            } else {
                0x7fff_0000u32
            },
        )
}

/// Compile the seccomp-bpf filter for a machine with these numbers: default ALLOW,
/// explicit deny-list -> EPERM.
pub fn compile_profile(numbers: &SyscallNumbers, arch: &str) -> (r: Result<
    Vec<BpfInstruction>,
    RuntimeError,
>)
    requires
        numbers.wf(),
    ensures
        match r {
            Ok(p) => {
                &&& arch_named(arch@) is Some
                &&& p@ == profile(*numbers, arch_named(arch@)->0)
                &&& p@.len() == 80
                &&& denies_profile(p@, *numbers, arch_named(arch@)->0)
            },
            Err(e) => {
                &&& arch_named(arch@) is None
                &&& e@ == RuntimeErrorView::Seccomp("unsupported arch: "@ + arch_complaint(arch@))
            },
        },
{
    let list: Vec<i64> = blocked_syscalls(numbers);
    let rules = unconditional(&list);
    proof {
        list@.unique_seq_to_set();
    }
    let target: Arch = match target_arch(arch) {
        Ok(a) => a,
        Err(e) => {
            return Err(RuntimeError::Seccomp(cat("unsupported arch: ", e.as_str())));
        },
    };
    let filter = match new_filter(
        rules,
        FilterAction::Allow,
        FilterAction::Errno(eperm() as u32),
        target,
    ) {
        Ok(f) => f,
        Err(e) => {
            return Err(RuntimeError::Seccomp(cat("build filter: ", e.as_str())));
        },
    };
    proof {
        assert forall|n: i64| #[trigger] filter_syscalls(filter).contains(n) implies 0 <= n
            <= u32::MAX by {
            let i = choose|i: int| 0 <= i < list@.len() && list@[i] == n;
            assert(blocked(*numbers)[i] == n);
        }
    }
    match compile_filter(filter) {
        Ok(p) => {
            proof {
                assert(0x0005_0000u32 | (1u32 & 0xffff) == 0x0005_0001u32) by (bit_vector);
                assert forall|nr: u32| #[trigger]
                    verdict(p@, audit_value(target), nr, 0, 0) == Some(
                        if blocked(*numbers).contains(nr as i64) {
                            0x0005_0001u32
                        } else {
                            0x7fff_0000u32
                        },
                    ) by {
                    assert(filter_syscalls(filter).contains(nr as i64) <==> blocked(
                        *numbers,
                    ).contains(nr as i64));
                }
            }
            Ok(p)
        },
        Err(e) => Err(RuntimeError::Seccomp(cat("compile bpf: ", e.as_str()))),
    }
}

/// The seccomp-bpf filter of this machine, compiled and ready to be installed:
/// default ALLOW, explicit deny-list -> EPERM.
///
/// Must be installed after all privileged setup (mount/pivot_root are themselves
/// on the deny-list) and just before exec.
pub fn apply(arch: &str) -> (r: Result<Vec<BpfInstruction>, RuntimeError>)
    ensures
        match r {
            Ok(p) => {
                &&& arch_named(arch@) is Some
                &&& p@.len() == 80
                &&& exists|numbers: SyscallNumbers|
                    {
                        &&& #[trigger] numbers.wf()
                        &&& known_numbers(blocked(numbers))
                        &&& p@ == profile(numbers, arch_named(arch@)->0)
                        &&& denies_profile(p@, numbers, arch_named(arch@)->0)
                    }
            },
            Err(e) => {
                &&& arch_named(arch@) is None
                &&& e@ == RuntimeErrorView::Seccomp("unsupported arch: "@ + arch_complaint(arch@))
            },
        },
{
    let numbers: SyscallNumbers = syscall_numbers();
    compile_profile(&numbers, arch)
}

/// A program that denies the profile denies the calls by which the container's own
/// setup is done: mount, umount2 and pivot_root. They fail with EPERM.
pub proof fn law_setup_is_denied(
    program: Seq<BpfInstruction>,
    numbers: SyscallNumbers,
    arch: Arch,
)
    requires
        numbers.wf(),
        denies_profile(program, numbers, arch),
    ensures
        verdict(program, audit_value(arch), numbers.mount as u32, 0, 0) == Some(0x0005_0001u32),
        verdict(program, audit_value(arch), numbers.umount2 as u32, 0, 0) == Some(0x0005_0001u32),
        verdict(program, audit_value(arch), numbers.pivot_root as u32, 0, 0) == Some(
            0x0005_0001u32,
        ),
{
    assert(blocked(numbers)[4] == numbers.mount);
    assert(blocked(numbers)[5] == numbers.umount2);
    assert(blocked(numbers)[6] == numbers.pivot_root);
}

/// The profile denies 15 different system calls.
pub proof fn law_fifteen_rules(numbers: SyscallNumbers)
    requires
        numbers.wf(),
    ensures
        blocked(numbers).to_set().len() == 15,
{
    blocked(numbers).unique_seq_to_set();
}


/// A program that denies the profile denies each of these system calls with EPERM, and
/// allows every other.
pub proof fn law_denied_and_allowed(
    program: Seq<BpfInstruction>,
    numbers: SyscallNumbers,
    arch: Arch,
    nr: u32,
)
    requires
        denies_profile(program, numbers, arch),
    ensures
        ({
            let n = nr as i64;
            let denied = {
                ||| n == numbers.ptrace
                ||| n == numbers.keyctl
                ||| n == numbers.add_key
                ||| n == numbers.request_key
                ||| n == numbers.mount
                ||| n == numbers.umount2
                ||| n == numbers.pivot_root
                ||| n == numbers.reboot
                ||| n == numbers.swapon
                ||| n == numbers.swapoff
                ||| n == numbers.init_module
                ||| n == numbers.finit_module
                ||| n == numbers.delete_module
                ||| n == numbers.kexec_load
                ||| n == numbers.perf_event_open
            };
            verdict(program, audit_value(arch), nr, 0, 0) == Some(
                if denied {
                    0x0005_0001u32
                } else {
                    0x7fff_0000u32
                },
            )
        }),
{
    let n = nr as i64;
    let list = blocked(numbers);
    assert(list[0] == numbers.ptrace);
    assert(list[1] == numbers.keyctl);
    assert(list[2] == numbers.add_key);
    assert(list[3] == numbers.request_key);
    assert(list[4] == numbers.mount);
    assert(list[5] == numbers.umount2);
    assert(list[6] == numbers.pivot_root);
    assert(list[7] == numbers.reboot);
    assert(list[8] == numbers.swapon);
    assert(list[9] == numbers.swapoff);
    assert(list[10] == numbers.init_module);
    assert(list[11] == numbers.finit_module);
    assert(list[12] == numbers.delete_module);
    assert(list[13] == numbers.kexec_load);
    assert(list[14] == numbers.perf_event_open);
    if list.contains(n) {
        let i = list.index_of(n);
        assert(list[i] == n);
    }
}

/// An architecture is known by its name in letters of either case, and has the value by
/// which the kernel knows it.
pub proof fn law_architectures(name: Seq<char>)
    ensures
        arch_named("x86_64"@) == Some(Arch::X86_64),
        arch_named("aarch64"@) == Some(Arch::Aarch64),
        arch_named("riscv64"@) == Some(Arch::Riscv64),
        arch_named("X86_64"@) == Some(Arch::X86_64),
        arch_named("AARCH64"@) == Some(Arch::Aarch64),
        arch_named("RISCV64"@) == Some(Arch::Riscv64),
        name.len() < 6 || name.len() > 7 ==> arch_named(name) is None,
        audit_value(Arch::X86_64) == 0xc000_003e,
        audit_value(Arch::Aarch64) == 0xc000_00b7,
        audit_value(Arch::Riscv64) == 0xc000_00f3,
{
    reveal_strlit("x86_64");
    reveal_strlit("aarch64");
    reveal_strlit("riscv64");
    reveal_strlit("X86_64");
    reveal_strlit("AARCH64");
    reveal_strlit("RISCV64");
    let lower = |c: char| ascii_lower(c);
    assert("x86_64"@.map_values(lower) =~= "x86_64"@);
    assert("X86_64"@.map_values(lower) =~= "x86_64"@);
    assert("aarch64"@.map_values(lower) =~= "aarch64"@);
    assert("AARCH64"@.map_values(lower) =~= "aarch64"@);
    assert("riscv64"@.map_values(lower) =~= "riscv64"@);
    assert("RISCV64"@.map_values(lower) =~= "riscv64"@);
    assert("aarch64"@[0] == 'a' && "riscv64"@[0] == 'r');
    assert(name.map_values(lower).len() == name.len());
}

} // verus!
