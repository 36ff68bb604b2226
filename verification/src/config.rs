//! What a container is to be: its root file system, its command and its limits.

use crate::text::{
    cat, copy_list, decimal, is_digit, law_cut_ascii, law_decimal_round_trip, parse_u64, parsed_u64,
    slice, views, without_plus,
};
use vstd::prelude::*;
use vstd::string::StrSliceExecFns;
use vstd::utf8::{encode_utf8, is_ascii_chars};

verus! {

/// A directory of the host that the container sees under a path of its own.
#[derive(Debug)]
pub struct Volume {
    pub host_path: String,
    pub container_path: String,
}

/// The model of a [`Volume`].
pub ghost struct VolumeView {
    pub host_path: Seq<char>,
    pub container_path: Seq<char>,
}

impl View for Volume {
    type V = VolumeView;

    open spec fn view(&self) -> VolumeView {
        VolumeView { host_path: self.host_path@, container_path: self.container_path@ }
    }
}

impl Clone for Volume {
    fn clone(&self) -> (r: Self)
        ensures
            r@ == self@,
    {
        Volume {
            host_path: self.host_path.clone(),
            container_path: self.container_path.clone(),
        }
    }
}

/// The limits of a container.
#[derive(Debug, Clone, Copy, PartialEq, Eq, Structural)]
pub struct Resources {
    /// Hard memory ceiling in bytes (memory.max). 0 = unlimited.
    pub memory_max: u64,
    /// CPU quota in microseconds per period (cpu.max). 0 = unlimited.
    pub cpu_quota: u64,
    /// CPU period in microseconds.
    pub cpu_period: u64,
    /// Max number of pids (pids.max). 0 = unlimited.
    pub pids_max: u64,
}

/// The limits of a container that asks for none: 128 MiB, 128 processes, and the
/// CPU without a quota.
pub open spec fn default_resources() -> Resources {
    Resources {
        memory_max: 134217728,
        cpu_quota: 0,
        cpu_period: 100_000,
        pids_max: 128,
    }
}

impl Default for Resources {
    fn default() -> (r: Self)
        ensures
            r == default_resources(),
    {
        Resources { memory_max: 134217728, cpu_quota: 0, cpu_period: 100_000, pids_max: 128 }
    }
}

/// Full specification for a single container run.
#[derive(Debug)]
pub struct ContainerConfig {
    pub id: String,
    pub hostname: String,
    pub rootfs: String,
    pub command: Vec<String>,
    pub env: Vec<String>,
    pub volumes: Vec<Volume>,
    pub resources: Resources,
    pub network: bool,
    pub seccomp: bool,
    pub drop_caps: bool,
}

/// The model of a [`ContainerConfig`].
#[verifier::ext_equal]
pub ghost struct ContainerConfigView {
    pub id: Seq<char>,
    pub hostname: Seq<char>,
    pub rootfs: Seq<char>,
    pub command: Seq<Seq<char>>,
    pub env: Seq<Seq<char>>,
    pub volumes: Seq<VolumeView>,
    pub resources: Resources,
    pub network: bool,
    pub seccomp: bool,
    pub drop_caps: bool,
}

/// The views of a sequence of volumes.
pub open spec fn volume_views(list: Seq<Volume>) -> Seq<VolumeView> {
    Seq::new(list.len(), |i: int| list[i]@)
}

impl View for ContainerConfig {
    type V = ContainerConfigView;

    open spec fn view(&self) -> ContainerConfigView {
        ContainerConfigView {
            id: self.id@,
            hostname: self.hostname@,
            rootfs: self.rootfs@,
            command: views(self.command@),
            env: views(self.env@),
            volumes: volume_views(self.volumes@),
            resources: self.resources,
            network: self.network,
            seccomp: self.seccomp,
            drop_caps: self.drop_caps,
        }
    }
}

impl Clone for ContainerConfig {
    fn clone(&self) -> (r: Self)
        ensures
            r@ == self@,
    {
        let mut volumes: Vec<Volume> = Vec::new();
        for i in 0..self.volumes.len()
            invariant
                volumes@.len() == i,
                forall|j: int| 0 <= j < i ==> volumes@[j]@ == self.volumes@[j]@,
        {
            volumes.push(self.volumes[i].clone());
        }
        assert(volume_views(volumes@) =~= volume_views(self.volumes@));
        ContainerConfig {
            id: self.id.clone(),
            hostname: self.hostname.clone(),
            rootfs: self.rootfs.clone(),
            command: copy_list(&self.command),
            env: copy_list(&self.env),
            volumes,
            resources: self.resources,
            network: self.network,
            seccomp: self.seccomp,
            drop_caps: self.drop_caps,
        }
    }
}

/// The first 12 characters of `id`, or all of it where it is shorter.
pub open spec fn short(id: Seq<char>) -> Seq<char> {
    if id.len() > 12 {
        id.take(12)
    } else {
        id
    }
}

/// The environment that every container starts with.
pub open spec fn default_env() -> Seq<Seq<char>> {
    seq![
        "PATH=/usr/local/sbin:/usr/local/bin:/usr/sbin:/usr/bin:/sbin:/bin"@,
        "HOME=/root"@,
        "TERM=xterm"@,
    ]
}

/// The configuration of a container that was given an id, a root file system and a
/// command, and nothing else.
pub open spec fn fresh_config(
    id: Seq<char>,
    rootfs: Seq<char>,
    command: Seq<Seq<char>>,
) -> ContainerConfigView {
    ContainerConfigView {
        id,
        hostname: "mc-"@ + short(id),
        rootfs,
        command,
        env: default_env(),
        volumes: Seq::empty(),
        resources: default_resources(),
        network: false,
        seccomp: true,
        drop_caps: true,
    }
}

/// Whether `c` is a hexadecimal digit, in lower case.
pub open spec fn is_hex(c: char) -> bool {
    '0' <= c <= '9' || 'a' <= c <= 'f'
}

/// Whether `s` is a random UUID: 32 hexadecimal digits in five groups with hyphens
/// between them, among them the digit for version 4 and one of the four for the
/// variant.
pub open spec fn is_random_uuid(s: Seq<char>) -> bool {
    &&& s.len() == 36
    &&& forall|i: int|
        0 <= i < 36 ==> (if i == 8 || i == 13 || i == 18 || i == 23 {
            #[trigger] s[i] == '-'
        } else {
            is_hex(s[i])
        })
    &&& s[14] == '4'
    &&& s[19] == '8' || s[19] == '9' || s[19] == 'a' || s[19] == 'b'
}

/// Calls `uuid::Uuid::new_v4` and writes the id out with its `to_string`.
///
/// The random bits are free. Claimed of every outcome is the shape of the text:
/// lower-case hexadecimal digits in groups of 8, 4, 4, 4 and 12, with the digits of
/// version 4 and of the RFC 9562 variant in their places.
#[verifier::external_body]
pub(crate) fn new_id() -> (id: String)
    ensures
        is_random_uuid(id@),
{
    uuid::Uuid::new_v4().to_string()
}

/// A random UUID is made of ASCII characters, so that it has as many bytes as
/// characters.
pub proof fn law_random_id_is_ascii(id: Seq<char>)
    requires
        is_random_uuid(id),
    ensures
        is_ascii_chars(id),
        is_ascii_chars(short(id)),
        short(id).len() == 12,
        encode_utf8(id).len() == 36,
{
    assert forall|i: int| 0 <= i < id.len() implies (#[trigger] id[i]) as nat <= 127 by {}
    assert(is_ascii_chars(id));
    law_cut_ascii(id, 12);
}

impl ContainerConfig {
    /// A configuration under a new random id.
    pub fn new(rootfs: String, command: Vec<String>) -> (cfg: Self)
        ensures
            is_random_uuid(cfg@.id),
            cfg@ == fresh_config(cfg@.id, rootfs@, views(command@)),
    {
        ContainerConfig::with_id(new_id(), rootfs, command)
    }

    /// A configuration under the id `id`.
    pub fn with_id(id: String, rootfs: String, command: Vec<String>) -> (cfg: Self)
        ensures
            cfg@ == fresh_config(id@, rootfs@, views(command@)),
    {
        let len: usize = id.as_str().unicode_len();
        let start: String = if len > 12 {
            slice(id.as_str(), 0, 12)
        } else {
            id.clone()
        };
        assert(start@ =~= short(id@));
        let mut env: Vec<String> = Vec::new();
        env.push(
            "PATH=/usr/local/sbin:/usr/local/bin:/usr/sbin:/usr/bin:/sbin:/bin".to_owned(),
        );
        env.push("HOME=/root".to_owned());
        env.push("TERM=xterm".to_owned());
        let volumes: Vec<Volume> = Vec::new();
        let cfg = ContainerConfig {
            hostname: cat("mc-", start.as_str()),
            id,
            rootfs,
            command,
            env,
            volumes,
            resources: Resources::default(),
            network: false,
            seccomp: true,
            drop_caps: true,
        };
        proof {
            assert(views(cfg.env@) =~= default_env());
            assert(volume_views(cfg.volumes@) =~= Seq::<VolumeView>::empty());
        }
        cfg
    }

    /// First 12 chars of the id, used for cgroup/veth naming.
    ///
    /// The id must hold at least 12 bytes.
    pub fn short_id(&self) -> (r: &str)
        requires
            encode_utf8(self@.id).len() >= 12,
        ensures
            r@ == short(self@.id),
    {
        let len: usize = self.id.as_str().unicode_len();
        let end: usize = if len > 12 {
            12
        } else {
            len
        };
        let r: &str = self.id.as_str().substring_char(0, end);
        assert(r@ =~= short(self@.id));
        r
    }
}

/// The number of bytes that `text` stands for: a plain number is one of bytes, and
/// one with an `M` behind it one of mebibytes.
pub open spec fn memory_size(text: Seq<char>) -> Option<u64> {
    match parsed_u64(text) {
        Some(n) => Some(n),
        None => if text.len() > 0 && text.last() == 'M' {
            match parsed_u64(text.drop_last()) {
                Some(n) => if n * 1048576 <= u64::MAX {
                    Some((n * 1048576) as u64)
                } else {
                    None
                },
                None => None,
            }
        } else {
            None
        },
    }
}

/// The number of bytes that `text` stands for, such as `67108864` or `64M`.
pub fn parse_memory(text: &str) -> (r: Option<u64>)
    ensures
        r == memory_size(text@),
{
    if let Some(n) = parse_u64(text) {
        return Some(n);
    }
    let len: usize = text.unicode_len();
    if len == 0 || text.get_char(len - 1) != 'M' {
        return None;
    }
    let number: String = slice(text, 0, len - 1);
    assert(number@ =~= text@.drop_last());
    match parse_u64(number.as_str()) {
        Some(n) => n.checked_mul(1048576),
        None => None,
    }
}

/// A plain number of bytes is read as it stands, and one with an `M` behind it is
/// read as 1024 times 1024 times as many, as long as there is room for that.
pub proof fn law_memory_units(n: u64)
    ensures
        memory_size(decimal(n as nat)) == Some(n),
        memory_size(decimal(n as nat).push('M')) == (if n * 1048576 <= u64::MAX {
            Some((n * 1048576) as u64)
        } else {
            None
        }),
{
    law_decimal_round_trip(n);
    let digits = decimal(n as nat);
    let text = digits.push('M');
    assert(text.drop_last() =~= digits);
    let bare = without_plus(text);
    assert(bare.last() == 'M');
    assert(!is_digit(bare[bare.len() - 1]));
}


/// A container that is given an id, a root file system and a command has the hostname `mc-`
/// and the front of its id, 128 MiB of memory, 128 processes, no limit on the CPU, no
/// network and no volumes; it is filtered, and drops its capabilities.
pub proof fn law_fresh_config(id: Seq<char>, rootfs: Seq<char>, command: Seq<Seq<char>>)
    ensures
        ({
            let cfg = fresh_config(id, rootfs, command);
            &&& cfg.id == id
            &&& cfg.rootfs == rootfs
            &&& cfg.command == command
            &&& id.len() <= 12 ==> cfg.hostname == "mc-"@ + id
            &&& id.len() > 12 ==> cfg.hostname == "mc-"@ + id.subrange(0, 12)
            &&& cfg.env == seq![
                "PATH=/usr/local/sbin:/usr/local/bin:/usr/sbin:/usr/bin:/sbin:/bin"@,
                "HOME=/root"@,
                "TERM=xterm"@,
            ]
            &&& cfg.volumes.len() == 0
            &&& cfg.resources.memory_max == 128 * 1024 * 1024
            &&& cfg.resources.cpu_quota == 0
            &&& cfg.resources.cpu_period == 100_000
            &&& cfg.resources.pids_max == 128
            &&& !cfg.network
            &&& cfg.seccomp
            &&& cfg.drop_caps
        }),
{
}

/// What is read as a size of memory: a number, or a number with an `M` behind it that
/// leaves room for 1024 times 1024 times as many; nothing else is one.
pub proof fn law_memory_read(text: Seq<char>)
    ensures
        parsed_u64(text) matches Some(n) ==> memory_size(text) == Some(n),
        parsed_u64(text) is None && !(text.len() > 0 && text.last() == 'M') ==> memory_size(
            text,
        ) is None,
        memory_size(text.push('M')) == (match parsed_u64(text) {
            Some(n) => if n <= 17_592_186_044_415 {
                Some((n * 1048576) as u64)
            } else {
                None
            },
            None => None,
        }),
{
    let longer = text.push('M');
    assert(longer.drop_last() =~= text);
    assert(parsed_u64(longer) is None) by {
        let bare = without_plus(longer);
        if bare.len() > 0 {
            assert(bare.last() == 'M');
            assert(!is_digit(bare[bare.len() - 1]));
        }
    }
}


/// The model of a configuration says of each field what it holds.
pub proof fn law_configuration(cfg: ContainerConfig)
    ensures
        cfg@.id == cfg.id@,
        cfg@.hostname == cfg.hostname@,
        cfg@.rootfs == cfg.rootfs@,
        cfg@.command == views(cfg.command@),
        cfg@.env == views(cfg.env@),
        cfg@.volumes.len() == cfg.volumes@.len(),
        forall|i: int|
            0 <= i < cfg.volumes@.len() ==> (#[trigger] cfg@.volumes[i]).host_path
                == cfg.volumes@[i].host_path@ && cfg@.volumes[i].container_path
                == cfg.volumes@[i].container_path@,
        cfg@.resources == cfg.resources,
        cfg@.network == cfg.network,
        cfg@.seccomp == cfg.seccomp,
        cfg@.drop_caps == cfg.drop_caps,
{
}

/// The short id of a container is its id up to the twelfth character.
pub proof fn law_short(id: Seq<char>)
    ensures
        short(id).len() == (if id.len() < 12 {
            id.len()
        } else {
            12
        }),
        short(id).is_prefix_of(id),
{
}

} // verus!
