//! The root file system of a container.

use crate::config::{Volume, VolumeView};
use crate::host::{MountKind, Op, OpView};
use crate::plan::{
    attempt, closed, may, must, unskippable, OnFailure, OnFailureView, Plan, Step, StepView,
};
use crate::scan::{join_path, path_joined, strip_slashes, without_slashes};
use crate::text::cat;
use vstd::prelude::*;

verus! {

/// The number of the device `major`:`minor`, as Linux packs it.
pub open spec fn device_number(major: u64, minor: u64) -> u64 {
    ((major & 0xffff_f000) << 32) | ((major & 0x0000_0fff) << 8) | ((minor & 0xffff_ff00) << 12) | (
    minor & 0x0000_00ff)
}

/// `nix::sys::stat::makedev` packs the two numbers of a device into one, as
/// [`device_number`] says.
pub assume_specification[ nix::sys::stat::makedev ](major: u64, minor: u64) -> (dev: u64)
    ensures
        dev == device_number(major, minor),
;

/// The step that creates one device, readable and writable for all.
pub open spec fn device_step(path: Seq<char>, major: u64, minor: u64) -> StepView {
    may(OpView::MakeDevice { path, dev: device_number(major, minor), mode: 0o666 })
}

/// The minimal set of device nodes a shell needs.
pub open spec fn device_steps() -> Seq<StepView> {
    seq![
        device_step("/dev/null"@, 1, 3),
        device_step("/dev/zero"@, 1, 5),
        device_step("/dev/full"@, 1, 7),
        device_step("/dev/random"@, 1, 8),
        device_step("/dev/urandom"@, 1, 9),
        device_step("/dev/tty"@, 5, 0),
    ]
}

fn device(path: &str, major: u64, minor: u64) -> (r: Step)
    ensures
        r@ == device_step(path@, major, minor),
{
    let dev: u64 = nix::sys::stat::makedev(major, minor);
    Step::may(Op::MakeDevice { path: path.to_owned(), dev, mode: 0o666 })
}

/// Create the minimal set of device nodes a shell needs. None of them must succeed.
pub fn make_dev_nodes() -> (plan: Plan)
    ensures
        plan@ == device_steps(),
{
    let mut plan: Plan = Plan::new();
    plan.push(device("/dev/null", 1, 3));
    plan.push(device("/dev/zero", 1, 5));
    plan.push(device("/dev/full", 1, 7));
    plan.push(device("/dev/random", 1, 8));
    plan.push(device("/dev/urandom", 1, 9));
    plan.push(device("/dev/tty", 5, 0));
    assert(plan@ =~= device_steps());
    plan
}

/// The operation that mounts a file system of the type `fstype` at `target`.
pub open spec fn plain_mount(fstype: Seq<char>, target: Seq<char>) -> OpView {
    OpView::Mount {
        source: Some(fstype),
        target,
        fstype: Some(fstype),
        kind: MountKind::Plain,
    }
}

/// The operation that binds `source` at `target`.
pub open spec fn bind_mount(source: Seq<char>, target: Seq<char>) -> OpView {
    OpView::Mount { source: Some(source), target, fstype: None, kind: MountKind::Bind }
}

/// The steps that make `rootfs` the root of the file system.
///
/// The whole mount tree is made private first, so that nothing propagates back to
/// the host. `rootfs` is bound onto itself, because the new root has to be a mount
/// point. The old root is put into a directory of the new one, which is the working
/// directory by then, and is then detached and removed.
pub open spec fn pivot_steps(rootfs: Seq<char>) -> Seq<StepView> {
    seq![
        must(
            OpView::Mount { source: None, target: "/"@, fstype: None, kind: MountKind::Private },
            OnFailureView::Syscall("mount(/ private)"@),
        ),
        must(bind_mount(rootfs, rootfs), OnFailureView::Syscall("mount(bind rootfs)"@)),
        must(OpView::ChangeDir(rootfs), OnFailureView::Syscall("chdir(rootfs)"@)),
        must(OpView::MakeDirs(".oldroot"@), OnFailureView::Filesystem("mkdir .oldroot"@)),
        must(
            OpView::PivotRoot { new_root: "."@, put_old: ".oldroot"@ },
            OnFailureView::Syscall("pivot_root"@),
        ),
        must(OpView::ChangeDir("/"@), OnFailureView::Syscall("chdir(/) post-pivot"@)),
        must(OpView::Detach("/.oldroot"@), OnFailureView::Syscall("umount(.oldroot)"@)),
        may(OpView::RemoveDir("/.oldroot"@)),
    ]
}

/// The steps that mount a fresh /proc, which reflects the new PID namespace, and a
/// /dev: devtmpfs if it can be had, otherwise a tmpfs with the essential nodes.
pub open spec fn system_steps() -> Seq<StepView> {
    seq![
        may(OpView::MakeDirs("/proc"@)),
        must(plain_mount("proc"@, "/proc"@), OnFailureView::Syscall("mount(/proc)"@)),
        may(OpView::MakeDirs("/dev"@)),
        attempt(plain_mount("devtmpfs"@, "/dev"@), 7),
        must(plain_mount("tmpfs"@, "/dev"@), OnFailureView::Syscall("mount(/dev tmpfs)"@)),
    ] + device_steps()
}

/// All steps that prepare the root file system.
pub open spec fn rootfs_steps(rootfs: Seq<char>) -> Seq<StepView> {
    pivot_steps(rootfs) + system_steps()
}

fn mount_plain(fstype: &str, target: &str) -> (r: Op)
    ensures
        r@ == plain_mount(fstype@, target@),
{
    Op::Mount {
        source: Some(fstype.to_owned()),
        target: target.to_owned(),
        fstype: Some(fstype.to_owned()),
        kind: MountKind::Plain,
    }
}

fn mount_bind(source: &str, target: &str) -> (r: Op)
    ensures
        r@ == bind_mount(source@, target@),
{
    Op::Mount {
        source: Some(source.to_owned()),
        target: target.to_owned(),
        fstype: None,
        kind: MountKind::Bind,
    }
}

/// pivot_root into `rootfs` and mount a fresh /proc and /dev.
pub fn setup_rootfs(rootfs: &str) -> (plan: Plan)
    ensures
        plan@ == rootfs_steps(rootfs@),
{
    let mut plan: Plan = Plan::new();
    plan.push(
        Step::must(
            Op::Mount {
                source: None,
                target: "/".to_owned(),
                fstype: None,
                kind: MountKind::Private,
            },
            OnFailure::Syscall("mount(/ private)"),
        ),
    );
    plan.push(Step::must(mount_bind(rootfs, rootfs), OnFailure::Syscall("mount(bind rootfs)")));
    plan.push(
        Step::must(Op::ChangeDir(rootfs.to_owned()), OnFailure::Syscall("chdir(rootfs)")),
    );
    plan.push(
        Step::must(
            Op::MakeDirs(".oldroot".to_owned()),
            OnFailure::Filesystem("mkdir .oldroot".to_owned()),
        ),
    );
    plan.push(
        Step::must(
            Op::PivotRoot { new_root: ".".to_owned(), put_old: ".oldroot".to_owned() },
            OnFailure::Syscall("pivot_root"),
        ),
    );
    plan.push(
        Step::must(Op::ChangeDir("/".to_owned()), OnFailure::Syscall("chdir(/) post-pivot")),
    );
    plan.push(
        Step::must(Op::Detach("/.oldroot".to_owned()), OnFailure::Syscall("umount(.oldroot)")),
    );
    plan.push(Step::may(Op::RemoveDir("/.oldroot".to_owned())));
    assert(plan@ =~= pivot_steps(rootfs@));

    let mut system: Plan = Plan::new();
    system.push(Step::may(Op::MakeDirs("/proc".to_owned())));
    system.push(Step::must(mount_plain("proc", "/proc"), OnFailure::Syscall("mount(/proc)")));
    system.push(Step::may(Op::MakeDirs("/dev".to_owned())));
    let nodes: Plan = make_dev_nodes();
    system.push(Step::attempt(mount_plain("devtmpfs", "/dev"), 7));
    system.push(Step::must(mount_plain("tmpfs", "/dev"), OnFailure::Syscall("mount(/dev tmpfs)")));
    system.extend(nodes);
    assert(system@ =~= system_steps());

    plan.extend(system);
    plan
}

/// Where in `rootfs` the path `container_path` of a container lies, seen from the
/// host.
pub open spec fn volume_target(rootfs: Seq<char>, container_path: Seq<char>) -> Seq<char> {
    path_joined(rootfs, without_slashes(container_path))
}

/// The steps that bind one volume into `rootfs`.
pub open spec fn volume_steps(rootfs: Seq<char>, volume: VolumeView) -> Seq<StepView> {
    let target = volume_target(rootfs, volume.container_path);
    seq![
        must(OpView::MakeDirs(target), OnFailureView::Filesystem("mkdir "@ + target)),
        must(
            bind_mount(volume.host_path, target),
            OnFailureView::Syscall("mount(volume bind)"@),
        ),
    ]
}

/// The steps that bind all volumes of `list` into `rootfs`.
pub open spec fn volumes_steps(rootfs: Seq<char>, list: Seq<VolumeView>) -> Seq<StepView>
    decreases list.len(),
{
    if list.len() == 0 {
        Seq::empty()
    } else {
        volumes_steps(rootfs, list.drop_last()) + volume_steps(rootfs, list.last())
    }
}

/// Mount a volume (bind mount) from host into the rootfs, before pivot_root.
/// container_path is relative to the container's root (e.g., "/mnt"),
/// and we bind it at rootfs/container_path.
pub fn mount_volume_into_rootfs(rootfs: &str, volume: &Volume) -> (plan: Plan)
    ensures
        plan@ == volume_steps(rootfs@, volume@),
{
    let rel: String = strip_slashes(volume.container_path.as_str());
    let target: String = join_path(rootfs, rel.as_str());
    let what: String = cat("mkdir ", target.as_str());
    let mut plan: Plan = Plan::new();
    plan.push(Step::must(Op::MakeDirs(target.clone()), OnFailure::Filesystem(what)));
    plan.push(
        Step::must(
            mount_bind(volume.host_path.as_str(), target.as_str()),
            OnFailure::Syscall("mount(volume bind)"),
        ),
    );
    assert(plan@ =~= volume_steps(rootfs@, volume@));
    plan
}

/// Mount all volumes of a container into its rootfs.
pub fn mount_volumes(rootfs: &str, volumes: &Vec<Volume>) -> (plan: Plan)
    ensures
        plan@ == volumes_steps(rootfs@, crate::config::volume_views(volumes@)),
{
    let ghost all = crate::config::volume_views(volumes@);
    let mut plan: Plan = Plan::new();
    assert(all.take(0) =~= Seq::<VolumeView>::empty());
    for i in 0..volumes.len()
        invariant
            all == crate::config::volume_views(volumes@),
            plan@ == volumes_steps(rootfs@, all.take(i as int)),
    {
        plan.extend(mount_volume_into_rootfs(rootfs, &volumes[i]));
        proof {
            assert(all.take(i + 1).drop_last() =~= all.take(i as int));
            assert(all.take(i + 1).last() == volumes@[i as int]@);
        }
    }
    assert(all.take(volumes@.len() as int) =~= all);
    plan
}

/// A volume is bound at a path that begins with the rootfs, whatever path the
/// container gives it.
pub proof fn law_volume_below_rootfs(rootfs: Seq<char>, container_path: Seq<char>)
    ensures
        rootfs.is_prefix_of(volume_target(rootfs, container_path)),
        without_slashes(container_path).is_suffix_of(volume_target(rootfs, container_path)),
{
    crate::scan::law_no_slash_left(container_path);
    let rel = without_slashes(container_path);
    let target = volume_target(rootfs, container_path);
    if rootfs.len() == 0 || rootfs.last() == '/' {
        assert(target == rootfs + rel);
    } else {
        assert(target == rootfs + "/"@ + rel);
    }
    assert(rootfs =~= target.subrange(0, rootfs.len() as int));
    assert(rel =~= target.subrange(target.len() - rel.len(), target.len() as int));
}

/// Binding volumes skips no step.
pub proof fn law_volumes_closed(rootfs: Seq<char>, list: Seq<VolumeView>)
    ensures
        closed(volumes_steps(rootfs, list)),
        volumes_steps(rootfs, list).len() == 2 * list.len(),
        forall|i: int|
            0 <= i < volumes_steps(rootfs, list).len() ==> {
                &&& (#[trigger] volumes_steps(rootfs, list)[i]).skip == 0
                &&& !(volumes_steps(rootfs, list)[i].on_failure is Ignore)
            },
        forall|k: int|
            0 <= k < list.len() ==> {
                &&& volumes_steps(rootfs, list)[2 * k + 1].op == bind_mount(
                    (#[trigger] list[k]).host_path,
                    volume_target(rootfs, list[k].container_path),
                )
            },
    decreases list.len(),
{
    if list.len() > 0 {
        let less = list.drop_last();
        law_volumes_closed(rootfs, less);
        let all = volumes_steps(rootfs, list);
        assert(all == volumes_steps(rootfs, less) + volume_steps(rootfs, list.last()));
        assert forall|i: int| 0 <= i < all.len() implies (#[trigger] all[i]).skip == 0 && !(
        all[i].on_failure is Ignore) by {
            if i < volumes_steps(rootfs, less).len() {
                assert(all[i] == volumes_steps(rootfs, less)[i]);
            }
        }
        assert forall|k: int| 0 <= k < list.len() implies all[2 * k + 1].op == bind_mount(
            (#[trigger] list[k]).host_path,
            volume_target(rootfs, list[k].container_path),
        ) by {
            if k < less.len() {
                assert(list[k] == less[k]);
                assert(all[2 * k + 1] == volumes_steps(rootfs, less)[2 * k + 1]);
            }
        }
    }
}

/// Of the steps that prepare the root file system only those that stand in for
/// devtmpfs can be skipped.
pub proof fn law_only_dev_skipped(rootfs: Seq<char>, i: int)
    requires
        0 <= i < 12,
    ensures
        rootfs_steps(rootfs).len() == 19,
        unskippable(rootfs_steps(rootfs), i),
        closed(rootfs_steps(rootfs)),
{
    let all = rootfs_steps(rootfs);
    assert forall|k: int| 0 <= k < 19 implies (#[trigger] all[k]).skip == (if k == 11 {
        7nat
    } else {
        0nat
    }) by {}
}

/// A device with small numbers is numbered by its major number times 256 and its
/// minor number.
pub proof fn law_small_device(major: u64, minor: u64)
    requires
        major < 256,
        minor < 256,
    ensures
        device_number(major, minor) == 256 * major + minor,
{
    assert(((major & 0xffff_f000) << 32) | ((major & 0x0000_0fff) << 8) | ((minor & 0xffff_ff00)
        << 12) | (minor & 0x0000_00ff) == 256 * major + minor) by (bit_vector)
        requires
            major < 256,
            minor < 256,
    ;
}


/// A volume is mounted at its path in the container, taken below the root file system,
/// whether that path begins with slashes or not.
pub proof fn law_volume_target(rootfs: Seq<char>, slashes: nat, path: Seq<char>)
    requires
        rootfs.len() > 0,
        rootfs.last() != '/',
        path.len() > 0,
        path[0] != '/',
    ensures
        volume_target(rootfs, Seq::new(slashes, |i: int| '/') + path) == rootfs + seq!['/'] + path,
    decreases slashes,
{
    reveal_strlit("/");
    let all = Seq::new(slashes, |i: int| '/') + path;
    if slashes > 0 {
        let less = (slashes - 1) as nat;
        law_volume_target(rootfs, less, path);
        assert(all.drop_first() =~= Seq::new(less, |i: int| '/') + path);
        assert(without_slashes(all) == without_slashes(all.drop_first()));
    } else {
        assert(all =~= path);
        assert(volume_target(rootfs, all) =~= rootfs + seq!['/'] + path);
    }
}

} // verus!
