//! What the container runs: volume specs, the command line from ENTRYPOINT
//! and CMD, and the arguments handed to bwrap.
use crate::config::ContainerConfig;
use crate::error::BonkError;
use crate::path::chars_eq;
use crate::text::{chars_of, is_char, lemma_pieces_nonempty, pieces, split_on_char, string_of, strs};
use vstd::prelude::*;

verus! {

/// A bind mount of a host path into the container.
#[derive(Debug)]
pub struct VolumeMount {
    pub host: String,
    pub guest: String,
    pub read_only: bool,
}

pub open spec fn ro_text() -> Seq<char> {
    seq!['r', 'o']
}

impl VolumeMount {
    /// Parse a volume spec of the form `HOST:GUEST[:ro]`: split at the first
    /// two colons; a missing part is empty, and the mount is read-only
    /// exactly when the rest after the second colon is `ro`.
    pub fn parse(spec: &str) -> (r: Self)
        ensures
            ({
                let ps = pieces(spec@, is_char(':'));
                &&& r.host@ == ps[0]
                &&& r.guest@ == if ps.len() > 1 {
                    ps[1]
                } else {
                    Seq::empty()
                }
                &&& r.read_only == (ps.len() == 3 && ps[2] == ro_text())
            }),
    {
        let cs = chars_of(spec);
        let ps = split_on_char(cs.as_slice(), ':');
        proof {
            lemma_pieces_nonempty(cs@, is_char(':'));
        }
        let host = string_of(ps[0].as_slice());
        let guest = if ps.len() > 1 {
            string_of(ps[1].as_slice())
        } else {
            String::new()
        };
        let ro = vec!['r', 'o'];
        proof {
            assert(ro@ =~= ro_text());
        }
        let read_only = ps.len() == 3 && chars_eq(ps[2].as_slice(), ro.as_slice());
        VolumeMount { host, guest, read_only }
    }
}

/// Copies of the strings `v`.
pub fn clone_strings(v: &[String]) -> (r: Vec<String>)
    ensures
        strs(r@) == strs(v@),
{
    let mut out: Vec<String> = Vec::new();
    let mut i: usize = 0;
    while i < v.len()
        invariant
            i <= v@.len(),
            strs(out@) == strs(v@).take(i as int),
        decreases v@.len() - i,
    {
        let ghost before = strs(out@);
        out.push(v[i].clone());
        assert(strs(out@) =~= before.push(v@[i as int]@));
        assert(strs(v@).take(i + 1) =~= strs(v@).take(i as int).push(v@[i as int]@));
        i = i + 1;
    }
    assert(strs(v@).take(i as int) =~= strs(v@));
    out
}

/// Appends copies of the strings `v` to `out`.
pub fn extend_strings(out: &mut Vec<String>, v: &[String])
    ensures
        strs(final(out)@) == strs(old(out)@) + strs(v@),
{
    let mut i: usize = 0;
    while i < v.len()
        invariant
            i <= v@.len(),
            strs(out@) == strs(old(out)@) + strs(v@).take(i as int),
        decreases v@.len() - i,
    {
        let ghost before = strs(out@);
        out.push(v[i].clone());
        assert(strs(out@) =~= before.push(v@[i as int]@));
        assert(strs(v@).take(i + 1) =~= strs(v@).take(i as int).push(v@[i as int]@));
        i = i + 1;
    }
    assert(strs(v@).take(i as int) =~= strs(v@));
}

/// The shell that runs when nothing else is named: `/bin/sh`.
pub open spec fn default_shell() -> Seq<Seq<char>> {
    seq!["/bin/sh"@]
}

/// The command the container runs, following Docker: ENTRYPOINT always comes
/// first, extra args replace CMD (not append to it), CMD is used when no
/// extra args are given, and `/bin/sh` runs when all of them are empty.
pub open spec fn resolve_cmd_spec(
    entrypoint: Seq<Seq<char>>,
    cmd: Seq<Seq<char>>,
    extra_args: Seq<Seq<char>>,
) -> Seq<Seq<char>> {
    let full = entrypoint + if extra_args.len() > 0 {
        extra_args
    } else {
        cmd
    };
    if full.len() == 0 {
        default_shell()
    } else {
        full
    }
}

/// The command line to run in the container: ENTRYPOINT followed by the
/// extra args if any were given, else by CMD; `/bin/sh` if that is empty.
/// It never fails.
pub fn resolve_cmd(config: &ContainerConfig, extra_args: &[String]) -> (r: Result<
    Vec<String>,
    BonkError,
>)
    ensures
        r matches Ok(v) && strs(v@) == resolve_cmd_spec(
            strs(config.entrypoint@),
            strs(config.cmd@),
            strs(extra_args@),
        ),
{
    let mut out = clone_strings(config.entrypoint.as_slice());
    if extra_args.len() > 0 {
        extend_strings(&mut out, extra_args);
    } else {
        extend_strings(&mut out, config.cmd.as_slice());
    }
    if out.len() == 0 {
        push_str(&mut out, "/bin/sh");
        assert(strs(out@) =~= default_shell());
    }
    Ok(out)
}

/// `str::split_once('=')`: the text before the first `=` and the text after
/// it; an entry without `=` is all key and an empty value.
pub open spec fn env_split(e: Seq<char>) -> (Seq<char>, Seq<char>) {
    if exists|i: int| 0 <= i < e.len() && e[i] == '=' {
        let i = choose|i: int|
            0 <= i < e.len() && e[i] == '=' && forall|j: int| 0 <= j < i ==> e[j] != '=';
        (e.take(i), e.skip(i + 1))
    } else {
        (e, Seq::empty())
    }
}

/// Splits a `KEY=VALUE` entry at its first `=`.
pub fn split_env(entry: &str) -> (r: (String, String))
    ensures
        (r.0@, r.1@) == env_split(entry@),
{
    let e = chars_of(entry);
    let mut i: usize = 0;
    while i < e.len()
        invariant
            i <= e@.len(),
            e@ == entry@,
            forall|j: int| 0 <= j < i ==> e@[j] != '=',
        decreases e@.len() - i,
    {
        if e[i] == '=' {
            let key = string_of(vstd::slice::slice_subrange(e.as_slice(), 0, i));
            let value = string_of(vstd::slice::slice_subrange(e.as_slice(), i + 1, e.len()));
            proof {
                assert(0 <= i < e@.len() && e@[i as int] == '=' && forall|j: int|
                    0 <= j < i ==> e@[j] != '=');
                let k = choose|k: int|
                    0 <= k < e@.len() && e@[k] == '=' && forall|j: int| 0 <= j < k ==> e@[j] != '=';
                assert(e@[i as int] == '=');
                if k < i {
                    assert(e@[k] != '=');
                }
                if k > i {
                    assert(e@[i as int] != '=');
                }
                assert(k == i);
                assert(key@ =~= e@.take(i as int));
                assert(value@ =~= e@.skip(i + 1));
                assert(e@ == entry@);
            }
            return (key, value);
        }
        i = i + 1;
    }
    (string_of(e.as_slice()), String::new())
}

/// `--setenv KEY VALUE` for each entry of `env`, in order.
pub open spec fn setenv_args(env: Seq<Seq<char>>) -> Seq<Seq<char>>
    decreases env.len(),
{
    if env.len() == 0 {
        Seq::empty()
    } else {
        setenv_args(env.drop_last()) + seq![
            "--setenv"@,
            env_split(env.last()).0,
            env_split(env.last()).1,
        ]
    }
}

/// `--bind HOST GUEST`, or `--ro-bind HOST GUEST` for a read-only mount, for
/// each volume, in order.
pub open spec fn volume_args(vs: Seq<VolumeMount>) -> Seq<Seq<char>>
    decreases vs.len(),
{
    if vs.len() == 0 {
        Seq::empty()
    } else {
        let v = vs.last();
        volume_args(vs.drop_last()) + seq![
            if v.read_only {
                "--ro-bind"@
            } else {
                "--bind"@
            },
            v.host@,
            v.guest@,
        ]
    }
}

/// The rootfs mount: an overlay with a throwaway upper layer when bwrap
/// supports one, else a bind mount of the rootfs at `/`.
pub open spec fn rootfs_args(rootfs: Seq<char>, overlay: bool) -> Seq<Seq<char>> {
    if overlay {
        seq!["--overlay-src"@, rootfs, "--tmp-overlay"@, "/"@]
    } else {
        seq!["--bind"@, rootfs, "/"@]
    }
}

/// The fixed mounts and identity: devices, proc, scratch dirs, hostname, resolver.
pub open spec fn base_mount_args() -> Seq<Seq<char>> {
    seq![
        "--dev"@,
        "/dev"@,
        "--proc"@,
        "/proc"@,
        "--tmpfs"@,
        "/tmp"@,
        "--tmpfs"@,
        "/run"@,
        "--hostname"@,
        "bonk"@,
        "--ro-bind"@,
        "/etc/resolv.conf"@,
        "/etc/resolv.conf"@,
    ]
}

/// Namespaces: as root, unshare all but the user and network namespaces;
/// otherwise unshare all, share the network back, and map to uid/gid 0.
pub open spec fn namespace_args(is_root: bool) -> Seq<Seq<char>> {
    if is_root {
        seq!["--unshare-ipc"@, "--unshare-pid"@, "--unshare-uts"@, "--unshare-cgroup"@]
    } else {
        seq!["--unshare-all"@, "--share-net"@, "--uid"@, "0"@, "--gid"@, "0"@]
    }
}

/// The environment: cleared first, then the image's variables, the host's
/// `TERM`, and the runtime variables, which come last and so override the
/// image's.
pub open spec fn env_args(
    image_env: Seq<Seq<char>>,
    term: Option<Seq<char>>,
    runtime_env: Seq<Seq<char>>,
) -> Seq<Seq<char>> {
    seq!["--clearenv"@] + setenv_args(image_env) + match term {
        Some(t) => seq!["--setenv"@, "TERM"@, t],
        None => Seq::empty(),
    } + setenv_args(runtime_env)
}

/// The whole bwrap argument list, or why the container cannot start.
pub open spec fn bwrap_args_spec(
    rootfs: Seq<char>,
    config: ContainerConfig,
    extra_args: Seq<Seq<char>>,
    volumes: Seq<VolumeMount>,
    runtime_env: Seq<Seq<char>>,
    stdin_is_tty: bool,
    rootfs_readonly: bool,
    overlay: bool,
    is_root: bool,
    term: Option<Seq<char>>,
) -> Result<Seq<Seq<char>>, BonkError> {
    if rootfs_readonly && !overlay {
        Err(BonkError::OverlayUnsupported)
    } else {
        Ok(
            rootfs_args(rootfs, overlay) + base_mount_args() + namespace_args(is_root)
                + volume_args(volumes) + env_args(strs(config.env@), term, runtime_env) + (
            if stdin_is_tty {
                seq!["--new-session"@]
            } else {
                Seq::empty()
            }) + seq!["--chdir"@, config.working_dir@, "--"@] + resolve_cmd_spec(
                strs(config.entrypoint@),
                strs(config.cmd@),
                extra_args,
            ),
        )
    }
}

/// Appends `s` to `out`.
fn push_str(out: &mut Vec<String>, s: &str)
    ensures
        strs(final(out)@) == strs(old(out)@).push(s@),
{
    let ghost before = strs(out@);
    out.push(s.to_owned());
    assert(strs(out@) =~= before.push(s@));
}

/// Appends `--setenv KEY VALUE` for each entry.
fn push_setenv(out: &mut Vec<String>, env: &[String])
    ensures
        strs(final(out)@) == strs(old(out)@) + setenv_args(strs(env@)),
{
    let mut i: usize = 0;
    while i < env.len()
        invariant
            i <= env@.len(),
            strs(out@) == strs(old(out)@) + setenv_args(strs(env@).take(i as int)),
        decreases env@.len() - i,
    {
        let ghost before = strs(out@);
        let (k, v) = split_env(env[i].as_str());
        push_str(out, "--setenv");
        push_str(out, k.as_str());
        push_str(out, v.as_str());
        proof {
            let t = strs(env@).take(i + 1);
            assert(t.drop_last() =~= strs(env@).take(i as int));
            assert(t.last() == env@[i as int]@);
            assert(strs(out@) =~= strs(old(out)@) + setenv_args(t));
        }
        i = i + 1;
    }
    assert(strs(env@).take(i as int) =~= strs(env@));
}

/// Appends the bind arguments of each volume.
fn push_volumes(out: &mut Vec<String>, volumes: &[VolumeMount])
    ensures
        strs(final(out)@) == strs(old(out)@) + volume_args(volumes@),
{
    let mut i: usize = 0;
    while i < volumes.len()
        invariant
            i <= volumes@.len(),
            strs(out@) == strs(old(out)@) + volume_args(volumes@.take(i as int)),
        decreases volumes@.len() - i,
    {
        let v = &volumes[i];
        if v.read_only {
            push_str(out, "--ro-bind");
        } else {
            push_str(out, "--bind");
        }
        push_str(out, v.host.as_str());
        push_str(out, v.guest.as_str());
        proof {
            let t = volumes@.take(i + 1);
            assert(t.drop_last() =~= volumes@.take(i as int));
            assert(t.last() == volumes@[i as int]);
            assert(strs(out@) =~= strs(old(out)@) + volume_args(t));
        }
        i = i + 1;
    }
    assert(volumes@.take(i as int) =~= volumes@);
}

/// Appends the rootfs mount, the fixed mounts and the namespace arguments.
fn push_mounts(out: &mut Vec<String>, rootfs: &str, overlay: bool, is_root: bool)
    ensures
        strs(final(out)@) == strs(old(out)@) + rootfs_args(rootfs@, overlay) + base_mount_args()
            + namespace_args(is_root),
{
    let ghost a0 = strs(out@);
    if overlay {
        push_str(out, "--overlay-src");
        push_str(out, rootfs);
        push_str(out, "--tmp-overlay");
        push_str(out, "/");
    } else {
        push_str(out, "--bind");
        push_str(out, rootfs);
        push_str(out, "/");
    }
    let ghost a1 = strs(out@);
    assert(a1 =~= a0 + rootfs_args(rootfs@, overlay));
    push_str(out, "--dev");
    push_str(out, "/dev");
    push_str(out, "--proc");
    push_str(out, "/proc");
    push_str(out, "--tmpfs");
    push_str(out, "/tmp");
    push_str(out, "--tmpfs");
    push_str(out, "/run");
    push_str(out, "--hostname");
    push_str(out, "bonk");
    push_str(out, "--ro-bind");
    push_str(out, "/etc/resolv.conf");
    push_str(out, "/etc/resolv.conf");
    let ghost a2 = strs(out@);
    assert(a2 =~= a1 + base_mount_args());
    if is_root {
        push_str(out, "--unshare-ipc");
        push_str(out, "--unshare-pid");
        push_str(out, "--unshare-uts");
        push_str(out, "--unshare-cgroup");
    } else {
        push_str(out, "--unshare-all");
        push_str(out, "--share-net");
        push_str(out, "--uid");
        push_str(out, "0");
        push_str(out, "--gid");
        push_str(out, "0");
    }
    assert(strs(out@) =~= a2 + namespace_args(is_root));
}

/// Appends the environment arguments.
fn push_env(out: &mut Vec<String>, image_env: &[String], term: Option<&str>, runtime_env: &[String])
    ensures
        strs(final(out)@) == strs(old(out)@) + env_args(
            strs(image_env@),
            match term {
                Some(t) => Some(t@),
                None => None,
            },
            strs(runtime_env@),
        ),
{
    let ghost a0 = strs(out@);
    push_str(out, "--clearenv");
    push_setenv(out, image_env);
    let ghost a1 = strs(out@);
    match term {
        Some(t) => {
            push_str(out, "--setenv");
            push_str(out, "TERM");
            push_str(out, t);
        },
        None => {},
    }
    let ghost a2 = strs(out@);
    push_setenv(out, runtime_env);
    proof {
        let ts = match term {
            Some(t) => Some(t@),
            None => None,
        };
        let tail = match ts {
            Some(t) => seq!["--setenv"@, "TERM"@, t],
            None => Seq::<Seq<char>>::empty(),
        };
        assert(a1 =~= a0 + seq!["--clearenv"@] + setenv_args(strs(image_env@)));
        assert(a2 =~= a1 + tail);
        assert(strs(out@) =~= a0 + env_args(strs(image_env@), ts, strs(runtime_env@)));
    }
}

/// The arguments that run the container under bwrap: the rootfs mount, the fixed
/// mounts, namespaces, volumes, environment, session, working directory and
/// the command. `overlay`, `is_root` and `term` are facts about the host: whether
/// bwrap supports overlays, whether the caller is root, and the host's
/// `TERM`. A read-only rootfs without overlay support is refused.
pub fn bwrap_args(
    rootfs: &str,
    config: &ContainerConfig,
    extra_args: &[String],
    volumes: &[VolumeMount],
    runtime_env: &[String],
    stdin_is_tty: bool,
    rootfs_readonly: bool,
    overlay: bool,
    is_root: bool,
    term: Option<&str>,
) -> (r: Result<Vec<String>, BonkError>)
    ensures
        ({
            let spec = bwrap_args_spec(
                rootfs@,
                *config,
                strs(extra_args@),
                volumes@,
                strs(runtime_env@),
                stdin_is_tty,
                rootfs_readonly,
                overlay,
                is_root,
                match term {
                    Some(t) => Some(t@),
                    None => None,
                },
            );
            match r {
                Ok(v) => spec == Ok::<Seq<Seq<char>>, BonkError>(strs(v@)),
                Err(e) => spec == Err::<Seq<Seq<char>>, BonkError>(e),
            }
        }),
{
    if rootfs_readonly && !overlay {
        return Err(BonkError::OverlayUnsupported);
    }
    let cmd = match resolve_cmd(config, extra_args) {
        Ok(c) => c,
        Err(e) => return Err(e),
    };
    let mut out: Vec<String> = Vec::new();
    push_mounts(&mut out, rootfs, overlay, is_root);
    let ghost a3 = strs(out@);
    push_volumes(&mut out, volumes);
    let ghost a4 = strs(out@);
    push_env(&mut out, config.env.as_slice(), term, runtime_env);
    let ghost a5 = strs(out@);
    if stdin_is_tty {
        push_str(&mut out, "--new-session");
    }
    let ghost a6 = strs(out@);
    push_str(&mut out, "--chdir");
    push_str(&mut out, config.working_dir.as_str());
    push_str(&mut out, "--");
    let ghost a7 = strs(out@);
    extend_strings(&mut out, cmd.as_slice());
    proof {
        let ts = match term {
            Some(t) => Some(t@),
            None => None,
        };
        assert(a3 =~= rootfs_args(rootfs@, overlay) + base_mount_args() + namespace_args(is_root));
        assert(a4 == a3 + volume_args(volumes@));
        assert(a5 =~= a4 + env_args(strs(config.env@), ts, strs(runtime_env@)));
        assert(a6 =~= a5 + if stdin_is_tty {
            seq!["--new-session"@]
        } else {
            Seq::empty()
        });
        assert(a7 =~= a6 + seq!["--chdir"@, config.working_dir@, "--"@]);
    }
    Ok(out)
}

/// In the arguments that start a container, the environment is cleared
/// before any variable is set: `--clearenv` comes first, and right after it
/// the image's variables, then the host's `TERM`, then the runtime variables
/// (which therefore override the image's).
pub proof fn lemma_clearenv_before_setenv(
    rootfs: Seq<char>,
    config: ContainerConfig,
    extra_args: Seq<Seq<char>>,
    volumes: Seq<VolumeMount>,
    runtime_env: Seq<Seq<char>>,
    stdin_is_tty: bool,
    rootfs_readonly: bool,
    overlay: bool,
    is_root: bool,
    term: Option<Seq<char>>,
)
    ensures
        bwrap_args_spec(
            rootfs,
            config,
            extra_args,
            volumes,
            runtime_env,
            stdin_is_tty,
            rootfs_readonly,
            overlay,
            is_root,
            term,
        ) matches Ok(a) ==> {
            let sets = setenv_args(strs(config.env@)) + match term {
                Some(t) => seq!["--setenv"@, "TERM"@, t],
                None => Seq::empty(),
            } + setenv_args(runtime_env);
            exists|k: int|
                0 <= k && k + 1 + sets.len() <= a.len() && #[trigger] a[k] == "--clearenv"@
                    && a.subrange(k + 1, k + 1 + sets.len()) == sets
        },
{
    if let Ok(a) = bwrap_args_spec(
        rootfs,
        config,
        extra_args,
        volumes,
        runtime_env,
        stdin_is_tty,
        rootfs_readonly,
        overlay,
        is_root,
        term,
    ) {
        let pre = rootfs_args(rootfs, overlay) + base_mount_args() + namespace_args(is_root)
            + volume_args(volumes);
        let sets = setenv_args(strs(config.env@)) + match term {
            Some(t) => seq!["--setenv"@, "TERM"@, t],
            None => Seq::<Seq<char>>::empty(),
        } + setenv_args(runtime_env);
        let env = env_args(strs(config.env@), term, runtime_env);
        assert(env =~= seq!["--clearenv"@] + sets);
        let k = pre.len() as int;
        assert(a[k] == "--clearenv"@);
        assert(a.subrange(k + 1, k + 1 + sets.len()) =~= sets);
    }
}


/// Each volume gives three arguments, in order: `--ro-bind` for a read-only
/// mount (else `--bind`), the host path and the guest path.
proof fn lemma_volume_args_triples(vs: Seq<VolumeMount>)
    ensures
        volume_args(vs).len() == 3 * vs.len(),
        forall|i: int|
            #![trigger vs[i]]
            0 <= i < vs.len() ==> {
                &&& volume_args(vs)[3 * i] == if vs[i].read_only {
                    "--ro-bind"@
                } else {
                    "--bind"@
                }
                &&& volume_args(vs)[3 * i + 1] == vs[i].host@
                &&& volume_args(vs)[3 * i + 2] == vs[i].guest@
            },
    decreases vs.len(),
{
    if vs.len() > 0 {
        let init = vs.drop_last();
        lemma_volume_args_triples(init);
        assert forall|i: int| #![trigger vs[i]] 0 <= i < vs.len() implies {
            &&& volume_args(vs)[3 * i] == if vs[i].read_only {
                "--ro-bind"@
            } else {
                "--bind"@
            }
            &&& volume_args(vs)[3 * i + 1] == vs[i].host@
            &&& volume_args(vs)[3 * i + 2] == vs[i].guest@
        } by {
            if i < init.len() {
                assert(init[i] == vs[i]);
            }
        }
    }
}

/// Every volume is bound into the container, whoever runs it and however the
/// rootfs is mounted: the container starts exactly when the rootfs is not a
/// read-only mount without overlay support, and then, right after the rootfs
/// mount, the fixed mounts and the namespace arguments, each volume in turn
/// gives `--bind HOST GUEST` (`--ro-bind` when read-only).
pub proof fn lemma_volumes_bound_in_order(
    rootfs: Seq<char>,
    config: ContainerConfig,
    extra_args: Seq<Seq<char>>,
    volumes: Seq<VolumeMount>,
    runtime_env: Seq<Seq<char>>,
    stdin_is_tty: bool,
    rootfs_readonly: bool,
    overlay: bool,
    is_root: bool,
    term: Option<Seq<char>>,
)
    ensures
        ({
            let r = bwrap_args_spec(
                rootfs,
                config,
                extra_args,
                volumes,
                runtime_env,
                stdin_is_tty,
                rootfs_readonly,
                overlay,
                is_root,
                term,
            );
            &&& r is Ok <==> !(rootfs_readonly && !overlay)
            &&& r matches Ok(a) ==> {
                let k = (if overlay {
                    4int
                } else {
                    3int
                }) + 13 + (if is_root {
                    4int
                } else {
                    6int
                });
                &&& a.len() >= k + 3 * volumes.len()
                &&& forall|i: int|
                    #![trigger volumes[i]]
                    0 <= i < volumes.len() ==> {
                        &&& a[k + 3 * i] == if volumes[i].read_only {
                            "--ro-bind"@
                        } else {
                            "--bind"@
                        }
                        &&& a[k + 3 * i + 1] == volumes[i].host@
                        &&& a[k + 3 * i + 2] == volumes[i].guest@
                    }
            }
        }),
{
    lemma_volume_args_triples(volumes);
    if let Ok(a) = bwrap_args_spec(
        rootfs,
        config,
        extra_args,
        volumes,
        runtime_env,
        stdin_is_tty,
        rootfs_readonly,
        overlay,
        is_root,
        term,
    ) {
        let pre = rootfs_args(rootfs, overlay) + base_mount_args() + namespace_args(is_root);
        let va = volume_args(volumes);
        let k = pre.len() as int;
        assert(k == (if overlay {
            4int
        } else {
            3int
        }) + 13 + (if is_root {
            4int
        } else {
            6int
        }));
        assert(a.subrange(0, k + va.len()) =~= pre + va);
        assert forall|i: int| #![trigger volumes[i]] 0 <= i < volumes.len() implies {
            &&& a[k + 3 * i] == if volumes[i].read_only {
                "--ro-bind"@
            } else {
                "--bind"@
            }
            &&& a[k + 3 * i + 1] == volumes[i].host@
            &&& a[k + 3 * i + 2] == volumes[i].guest@
        } by {
            assert(a.subrange(0, k + va.len())[k + 3 * i] == va[3 * i]);
            assert(a.subrange(0, k + va.len())[k + 3 * i + 1] == va[3 * i + 1]);
            assert(a.subrange(0, k + va.len())[k + 3 * i + 2] == va[3 * i + 2]);
        }
    }
}

/// The command follows Docker's rules: ENTRYPOINT always comes first and
/// whole; extra arguments, when there are any, follow it and replace CMD;
/// without extra arguments the whole CMD follows it, every word in order;
/// and only when ENTRYPOINT and CMD are both empty (and no extra arguments
/// are given) does `/bin/sh` run.
pub proof fn lemma_resolve_cmd_docker_rules(
    entrypoint: Seq<Seq<char>>,
    cmd: Seq<Seq<char>>,
    extra_args: Seq<Seq<char>>,
)
    ensures
        ({
            let r = resolve_cmd_spec(entrypoint, cmd, extra_args);
            &&& extra_args.len() > 0 ==> {
                &&& r.len() == entrypoint.len() + extra_args.len()
                &&& r.take(entrypoint.len() as int) == entrypoint
                &&& r.skip(entrypoint.len() as int) == extra_args
            }
            &&& extra_args.len() == 0 && entrypoint.len() + cmd.len() > 0 ==> {
                &&& r.len() == entrypoint.len() + cmd.len()
                &&& r.take(entrypoint.len() as int) == entrypoint
                &&& forall|i: int|
                    0 <= i < cmd.len() ==> #[trigger] r[entrypoint.len() + i] == cmd[i]
            }
            &&& extra_args.len() == 0 && entrypoint.len() + cmd.len() == 0 ==> r == seq![
                "/bin/sh"@,
            ]
        }),
{
    let r = resolve_cmd_spec(entrypoint, cmd, extra_args);
    if extra_args.len() > 0 {
        assert(r.take(entrypoint.len() as int) =~= entrypoint);
        assert(r.skip(entrypoint.len() as int) =~= extra_args);
    } else if entrypoint.len() + cmd.len() > 0 {
        assert(r.take(entrypoint.len() as int) =~= entrypoint);
    }
}

} // verus!
