//! The container configuration: what the image says to run, and how it is
//! read out of an exported image.
use crate::error::BonkError;
use crate::path::{join_str, push_path};
use crate::text::strs;
use vstd::prelude::*;

verus! {

/// What to run in the container: taken from the image's config.
#[derive(Debug)]
pub struct ContainerConfig {
    pub entrypoint: Vec<String>,
    pub cmd: Vec<String>,
    pub env: Vec<String>,
    pub working_dir: String,
    pub user: Option<String>,
}

/// The root directory, `/`.
pub open spec fn root_dir() -> Seq<char> {
    seq!['/']
}

/// The `/` string.
fn root_dir_string() -> (r: String)
    ensures
        r@ == root_dir(),
{
    let mut s = String::new();
    s.push('/');
    proof {
        assert(s@ =~= root_dir());
    }
    s
}

impl ContainerConfig {
    /// The default configuration: nothing to run, no environment, working
    /// directory `/`, no user.
    pub open spec fn is_default(&self) -> bool {
        &&& self.entrypoint@.len() == 0
        &&& self.cmd@.len() == 0
        &&& self.env@.len() == 0
        &&& self.working_dir@ == root_dir()
        &&& self.user is None
    }
}

impl Default for ContainerConfig {
    fn default() -> (r: Self)
        ensures
            r.is_default(),
    {
        ContainerConfig {
            entrypoint: Vec::new(),
            cmd: Vec::new(),
            env: Vec::new(),
            working_dir: root_dir_string(),
            user: None,
        }
    }
}

/// One image entry in the image list of an exported image.
pub struct DockerManifest {
    /// `Config`: the image config file, relative to the export directory.
    pub config: String,
    /// `Layers`: the layer files, relative to the export directory.
    pub layers: Vec<String>,
}

/// An image config file.
pub struct DockerImageConfig {
    /// `config`.
    pub config: Option<DockerContainerConfig>,
}

/// The `config` section of an image config file.
pub struct DockerContainerConfig {
    /// `Entrypoint`.
    pub entrypoint: Option<Vec<String>>,
    /// `Cmd`.
    pub cmd: Option<Vec<String>>,
    /// `Env`.
    pub env: Option<Vec<String>>,
    /// `WorkingDir`.
    pub working_dir: Option<String>,
    /// `User`.
    pub user: Option<String>,
}

/// The one image of a manifest; a manifest with any other number of images
/// is refused, with that number.
pub fn select_manifest(manifests: Vec<DockerManifest>) -> (r: Result<DockerManifest, BonkError>)
    ensures
        manifests@.len() == 1 ==> (r matches Ok(m) && m == manifests@[0]),
        manifests@.len() != 1 ==> r == Err::<DockerManifest, BonkError>(
            BonkError::ManifestImageCount(manifests@.len() as usize),
        ),
{
    let n = manifests.len();
    if n != 1 {
        return Err(BonkError::ManifestImageCount(n));
    }
    let mut manifests = manifests;
    let m = manifests.remove(0);
    Ok(m)
}

/// The strings of an optional list, or none.
pub open spec fn list_or_empty(v: Option<Vec<String>>) -> Seq<Seq<char>> {
    match v {
        Some(v) => strs(v@),
        None => Seq::empty(),
    }
}

/// A nonempty optional string, or nothing.
pub open spec fn nonempty_opt(s: Option<String>) -> Option<Seq<char>> {
    match s {
        Some(s) => if s@.len() > 0 {
            Some(s@)
        } else {
            None
        },
        None => None,
    }
}

/// The optional string's characters, or nothing.
pub open spec fn opt_view(s: Option<String>) -> Option<Seq<char>> {
    match s {
        Some(s) => Some(s@),
        None => None,
    }
}

/// The container configuration of an image: missing lists are empty, an
/// empty or missing working directory is `/`, an empty user is no user; an
/// image without a `config` section gets the default configuration.
pub fn container_config_from_image(image: DockerImageConfig) -> (r: ContainerConfig)
    ensures
        match image.config {
            None => r.is_default(),
            Some(c) => {
                &&& strs(r.entrypoint@) == list_or_empty(c.entrypoint)
                &&& strs(r.cmd@) == list_or_empty(c.cmd)
                &&& strs(r.env@) == list_or_empty(c.env)
                &&& r.working_dir@ == match nonempty_opt(c.working_dir) {
                    Some(w) => w,
                    None => root_dir(),
                }
                &&& opt_view(r.user) == nonempty_opt(c.user)
            },
        },
{
    match image.config {
        None => ContainerConfig::default(),
        Some(c) => {
            let entrypoint = match c.entrypoint {
                Some(v) => v,
                None => Vec::new(),
            };
            let cmd = match c.cmd {
                Some(v) => v,
                None => Vec::new(),
            };
            let env = match c.env {
                Some(v) => v,
                None => ContainerConfig::default().env,
            };
            let working_dir = match c.working_dir {
                Some(w) => if w.as_str().is_empty() {
                    root_dir_string()
                } else {
                    w
                },
                None => root_dir_string(),
            };
            let user = match c.user {
                Some(u) => if u.as_str().is_empty() {
                    None
                } else {
                    Some(u)
                },
                None => None,
            };
            proof {
                assert(strs(entrypoint@) =~= list_or_empty(c.entrypoint));
                assert(strs(cmd@) =~= list_or_empty(c.cmd));
                assert(strs(env@) =~= list_or_empty(c.env));
            }
            ContainerConfig { entrypoint, cmd, env, working_dir, user }
        },
    }
}

/// The paths of files named in a manifest, joined onto the export directory.
pub fn image_paths(image_dir: &str, names: &Vec<String>) -> (r: Vec<String>)
    requires
        forall|i: int| 0 <= i < names@.len() ==> image_dir@.len() + (#[trigger] names@[i])@.len() + 1 <= usize::MAX,
    ensures
        r@.len() == names@.len(),
        forall|i: int| 0 <= i < r@.len() ==> (#[trigger] r@[i])@ == push_path(image_dir@, names@[i]@),
{
    let mut out: Vec<String> = Vec::new();
    let mut i: usize = 0;
    while i < names.len()
        invariant
            i <= names@.len(),
            out@.len() == i,
            forall|k: int| 0 <= k < names@.len() ==> image_dir@.len() + (#[trigger] names@[k])@.len() + 1 <= usize::MAX,
            forall|k: int| 0 <= k < i ==> (#[trigger] out@[k])@ == push_path(image_dir@, names@[k]@),
        decreases names@.len() - i,
    {
        let p = join_str(image_dir, names[i].as_str());
        out.push(p);
        i = i + 1;
    }
    out
}

} // verus!
