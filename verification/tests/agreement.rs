//! The library's string and path logic agrees with std's own on many inputs.
use bonk::cli::extract_binary_name;
use bonk::flatten::{opaque_whiteout_dir, regular_whiteout_target, safe_join, verify_inside_rootfs, WhiteoutSkip};
use bonk::image::{get_export_image_path, parse_docker_cmd};
use bonk::mounts::is_squashfs_mounted;
use bonk::runtime::{split_env, VolumeMount};
use std::path::{Component, Path, PathBuf};

/// All strings over `alphabet` up to length `max`.
fn all_strings(alphabet: &[char], max: usize) -> Vec<String> {
    let mut out = vec![String::new()];
    let mut frontier = vec![String::new()];
    for _ in 0..max {
        let mut next = Vec::new();
        for s in &frontier {
            for c in alphabet {
                let mut t = s.clone();
                t.push(*c);
                next.push(t);
            }
        }
        out.extend(next.iter().cloned());
        frontier = next;
    }
    out
}

fn std_safe_join(rootfs: &Path, tar_path: &Path) -> Option<PathBuf> {
    let mut result = rootfs.to_path_buf();
    for component in tar_path.components() {
        match component {
            Component::Normal(c) => result.push(c),
            Component::CurDir => {}
            Component::ParentDir | Component::RootDir | Component::Prefix(_) => return None,
        }
    }
    Some(result)
}

fn std_regular(rootfs: &Path, whiteout_path: &Path) -> Result<PathBuf, WhiteoutSkip> {
    let parent = whiteout_path.parent().unwrap_or_else(|| Path::new(""));
    let filename = whiteout_path.file_name().and_then(|s| s.to_str()).unwrap_or("");
    let real_name = filename.strip_prefix(".wh.").unwrap_or(filename);
    if real_name == ".." || real_name == "." || real_name.is_empty() {
        return Err(WhiteoutSkip::InvalidName);
    }
    match std_safe_join(rootfs, parent) {
        Some(base) => Ok(base.join(real_name)),
        None => Err(WhiteoutSkip::UnsafePath),
    }
}

fn std_opaque(rootfs: &Path, whiteout_path: &Path) -> Result<PathBuf, WhiteoutSkip> {
    let parent = whiteout_path.parent().unwrap_or_else(|| Path::new(""));
    std_safe_join(rootfs, parent).ok_or(WhiteoutSkip::UnsafePath)
}

#[test]
fn paths_agree_with_std_path() {
    let paths = all_strings(&['/', '.', 'a', 'w'], 6);
    let roots = ["", "/r", "/r/", "r", ".", "/"];
    for root in roots {
        for p in &paths {
            let ours = safe_join(root, p);
            let theirs = std_safe_join(Path::new(root), Path::new(p));
            assert_eq!(ours.as_deref().map(Path::new), theirs.as_deref(), "safe_join({root:?}, {p:?})");
            assert_eq!(ours.clone(), theirs.map(|t| t.to_str().unwrap().to_string()), "safe_join text ({root:?}, {p:?})");
            let ours = regular_whiteout_target(root, p);
            let theirs = std_regular(Path::new(root), Path::new(p));
            assert_eq!(ours, theirs.map(|t| t.to_str().unwrap().to_string()), "regular({root:?}, {p:?})");
            let ours = opaque_whiteout_dir(root, p);
            let theirs = std_opaque(Path::new(root), Path::new(p));
            assert_eq!(ours, theirs.map(|t| t.to_str().unwrap().to_string()), "opaque({root:?}, {p:?})");
        }
    }
}

#[test]
fn whiteout_names_agree_with_std_path() {
    for name in [".wh.", ".wh..", ".wh...", ".wh.a", "a/.wh.b", "a/./.wh.b/", "./.wh..wh..opq", "/.wh.x", "x/.."] {
        assert_eq!(
            regular_whiteout_target("/r", name),
            std_regular(Path::new("/r"), Path::new(name)).map(|t| t.to_str().unwrap().to_string()),
            "{name:?}"
        );
    }
}

#[test]
fn starts_with_agrees_with_std_path() {
    let paths = all_strings(&['/', '.', 'a'], 5);
    for base in &paths {
        for p in &paths {
            assert_eq!(
                verify_inside_rootfs(base, p),
                Path::new(p).starts_with(Path::new(base)),
                "{p:?} starts with {base:?}"
            );
        }
    }
}

#[test]
fn splits_agree_with_std_str() {
    for s in all_strings(&[':', '/', 'a', 'r', 'o'], 5) {
        let parts: Vec<&str> = s.splitn(3, ':').collect();
        let v = VolumeMount::parse(&s);
        assert_eq!(v.host, parts.first().copied().unwrap_or(""));
        assert_eq!(v.guest, parts.get(1).copied().unwrap_or(""));
        assert_eq!(v.read_only, parts.get(2).copied() == Some("ro"), "{s:?}");

        let name = s.split('/').next_back().unwrap_or(&s);
        assert_eq!(extract_binary_name(&s).unwrap(), name.split(':').next().unwrap_or(name));
    }
    for s in all_strings(&['=', 'a', 'b'], 5) {
        let (k, v) = s.split_once('=').unwrap_or((s.as_str(), ""));
        assert_eq!(split_env(&s), (k.to_string(), v.to_string()));
    }
}

#[test]
fn whitespace_agrees_with_std_str() {
    for s in all_strings(&[' ', '\t', '\u{a0}', 'x', '\u{2003}'], 5) {
        let mut parts = s.split_whitespace();
        let program = parts.next().unwrap_or("docker");
        let prefix: Vec<&str> = parts.collect();
        let (p, a) = parse_docker_cmd(&s);
        assert_eq!(p, program);
        assert_eq!(a, prefix);
    }
    // every char that std deems whitespace separates words here too
    for c in (0u32..0x3100).filter_map(char::from_u32) {
        let s = format!("a{c}b");
        let (p, a) = parse_docker_cmd(&s);
        let words: Vec<&str> = s.split_whitespace().collect();
        let mut ours = vec![p];
        ours.extend(a);
        if words.is_empty() {
            assert_eq!(ours, vec!["docker"]);
        } else {
            assert_eq!(ours, words, "{:?}", c);
        }
    }
}

#[test]
fn export_path_agrees_with_path_join() {
    for image in all_strings(&['/', ':', 'a', '.'], 4) {
        for workdir in ["", "/tmp/work", "/tmp/work/", "rel"] {
            let ours = get_export_image_path(&image, workdir);
            if image.is_empty() {
                assert!(ours.is_err());
            } else {
                let theirs = Path::new(workdir).join(image.replace(['/', ':'], "_"));
                assert_eq!(ours.unwrap(), theirs.to_str().unwrap());
            }
        }
    }
}

#[test]
fn mount_table_agrees_with_std_lines() {
    let pieces = ["d /m squashfs o", "d /m squashfs", "d /m ext4", "/m squashfs", "", "\r", " /m squashfs"];
    let seps = ["\n", "\r\n", "\r"];
    for a in pieces {
        for s1 in seps {
            for b in pieces {
                for end in ["", "\n", "\r", "\r\n"] {
                    let data = format!("{a}{s1}{b}{end}");
                    let theirs = data.lines().any(|line| {
                        let mut parts = line.splitn(4, ' ');
                        let _dev = parts.next();
                        let mountpoint = parts.next().unwrap_or("");
                        let fstype = parts.next().unwrap_or("");
                        mountpoint == "/m" && fstype == "squashfs"
                    });
                    assert_eq!(is_squashfs_mounted(&data, "/m"), theirs, "{data:?}");
                }
            }
        }
    }
}
