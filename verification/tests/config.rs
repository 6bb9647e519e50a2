use bonk::config::{
    container_config_from_image, image_paths, select_manifest, ContainerConfig, DockerContainerConfig,
    DockerImageConfig, DockerManifest,
};
use bonk::error::BonkError;
use bonk::tools::{override_missing_message, runner_path, tool_candidates, tool_not_found_message};

fn strings(v: &[&str]) -> Vec<String> {
    v.iter().map(|s| s.to_string()).collect()
}

#[test]
fn default_config() {
    let c = ContainerConfig::default();
    assert!(c.entrypoint.is_empty() && c.cmd.is_empty() && c.env.is_empty());
    assert_eq!(c.working_dir, "/");
    assert_eq!(c.user, None);
}

#[test]
fn test_parse_image_reads_layers_and_normalizes_empty_fields() {
    let manifest = select_manifest(vec![DockerManifest {
        config: "config.json".to_string(),
        layers: strings(&["layer1.tar", "nested/layer2.tar"]),
    }])
    .unwrap();
    let config = container_config_from_image(DockerImageConfig {
        config: Some(DockerContainerConfig {
            entrypoint: Some(strings(&["/bin/sh"])),
            cmd: Some(strings(&["-c", "echo hi"])),
            env: Some(strings(&["A=1"])),
            working_dir: Some("".to_string()),
            user: Some("".to_string()),
        }),
    });
    assert_eq!(config.entrypoint, vec!["/bin/sh"]);
    assert_eq!(config.cmd, vec!["-c", "echo hi"]);
    assert_eq!(config.env, vec!["A=1"]);
    assert_eq!(config.working_dir, "/");
    assert_eq!(config.user, None);
    let layers = image_paths("/tmp/img", &manifest.layers);
    assert_eq!(layers, vec!["/tmp/img/layer1.tar", "/tmp/img/nested/layer2.tar"]);
}

#[test]
fn test_parse_image_defaults_when_config_section_is_missing() {
    let manifest = select_manifest(vec![DockerManifest { config: "config.json".to_string(), layers: vec![] }]).unwrap();
    let config = container_config_from_image(DockerImageConfig { config: None });
    assert!(config.entrypoint.is_empty());
    assert!(config.cmd.is_empty());
    assert!(config.env.is_empty());
    assert_eq!(config.working_dir, "/");
    assert_eq!(config.user, None);
    assert!(image_paths("/tmp/img", &manifest.layers).is_empty());
}

#[test]
fn test_parse_image_rejects_manifests_with_multiple_images() {
    let m = || DockerManifest { config: "config.json".to_string(), layers: vec![] };
    let error = select_manifest(vec![m(), m()]).err().unwrap();
    assert_eq!(error, BonkError::ManifestImageCount(2));
    assert_eq!(select_manifest(vec![]).err(), Some(BonkError::ManifestImageCount(0)));
}

#[test]
fn config_keeps_set_fields() {
    let config = container_config_from_image(DockerImageConfig {
        config: Some(DockerContainerConfig {
            entrypoint: None,
            cmd: None,
            env: None,
            working_dir: Some("/srv".to_string()),
            user: Some("nobody".to_string()),
        }),
    });
    assert!(config.entrypoint.is_empty() && config.cmd.is_empty() && config.env.is_empty());
    assert_eq!(config.working_dir, "/srv");
    assert_eq!(config.user.as_deref(), Some("nobody"));
}

#[test]
fn image_paths_keep_absolute_names() {
    assert_eq!(image_paths("/d", &strings(&["/abs/x", "y"])), vec!["/abs/x", "/d/y"]);
}

#[test]
fn tool_search_order() {
    let c = tool_candidates("bwrap", Some("/opt/tools"), Some("/usr/local/bin"), "x86_64");
    assert_eq!(
        c,
        vec![
            "/opt/tools/bwrap",
            "/usr/local/bin/bwrap",
            "/usr/local/bin/tools/x86_64/bwrap",
            "/usr/local/bin/tools/bwrap",
        ]
    );
    assert_eq!(tool_candidates("bwrap", None, None, "x86_64"), Vec::<String>::new());
    assert_eq!(tool_candidates("unsquashfs", None, Some("."), "aarch64")[0], "./unsquashfs");
}

#[test]
fn runner_path_prefers_explicit_then_bonk_runner() {
    assert_eq!(runner_path(Some("/a/runner"), Some("/env/runner")).as_deref(), Some("/a/runner"));
    assert_eq!(runner_path(None, Some("/env/runner")).as_deref(), Some("/env/runner"));
    assert_eq!(runner_path(None, None), None);
}

#[test]
fn manifest_count_error_names_the_count() {
    let msg = BonkError::ManifestImageCount(2).message();
    assert!(msg.contains("expected exactly 1 image"), "{msg}");
    assert!(msg.ends_with("found 2"), "{msg}");
    assert_eq!(BonkError::ManifestImageCount(0).message(), "expected exactly 1 image in the image manifest, found 0");
}

#[test]
fn error_messages_are_fixed_texts() {
    assert_eq!(BonkError::EmptyImageName.message(), "image name must not be empty");
    assert_eq!(BonkError::EmptyOutputName.message(), "output binary name cannot be empty");
    assert_eq!(BonkError::BinaryTooSmall.message(), "binary too small to contain bonk footer");
    assert!(BonkError::NotBonkBinary.message().contains("footer magic does not match"));
    assert!(BonkError::OverlayUnsupported.message().contains("overlay"));
}

#[test]
fn override_missing_message_names_the_flag() {
    let msg = override_missing_message("bwrap", "/nonexistent/bwrap");
    assert_eq!(msg, "--bwrap-path: file not found: /nonexistent/bwrap");
    assert!(msg.contains("--bwrap-path"));
}

#[test]
fn tool_not_found_message_names_the_search() {
    let msg = tool_not_found_message("unsquashfs", "x86_64");
    assert!(msg.starts_with("unsquashfs not found."), "{msg}");
    assert!(msg.contains("BONK_TOOLS_DIR"), "{msg}");
    assert!(msg.contains("tools/x86_64/unsquashfs"), "{msg}");
    assert!(msg.contains("PATH"), "{msg}");
}
