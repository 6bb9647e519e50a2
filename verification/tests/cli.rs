use bonk::cli::{extract_binary_name, Cli};
use bonk::error::BonkError;
use bonk::image::{docker_save_command, get_export_image_path, parse_docker_cmd};
use std::path::Path;

#[test]
fn test_extract_binary_name() {
    let cases = [
        ("alpine:latest", "alpine"),
        ("ubuntu:22.04", "ubuntu"),
        ("myrepo/myimage:1.0", "myimage"),
        ("myimage", "myimage"),
    ];
    for (input, expected) in cases {
        assert_eq!(extract_binary_name(input).unwrap(), expected, "input: {input}");
    }
}

#[test]
fn extract_binary_name_with_registry_port() {
    assert_eq!(extract_binary_name("localhost:5000/team/app:2").unwrap(), "app");
    assert_eq!(extract_binary_name("repo/").unwrap(), "");
}

fn cli(image: &str, output: Option<&str>) -> Cli {
    Cli {
        image: image.to_string(),
        output: output.map(|s| s.to_string()),
        bwrap_path: None,
        unsquashfs_path: None,
        quiet: false,
    }
}

#[test]
fn output_name_defaults_to_image_name() {
    assert_eq!(cli("python:3.12-slim", None).output_name().unwrap(), "python");
    assert_eq!(cli("python:3.12-slim", Some("python3")).output_name().unwrap(), "python3");
}

#[test]
fn output_name_cannot_be_empty() {
    assert_eq!(cli("repo/", None).output_name(), Err(BonkError::EmptyOutputName));
    assert_eq!(cli("alpine", Some("")).output_name(), Err(BonkError::EmptyOutputName));
}

#[test]
fn test_parse_docker_cmd_default() {
    let (program, prefix_args) = parse_docker_cmd("docker");
    assert_eq!(program, "docker");
    assert!(prefix_args.is_empty());
}

#[test]
fn test_parse_docker_cmd_empty() {
    let (program, prefix_args) = parse_docker_cmd("");
    assert_eq!(program, "docker");
    assert!(prefix_args.is_empty());
}

#[test]
fn test_parse_docker_cmd_with_prefix() {
    let (program, prefix_args) = parse_docker_cmd("sudo docker");
    assert_eq!(program, "sudo");
    assert_eq!(prefix_args, vec!["docker"]);
}

#[test]
fn test_parse_docker_cmd_with_multiple_prefix_args() {
    let (program, prefix_args) = parse_docker_cmd("sudo -E docker");
    assert_eq!(program, "sudo");
    assert_eq!(prefix_args, vec!["-E", "docker"]);
}

#[test]
fn parse_docker_cmd_skips_runs_of_whitespace() {
    let (program, prefix_args) = parse_docker_cmd("  podman\t --remote\n");
    assert_eq!(program, "podman");
    assert_eq!(prefix_args, vec!["--remote"]);
    let (program, prefix_args) = parse_docker_cmd(" \u{3000} ");
    assert_eq!(program, "docker");
    assert!(prefix_args.is_empty());
}

#[test]
fn docker_save_command_appends_save_args() {
    let (program, args) = docker_save_command("sudo -E docker", "/w/image.tar", "alpine:latest");
    assert_eq!(program, "sudo");
    assert_eq!(args, vec!["-E", "docker", "save", "-o", "/w/image.tar", "alpine:latest"]);
}

#[test]
fn test_get_export_image_path() {
    let path = get_export_image_path("alpine:latest", "/tmp/work").unwrap();
    assert_eq!(Path::new(&path), Path::new("/tmp/work/alpine_latest"));
}

#[test]
fn test_get_export_image_path_with_registry() {
    let path = get_export_image_path("myrepo/myimage:1.0", "/tmp/work").unwrap();
    assert_eq!(Path::new(&path), Path::new("/tmp/work/myrepo_myimage_1.0"));
}

#[test]
fn test_get_export_image_path_empty_image() {
    let result = get_export_image_path("", "/tmp/work");
    assert!(result.is_err(), "expected error for empty image name");
    assert_eq!(result, Err(BonkError::EmptyImageName));
}

#[test]
fn export_path_joins_like_path_join() {
    assert_eq!(get_export_image_path("a/b", "/tmp/work/").unwrap(), "/tmp/work/a_b");
    assert_eq!(get_export_image_path("a", "").unwrap(), "a");
    assert_eq!(
        get_export_image_path("x:y", "rel/dir").unwrap(),
        Path::new("rel/dir").join("x_y").to_str().unwrap()
    );
}
