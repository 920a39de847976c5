//! The pinned toolchain of a workspace.

use cuprate_core::toolchain_pin::{
    check_member_manifests, check_root_manifest, check_toolchain_file, check_workflow,
    check_workflows, is_workflow_name, member_manifest_path, workspace_members, FoundFault,
    PinFault, WorkflowFile, CHANNEL_PIN, MIN_MEMBERS, PINNED, WORKFLOW_PIN,
};

const TOOLCHAIN_FILE: &str = r#"[toolchain]
channel = "1.94.0"
components = ["rustfmt", "clippy"]
"#;

const ROOT_MANIFEST: &str = r#"[workspace]
resolver = "3"
default-members = [
	"binaries/cuprated",
]
members = [
	# Binaries
	"binaries/cuprated",

	# Consensus
	"consensus", # rules
	"consensus/context",
]

[workspace.package]
edition = "2024"
rust-version = "1.94"

[other]
members = [
	"not/a/member",
]
"#;

fn text(s: &str) -> String {
    String::from(s)
}

fn workflow(name: &str, contents: &str) -> WorkflowFile {
    WorkflowFile { name: text(name), contents: text(contents) }
}

#[test]
fn rust_toolchain_toml_is_present_and_pinned() {
    let contents = TOOLCHAIN_FILE;

    assert!(
        contents.contains(&format!("channel = \"{PINNED}\"")),
        "expected rust-toolchain.toml to pin channel = \"{PINNED}\", got:\n{contents}"
    );
    assert!(
        contents.contains("\"rustfmt\""),
        "expected rust-toolchain.toml to include rustfmt in components, got:\n{contents}"
    );
    assert!(
        contents.contains("\"clippy\""),
        "expected rust-toolchain.toml to include clippy in components, got:\n{contents}"
    );
    assert_eq!(check_toolchain_file(contents), Ok(()));
}

#[test]
fn toolchain_file_faults_are_told_apart() {
    assert_eq!(check_toolchain_file(""), Err(PinFault::ChannelNotPinned));
    assert_eq!(
        check_toolchain_file(&TOOLCHAIN_FILE.replace("1.94.0", "stable")),
        Err(PinFault::ChannelNotPinned)
    );
    assert_eq!(
        check_toolchain_file(&TOOLCHAIN_FILE.replace("rustfmt", "rls")),
        Err(PinFault::RustfmtMissing)
    );
    assert_eq!(
        check_toolchain_file(&TOOLCHAIN_FILE.replace("clippy", "rls")),
        Err(PinFault::ClippyMissing)
    );
}

#[test]
fn workspace_package_declares_msrv() {
    let contents = ROOT_MANIFEST;

    assert!(
        contents.contains("[workspace.package]"),
        "expected root Cargo.toml to contain [workspace.package], got:\n{contents}"
    );
    assert!(
        contents.contains("rust-version = \"1.94\""),
        "expected root Cargo.toml to set rust-version = \"1.94\", got:\n{contents}"
    );
    assert_eq!(check_root_manifest(contents), Ok(()));
}

#[test]
fn root_manifest_faults_are_told_apart() {
    assert_eq!(
        check_root_manifest(&ROOT_MANIFEST.replace("[workspace.package]", "")),
        Err(PinFault::WorkspacePackageMissing)
    );
    assert_eq!(
        check_root_manifest(&ROOT_MANIFEST.replace("1.94", "1.85")),
        Err(PinFault::RustVersionMissing)
    );
}

#[test]
fn members_are_read_from_their_own_array() {
    assert_eq!(
        workspace_members(ROOT_MANIFEST),
        vec![text("binaries/cuprated"), text("consensus"), text("consensus/context")]
    );
}

#[test]
fn members_are_read_whatever_the_line_ends() {
    assert_eq!(
        workspace_members(&ROOT_MANIFEST.replace('\n', "\r\n")),
        workspace_members(ROOT_MANIFEST)
    );
    assert_eq!(workspace_members("\u{3000}members = [\u{a0}\n\t\"a\u{e9}b"), vec![text("a\u{e9}b")]);
    assert_eq!(workspace_members("members = [\n\"\"\nnone\n]"), vec![text("")]);
    assert_eq!(workspace_members("members = [\"a\"]\n\"b\"\n]"), Vec::<String>::new());
    assert_eq!(workspace_members("default-members = [\n\"b\"\n]"), Vec::<String>::new());
    assert_eq!(workspace_members(""), Vec::<String>::new());
}

#[test]
fn all_members_inherit_workspace_rust_version() {
    let mut root = text("[workspace]\nmembers = [\n");
    for i in 0..32 {
        root.push_str(&format!("    \"crates/crate-{i}\",\n"));
    }
    root.push_str("]\n");
    let members = workspace_members(&root);

    assert!(
        members.len() >= 30,
        "expected to parse >= 30 workspace members from root Cargo.toml, parsed {}: {members:?}",
        members.len()
    );

    let mut manifests = Vec::new();
    for (i, member) in members.iter().enumerate() {
        let manifest_path = member_manifest_path(member);
        assert_eq!(manifest_path, format!("{member}/Cargo.toml"));
        let contents = format!("[package]\nname = \"crate-{i}\"\nrust-version.workspace = true\n");

        assert!(
            contents.contains("rust-version.workspace = true"),
            "{manifest_path} is missing `rust-version.workspace = true` — every workspace member must inherit the MSRV"
        );
        manifests.push(contents);
    }
    assert_eq!(check_member_manifests(&manifests), Ok(()));
}

#[test]
fn members_that_do_not_inherit_are_found() {
    let mut manifests = vec![text("rust-version.workspace = true"); MIN_MEMBERS];
    assert_eq!(check_member_manifests(&manifests), Ok(()));

    manifests[7] = text("rust-version = \"1.94\"");
    manifests[9] = text("");
    assert_eq!(
        check_member_manifests(&manifests),
        Err(FoundFault { file: Some(7), fault: PinFault::RustVersionNotInherited })
    );

    manifests.truncate(29);
    assert_eq!(
        check_member_manifests(&manifests),
        Err(FoundFault { file: None, fault: PinFault::TooFewMembers { found: 29 } })
    );
}

#[test]
fn all_rust_installing_workflows_are_pinned() {
    let action = "- uses: dtolnay/rust-toolchain@master\n  with:\n    toolchain: 1.94.0\n";
    let files = vec![
        workflow("ci.yml", action),
        workflow("release.yml", action),
        workflow("deny.yml", "run: rustup toolchain install\ntoolchain: 1.94.0"),
        workflow("doc.yml", "- uses: dtolnay/rust-toolchain@nightly"),
        workflow("labels.yml", "- uses: actions/labeler"),
        workflow("README.md", "dtolnay/rust-toolchain with toolchain: stable"),
    ];

    let mut pinned_count = 0;
    for WorkflowFile { name, contents } in &files {
        if !is_workflow_name(name) {
            continue;
        }
        let installs_rust = contents.contains("dtolnay/rust-toolchain")
            || contents.contains("rustup toolchain install");
        if !installs_rust {
            continue;
        }

        assert!(
            !contents.contains("toolchain: stable"),
            "{name} installs Rust on `toolchain: stable` — pin it to {PINNED} or allowlist it as nightly"
        );

        if name == "doc.yml" {
            continue;
        }

        assert!(
            contents.contains(&format!("toolchain: {PINNED}")),
            "{name} installs Rust but is not pinned to `toolchain: {PINNED}` (and is not an allowlisted nightly workflow)"
        );
        pinned_count += 1;
    }

    assert!(
        pinned_count >= 3,
        "expected at least 3 pinned Rust-installing workflows (ci/release/deny), found {pinned_count}"
    );
    assert_eq!(check_workflows(&files), Ok(pinned_count));
}

#[test]
fn workflows_are_judged_one_by_one() {
    let pinned = "dtolnay/rust-toolchain toolchain: 1.94.0";
    let nightly = "dtolnay/rust-toolchain toolchain: nightly";
    let stable = "rustup toolchain install toolchain: stable";

    assert_eq!(check_workflow("ci.yml", pinned), Ok(true));
    assert_eq!(check_workflow("ci.yml", nightly), Err(PinFault::UnpinnedWorkflow));
    assert_eq!(check_workflow("fuzz.yml", nightly), Ok(false));
    assert_eq!(check_workflow("doc.yml", nightly), Ok(false));
    assert_eq!(check_workflow("doc.yml", pinned), Ok(false));
    assert_eq!(check_workflow("fuzz.yml", stable), Err(PinFault::StableWorkflow));
    assert_eq!(check_workflow("ci.yml", stable), Err(PinFault::StableWorkflow));
    assert_eq!(check_workflow("ci.yml", "toolchain: stable"), Ok(false));
    assert_eq!(check_workflow("ci.yaml", stable), Ok(false));
    assert_eq!(check_workflow("yml", stable), Ok(false));
    assert!(is_workflow_name(".yml"));
}

#[test]
fn workflow_faults_are_placed() {
    let pinned = "dtolnay/rust-toolchain toolchain: 1.94.0";
    let mut files = vec![workflow("a.yml", pinned), workflow("b.yml", pinned)];
    assert_eq!(
        check_workflows(&files),
        Err(FoundFault { file: None, fault: PinFault::TooFewPinnedWorkflows { found: 2 } })
    );

    files.push(workflow("c.yml", pinned));
    assert_eq!(check_workflows(&files), Ok(3));

    files.insert(1, workflow("d.yml", "dtolnay/rust-toolchain"));
    files.insert(2, workflow("e.yml", "dtolnay/rust-toolchain toolchain: stable"));
    assert_eq!(
        check_workflows(&files),
        Err(FoundFault { file: Some(1), fault: PinFault::UnpinnedWorkflow })
    );
}

#[test]
fn pins_name_the_pinned_version() {
    assert_eq!(CHANNEL_PIN, format!("channel = \"{PINNED}\""));
    assert_eq!(WORKFLOW_PIN, format!("toolchain: {PINNED}"));
}
