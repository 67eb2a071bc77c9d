use session_runtime::guest::{convert_entries_to_guest, host_path_to_guest, FileEntryKind, FileTreeEntry, ProotEnv};
use session_runtime::launch::{
    join, local_command_path, plan_direct_launch, plan_launch, plan_sandboxed_launch,
    plan_sandboxed_shell, resolve_command_path,
    resolve_working_dir, LaunchSpec, PathMapping,
};

fn env() -> ProotEnv {
    ProotEnv {
        base_dir: "/data/proot".to_string(),
        proot_bin: "/data/proot/proot/bin/proot".to_string(),
        rootfs_root: "/data/proot/rootfs".to_string(),
        rootfs_dir: "/data/proot/rootfs/archlinux-aarch64".to_string(),
        tmp_dir: "/data/proot/proot_tmp".to_string(),
    }
}

fn spec(command: &str) -> LaunchSpec {
    LaunchSpec {
        command: command.to_string(),
        args: vec!["--stdio".to_string()],
        env: vec![("A".to_string(), "1".to_string())],
        cwd: None,
        force_proot: false,
        plugin_mount_path: None,
        workspace_mount_path: None,
    }
}

fn strings(v: &[&str]) -> Vec<String> {
    v.iter().map(|s| s.to_string()).collect()
}

fn pairs(v: &[(&str, &str)]) -> Vec<(String, String)> {
    v.iter().map(|(a, b)| (a.to_string(), b.to_string())).collect()
}

#[test]
fn host_path_under_root_translates_to_guest() {
    let e = env();
    let host = format!("{}/{}", e.rootfs_dir, "root/projects/app");
    assert_eq!(host_path_to_guest(&e, &host), Some("/root/projects/app".to_string()));
    assert_eq!(host_path_to_guest(&e, &e.rootfs_dir), Some("/".to_string()));
    assert_eq!(host_path_to_guest(&e, &format!("{}/", e.rootfs_dir)), Some("/".to_string()));
}

#[test]
fn paths_outside_root_have_no_guest_form() {
    let e = env();
    assert_eq!(host_path_to_guest(&e, "/data/proot/rootfs/archlinux-aarch64x/a"), None);
    assert_eq!(host_path_to_guest(&e, "/elsewhere"), None);
}

#[test]
fn backslashes_are_kept_and_separator_runs_collapse() {
    let mut e = env();
    e.rootfs_dir = "/r/".to_string();
    assert_eq!(host_path_to_guest(&e, "/r/a\\b"), Some("/a\\b".to_string()));
    assert_eq!(host_path_to_guest(&e, "/r//x"), Some("/x".to_string()));
    assert_eq!(host_path_to_guest(&e, "/r//"), Some("/".to_string()));
}

#[test]
fn tree_listing_is_translated_recursively() {
    let e = env();
    let root = &e.rootfs_dir;
    let mut entries = vec![
        FileTreeEntry {
            name: "src".to_string(),
            path: format!("{}/p/src", root),
            kind: FileEntryKind::Folder,
            children: Some(vec![FileTreeEntry {
                name: "main.rs".to_string(),
                path: format!("{}/p/src/main.rs", root),
                kind: FileEntryKind::File,
                children: None,
            }]),
        },
        FileTreeEntry {
            name: "x".to_string(),
            path: "/outside/x".to_string(),
            kind: FileEntryKind::File,
            children: None,
        },
    ];
    convert_entries_to_guest(&e, &mut entries);
    assert_eq!(entries[0].path, "/p/src");
    assert_eq!(entries[0].children.as_ref().unwrap()[0].path, "/p/src/main.rs");
    assert_eq!(entries[0].children.as_ref().unwrap()[0].name, "main.rs");
    assert_eq!(entries[1].path, "/outside/x");
}

#[test]
fn command_resolution_follows_the_three_way_rule() {
    assert_eq!(resolve_command_path("/plug", "/usr/bin/node", true), "/usr/bin/node");
    assert_eq!(resolve_command_path("/plug", "bin/server", false), "/plug/bin/server");
    assert_eq!(resolve_command_path("/plug", "server", true), "/plug/server");
    assert_eq!(resolve_command_path("/plug", "node", false), "node");
    assert_eq!(local_command_path("/plug/", &spec("srv")), "/plug/srv");
    assert_eq!(join("", "a"), "/a");
}

#[test]
fn working_directory_defaults_to_the_root() {
    assert_eq!(resolve_working_dir("/plug", &None), "/plug");
    assert_eq!(resolve_working_dir("/plug", &Some("/abs".to_string())), "/abs");
    assert_eq!(resolve_working_dir("/plug", &Some("sub".to_string())), "/plug/sub");
}

#[test]
fn direct_plan_sets_environment_in_order() {
    let plan = plan_direct_launch(&spec("server"), "ts", "/plug", "/ws", "sid", false);
    assert_eq!(plan.program, "server");
    assert_eq!(plan.args, strings(&["--stdio"]));
    assert_eq!(plan.env_remove, strings(&["NODE_OPTIONS"]));
    assert_eq!(
        plan.env,
        pairs(&[
            ("YARN_IGNORE_PATH", "1"),
            ("A", "1"),
            ("TRUIDIDE_PLUGIN_ROOT", "/plug"),
            ("TRUIDIDE_WORKSPACE_PATH", "/ws"),
            ("TRUIDIDE_WORKSPACE_HOST_PATH", "/ws"),
            ("TRUIDIDE_PLUGIN_HOST_ROOT", "/plug"),
            ("TRUIDIDE_SESSION_ID", "sid"),
            ("TRUIDIDE_PLUGIN_ID", "ts"),
        ])
    );
    assert_eq!(plan.cwd, Some("/plug".to_string()));
    assert!(plan.mapping.is_none());
}

#[test]
fn sandboxed_plan_mounts_and_maps_paths() {
    let mut s = spec("server");
    s.env.push(("PATH".to_string(), "/opt/node/bin".to_string()));
    s.workspace_mount_path = Some("relative".to_string());
    let plan = plan_sandboxed_launch(&s, "ts", "/plug", "/ws", "sid", &env(), true);
    assert_eq!(plan.program, "/data/proot/proot/bin/proot");
    assert_eq!(
        plan.args,
        strings(&[
            "--rootfs=/data/proot/rootfs/archlinux-aarch64",
            "--kill-on-exit",
            "--link2symlink",
            "--root-id",
            "--bind=/dev",
            "--bind=/proc",
            "--bind=/sys",
            "--bind=/dev/urandom:/dev/random",
            "--bind=/plug:/opt/truidide/plugins/ts",
            "--bind=/ws:/mnt/workspace",
            "--cwd=/opt/truidide/plugins/ts",
            "/opt/truidide/plugins/ts/server",
            "--stdio",
        ])
    );
    let last = plan.env.last().unwrap().clone();
    assert_eq!(
        last,
        (
            "PATH".to_string(),
            "/opt/node/bin:/usr/local/sbin:/usr/local/bin:/usr/sbin:/usr/bin:/sbin:/bin".to_string()
        )
    );
    assert_eq!(plan.env[0], ("PROOT_TMP_DIR".to_string(), "/data/proot/proot_tmp".to_string()));
    assert_eq!(plan.cwd, None);
    assert_eq!(
        plan.mapping,
        Some(PathMapping {
            host_workspace: "/ws".to_string(),
            guest_workspace: "/mnt/workspace".to_string(),
            host_plugin: "/plug".to_string(),
            guest_plugin: "/opt/truidide/plugins/ts".to_string(),
        })
    );
}

#[test]
fn sandboxed_plan_without_declared_path_uses_system_directories() {
    let mut s = spec("node");
    s.plugin_mount_path = Some("/plugins/x".to_string());
    s.cwd = Some("lib".to_string());
    let plan = plan_sandboxed_launch(&s, "ts", "/plug", "/ws", "sid", &env(), false);
    assert_eq!(plan.args[8], "--bind=/plug:/plugins/x");
    assert_eq!(plan.args[10], "--cwd=/plugins/x/lib");
    assert_eq!(plan.args[11], "node");
    assert_eq!(
        plan.env.last().unwrap().1,
        "/usr/local/sbin:/usr/local/bin:/usr/sbin:/usr/bin:/sbin:/bin"
    );
}

#[test]
fn sandboxed_shell_mounts_the_workspace_and_logs_in() {
    let plan = plan_sandboxed_shell(&env(), &Some("/home/u/proj".to_string()));
    assert_eq!(plan.program, "/data/proot/proot/bin/proot");
    assert_eq!(plan.args[0], "--rootfs=/data/proot/rootfs/archlinux-aarch64");
    assert_eq!(plan.args[1], "--bind=/home/u/proj:/mnt/workspace");
    assert_eq!(plan.args[2], "--cwd=/mnt/workspace");
    assert_eq!(plan.args.len(), 16);
    assert_eq!(plan.args[14], "/bin/bash");
    assert_eq!(plan.args[15], "--login");
    assert_eq!(
        plan.env,
        pairs(&[
            ("PROOT_TMP_DIR", "/data/proot/proot_tmp"),
            ("TERM", "xterm-256color"),
            ("COLORTERM", "truecolor"),
        ])
    );
    let bare = plan_sandboxed_shell(&env(), &None);
    assert_eq!(bare.args.len(), 14);
    assert_eq!(bare.args[1], "--root-id");
}

#[test]
fn launch_mode_follows_platform_and_plugin() {
    let s = spec("server");
    let direct = plan_launch(&s, "ts", "/plug", "/ws", "sid", &None, false, false).ok().unwrap();
    assert_eq!(direct.program, "server");
    assert!(direct.mapping.is_none());
    assert_eq!(
        plan_launch(&s, "ts", "/plug", "/ws", "sid", &None, true, false).err(),
        Some("the sandbox is not prepared yet".to_string())
    );
    let mut forced = spec("server");
    forced.force_proot = true;
    assert_eq!(
        plan_launch(&forced, "ts", "/plug", "/ws", "sid", &None, false, false).err(),
        Some("the sandbox is not prepared yet".to_string())
    );
    let boxed = plan_launch(&forced, "ts", "/plug", "/ws", "sid", &Some(env()), false, false).ok().unwrap();
    assert_eq!(boxed.program, "/data/proot/proot/bin/proot");
    assert!(boxed.mapping.is_some());
}
