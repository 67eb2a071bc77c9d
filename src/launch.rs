use vstd::prelude::*;

use crate::guest::ProotEnv;
use crate::terminal::option_text;

verus! {

/// What a language-server plugin declares for starting its server.
pub struct LaunchSpec {
    /// The command: an absolute path, a path relative to the plugin root, or a bare name.
    pub command: String,
    pub args: Vec<String>,
    /// Environment variables, applied in order.
    pub env: Vec<(String, String)>,
    /// The working directory; a relative one is taken from the plugin root.
    pub cwd: Option<String>,
    /// Run in the sandbox even where direct execution is allowed.
    pub force_proot: bool,
    /// Where the plugin directory is mounted in the sandbox, if not the default.
    pub plugin_mount_path: Option<String>,
    /// Where the workspace is mounted in the sandbox, if not the default.
    pub workspace_mount_path: Option<String>,
}

/// Host and guest locations of the workspace and the plugin, for a launch in the sandbox.
#[derive(Clone, Debug, PartialEq, Eq)]
pub struct PathMapping {
    pub host_workspace: String,
    pub guest_workspace: String,
    pub host_plugin: String,
    pub guest_plugin: String,
}

/// A process to spawn: program, arguments, environment changes in order, and
/// the working directory (none when the program sets it itself).
pub struct LaunchPlan {
    pub program: String,
    pub args: Vec<String>,
    pub env_remove: Vec<String>,
    pub env: Vec<(String, String)>,
    pub cwd: Option<String>,
    pub mapping: Option<PathMapping>,
}

pub open spec fn texts(v: Seq<String>) -> Seq<Seq<char>> {
    v.map_values(|s: String| s@)
}

pub open spec fn pairs(v: Seq<(String, String)>) -> Seq<(Seq<char>, Seq<char>)> {
    v.map_values(|p: (String, String)| (p.0@, p.1@))
}

pub open spec fn mapping_view(m: PathMapping) -> (Seq<char>, Seq<char>, Seq<char>, Seq<char>) {
    (m.host_workspace@, m.guest_workspace@, m.host_plugin@, m.guest_plugin@)
}

pub open spec fn contains_slash(s: Seq<char>) -> bool {
    exists|i: int| 0 <= i < s.len() && s[i] == '/'
}

pub open spec fn is_absolute(s: Seq<char>) -> bool {
    s.len() > 0 && s[0] == '/'
}

/// `rel` below `base`, with one separator between them.
pub open spec fn join_path(base: Seq<char>, rel: Seq<char>) -> Seq<char> {
    if base.len() > 0 && base.last() == '/' {
        base + rel
    } else {
        base + seq!['/'] + rel
    }
}

/// Where the command is looked for in the plugin root before the search path.
pub open spec fn local_command(base: Seq<char>, command: Seq<char>) -> Seq<char> {
    join_path(base, command)
}

/// The program to run: an absolute command as it is; a command with a
/// separator below `base`; a bare name below `base` when a file of that name
/// is there, else the bare name, for the search path to resolve.
pub open spec fn resolve_command(base: Seq<char>, command: Seq<char>, local_exists: bool) -> Seq<
    char,
> {
    if is_absolute(command) {
        command
    } else if contains_slash(command) || local_exists {
        join_path(base, command)
    } else {
        command
    }
}

/// The working directory: an absolute one as it is, a relative one below
/// `base`, and `base` when none is declared.
pub open spec fn resolve_cwd(base: Seq<char>, cwd: Option<Seq<char>>) -> Seq<char> {
    match cwd {
        None => base,
        Some(c) => if is_absolute(c) {
            c
        } else {
            join_path(base, c)
        },
    }
}

/// A declared mount point when it is absolute, else the default.
pub open spec fn mount_point(declared: Option<Seq<char>>, default: Seq<char>) -> Seq<char> {
    match declared {
        Some(p) => if is_absolute(p) {
            p
        } else {
            default
        },
        None => default,
    }
}

/// The value of the last `PATH` variable among `env`, if any.
pub open spec fn declared_path(env: Seq<(Seq<char>, Seq<char>)>) -> Option<Seq<char>>
    decreases env.len(),
{
    if env.len() == 0 {
        None
    } else if env.last().0 == "PATH"@ {
        Some(env.last().1)
    } else {
        declared_path(env.drop_last())
    }
}

/// The search path in the sandbox: the declared one followed by the system
/// directories, or the system directories alone.
pub open spec fn sandbox_search_path(env: Seq<(Seq<char>, Seq<char>)>) -> Seq<char> {
    match declared_path(env) {
        Some(p) => if p.len() > 0 {
            p + ":"@ + "/usr/local/sbin:/usr/local/bin:/usr/sbin:/usr/bin:/sbin:/bin"@
        } else {
            "/usr/local/sbin:/usr/local/bin:/usr/sbin:/usr/bin:/sbin:/bin"@
        },
        None => "/usr/local/sbin:/usr/local/bin:/usr/sbin:/usr/bin:/sbin:/bin"@,
    }
}

/// The environment of a direct launch, in the order it is applied.
pub open spec fn direct_env(
    spec_env: Seq<(Seq<char>, Seq<char>)>,
    root: Seq<char>,
    workspace: Seq<char>,
    session_id: Seq<char>,
    plugin_id: Seq<char>,
) -> Seq<(Seq<char>, Seq<char>)> {
    seq![("YARN_IGNORE_PATH"@, "1"@)] + spec_env + seq![
        ("TRUIDIDE_PLUGIN_ROOT"@, root),
        ("TRUIDIDE_WORKSPACE_PATH"@, workspace),
        ("TRUIDIDE_WORKSPACE_HOST_PATH"@, workspace),
        ("TRUIDIDE_PLUGIN_HOST_ROOT"@, root),
        ("TRUIDIDE_SESSION_ID"@, session_id),
        ("TRUIDIDE_PLUGIN_ID"@, plugin_id),
    ]
}

/// Where the plugin directory is mounted in the sandbox unless the plugin says otherwise.
pub open spec fn default_plugin_mount(plugin_id: Seq<char>) -> Seq<char> {
    "/opt/truidide/plugins/"@ + plugin_id
}

/// The arguments of the sandbox supervisor: the new root, the essential
/// virtual file systems, the plugin and workspace mounts, the guest working
/// directory, then the command and its arguments.
pub open spec fn sandbox_args(
    rootfs: Seq<char>,
    host_plugin: Seq<char>,
    plugin_mount: Seq<char>,
    workspace: Seq<char>,
    workspace_mount: Seq<char>,
    guest_cwd: Seq<char>,
    guest_command: Seq<char>,
    args: Seq<Seq<char>>,
) -> Seq<Seq<char>> {
    seq![
        "--rootfs="@ + rootfs,
        "--kill-on-exit"@,
        "--link2symlink"@,
        "--root-id"@,
        "--bind=/dev"@,
        "--bind=/proc"@,
        "--bind=/sys"@,
        "--bind=/dev/urandom:/dev/random"@,
        "--bind="@ + host_plugin + ":"@ + plugin_mount,
        "--bind="@ + workspace + ":"@ + workspace_mount,
        "--cwd="@ + guest_cwd,
        guest_command,
    ] + args
}

/// The environment of a sandboxed launch, in the order it is applied; the
/// search path comes last so that the plugin cannot drop the system directories.
pub open spec fn sandbox_env(
    tmp_dir: Seq<char>,
    session_id: Seq<char>,
    plugin_id: Seq<char>,
    plugin_mount: Seq<char>,
    workspace_mount: Seq<char>,
    workspace: Seq<char>,
    host_plugin: Seq<char>,
    spec_env: Seq<(Seq<char>, Seq<char>)>,
) -> Seq<(Seq<char>, Seq<char>)> {
    seq![
        ("PROOT_TMP_DIR"@, tmp_dir),
        ("TERM"@, "xterm-256color"@),
        ("COLORTERM"@, "truecolor"@),
        ("TRUIDIDE_SESSION_ID"@, session_id),
        ("TRUIDIDE_PLUGIN_ID"@, plugin_id),
        ("TRUIDIDE_PLUGIN_ROOT"@, plugin_mount),
        ("TRUIDIDE_WORKSPACE_PATH"@, workspace_mount),
        ("TRUIDIDE_WORKSPACE_HOST_PATH"@, workspace),
        ("TRUIDIDE_PLUGIN_HOST_ROOT"@, host_plugin),
    ] + spec_env + seq![("PATH"@, sandbox_search_path(spec_env))]
}

/// `r` is the plan for starting a language server directly on the host:
/// the resolved command with the declared arguments, `NODE_OPTIONS` removed,
/// the environment of `direct_env`, and the resolved working directory.
pub open spec fn direct_plan(
    r: LaunchPlan,
    spec: LaunchSpec,
    plugin_id: Seq<char>,
    plugin_root: Seq<char>,
    workspace: Seq<char>,
    session_id: Seq<char>,
    local_exists: bool,
) -> bool {
    &&& r.program@ == resolve_command(plugin_root, spec.command@, local_exists)
    &&& texts(r.args@) == texts(spec.args@)
    &&& texts(r.env_remove@) == seq!["NODE_OPTIONS"@]
    &&& pairs(r.env@) == direct_env(pairs(spec.env@), plugin_root, workspace, session_id, plugin_id)
    &&& option_text(r.cwd) == Some(resolve_cwd(plugin_root, option_text(spec.cwd)))
    &&& r.mapping is None
}

/// `r` is the plan for starting a language server inside the sandbox `env`
/// through its supervisor, with the plugin and the workspace mounted.
pub open spec fn sandboxed_plan(
    r: LaunchPlan,
    spec: LaunchSpec,
    plugin_id: Seq<char>,
    plugin_root: Seq<char>,
    workspace: Seq<char>,
    session_id: Seq<char>,
    env: ProotEnv,
    local_exists: bool,
) -> bool {
    ({
        let plugin_mount = mount_point(
            option_text(spec.plugin_mount_path),
            default_plugin_mount(plugin_id),
        );
        let workspace_mount = mount_point(
            option_text(spec.workspace_mount_path),
            "/mnt/workspace"@,
        );
        &&& r.program@ == env.proot_bin@
        &&& texts(r.args@) == sandbox_args(
            env.rootfs_dir@,
            plugin_root,
            plugin_mount,
            workspace,
            workspace_mount,
            resolve_cwd(plugin_mount, option_text(spec.cwd)),
            resolve_command(plugin_mount, spec.command@, local_exists),
            texts(spec.args@),
        )
        &&& r.env_remove@.len() == 0
        &&& pairs(r.env@) == sandbox_env(
            env.tmp_dir@,
            session_id,
            plugin_id,
            plugin_mount,
            workspace_mount,
            workspace,
            plugin_root,
            pairs(spec.env@),
        )
        &&& r.cwd is None
        &&& r.mapping matches Some(m) && mapping_view(m) == (
            workspace,
            workspace_mount,
            plugin_root,
            plugin_mount,
        )
    })
}

fn cat(a: &str, b: &str) -> (r: String)
    ensures
        r@ == a@ + b@,
{
    String::from_str(a).concat(b)
}

fn cat3(a: &str, b: &str, c: &str) -> (r: String)
    ensures
        r@ == a@ + b@ + c@,
{
    String::from_str(a).concat(b).concat(c)
}

fn text(a: &str) -> (r: String)
    ensures
        r@ == a@,
{
    String::from_str(a)
}

fn copy_texts(v: &Vec<String>) -> (r: Vec<String>)
    ensures
        texts(r@) == texts(v@),
{
    let mut r: Vec<String> = Vec::new();
    let mut i: usize = 0;
    while i < v.len()
        invariant
            i <= v@.len(),
            r@.len() == i,
            forall|k: int| 0 <= k < i ==> (#[trigger] r@[k])@ == v@[k]@,
        decreases v@.len() - i,
    {
        r.push(v[i].clone());
        i = i + 1;
    }
    assert(texts(r@) =~= texts(v@));
    r
}

/// Appends `src` to `dst`.
fn extend_pairs(dst: &mut Vec<(String, String)>, src: &Vec<(String, String)>)
    ensures
        pairs(final(dst)@) == pairs(old(dst)@) + pairs(src@),
{
    let mut i: usize = 0;
    while i < src.len()
        invariant
            i <= src@.len(),
            pairs(dst@) == pairs(old(dst)@) + pairs(src@).subrange(0, i as int),
        decreases src@.len() - i,
    {
        let ghost before = dst@;
        dst.push((src[i].0.clone(), src[i].1.clone()));
        assert(pairs(dst@) =~= pairs(before).push((src@[i as int].0@, src@[i as int].1@)));
        assert(pairs(src@).subrange(0, i + 1) =~= pairs(src@).subrange(0, i as int).push(
            pairs(src@)[i as int],
        ));
        i = i + 1;
    }
    assert(pairs(src@).subrange(0, i as int) =~= pairs(src@));
}

fn has_slash(s: &str) -> (r: bool)
    ensures
        r == contains_slash(s@),
{
    let n = s.unicode_len();
    let mut i: usize = 0;
    while i < n
        invariant
            i <= n == s@.len(),
            forall|k: int| 0 <= k < i ==> s@[k] != '/',
        decreases n - i,
    {
        if s.get_char(i) == '/' {
            return true;
        }
        i = i + 1;
    }
    false
}

fn absolute(s: &str) -> (r: bool)
    ensures
        r == is_absolute(s@),
{
    s.unicode_len() > 0 && s.get_char(0) == '/'
}

/// Joins `rel` below `base`.
pub fn join(base: &str, rel: &str) -> (r: String)
    ensures
        r@ == join_path(base@, rel@),
{
    let n = base.unicode_len();
    if n > 0 && base.get_char(n - 1) == '/' {
        cat(base, rel)
    } else {
        proof {
            reveal_strlit("/");
        }
        cat3(base, "/", rel)
    }
}

/// The path of the plugin-root file that a bare command name would name.
pub fn local_command_path(plugin_root: &str, spec: &LaunchSpec) -> (r: String)
    ensures
        r@ == local_command(plugin_root@, spec.command@),
{
    join(plugin_root, spec.command.as_str())
}

/// Resolves the command as the three-way rule says.
pub fn resolve_command_path(base: &str, command: &str, local_exists: bool) -> (r: String)
    ensures
        r@ == resolve_command(base@, command@, local_exists),
{
    if absolute(command) {
        text(command)
    } else if has_slash(command) || local_exists {
        join(base, command)
    } else {
        text(command)
    }
}

/// Resolves the working directory against `base`.
pub fn resolve_working_dir(base: &str, cwd: &Option<String>) -> (r: String)
    ensures
        r@ == resolve_cwd(base@, option_text(*cwd)),
{
    match cwd {
        None => text(base),
        Some(c) => if absolute(c.as_str()) {
            c.clone()
        } else {
            join(base, c.as_str())
        },
    }
}

fn mount_or_default(declared: &Option<String>, default: String) -> (r: String)
    ensures
        r@ == mount_point(option_text(*declared), default@),
{
    match declared {
        Some(p) => if absolute(p.as_str()) {
            p.clone()
        } else {
            default
        },
        None => default,
    }
}

fn find_declared_path(env: &Vec<(String, String)>) -> (r: Option<String>)
    ensures
        option_text(r) == declared_path(pairs(env@)),
{
    let mut i = env.len();
    let ghost pv = pairs(env@);
    proof {
        reveal_strlit("PATH");
    }
    let key = text("PATH");
    assert(pv.subrange(0, i as int) =~= pv);
    while i > 0
        invariant
            i <= env@.len(),
            pv == pairs(env@),
            key@ == "PATH"@,
            declared_path(pv) == declared_path(pv.subrange(0, i as int)),
        decreases i,
    {
        let ghost sub = pv.subrange(0, i as int);
        assert(sub.last() == (env@[i - 1].0@, env@[i - 1].1@));
        if env[i - 1].0 == key {
            return Some(env[i - 1].1.clone());
        }
        assert(sub.drop_last() =~= pv.subrange(0, i - 1));
        i = i - 1;
    }
    None
}

/// The plan for starting a language server directly on the host.
pub fn plan_direct_launch(
    spec: &LaunchSpec,
    plugin_id: &str,
    plugin_root: &str,
    workspace: &str,
    session_id: &str,
    local_exists: bool,
) -> (r: LaunchPlan)
    ensures
        direct_plan(r, *spec, plugin_id@, plugin_root@, workspace@, session_id@, local_exists),
{
    let program = resolve_command_path(plugin_root, spec.command.as_str(), local_exists);
    let args = copy_texts(&spec.args);
    let mut env_remove: Vec<String> = Vec::new();
    env_remove.push(text("NODE_OPTIONS"));
    assert(texts(env_remove@) =~= seq!["NODE_OPTIONS"@]);
    let mut env: Vec<(String, String)> = Vec::new();
    env.push((text("YARN_IGNORE_PATH"), text("1")));
    assert(pairs(env@) =~= seq![("YARN_IGNORE_PATH"@, "1"@)]);
    extend_pairs(&mut env, &spec.env);
    let ghost head = pairs(env@);
    env.push((text("TRUIDIDE_PLUGIN_ROOT"), text(plugin_root)));
    env.push((text("TRUIDIDE_WORKSPACE_PATH"), text(workspace)));
    env.push((text("TRUIDIDE_WORKSPACE_HOST_PATH"), text(workspace)));
    env.push((text("TRUIDIDE_PLUGIN_HOST_ROOT"), text(plugin_root)));
    env.push((text("TRUIDIDE_SESSION_ID"), text(session_id)));
    env.push((text("TRUIDIDE_PLUGIN_ID"), text(plugin_id)));
    assert(pairs(env@) =~= head + seq![
        ("TRUIDIDE_PLUGIN_ROOT"@, plugin_root@),
        ("TRUIDIDE_WORKSPACE_PATH"@, workspace@),
        ("TRUIDIDE_WORKSPACE_HOST_PATH"@, workspace@),
        ("TRUIDIDE_PLUGIN_HOST_ROOT"@, plugin_root@),
        ("TRUIDIDE_SESSION_ID"@, session_id@),
        ("TRUIDIDE_PLUGIN_ID"@, plugin_id@),
    ]);
    assert(pairs(env@) =~= direct_env(
        pairs(spec.env@),
        plugin_root@,
        workspace@,
        session_id@,
        plugin_id@,
    ));
    let cwd = resolve_working_dir(plugin_root, &spec.cwd);
    LaunchPlan { program, args, env_remove, env, cwd: Some(cwd), mapping: None }
}

fn search_path(env: &Vec<(String, String)>) -> (r: String)
    ensures
        r@ == sandbox_search_path(pairs(env@)),
{
    match find_declared_path(env) {
        Some(p) => if p.unicode_len() > 0 {
            cat3(p.as_str(), ":", "/usr/local/sbin:/usr/local/bin:/usr/sbin:/usr/bin:/sbin:/bin")
        } else {
            text("/usr/local/sbin:/usr/local/bin:/usr/sbin:/usr/bin:/sbin:/bin")
        },
        None => text("/usr/local/sbin:/usr/local/bin:/usr/sbin:/usr/bin:/sbin:/bin"),
    }
}

/// The plan for starting a language server inside the sandbox `env`, through
/// its supervisor, with the plugin and the workspace mounted in the guest.
/// `local_exists` tells whether the plugin root holds a file named by a bare
/// command.
pub fn plan_sandboxed_launch(
    spec: &LaunchSpec,
    plugin_id: &str,
    plugin_root: &str,
    workspace: &str,
    session_id: &str,
    env: &ProotEnv,
    local_exists: bool,
) -> (r: LaunchPlan)
    ensures
        sandboxed_plan(
            r,
            *spec,
            plugin_id@,
            plugin_root@,
            workspace@,
            session_id@,
            *env,
            local_exists,
        ),
{
    let plugin_mount = mount_or_default(
        &spec.plugin_mount_path,
        cat("/opt/truidide/plugins/", plugin_id),
    );
    let workspace_mount = mount_or_default(&spec.workspace_mount_path, text("/mnt/workspace"));
    let guest_cwd = resolve_working_dir(plugin_mount.as_str(), &spec.cwd);
    let guest_command = resolve_command_path(
        plugin_mount.as_str(),
        spec.command.as_str(),
        local_exists,
    );
    let mut args: Vec<String> = Vec::new();
    args.push(cat("--rootfs=", env.rootfs_dir.as_str()));
    args.push(text("--kill-on-exit"));
    args.push(text("--link2symlink"));
    args.push(text("--root-id"));
    args.push(text("--bind=/dev"));
    args.push(text("--bind=/proc"));
    args.push(text("--bind=/sys"));
    args.push(text("--bind=/dev/urandom:/dev/random"));
    args.push(cat3("--bind=", plugin_root, ":").concat(plugin_mount.as_str()));
    args.push(cat3("--bind=", workspace, ":").concat(workspace_mount.as_str()));
    args.push(cat("--cwd=", guest_cwd.as_str()));
    let ghost guest_command_v = guest_command@;
    args.push(guest_command);
    let ghost head = texts(args@);
    assert(head =~= seq![
        "--rootfs="@ + env.rootfs_dir@,
        "--kill-on-exit"@,
        "--link2symlink"@,
        "--root-id"@,
        "--bind=/dev"@,
        "--bind=/proc"@,
        "--bind=/sys"@,
        "--bind=/dev/urandom:/dev/random"@,
        "--bind="@ + plugin_root@ + ":"@ + plugin_mount@,
        "--bind="@ + workspace@ + ":"@ + workspace_mount@,
        "--cwd="@ + guest_cwd@,
        guest_command_v,
    ]);
    let mut i: usize = 0;
    while i < spec.args.len()
        invariant
            i <= spec.args@.len(),
            texts(args@) == head + texts(spec.args@).subrange(0, i as int),
        decreases spec.args@.len() - i,
    {
        let ghost before = args@;
        args.push(spec.args[i].clone());
        assert(texts(args@) =~= texts(before).push(spec.args@[i as int]@));
        assert(texts(spec.args@).subrange(0, i + 1) =~= texts(spec.args@).subrange(
            0,
            i as int,
        ).push(texts(spec.args@)[i as int]));
        i = i + 1;
    }
    assert(texts(spec.args@).subrange(0, i as int) =~= texts(spec.args@));
    let mut vars: Vec<(String, String)> = Vec::new();
    vars.push((text("PROOT_TMP_DIR"), env.tmp_dir.clone()));
    vars.push((text("TERM"), text("xterm-256color")));
    vars.push((text("COLORTERM"), text("truecolor")));
    vars.push((text("TRUIDIDE_SESSION_ID"), text(session_id)));
    vars.push((text("TRUIDIDE_PLUGIN_ID"), text(plugin_id)));
    vars.push((text("TRUIDIDE_PLUGIN_ROOT"), plugin_mount.clone()));
    vars.push((text("TRUIDIDE_WORKSPACE_PATH"), workspace_mount.clone()));
    vars.push((text("TRUIDIDE_WORKSPACE_HOST_PATH"), text(workspace)));
    vars.push((text("TRUIDIDE_PLUGIN_HOST_ROOT"), text(plugin_root)));
    let ghost fixed = pairs(vars@);
    assert(fixed =~= seq![
        ("PROOT_TMP_DIR"@, env.tmp_dir@),
        ("TERM"@, "xterm-256color"@),
        ("COLORTERM"@, "truecolor"@),
        ("TRUIDIDE_SESSION_ID"@, session_id@),
        ("TRUIDIDE_PLUGIN_ID"@, plugin_id@),
        ("TRUIDIDE_PLUGIN_ROOT"@, plugin_mount@),
        ("TRUIDIDE_WORKSPACE_PATH"@, workspace_mount@),
        ("TRUIDIDE_WORKSPACE_HOST_PATH"@, workspace@),
        ("TRUIDIDE_PLUGIN_HOST_ROOT"@, plugin_root@),
    ]);
    extend_pairs(&mut vars, &spec.env);
    let ghost mid = pairs(vars@);
    vars.push((text("PATH"), search_path(&spec.env)));
    assert(pairs(vars@) =~= mid.push(("PATH"@, sandbox_search_path(pairs(spec.env@)))));
    assert(texts(args@) == sandbox_args(
        env.rootfs_dir@,
        plugin_root@,
        plugin_mount@,
        workspace@,
        workspace_mount@,
        guest_cwd@,
        guest_command_v,
        texts(spec.args@),
    ));
    assert(pairs(vars@) =~= sandbox_env(
        env.tmp_dir@,
        session_id@,
        plugin_id@,
        plugin_mount@,
        workspace_mount@,
        workspace@,
        plugin_root@,
        pairs(spec.env@),
    ));
    let mapping = PathMapping {
        host_workspace: text(workspace),
        guest_workspace: workspace_mount,
        host_plugin: text(plugin_root),
        guest_plugin: plugin_mount,
    };
    let r = LaunchPlan {
        program: env.proot_bin.clone(),
        args,
        env_remove: Vec::new(),
        env: vars,
        cwd: None,
        mapping: Some(mapping),
    };
    assert(r.env_remove@.len() == 0);
    r
}

/// The supervisor arguments of a shell session in the sandbox: the new root,
/// the workspace mounted at `/mnt/workspace` and entered when there is one,
/// the virtual file systems and standard streams, then a login shell.
pub open spec fn shell_sandbox_args(rootfs: Seq<char>, workspace: Option<Seq<char>>) -> Seq<
    Seq<char>,
> {
    let head = seq!["--rootfs="@ + rootfs];
    let mount = match workspace {
        Some(w) => seq!["--bind="@ + w + ":/mnt/workspace"@, "--cwd=/mnt/workspace"@],
        None => Seq::empty(),
    };
    head + mount + seq![
        "--root-id"@,
        "--kill-on-exit"@,
        "--link2symlink"@,
        "--bind=/dev"@,
        "--bind=/proc"@,
        "--bind=/sys"@,
        "--bind=/dev/urandom:/dev/random"@,
        "--bind=/proc/self/fd:/dev/fd"@,
        "--bind=/proc/self/fd/0:/dev/stdin"@,
        "--bind=/proc/self/fd/1:/dev/stdout"@,
        "--bind=/proc/self/fd/2:/dev/stderr"@,
        "/bin/bash"@,
        "--login"@,
    ]
}

fn push_texts(dst: &mut Vec<String>, items: &[&str])
    ensures
        texts(final(dst)@) == texts(old(dst)@) + items@.map_values(|s: &str| s@),
{
    let mut i: usize = 0;
    while i < items.len()
        invariant
            i <= items@.len(),
            texts(dst@) == texts(old(dst)@) + items@.map_values(|s: &str| s@).subrange(0, i as int),
        decreases items@.len() - i,
    {
        let ghost before = dst@;
        dst.push(text(items[i]));
        assert(texts(dst@) =~= texts(before).push(items@[i as int]@));
        assert(items@.map_values(|s: &str| s@).subrange(0, i + 1) =~= items@.map_values(
            |s: &str| s@,
        ).subrange(0, i as int).push(items@[i as int]@));
        i = i + 1;
    }
    assert(items@.map_values(|s: &str| s@).subrange(0, i as int) =~= items@.map_values(
        |s: &str| s@,
    ));
}

/// The plan for a shell session in the sandbox `env`, with the workspace
/// `workspace` (a host directory) mounted and entered when there is one.
pub fn plan_sandboxed_shell(env: &ProotEnv, workspace: &Option<String>) -> (r: LaunchPlan)
    ensures
        r.program@ == env.proot_bin@,
        texts(r.args@) == shell_sandbox_args(env.rootfs_dir@, option_text(*workspace)),
        pairs(r.env@) == seq![
            ("PROOT_TMP_DIR"@, env.tmp_dir@),
            ("TERM"@, "xterm-256color"@),
            ("COLORTERM"@, "truecolor"@),
        ],
        r.env_remove@.len() == 0,
        r.cwd is None,
        r.mapping is None,
{
    let mut args: Vec<String> = Vec::new();
    args.push(cat("--rootfs=", env.rootfs_dir.as_str()));
    let ghost head = texts(args@);
    assert(head =~= seq!["--rootfs="@ + env.rootfs_dir@]);
    match workspace {
        Some(w) => {
            args.push(cat3("--bind=", w.as_str(), ":/mnt/workspace"));
            args.push(text("--cwd=/mnt/workspace"));
        },
        None => {},
    }
    let ghost with_mount = texts(args@);
    assert(with_mount =~= head + match option_text(*workspace) {
        Some(w) => seq!["--bind="@ + w + ":/mnt/workspace"@, "--cwd=/mnt/workspace"@],
        None => Seq::<Seq<char>>::empty(),
    });
    let tail: [&str; 13] = [
        "--root-id",
        "--kill-on-exit",
        "--link2symlink",
        "--bind=/dev",
        "--bind=/proc",
        "--bind=/sys",
        "--bind=/dev/urandom:/dev/random",
        "--bind=/proc/self/fd:/dev/fd",
        "--bind=/proc/self/fd/0:/dev/stdin",
        "--bind=/proc/self/fd/1:/dev/stdout",
        "--bind=/proc/self/fd/2:/dev/stderr",
        "/bin/bash",
        "--login",
    ];
    push_texts(&mut args, &tail);
    assert(tail@.map_values(|s: &str| s@) =~= seq![
        "--root-id"@,
        "--kill-on-exit"@,
        "--link2symlink"@,
        "--bind=/dev"@,
        "--bind=/proc"@,
        "--bind=/sys"@,
        "--bind=/dev/urandom:/dev/random"@,
        "--bind=/proc/self/fd:/dev/fd"@,
        "--bind=/proc/self/fd/0:/dev/stdin"@,
        "--bind=/proc/self/fd/1:/dev/stdout"@,
        "--bind=/proc/self/fd/2:/dev/stderr"@,
        "/bin/bash"@,
        "--login"@,
    ]);
    let mut vars: Vec<(String, String)> = Vec::new();
    vars.push((text("PROOT_TMP_DIR"), env.tmp_dir.clone()));
    vars.push((text("TERM"), text("xterm-256color")));
    vars.push((text("COLORTERM"), text("truecolor")));
    assert(pairs(vars@) =~= seq![
        ("PROOT_TMP_DIR"@, env.tmp_dir@),
        ("TERM"@, "xterm-256color"@),
        ("COLORTERM"@, "truecolor"@),
    ]);
    LaunchPlan {
        program: env.proot_bin.clone(),
        args,
        env_remove: Vec::new(),
        env: vars,
        cwd: None,
        mapping: None,
    }
}

/// Whether a language server runs in the sandbox: where the platform
/// requires it, or where the plugin asks for it.
pub open spec fn runs_sandboxed(spec: LaunchSpec, sandbox_required: bool) -> bool {
    sandbox_required || spec.force_proot
}

/// The plan for starting a language server: in the sandbox when
/// `runs_sandboxed` says so, an error when no sandbox is prepared then, and
/// directly on the host otherwise.
pub fn plan_launch(
    spec: &LaunchSpec,
    plugin_id: &str,
    plugin_root: &str,
    workspace: &str,
    session_id: &str,
    sandbox: &Option<ProotEnv>,
    sandbox_required: bool,
    local_exists: bool,
) -> (r: Result<LaunchPlan, String>)
    ensures
        !runs_sandboxed(*spec, sandbox_required) ==> (r matches Ok(p) && direct_plan(
            p,
            *spec,
            plugin_id@,
            plugin_root@,
            workspace@,
            session_id@,
            local_exists,
        )),
        runs_sandboxed(*spec, sandbox_required) && sandbox is None ==> (r matches Err(e) && e@
            == "the sandbox is not prepared yet"@),
        runs_sandboxed(*spec, sandbox_required) && sandbox is Some ==> (r matches Ok(p)
            && sandboxed_plan(
            p,
            *spec,
            plugin_id@,
            plugin_root@,
            workspace@,
            session_id@,
            sandbox->Some_0,
            local_exists,
        )),
{
    if sandbox_required || spec.force_proot {
        match sandbox {
            Some(env) => Ok(
                plan_sandboxed_launch(spec, plugin_id, plugin_root, workspace, session_id, env, local_exists),
            ),
            None => Err(String::from_str("the sandbox is not prepared yet")),
        }
    } else {
        Ok(plan_direct_launch(spec, plugin_id, plugin_root, workspace, session_id, local_exists))
    }
}

} // verus!
