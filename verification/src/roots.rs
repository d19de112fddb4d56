//! The two-root layout: which `.orbit` directories a runtime opens, how a
//! workspace is recognised, and how its task registry binding is settled.
use vstd::prelude::*;

use crate::error::OrbitError;
use crate::session_log::{join_path, path_join};
use crate::text::{
    copy_string, opt_view, push_str, split_on, split_pieces, str_eq, strings_view, trim, trimmed,
};

verus! {

/// The shared root holds the workspace's state; the local root is the
/// current checkout's own `.orbit`.
#[derive(Debug, Clone, PartialEq, Eq)]
pub struct ResolvedOrbitRoots {
    pub shared_root: String,
    pub local_root: String,
}

impl ResolvedOrbitRoots {
    /// Both roots at one directory.
    pub fn pinned(root: &str) -> (r: ResolvedOrbitRoots)
        ensures
            r.shared_root@ == root@,
            r.local_root@ == root@,
    {
        ResolvedOrbitRoots { shared_root: copy_string(root), local_root: copy_string(root) }
    }

    pub fn new(shared_root: String, local_root: String) -> (r: ResolvedOrbitRoots)
        ensures
            r.shared_root == shared_root,
            r.local_root == local_root,
    {
        ResolvedOrbitRoots { shared_root, local_root }
    }
}

/// The three roots a runtime opens.
#[derive(Debug, Clone, PartialEq, Eq)]
pub struct OrbitRuntimeRoots {
    pub global_root: String,
    pub shared_root: String,
    pub local_root: String,
}

impl OrbitRuntimeRoots {
    pub fn new(global_root: String, resolved: ResolvedOrbitRoots) -> (r: OrbitRuntimeRoots)
        ensures
            r.global_root == global_root,
            r.shared_root == resolved.shared_root,
            r.local_root == resolved.local_root,
    {
        OrbitRuntimeRoots {
            global_root,
            shared_root: resolved.shared_root,
            local_root: resolved.local_root,
        }
    }

    /// The runtime roots for a resolved workspace: with an explicit root the
    /// global root is pinned to the shared root, so registry lookups stay
    /// inside it; otherwise it is the user's global root `home_global`.
    pub fn from_resolved(resolved: ResolvedOrbitRoots, pin_global_to_shared: bool, home_global: &str) -> (r:
        OrbitRuntimeRoots)
        ensures
            r.shared_root == resolved.shared_root,
            r.local_root == resolved.local_root,
            r.global_root@ == if pin_global_to_shared {
                resolved.shared_root@
            } else {
                home_global@
            },
    {
        let global = if pin_global_to_shared {
            copy_string(resolved.shared_root.as_str())
        } else {
            copy_string(home_global)
        };
        OrbitRuntimeRoots::new(global, resolved)
    }
}

/// How a workspace ships its work.
#[derive(Debug, Clone, Copy, PartialEq, Eq, Structural)]
pub enum ShipMode {
    /// Through a pull request (the default).
    Pr,
    /// Straight into the local base branch.
    Local,
}

/// Workspace metadata supplied by a higher-level catalog.
#[derive(Debug, Clone, PartialEq, Eq)]
pub struct WorkspaceRuntimeBinding {
    pub workspace_id: String,
    pub repo_root: String,
    pub ship_mode: ShipMode,
}

/// An explicit root is given by the flag or by a non-blank `ORBIT_ROOT`.
pub fn has_explicit_root_override(flag_given: bool, orbit_root_env: Option<&str>) -> (b: bool)
    ensures
        b == (flag_given || (orbit_root_env matches Some(v) && trim(v@).len() > 0)),
{
    if flag_given {
        return true;
    }
    match orbit_root_env {
        Some(v) => !trimmed(v).as_str().is_empty(),
        None => false,
    }
}

/// The effective `config.toml`: the workspace's own when it exists and the
/// workspace is not the global root, else the global one.
pub fn config_path(shared_root: &str, global_root: &str, workspace_config_exists: bool) -> (p: String)
    ensures
        p@ == if workspace_config_exists && shared_root@ != global_root@ {
            path_join(shared_root@, "config.toml"@)
        } else {
            path_join(global_root@, "config.toml"@)
        },
{
    if workspace_config_exists && !str_eq(shared_root, global_root) {
        join_path(shared_root, "config.toml")
    } else {
        join_path(global_root, "config.toml")
    }
}

/// What the file system shows of a candidate `.orbit` directory.
#[derive(Debug, Clone, Copy, PartialEq, Eq, Structural)]
pub struct RootLayout {
    pub is_dir: bool,
    pub has_config_file: bool,
    pub has_resources_dir: bool,
    pub has_tasks_dir: bool,
    pub has_state_dir: bool,
}

/// An initialized workspace root is a directory with a `config.toml`, or
/// with all of `resources/`, `tasks/` and `state/`.
pub open spec fn initialized_spec(l: RootLayout) -> bool {
    l.is_dir && (l.has_config_file || (l.has_resources_dir && l.has_tasks_dir && l.has_state_dir))
}

pub fn is_initialized_orbit_root(l: RootLayout) -> (b: bool)
    ensures
        b == initialized_spec(l),
{
    if !l.is_dir {
        return false;
    }
    if l.has_config_file {
        return true;
    }
    l.has_resources_dir && l.has_tasks_dir && l.has_state_dir
}

/// Whether an explicit root must already be a workspace.
#[derive(Debug, Clone, Copy, PartialEq, Eq, Structural)]
pub enum ExplicitRootMode {
    AllowUninitialized,
    RequireInitialized,
}

/// The workspace an explicit `root` names: itself when uninitialized roots
/// are allowed; otherwise its `.orbit` child when that is initialized, else
/// itself when initialized, else an error.
pub open spec fn explicit_root_spec(
    root: Seq<char>,
    mode: ExplicitRootMode,
    child: RootLayout,
    itself: RootLayout,
) -> Result<Seq<char>, Seq<char>> {
    if mode == ExplicitRootMode::AllowUninitialized {
        Ok(root)
    } else if initialized_spec(child) {
        Ok(path_join(root, ".orbit"@))
    } else if initialized_spec(itself) {
        Ok(root)
    } else {
        Err(
            root
                + " is not an Orbit workspace; run `orbit workspace init` first or pass `--root <path/to/.orbit>`"@,
        )
    }
}

/// Settles an explicit root; `child` and `itself` are what the file system
/// shows of `<root>/.orbit` and of `root`.
pub fn resolve_explicit_root(root: &str, mode: ExplicitRootMode, child: RootLayout, itself: RootLayout) -> (r:
    Result<String, OrbitError>)
    ensures
        match explicit_root_spec(root@, mode, child, itself) {
            Ok(p) => r matches Ok(x) && x@ == p,
            Err(m) => r matches Err(OrbitError::InvalidInput(x)) && x@ == m,
        },
{
    if mode == ExplicitRootMode::AllowUninitialized {
        return Ok(copy_string(root));
    }
    if is_initialized_orbit_root(child) {
        return Ok(join_path(root, ".orbit"));
    }
    if is_initialized_orbit_root(itself) {
        return Ok(copy_string(root));
    }
    let mut m = copy_string(root);
    push_str(
        &mut m,
        " is not an Orbit workspace; run `orbit workspace init` first or pass `--root <path/to/.orbit>`",
    );
    Err(OrbitError::InvalidInput(m))
}

/// The last resort `<cwd>/.orbit` is refused when it is the global root.
pub fn cwd_fallback_root(cwd_root: &str, is_global_root: bool) -> (r: Result<ResolvedOrbitRoots, OrbitError>)
    ensures
        !is_global_root ==> (r matches Ok(x) && x.shared_root@ == cwd_root@ && x.local_root@
            == cwd_root@),
        is_global_root ==> (r matches Err(OrbitError::InvalidInput(m)) && m@ == cwd_root@
            + " is the global Orbit root, not a workspace; run `orbit workspace init` from inside a project directory or pass `--root <path/to/.orbit>`"@),
{
    if is_global_root {
        let mut m = copy_string(cwd_root);
        push_str(
            &mut m,
            " is the global Orbit root, not a workspace; run `orbit workspace init` from inside a project directory or pass `--root <path/to/.orbit>`",
        );
        return Err(OrbitError::InvalidInput(m));
    }
    Ok(ResolvedOrbitRoots::pinned(cwd_root))
}

/// One directory on the way up from the working directory.
#[derive(Debug, Clone, Copy, PartialEq, Eq, Structural)]
pub struct WalkStep {
    /// Its `.orbit` child is a directory.
    pub has_orbit_dir: bool,
    /// That child is the user's global root.
    pub orbit_dir_is_global: bool,
    /// The walk stops at this directory.
    pub is_boundary: bool,
}

/// The first directory, from `i` upward, whose `.orbit` is a workspace
/// directory; the walk ends after a boundary and at the file system root.
pub open spec fn walk_up_spec(steps: Seq<WalkStep>, i: int) -> Option<int>
    decreases steps.len() - i,
{
    if i < 0 || i >= steps.len() {
        None
    } else if steps[i].has_orbit_dir && !steps[i].orbit_dir_is_global {
        Some(i)
    } else if steps[i].is_boundary {
        None
    } else {
        walk_up_spec(steps, i + 1)
    }
}

/// Which of the directories from the working directory up to the file
/// system root (`steps`, in that order) holds the workspace `.orbit`.
pub fn find_orbit_dir_walk_up(steps: &Vec<WalkStep>) -> (r: Option<usize>)
    ensures
        match walk_up_spec(steps@, 0) {
            Some(i) => r == Some(i as usize),
            None => r is None,
        },
{
    let mut i: usize = 0;
    while i < steps.len()
        invariant
            i <= steps.len(),
            walk_up_spec(steps@, i as int) == walk_up_spec(steps@, 0),
        decreases steps.len() - i,
    {
        let s = steps[i];
        if s.has_orbit_dir && !s.orbit_dir_is_global {
            return Some(i);
        }
        if s.is_boundary {
            return None;
        }
        i += 1;
    }
    None
}

/// The walk never passes the global root nor a boundary: whatever it finds
/// is a non-global `.orbit` at or below the first boundary.
pub proof fn law_walk_up_stays_inside(steps: Seq<WalkStep>, i: int)
    requires
        0 <= i,
    ensures
        walk_up_spec(steps, i) matches Some(k) ==> i <= k < steps.len() && steps[k].has_orbit_dir
            && !steps[k].orbit_dir_is_global && forall|j: int| i <= j < k ==> !steps[j].is_boundary,
    decreases steps.len() - i,
{
    if i < steps.len() && !(steps[i].has_orbit_dir && !steps[i].orbit_dir_is_global)
        && !steps[i].is_boundary {
        law_walk_up_stays_inside(steps, i + 1);
    }
}

/// The last component that names something, as `Path::file_name` reads it:
/// empty pieces and `.` are skipped, and `..` names nothing.
pub open spec fn last_name(pieces: Seq<Seq<char>>, k: int) -> Option<Seq<char>>
    decreases k,
{
    if k <= 0 || k > pieces.len() {
        None
    } else {
        let g = pieces[k - 1];
        if g.len() == 0 || g == "."@ {
            last_name(pieces, k - 1)
        } else if g == ".."@ {
            None
        } else {
            Some(g)
        }
    }
}

/// `Path::file_name` of a `/`-separated path.
pub open spec fn file_name_spec(path: Seq<char>) -> Option<Seq<char>> {
    last_name(split_on(path, '/'), split_on(path, '/').len() as int)
}

pub fn file_name(path: &str) -> (r: Option<String>)
    ensures
        match file_name_spec(path@) {
            Some(n) => r matches Some(x) && x@ == n,
            None => r is None,
        },
{
    let pieces = split_pieces(path, '/');
    let ghost ps = strings_view(pieces@);
    let mut k: usize = pieces.len();
    while k > 0
        invariant
            k <= pieces.len(),
            ps == strings_view(pieces@),
            ps == split_on(path@, '/'),
            last_name(ps, k as int) == last_name(ps, ps.len() as int),
        decreases k,
    {
        let g = pieces[k - 1].as_str();
        assert(ps[k - 1] == g@);
        if g.is_empty() || str_eq(g, ".") {
            k -= 1;
        } else if str_eq(g, "..") {
            return None;
        } else {
            return Some(copy_string(g));
        }
    }
    None
}

/// The slug of a workspace: the trimmed name of its repository root,
/// `workspace` when that is missing or blank.
pub open spec fn workspace_slug_spec(repo_root: Seq<char>) -> Seq<char> {
    match file_name_spec(repo_root) {
        Some(n) => if trim(n).len() > 0 {
            trim(n)
        } else {
            "workspace"@
        },
        None => "workspace"@,
    }
}

pub fn workspace_slug(repo_root: &str) -> (r: String)
    ensures
        r@ == workspace_slug_spec(repo_root@),
{
    match file_name(repo_root) {
        Some(n) => {
            let t = trimmed(n.as_str());
            if t.as_str().is_empty() {
                copy_string("workspace")
            } else {
                t
            }
        },
        None => copy_string("workspace"),
    }
}

/// Where a workspace's id comes from.
#[derive(Debug)]
pub enum WorkspaceIdChoice {
    /// This id.
    Known(String),
    /// Neither the config nor the binding names one: look for a registry
    /// binding of the same checkout.
    Rebind,
}

/// The workspace id: the configured one, which a binding's hint must
/// agree with; else the hint; else a registry rebind.
pub fn choose_workspace_id(configured: Option<&str>, hint: Option<&str>) -> (r: Result<
    WorkspaceIdChoice,
    OrbitError,
>)
    ensures
        match configured {
            Some(c) => match hint {
                Some(h) => if h@ != c@ {
                    r matches Err(OrbitError::WorkspaceError(m)) && m@ == "workspace binding id '"@
                        + h@ + "' does not match configured workspace id '"@ + c@ + "'"@
                } else {
                    r matches Ok(WorkspaceIdChoice::Known(x)) && x@ == c@
                },
                None => r matches Ok(WorkspaceIdChoice::Known(x)) && x@ == c@,
            },
            None => match hint {
                Some(h) => r matches Ok(WorkspaceIdChoice::Known(x)) && x@ == h@,
                None => r matches Ok(WorkspaceIdChoice::Rebind),
            },
        },
{
    match configured {
        Some(c) => {
            match hint {
                Some(h) => {
                    if !str_eq(h, c) {
                        let mut m = copy_string("workspace binding id '");
                        push_str(&mut m, h);
                        push_str(&mut m, "' does not match configured workspace id '");
                        push_str(&mut m, c);
                        push_str(&mut m, "'");
                        return Err(OrbitError::WorkspaceError(m));
                    }
                },
                None => {},
            }
            Ok(WorkspaceIdChoice::Known(copy_string(c)))
        },
        None => match hint {
            Some(h) => Ok(WorkspaceIdChoice::Known(copy_string(h))),
            None => Ok(WorkspaceIdChoice::Rebind),
        },
    }
}

/// The rebind target: none without candidates, the one candidate, and an
/// error when several bindings match the checkout.
pub fn rebind_candidate(candidate_ids: &Vec<String>, orbit_dir: &str) -> (r: Result<Option<String>, OrbitError>)
    ensures
        candidate_ids.len() == 0 ==> r matches Ok(None),
        candidate_ids.len() == 1 ==> (r matches Ok(Some(x)) && x@ == candidate_ids@[0]@),
        candidate_ids.len() > 1 ==> (r matches Err(OrbitError::WorkspaceError(m)) && m@
            == "workspace config is missing and multiple task artifact bindings match '"@
            + orbit_dir@
            + "'; restore .orbit/config.yaml or choose a workspace binding"@),
{
    if candidate_ids.len() == 0 {
        Ok(None)
    } else if candidate_ids.len() == 1 {
        Ok(Some(copy_string(candidate_ids[0].as_str())))
    } else {
        let mut m = copy_string("workspace config is missing and multiple task artifact bindings match '");
        push_str(&mut m, orbit_dir);
        push_str(&mut m, "'; restore .orbit/config.yaml or choose a workspace binding");
        Err(OrbitError::WorkspaceError(m))
    }
}

/// The workspace config is rewritten when it is missing or names another
/// id than the binding the registry settled on.
pub fn config_needs_write(configured: Option<&str>, bound_id: &str) -> (b: bool)
    ensures
        b == match configured {
            None => true,
            Some(c) => c@ != bound_id@,
        },
{
    match configured {
        None => true,
        Some(c) => !str_eq(c, bound_id),
    }
}

/// A tool registered in the store.
#[derive(Debug)]
pub struct StoredTool {
    pub name: String,
    pub builtin: bool,
    pub enabled: bool,
}

/// The names registered after considering the stored tools before `i`,
/// starting from `registered`: an enabled, non-builtin tool is added unless
/// its name is already registered.
pub open spec fn registered_after(tools: Seq<StoredTool>, registered: Seq<Seq<char>>, i: int) -> Seq<
    Seq<char>,
>
    decreases i,
{
    if i <= 0 || i > tools.len() {
        registered
    } else {
        let before = registered_after(tools, registered, i - 1);
        let t = tools[i - 1];
        if !t.builtin && t.enabled && !before.contains(t.name@) {
            before.push(t.name@)
        } else {
            before
        }
    }
}

/// The positions of the stored tools that join the registry, in order.
pub open spec fn loaded_tools(tools: Seq<StoredTool>, registered: Seq<Seq<char>>, i: int) -> Seq<usize>
    decreases i,
{
    if i <= 0 || i > tools.len() {
        Seq::empty()
    } else {
        let t = tools[i - 1];
        let before = loaded_tools(tools, registered, i - 1);
        if !t.builtin && t.enabled && !registered_after(tools, registered, i - 1).contains(t.name@) {
            before.push((i - 1) as usize)
        } else {
            before
        }
    }
}

/// Which stored tools join a registry that already knows `registered`.
pub fn external_tools_to_load(tools: &Vec<StoredTool>, registered: &Vec<String>) -> (r: Vec<usize>)
    ensures
        r@ == loaded_tools(tools@, strings_view(registered@), tools.len() as int),
{
    let mut names: Vec<String> = Vec::new();
    let mut j: usize = 0;
    while j < registered.len()
        invariant
            j <= registered.len(),
            strings_view(names@) == strings_view(registered@.subrange(0, j as int)),
        decreases registered.len() - j,
    {
        let item = copy_string(registered[j].as_str());
        let ghost before = strings_view(names@);
        names.push(item);
        assert(strings_view(names@) =~= before.push(registered@[j as int]@));
        assert(strings_view(registered@.subrange(0, j + 1)) =~= strings_view(registered@.subrange(0, j as int)).push(registered@[j as int]@));
        j += 1;
    }
    assert(registered@.subrange(0, registered.len() as int) =~= registered@);
    let ghost reg = strings_view(registered@);
    let mut r: Vec<usize> = Vec::new();
    let mut i: usize = 0;
    while i < tools.len()
        invariant
            i <= tools.len(),
            reg == strings_view(registered@),
            strings_view(names@) == registered_after(tools@, reg, i as int),
            r@ == loaded_tools(tools@, reg, i as int),
        decreases tools.len() - i,
    {
        let t = &tools[i];
        if !t.builtin && t.enabled {
            let mut known = false;
            let mut k: usize = 0;
            while k < names.len()
                invariant
                    k <= names.len(),
                    known <==> (exists|m: int| 0 <= m < k && strings_view(names@)[m] == t.name@),
                decreases names.len() - k,
            {
                if str_eq(names[k].as_str(), t.name.as_str()) {
                    assert(strings_view(names@)[k as int] == t.name@);
                    known = true;
                }
                k += 1;
            }
            assert(known <==> strings_view(names@).contains(t.name@));
            if !known {
                let ghost before = strings_view(names@);
                let item = copy_string(t.name.as_str());
                names.push(item);
                assert(strings_view(names@) =~= before.push(t.name@));
                r.push(i);
            }
        }
        i += 1;
    }
    r
}

/// The tier that answers a lookup of an already initialized workspace.
#[derive(Debug, Clone, Copy, PartialEq, Eq, Structural)]
pub enum InitializedTier {
    ExplicitRoot,
    OrbitRootEnv,
    GitWorktreeMain,
    PathOverride,
    WalkUp,
}

/// Which tier answers: a `--root` flag, then a non-blank `ORBIT_ROOT`
/// (both settled by `resolve_explicit_root` in `RequireInitialized` mode);
/// then the main worktree's `.orbit`, the registry's path override and the
/// walk-up candidate, each only when it is an initialized workspace (the
/// layouts are what the file system shows of each candidate found). No
/// answer means no initialized workspace was found anywhere.
pub open spec fn initialized_tier_spec(
    flag_given: bool,
    orbit_root_env: Option<Seq<char>>,
    worktree_main: Option<RootLayout>,
    path_override: Option<RootLayout>,
    walk_up: Option<RootLayout>,
) -> Option<InitializedTier> {
    if flag_given {
        Some(InitializedTier::ExplicitRoot)
    } else if orbit_root_env matches Some(v) && trim(v).len() > 0 {
        Some(InitializedTier::OrbitRootEnv)
    } else if worktree_main matches Some(l) && initialized_spec(l) {
        Some(InitializedTier::GitWorktreeMain)
    } else if path_override matches Some(l) && initialized_spec(l) {
        Some(InitializedTier::PathOverride)
    } else if walk_up matches Some(l) && initialized_spec(l) {
        Some(InitializedTier::WalkUp)
    } else {
        None
    }
}

pub fn initialized_root_tier(
    flag_given: bool,
    orbit_root_env: Option<&str>,
    worktree_main: Option<RootLayout>,
    path_override: Option<RootLayout>,
    walk_up: Option<RootLayout>,
) -> (r: Option<InitializedTier>)
    ensures
        r == initialized_tier_spec(flag_given, opt_view(orbit_root_env), worktree_main, path_override, walk_up),
{
    if flag_given {
        return Some(InitializedTier::ExplicitRoot);
    }
    if has_explicit_root_override(false, orbit_root_env) {
        return Some(InitializedTier::OrbitRootEnv);
    }
    match worktree_main {
        Some(l) => if is_initialized_orbit_root(l) {
            return Some(InitializedTier::GitWorktreeMain);
        },
        None => {},
    }
    match path_override {
        Some(l) => if is_initialized_orbit_root(l) {
            return Some(InitializedTier::PathOverride);
        },
        None => {},
    }
    match walk_up {
        Some(l) => if is_initialized_orbit_root(l) {
            return Some(InitializedTier::WalkUp);
        },
        None => {},
    }
    None
}

/// Only an initialized candidate answers an automatic tier, and an explicit
/// root that is not an initialized workspace is an error, never "no
/// workspace": a lookup answers nothing only when no root was given.
pub proof fn law_initialized_lookup_answers_only_workspaces(
    flag_given: bool,
    orbit_root_env: Option<Seq<char>>,
    worktree_main: Option<RootLayout>,
    path_override: Option<RootLayout>,
    walk_up: Option<RootLayout>,
    root: Seq<char>,
    child: RootLayout,
    itself: RootLayout,
)
    ensures
        initialized_tier_spec(flag_given, orbit_root_env, worktree_main, path_override, walk_up)
            == Some(InitializedTier::GitWorktreeMain) ==> initialized_spec(worktree_main->0),
        initialized_tier_spec(flag_given, orbit_root_env, worktree_main, path_override, walk_up)
            == Some(InitializedTier::PathOverride) ==> initialized_spec(path_override->0),
        initialized_tier_spec(flag_given, orbit_root_env, worktree_main, path_override, walk_up)
            == Some(InitializedTier::WalkUp) ==> initialized_spec(walk_up->0),
        initialized_tier_spec(flag_given, orbit_root_env, worktree_main, path_override, walk_up) is None
            ==> !flag_given,
        !initialized_spec(child) && !initialized_spec(itself) ==> explicit_root_spec(
            root,
            ExplicitRootMode::RequireInitialized,
            child,
            itself,
        ) is Err,
        explicit_root_spec(root, ExplicitRootMode::RequireInitialized, child, itself) is Ok ==> (
        initialized_spec(child) || initialized_spec(itself)),
{
}

/// What `std::path::Path::parent` gives of `path`: `None` at a root or for
/// an empty path.
pub uninterp spec fn path_parent(path: Seq<char>) -> Option<Seq<char>>;

/// Calls `std::path::Path::new(path).parent()`; a parent of a path made
/// from text is itself text. Claimed: the result is `path_parent(path)`, a
/// function of the path text alone.
#[verifier::external_body]
fn parent_path(path: &str) -> (r: Option<String>)
    ensures
        crate::text::opt_string_view(r) == path_parent(path@),
{
    std::path::Path::new(path).parent().map(|p| p.to_string_lossy().into_owned())
}

/// The repository root of a runtime: the workspace binding's repository
/// root when there is one, else the parent of the workspace's `.orbit`
/// root, else that root itself.
pub fn context_repo_root(binding_repo_root: Option<&str>, workspace_root: &str) -> (r: String)
    ensures
        r@ == match binding_repo_root {
            Some(b) => b@,
            None => match path_parent(workspace_root@) {
                Some(p) => p,
                None => workspace_root@,
            },
        },
{
    match binding_repo_root {
        Some(b) => copy_string(b),
        None => match parent_path(workspace_root) {
            Some(p) => p,
            None => copy_string(workspace_root),
        },
    }
}

} // verus!
