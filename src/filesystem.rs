//! The filesystem guard: a path handed in by a plugin is admitted only when it is
//! relative, free of `..`, resolves inside the AppData directory, and a granted
//! filesystem permission covers its AppData-relative form. Resolving paths on disk is
//! the host's part; it hands the resolved paths in.
use vstd::prelude::*;
use crate::permission::{file_access_granted, PermissionManager, PermissionType};
use crate::state::{PluginError, PluginResult};
use crate::text::{contains_str, has_infix, has_prefix, joined, owned, str_eq, starts_with};

verus! {

/// Some `/`-separated component of `path` is `..`.
pub open spec fn has_parent_component(path: Seq<char>) -> bool {
    exists|i: int|
        0 <= i && i + 2 <= path.len() && #[trigger] path[i] == '.' && path[i + 1] == '.' && (i == 0
            || path[i - 1] == '/') && (i + 2 == path.len() || path[i + 2] == '/')
}

/// `path` is absolute.
pub open spec fn is_absolute_path(path: Seq<char>) -> bool {
    path.len() > 0 && path[0] == '/'
}

/// `target` is `root` or lies below it.
pub open spec fn within_root(target: Seq<char>, root: Seq<char>) -> bool {
    target == root || has_prefix(target, root + "/"@)
}

/// The form of `target` relative to `root`.
pub open spec fn relative_to_root(target: Seq<char>, root: Seq<char>) -> Seq<char> {
    if target == root {
        Seq::empty()
    } else {
        target.subrange(root.len() + 1int, target.len() as int)
    }
}

/// Whether some component of `path` is `..`.
pub fn has_parent_dir_component(path: &str) -> (r: bool)
    ensures
        r == has_parent_component(path@),
{
    let n = path.unicode_len();
    let mut i: usize = 0;
    while n >= 2 && i <= n - 2
        invariant
            n == path@.len(),
            0 <= i <= n,
            forall|j: int|
                0 <= j < i && j + 2 <= n ==> !(#[trigger] path@[j] == '.' && path@[j + 1] == '.' && (j
                    == 0 || path@[j - 1] == '/') && (j + 2 == n || path@[j + 2] == '/')),
        decreases n - i,
    {
        if path.get_char(i) == '.' && path.get_char(i + 1) == '.' && (i == 0 || path.get_char(i - 1)
            == '/') && (i + 2 == n || path.get_char(i + 2) == '/') {
            return true;
        }
        i = i + 1;
    }
    false
}

/// Checks a plugin's `path` before any filesystem operation. `canonical_root` is the
/// AppData directory and `canonical_target` the path joined onto it, both resolved by
/// the host. The result is the resolved path; each rejection is recorded for audit.
pub fn validate_path(
    pm: &mut PermissionManager,
    plugin_id: &str,
    path: &str,
    canonical_root: &str,
    canonical_target: &str,
    write: bool,
) -> (r: PluginResult<String>)
    requires
        old(pm).wf(),
    ensures
        final(pm).wf(),
        r is Ok <==> !has_parent_component(path@) && !is_absolute_path(path@) && within_root(
            canonical_target@,
            canonical_root@,
        ) && file_access_granted(
            old(pm).grants(),
            plugin_id@,
            relative_to_root(canonical_target@, canonical_root@),
            write,
        ),
        r matches Ok(p) ==> p@ == canonical_target@,
        r matches Err(e) ==> e is PermissionDenied,
        r is Err ==> final(pm).pending_audit().len() > old(pm).pending_audit().len()
            && !final(pm).pending_audit().last().result
            && final(pm).pending_audit().last().plugin_id@ == plugin_id@
            && final(pm).pending_audit().last().error_message is Some,
        has_parent_component(path@) ==> (match r {
            Err(PluginError::PermissionDenied(m)) => m@ == "Path traversal attempt (..) detected"@,
            _ => false,
        }),
        final(pm).grants() == old(pm).grants(),
        final(pm).auto_approves() == old(pm).auto_approves(),
        forall|id: Seq<char>| final(pm).limiter_for(id) == old(pm).limiter_for(id),
{
    let kind = if write {
        PermissionType::FilesystemWrite
    } else {
        PermissionType::FilesystemRead
    };
    if has_parent_dir_component(path) {
        pm.record(plugin_id, &kind, path, "validate", false, Some("traversal"));
        return Err(PluginError::PermissionDenied(owned("Path traversal attempt (..) detected")));
    }
    if path.unicode_len() > 0 && path.get_char(0) == '/' {
        pm.record(plugin_id, &kind, path, "validate", false, Some("absolute path"));
        return Err(PluginError::PermissionDenied(owned("Absolute paths not allowed, use relative paths within AppData")));
    }
    let root_len = canonical_root.unicode_len();
    let target_len = canonical_target.unicode_len();
    let below = joined(canonical_root, "/");
    let relative: &str = if str_eq(canonical_target, canonical_root) {
        ""
    } else if starts_with(canonical_target, below.as_str()) {
        proof {
            reveal_strlit("/");
            assert(below@.len() == root_len + 1);
        }
        canonical_target.substring_char(root_len + 1, target_len)
    } else {
        pm.record(plugin_id, &kind, canonical_target, "validate", false, Some("outside AppData"));
        return Err(PluginError::PermissionDenied(owned("Path escapes AppData directory")));
    };
    proof {
        reveal_strlit("");
        if canonical_target@ == canonical_root@ {
            assert(relative@ =~= Seq::<char>::empty());
        }
    }
    if !pm.validate_filesystem_permission(plugin_id, relative, write) {
        return Err(PluginError::PermissionDenied(joined("No permission for path: ", canonical_target)));
    }
    Ok(owned(canonical_target))
}

/// The capability an operation is logged under: writing for operations whose name holds
/// `write` or `delete`, reading for the rest.
pub fn operation_permission(operation: &str) -> (r: PermissionType)
    ensures
        r == if has_infix(operation@, "write"@) || has_infix(operation@, "delete"@) {
            PermissionType::FilesystemWrite
        } else {
            PermissionType::FilesystemRead
        },
{
    if contains_str(operation, "write") || contains_str(operation, "delete") {
        PermissionType::FilesystemWrite
    } else {
        PermissionType::FilesystemRead
    }
}

/// Records a filesystem operation for audit.
pub fn log_operation(
    pm: &mut PermissionManager,
    plugin_id: &str,
    operation: &str,
    path: &str,
    result: bool,
    error: Option<&str>,
)
    requires
        old(pm).wf(),
    ensures
        final(pm).wf(),
        final(pm).pending_audit().len() == old(pm).pending_audit().len() + 1,
        final(pm).pending_audit().last().action@ == operation@,
        final(pm).pending_audit().last().result == result,
        final(pm).grants() == old(pm).grants(),
{
    let kind = operation_permission(operation);
    pm.record(plugin_id, &kind, path, operation, result, error);
}

/// The outcome of a filesystem operation as reported to a plugin.
#[derive(Debug, Clone)]
pub struct FileOperationResult {
    pub success: bool,
    pub data: Option<String>,
    pub error: Option<String>,
}

/// A directory entry as listed to a plugin.
#[derive(Debug, Clone)]
pub struct FileInfo {
    /// AppData-relative path.
    pub path: String,
    pub name: String,
    pub is_file: bool,
    pub is_dir: bool,
    pub size: u64,
    pub modified: Option<String>,
    pub created: Option<String>,
}

/// A change seen by a directory watch.
#[derive(Debug, Clone)]
pub struct FileWatchEvent {
    /// `created`, `modified` or `removed`.
    pub event_type: String,
    pub path: String,
}

/// Whether `p` is a glob pattern as the `glob` crate reads it.
pub uninterp spec fn glob_valid_of(p: Seq<char>) -> bool;

/// Whether the glob pattern `p` matches the name `n`, with the `glob` crate's default
/// options.
pub uninterp spec fn glob_matches_of(p: Seq<char>, n: Seq<char>) -> bool;

/// Relies on `glob::Pattern::new`: whether `p` compiles. The answer depends on the text
/// of `p` alone.
#[verifier::external_body]
fn glob_valid(p: &str) -> (r: bool)
    ensures
        r == glob_valid_of(p@),
{
    glob::Pattern::new(p).is_ok()
}

/// Relies on `glob::Pattern::new` and `Pattern::matches`: whether the compiled pattern
/// matches `n`. The answer depends on the two texts alone.
#[verifier::external_body]
fn glob_matches(p: &str, n: &str) -> (r: bool)
    requires
        glob_valid_of(p@),
    ensures
        r == glob_matches_of(p@, n@),
{
    match glob::Pattern::new(p) {
        Ok(g) => g.matches(n),
        Err(_) => false,
    }
}

/// A directory entry named `name` is listed under `pattern`: always without one,
/// otherwise when the pattern matches the name (not the path).
pub open spec fn listed(pattern: Option<Seq<char>>, name: Seq<char>) -> bool {
    match pattern {
        Some(p) => glob_matches_of(p, name),
        None => true,
    }
}

/// The view of an optional text.
pub open spec fn opt_view(o: Option<&str>) -> Option<Seq<char>> {
    match o {
        Some(s) => Some(s@),
        None => None,
    }
}

/// Which of the directory entries `names` a listing shows, as increasing indices: those
/// whose name `pattern` matches, or all without a pattern. A pattern that does not
/// compile is an error.
pub fn listed_entries(names: &Vec<String>, pattern: Option<&str>) -> (r: PluginResult<Vec<usize>>)
    ensures
        r is Err <==> (pattern matches Some(p) && !glob_valid_of(p@)),
        r matches Err(e) ==> e is FileSystemError,
        r matches Ok(ix) ==> (forall|k: int| 0 <= k < ix@.len() ==> #[trigger] ix@[k] < names@.len())
            && (forall|a: int, b: int| 0 <= a < b < ix@.len() ==> #[trigger] ix@[a] < #[trigger] ix@[b])
            && (forall|i: int|
                0 <= i < names@.len() ==> (ix@.contains(i as usize) <==> listed(
                    opt_view(pattern),
                    #[trigger] names@[i]@,
                ))),
{
    if let Some(p) = pattern {
        if !glob_valid(p) {
            return Err(PluginError::FileSystemError(joined("Invalid glob pattern: ", p)));
        }
    }
    let mut ix: Vec<usize> = Vec::new();
    let mut i: usize = 0;
    while i < names.len()
        invariant
            0 <= i <= names@.len(),
            pattern matches Some(p) ==> glob_valid_of(p@),
            forall|k: int| 0 <= k < ix@.len() ==> #[trigger] ix@[k] < i,
            forall|a: int, b: int| 0 <= a < b < ix@.len() ==> #[trigger] ix@[a] < #[trigger] ix@[b],
            forall|j: int|
                0 <= j < i ==> (ix@.contains(j as usize) <==> listed(opt_view(pattern), #[trigger] names@[j]@)),
        decreases names@.len() - i,
    {
        let keep = match pattern {
            Some(p) => glob_matches(p, names[i].as_str()),
            None => true,
        };
        let ghost before = ix@;
        if keep {
            ix.push(i);
        }
        proof {
            assert forall|j: int| 0 <= j < i + 1 implies (ix@.contains(j as usize) <==> listed(
                opt_view(pattern),
                #[trigger] names@[j]@,
            )) by {
                if j < i {
                    if ix@.contains(j as usize) {
                        let k = choose|k: int| 0 <= k < ix@.len() && ix@[k] == j as usize;
                        if keep && k == before.len() {
                        } else {
                            assert(before[k] == j as usize);
                        }
                    }
                    if before.contains(j as usize) {
                        let k = choose|k: int| 0 <= k < before.len() && before[k] == j as usize;
                        assert(ix@[k] == j as usize);
                    }
                } else {
                    if keep {
                        assert(ix@[before.len() as int] == i);
                    } else if ix@.contains(j as usize) {
                        let k = choose|k: int| 0 <= k < ix@.len() && ix@[k] == j as usize;
                        assert(before[k] < i);
                    }
                }
            }
        }
        i = i + 1;
    }
    Ok(ix)
}

/// The AppData-relative path of the entry `name` of a directory whose AppData-relative
/// path is `dir_relative`.
pub fn entry_relative_path(dir_relative: &str, name: &str) -> (r: String)
    ensures
        r@ == if dir_relative@.len() == 0 {
            name@
        } else {
            dir_relative@ + "/"@ + name@
        },
{
    if dir_relative.unicode_len() == 0 {
        owned(name)
    } else {
        joined(joined(dir_relative, "/").as_str(), name)
    }
}

/// The form of `canonical_target` relative to `canonical_root`, for a target inside it.
pub fn relative_path(canonical_root: &str, canonical_target: &str) -> (r: String)
    requires
        within_root(canonical_target@, canonical_root@),
    ensures
        r@ == relative_to_root(canonical_target@, canonical_root@),
{
    if str_eq(canonical_target, canonical_root) {
        String::new()
    } else {
        proof {
            reveal_strlit("/");
        }
        let n = canonical_target.unicode_len();
        let m = canonical_root.unicode_len();
        owned(canonical_target.substring_char(m + 1, n))
    }
}

} // verus!
