//! Typed capabilities with resource scopes: validation of scopes at grant time,
//! scope matching for paths and hosts, grants and revocations, and a per-plugin
//! token bucket for network calls.
use vstd::prelude::*;
use crate::audit::AuditLogEntry;
use crate::clock::{clock_millis, now_rfc3339};
use crate::state::{PluginError, PluginId, PluginResult};
use crate::text::{
    contains_char, ends_with, find_char, has_prefix, has_suffix, joined, owned, starts_with, str_eq,
};
use crate::manifest::{after_first, before_first};

verus! {

/// A capability a plugin may hold.
#[derive(Debug, Clone, Copy, PartialEq, Eq, Hash, Structural)]
pub enum PermissionType {
    FilesystemRead,
    FilesystemWrite,
    NetworkRequest,
    StorageRead,
    StorageWrite,
    SystemNotify,
    UiRegisterCommand,
    UiRegisterView,
}

/// The name of each capability.
pub open spec fn permission_name(t: PermissionType) -> Seq<char> {
    match t {
        PermissionType::FilesystemRead => "filesystem.read"@,
        PermissionType::FilesystemWrite => "filesystem.write"@,
        PermissionType::NetworkRequest => "network.request"@,
        PermissionType::StorageRead => "storage.read"@,
        PermissionType::StorageWrite => "storage.write"@,
        PermissionType::SystemNotify => "system.notify"@,
        PermissionType::UiRegisterCommand => "ui.registerCommand"@,
        PermissionType::UiRegisterView => "ui.registerView"@,
    }
}

/// The capability with name `s`, if any.
pub open spec fn permission_type_named(s: Seq<char>) -> Option<PermissionType> {
    if s == "filesystem.read"@ {
        Some(PermissionType::FilesystemRead)
    } else if s == "filesystem.write"@ {
        Some(PermissionType::FilesystemWrite)
    } else if s == "network.request"@ {
        Some(PermissionType::NetworkRequest)
    } else if s == "storage.read"@ {
        Some(PermissionType::StorageRead)
    } else if s == "storage.write"@ {
        Some(PermissionType::StorageWrite)
    } else if s == "system.notify"@ {
        Some(PermissionType::SystemNotify)
    } else if s == "ui.registerCommand"@ {
        Some(PermissionType::UiRegisterCommand)
    } else if s == "ui.registerView"@ {
        Some(PermissionType::UiRegisterView)
    } else {
        None
    }
}

impl PermissionType {
    /// The capability named `s`.
    pub fn from_str(s: &str) -> (r: Option<Self>)
        ensures
            r == permission_type_named(s@),
    {
        if str_eq(s, "filesystem.read") {
            Some(PermissionType::FilesystemRead)
        } else if str_eq(s, "filesystem.write") {
            Some(PermissionType::FilesystemWrite)
        } else if str_eq(s, "network.request") {
            Some(PermissionType::NetworkRequest)
        } else if str_eq(s, "storage.read") {
            Some(PermissionType::StorageRead)
        } else if str_eq(s, "storage.write") {
            Some(PermissionType::StorageWrite)
        } else if str_eq(s, "system.notify") {
            Some(PermissionType::SystemNotify)
        } else if str_eq(s, "ui.registerCommand") {
            Some(PermissionType::UiRegisterCommand)
        } else if str_eq(s, "ui.registerView") {
            Some(PermissionType::UiRegisterView)
        } else {
            None
        }
    }

    /// The capability's name.
    pub fn as_str(&self) -> (r: &'static str)
        ensures
            r@ == permission_name(*self),
    {
        match self {
            PermissionType::FilesystemRead => "filesystem.read",
            PermissionType::FilesystemWrite => "filesystem.write",
            PermissionType::NetworkRequest => "network.request",
            PermissionType::StorageRead => "storage.read",
            PermissionType::StorageWrite => "storage.write",
            PermissionType::SystemNotify => "system.notify",
            PermissionType::UiRegisterCommand => "ui.registerCommand",
            PermissionType::UiRegisterView => "ui.registerView",
        }
    }
}

/// A host pattern: `*.domain` with a dotted domain free of spaces and `*`, or a dotted
/// host free of spaces and `*`.
pub open spec fn valid_domain_pattern(p: Seq<char>) -> bool {
    if has_prefix(p, "*."@) {
        let d = p.subrange(2, p.len() as int);
        d.contains('.') && !d.contains(' ') && !d.contains('*')
    } else {
        p.contains('.') && !p.contains(' ') && !p.contains('*')
    }
}

/// Whether `scope` may be granted with capability `t`.
pub open spec fn valid_scope(t: PermissionType, scope: Seq<char>) -> bool {
    scope.len() > 0 && match t {
        PermissionType::FilesystemRead | PermissionType::FilesystemWrite => has_prefix(
            scope,
            "AppData/"@,
        ) || scope == "*"@,
        PermissionType::NetworkRequest => scope == "*"@ || valid_domain_pattern(scope),
        _ => true,
    }
}

/// Whether `pattern` is a valid host pattern.
pub fn is_valid_domain_pattern(pattern: &str) -> (r: bool)
    ensures
        r == valid_domain_pattern(pattern@),
{
    if starts_with(pattern, "*.") {
        proof {
            reveal_strlit("*.");
        }
        let n = pattern.unicode_len();
        let d = pattern.substring_char(2, n);
        contains_char(d, '.') && !contains_char(d, ' ') && !contains_char(d, '*')
    } else {
        contains_char(pattern, '.') && !contains_char(pattern, ' ') && !contains_char(pattern, '*')
    }
}

/// One grant (or request) of a capability to a plugin over a resource scope.
#[derive(Debug, Clone)]
pub struct PluginPermission {
    pub plugin_id: PluginId,
    pub permission_type: PermissionType,
    /// A path pattern (`AppData/plugin-data/*`), a host pattern (`*.example.com`) or `*`.
    pub resource_scope: String,
    pub granted: bool,
    pub granted_at: Option<String>,
    /// `user` or `auto`.
    pub granted_by: Option<String>,
    pub expires_at: Option<String>,
}

impl PluginPermission {
    /// Checks the scope against the rules of its capability.
    pub fn validate_scope(&self) -> (r: PluginResult<()>)
        ensures
            r is Ok <==> valid_scope(self.permission_type, self.resource_scope@),
            r matches Err(e) ==> e is PermissionDenied,
    {
        let scope = self.resource_scope.as_str();
        if scope.unicode_len() == 0 {
            return Err(PluginError::PermissionDenied(owned("Resource scope cannot be empty")));
        }
        match self.permission_type {
            PermissionType::FilesystemRead | PermissionType::FilesystemWrite => {
                if !starts_with(scope, "AppData/") && !str_eq(scope, "*") {
                    return Err(
                        PluginError::PermissionDenied(
                            joined("File system access must be within AppData/. Got: ", scope),
                        ),
                    );
                }
            },
            PermissionType::NetworkRequest => {
                if !str_eq(scope, "*") && !is_valid_domain_pattern(scope) {
                    return Err(
                        PluginError::PermissionDenied(joined("Invalid domain pattern: ", scope)),
                    );
                }
            },
            _ => {},
        }
        Ok(())
    }
}

/// `path` with every `\` turned into `/`.
pub open spec fn normalize_separators(path: Seq<char>) -> Seq<char> {
    path.map_values(|c: char| if c == '\\' { '/' } else { c })
}

/// A path matches a scope ending in `/*` when it begins with what precedes the `/*`,
/// and any other scope when it equals it, separators normalized to `/` on both sides.
pub open spec fn scope_matches(path: Seq<char>, scope: Seq<char>) -> bool {
    let p = normalize_separators(path);
    let s = normalize_separators(scope);
    if has_suffix(s, "/*"@) {
        has_prefix(p, s.subrange(0, s.len() - 2))
    } else {
        p == s
    }
}

/// The capability reads or writes files.
pub open spec fn is_file_permission(t: PermissionType) -> bool {
    t == PermissionType::FilesystemRead || t == PermissionType::FilesystemWrite
}

/// A requested scope is covered by a granted scope of capability `t`: as a path pattern
/// for file capabilities, literally for every other.
pub open spec fn permission_scope_matches(t: PermissionType, requested: Seq<char>, granted: Seq<char>) -> bool {
    if is_file_permission(t) {
        scope_matches(requested, granted)
    } else {
        requested == granted
    }
}

/// Every scope covers itself.
pub proof fn lemma_scope_covers_itself(t: PermissionType, scope: Seq<char>)
    ensures
        permission_scope_matches(t, scope, scope),
{
    let s = normalize_separators(scope);
    reveal_strlit("/*");
    if has_suffix(s, "/*"@) {
        let q = s.subrange(0, s.len() - 2);
        assert(q.len() == s.len() - 2);
        assert(s.subrange(0, q.len() as int) =~= q);
    }
}

/// A host matches `*.d` when it is `d` or ends in `.d`; any other pattern when equal.
pub open spec fn domain_matches(domain: Seq<char>, pattern: Seq<char>) -> bool {
    if has_prefix(pattern, "*."@) {
        let suffix = pattern.subrange(2, pattern.len() as int);
        domain == suffix || (has_suffix(domain, suffix) && domain.len() > suffix.len()
            && domain[domain.len() - suffix.len() - 1] == '.')
    } else {
        domain == pattern
    }
}

/// A wildcard pattern `*.d` admits exactly `d` itself and the hosts that end in `.d`,
/// so a host that merely ends in `d` (`notexample.com` for `*.example.com`) is refused.
pub proof fn lemma_wildcard_domain(domain: Seq<char>, pattern: Seq<char>)
    requires
        has_prefix(pattern, "*."@),
    ensures
        domain_matches(domain, pattern) <==> ({
            let suffix = pattern.subrange(2, pattern.len() as int);
            domain == suffix || has_suffix(domain, "."@ + suffix)
        }),
{
    reveal_strlit(".");
    reveal_strlit("*.");
    let suffix = pattern.subrange(2, pattern.len() as int);
    let dotted = "."@ + suffix;
    let n = domain.len();
    let m = suffix.len();
    if has_suffix(domain, dotted) {
        assert(domain.subrange(n - m, n as int) =~= domain.subrange(n - dotted.len(), n as int).subrange(1, dotted.len() as int));
        assert(dotted.subrange(1, dotted.len() as int) =~= suffix);
        assert(domain[n - m - 1] == domain.subrange(n - dotted.len(), n as int)[0]);
    }
    if has_suffix(domain, suffix) && n > m && domain[n - m - 1] == '.' {
        assert(domain.subrange(n - dotted.len(), n as int) =~= dotted);
    }
}

/// The scope of a file permission as compared with an AppData-relative path: without a
/// leading `AppData/`.
pub open spec fn file_scope(scope: Seq<char>) -> Seq<char> {
    if has_prefix(scope, "AppData/"@) {
        scope.subrange(8, scope.len() as int)
    } else {
        scope
    }
}

/// `s` with separators normalized.
fn normalized(s: &str) -> (r: String)
    ensures
        r@ == normalize_separators(s@),
{
    let n = s.unicode_len();
    let mut out = String::new();
    let mut i: usize = 0;
    while i < n
        invariant
            n == s@.len(),
            0 <= i <= n,
            out@ == normalize_separators(s@.subrange(0, i as int)),
        decreases n - i,
    {
        let c = s.get_char(i);
        let d = if c == '\\' {
            '/'
        } else {
            c
        };
        if c == '\\' {
            proof {
                reveal_strlit("/");
            }
            out.append("/");
        } else {
            out.append(s.substring_char(i, i + 1));
        }
        proof {
            assert(s@.subrange(0, i + 1) =~= s@.subrange(0, i as int).push(c));
            assert(normalize_separators(s@.subrange(0, i + 1)) =~= normalize_separators(
                s@.subrange(0, i as int),
            ).push(d));
        }
        i = i + 1;
    }
    assert(s@.subrange(0, n as int) =~= s@);
    out
}

/// The requests per minute a plugin's bucket holds and regains.
pub const DEFAULT_RATE_LIMIT: u32 = 100;

/// A token bucket: `tokens` of at most `capacity`, regained at `refill_rate` per minute.
#[derive(Debug, Clone, Copy, PartialEq, Eq, Structural)]
pub struct RateLimiter {
    pub capacity: u32,
    pub tokens: u32,
    pub refill_rate: u32,
    /// Milliseconds of the last refill.
    pub last_refill: u64,
}

/// Whole tokens regained between `last` and `now` at `rate` per minute.
pub open spec fn refill_amount(last: u64, now: u64, rate: u32) -> int {
    if now > last {
        ((now - last) as int * rate as int) / 60000
    } else {
        0
    }
}

/// The bucket after regaining what is due at `now`; the refill time moves only when at
/// least one token is regained, so no fraction of a token is lost.
pub open spec fn refilled(l: RateLimiter, now: u64) -> RateLimiter {
    let add = refill_amount(l.last_refill, now, l.refill_rate);
    if add > 0 {
        RateLimiter {
            tokens: if l.tokens + add > l.capacity {
                l.capacity
            } else {
                (l.tokens + add) as u32
            },
            last_refill: now,
            ..l
        }
    } else {
        l
    }
}

/// The bucket after one call at `now`, and whether that call was admitted.
pub open spec fn acquired(l: RateLimiter, now: u64) -> (RateLimiter, bool) {
    let r = refilled(l, now);
    if r.tokens > 0 {
        (RateLimiter { tokens: (r.tokens - 1) as u32, ..r }, true)
    } else {
        (r, false)
    }
}

impl RateLimiter {
    pub open spec fn wf(&self) -> bool {
        self.tokens <= self.capacity
    }

    /// A full bucket of `requests_per_minute` tokens, last refilled at `now`.
    pub fn new(requests_per_minute: u32, now: u64) -> (r: Self)
        ensures
            r == (RateLimiter {
                capacity: requests_per_minute,
                tokens: requests_per_minute,
                refill_rate: requests_per_minute,
                last_refill: now,
            }),
    {
        RateLimiter {
            capacity: requests_per_minute,
            tokens: requests_per_minute,
            refill_rate: requests_per_minute,
            last_refill: now,
        }
    }

    /// Regains the tokens due at `now`, up to the capacity.
    pub fn refill_tokens(&mut self, now: u64)
        requires
            old(self).wf(),
        ensures
            final(self).wf(),
            *final(self) == refilled(*old(self), now),
    {
        if now > self.last_refill {
            let elapsed = (now - self.last_refill) as u128;
            let rate = self.refill_rate as u128;
            assert(elapsed * rate <= 0xffff_ffff_ffff_ffffu128 * 0xffff_ffffu128) by (nonlinear_arith)
                requires
                    elapsed <= 0xffff_ffff_ffff_ffffu128,
                    rate <= 0xffff_ffffu128,
            ;
            let add = elapsed * rate / 60000u128;
            if add > 0 {
                let sum = self.tokens as u128 + add;
                if sum > self.capacity as u128 {
                    self.tokens = self.capacity;
                } else {
                    self.tokens = sum as u32;
                }
                self.last_refill = now;
            }
        }
    }

    /// Takes one token after refilling, if one is there.
    pub fn try_acquire(&mut self, now: u64) -> (r: bool)
        requires
            old(self).wf(),
        ensures
            final(self).wf(),
            (*final(self), r) == acquired(*old(self), now),
    {
        self.refill_tokens(now);
        if self.tokens > 0 {
            self.tokens = self.tokens - 1;
            true
        } else {
            false
        }
    }
}

/// A plugin's rate limiter.
struct PluginRateLimiter {
    plugin_id: PluginId,
    limiter: RateLimiter,
}

/// Plugin `id` holds a granted `t` whose scope is `*` or matches `scope`.
pub open spec fn holds_permission(
    grants: Seq<PluginPermission>,
    id: Seq<char>,
    t: PermissionType,
    scope: Seq<char>,
) -> bool {
    exists|i: int|
        0 <= i < grants.len() && (#[trigger] grants[i]).plugin_id@ == id && grants[i].permission_type
            == t && grants[i].granted && (grants[i].resource_scope@ == "*"@
            || permission_scope_matches(t, scope, grants[i].resource_scope@))
}

/// The scope a permission string `type[:scope]` asks for: `*` when it names none.
pub open spec fn requested_scope(s: Seq<char>) -> Seq<char> {
    match after_first(s, ':') {
        Some(x) => x,
        None => "*"@,
    }
}

/// Plugin `id` may read (or write) the AppData-relative path `rel`.
pub open spec fn file_access_granted(
    grants: Seq<PluginPermission>,
    id: Seq<char>,
    rel: Seq<char>,
    write: bool,
) -> bool {
    exists|i: int|
        0 <= i < grants.len() && (#[trigger] grants[i]).plugin_id@ == id && grants[i].permission_type
            == (if write {
            PermissionType::FilesystemWrite
        } else {
            PermissionType::FilesystemRead
        }) && grants[i].granted && (grants[i].resource_scope@ == "*"@ || scope_matches(
            rel,
            file_scope(grants[i].resource_scope@),
        ))
}

/// Plugin `id` may reach host `domain`.
pub open spec fn network_access_granted(
    grants: Seq<PluginPermission>,
    id: Seq<char>,
    domain: Seq<char>,
) -> bool {
    exists|i: int|
        0 <= i < grants.len() && (#[trigger] grants[i]).plugin_id@ == id && grants[i].permission_type
            == PermissionType::NetworkRequest && grants[i].granted && (grants[i].resource_scope@
            == "*"@ || domain_matches(domain, grants[i].resource_scope@))
}

/// `new` is `old` with one more granted record of `t` over `scope` for plugin `id`.
pub open spec fn grant_appended(
    old: Seq<PluginPermission>,
    new: Seq<PluginPermission>,
    id: Seq<char>,
    t: PermissionType,
    scope: Seq<char>,
) -> bool {
    &&& new.len() == old.len() + 1
    &&& new.subrange(0, old.len() as int) == old
    &&& new.last().plugin_id@ == id
    &&& new.last().permission_type == t
    &&& new.last().resource_scope@ == scope
    &&& new.last().granted
}

/// A record just granted makes the plugin hold its type over its scope.
pub proof fn lemma_appended_grant_held(
    old: Seq<PluginPermission>,
    new: Seq<PluginPermission>,
    id: Seq<char>,
    t: PermissionType,
    scope: Seq<char>,
)
    requires
        grant_appended(old, new, id, t, scope),
    ensures
        holds_permission(new, id, t, scope),
{
    lemma_scope_covers_itself(t, scope);
    let k = new.len() - 1;
    assert(new[k] == new.last());
}

/// Central store of grants, with the checks that consult them and the rate limiters
/// of network calls. Every check and change is recorded as an audit entry, which the
/// host drains with [`PermissionManager::take_audit_entries`] and persists; after each
/// change of grants the host persists [`PermissionManager::permissions`].
pub struct PermissionManager {
    permissions: Vec<PluginPermission>,
    app_data_dir: String,
    rate_limiters: Vec<PluginRateLimiter>,
    default_rate_limit: u32,
    audit_entries: Vec<AuditLogEntry>,
    auto_approve: bool,
}

impl PermissionManager {
    /// All records, in the order they were granted.
    pub closed spec fn grants(&self) -> Seq<PluginPermission> {
        self.permissions@
    }

    /// Whether authorization requests are approved without asking.
    pub closed spec fn auto_approves(&self) -> bool {
        self.auto_approve
    }

    /// The audit entries not yet handed to the host, oldest first.
    pub closed spec fn pending_audit(&self) -> Seq<AuditLogEntry> {
        self.audit_entries@
    }

    pub closed spec fn app_data(&self) -> String {
        self.app_data_dir
    }

    /// The rate limiter of plugin `id`, if it has made a network call.
    pub closed spec fn limiter_for(&self, id: Seq<char>) -> Option<RateLimiter> {
        if exists|i: int|
            0 <= i < self.rate_limiters@.len() && self.rate_limiters@[i].plugin_id@ == id {
            Some(
                self.rate_limiters@[choose|i: int|
                    0 <= i < self.rate_limiters@.len() && self.rate_limiters@[i].plugin_id@
                        == id].limiter,
            )
        } else {
            None
        }
    }

    /// Limiters are kept once per plugin, each within its capacity.
    pub closed spec fn wf(&self) -> bool {
        &&& forall|i: int, j: int|
            0 <= i < self.rate_limiters@.len() && 0 <= j < self.rate_limiters@.len() && i != j
                ==> self.rate_limiters@[i].plugin_id@ != self.rate_limiters@[j].plugin_id@
        &&& forall|i: int|
            0 <= i < self.rate_limiters@.len() ==> (#[trigger] self.rate_limiters@[i]).limiter.wf()
        &&& self.default_rate_limit == DEFAULT_RATE_LIMIT
    }

    proof fn lemma_limiter_at(&self, i: int)
        requires
            self.wf(),
            0 <= i < self.rate_limiters@.len(),
        ensures
            self.limiter_for(self.rate_limiters@[i].plugin_id@) == Some(self.rate_limiters@[i].limiter),
    {
        let id = self.rate_limiters@[i].plugin_id@;
        let j = choose|j: int|
            0 <= j < self.rate_limiters@.len() && self.rate_limiters@[j].plugin_id@ == id;
        assert(j == i);
    }

    pub fn new(app_data_dir: String) -> (r: Self)
        ensures
            r.wf(),
            r.grants().len() == 0,
            r.auto_approves(),
            r.pending_audit().len() == 0,
            r.app_data() == app_data_dir,
            forall|id: Seq<char>| r.limiter_for(id) is None,
    {
        Self::with_auto_approve(app_data_dir, true)
    }

    /// A manager with no grants whose authorization requests are approved exactly when
    /// `auto_approve` holds.
    pub fn with_auto_approve(app_data_dir: String, auto_approve: bool) -> (r: Self)
        ensures
            r.wf(),
            r.grants().len() == 0,
            r.auto_approves() == auto_approve,
            r.pending_audit().len() == 0,
            r.app_data() == app_data_dir,
            forall|id: Seq<char>| r.limiter_for(id) is None,
    {
        Self::with_permissions(app_data_dir, auto_approve, Vec::new())
    }

    /// A manager holding `records`, as the host restores them after a restart.
    pub fn with_permissions(
        app_data_dir: String,
        auto_approve: bool,
        records: Vec<PluginPermission>,
    ) -> (r: Self)
        ensures
            r.wf(),
            r.grants() == records@,
            r.auto_approves() == auto_approve,
            r.pending_audit().len() == 0,
            r.app_data() == app_data_dir,
            forall|id: Seq<char>| r.limiter_for(id) is None,
    {
        PermissionManager {
            permissions: records,
            app_data_dir,
            rate_limiters: Vec::new(),
            default_rate_limit: DEFAULT_RATE_LIMIT,
            audit_entries: Vec::new(),
            auto_approve,
        }
    }

    /// The records, for the host to persist.
    pub fn permissions(&self) -> (r: &Vec<PluginPermission>)
        ensures
            r@ == self.grants(),
    {
        &self.permissions
    }

    /// Hands over the pending audit entries, oldest first, and forgets them.
    pub fn take_audit_entries(&mut self) -> (r: Vec<AuditLogEntry>)
        requires
            old(self).wf(),
        ensures
            final(self).wf(),
            r@ == old(self).pending_audit(),
            final(self).pending_audit().len() == 0,
            final(self).grants() == old(self).grants(),
            final(self).auto_approves() == old(self).auto_approves(),
            forall|id: Seq<char>| final(self).limiter_for(id) == old(self).limiter_for(id),
    {
        let mut taken: Vec<AuditLogEntry> = Vec::new();
        std::mem::swap(&mut taken, &mut self.audit_entries);
        assert(self.rate_limiters == old(self).rate_limiters);
        taken
    }

    /// The application data directory.
    pub fn get_app_data_dir(&self) -> (r: &String)
        ensures
            *r == self.app_data(),
    {
        &self.app_data_dir
    }

    /// Records an audit entry for an operation on behalf of `plugin_id`.
    pub fn record(
        &mut self,
        plugin_id: &str,
        permission_type: &PermissionType,
        resource: &str,
        action: &str,
        result: bool,
        error: Option<&str>,
    )
        requires
            old(self).wf(),
        ensures
            final(self).wf(),
            final(self).pending_audit().len() == old(self).pending_audit().len() + 1,
            final(self).pending_audit().subrange(0, old(self).pending_audit().len() as int)
                == old(self).pending_audit(),
            final(self).pending_audit().last().plugin_id@ == plugin_id@,
            final(self).pending_audit().last().permission_type@ == permission_name(*permission_type),
            final(self).pending_audit().last().resource@ == resource@,
            final(self).pending_audit().last().action@ == action@,
            final(self).pending_audit().last().result == result,
            final(self).pending_audit().last().error_message is Some <==> error is Some,
            error matches Some(e) ==> final(self).pending_audit().last().error_message->0@ == e@,
            final(self).grants() == old(self).grants(),
            final(self).auto_approves() == old(self).auto_approves(),
            final(self).app_data() == old(self).app_data(),
            forall|id: Seq<char>| final(self).limiter_for(id) == old(self).limiter_for(id),
    {
        let entry = AuditLogEntry::new(
            now_rfc3339(),
            plugin_id,
            permission_type.as_str(),
            resource,
            action,
            result,
            error,
        );
        let ghost before = self.audit_entries@;
        self.audit_entries.push(entry);
        assert(self.audit_entries@.subrange(0, before.len() as int) =~= before);
        assert(self.rate_limiters == old(self).rate_limiters);
    }

    /// Records the outcome of a validation.
    fn log_validation(
        &mut self,
        plugin_id: &str,
        permission_type: &PermissionType,
        resource: &str,
        result: bool,
        error: Option<&str>,
    )
        requires
            old(self).wf(),
        ensures
            final(self).wf(),
            final(self).pending_audit().len() == old(self).pending_audit().len() + 1,
            final(self).pending_audit().last().plugin_id@ == plugin_id@,
            final(self).pending_audit().last().permission_type@ == permission_name(*permission_type),
            final(self).pending_audit().last().resource@ == resource@,
            final(self).pending_audit().last().action@ == "validate"@,
            final(self).pending_audit().last().result == result,
            final(self).pending_audit().last().error_message is Some <==> error is Some,
            error matches Some(e) ==> final(self).pending_audit().last().error_message->0@ == e@,
            final(self).grants() == old(self).grants(),
            final(self).auto_approves() == old(self).auto_approves(),
            final(self).app_data() == old(self).app_data(),
            forall|id: Seq<char>| final(self).limiter_for(id) == old(self).limiter_for(id),
    {
        self.record(plugin_id, permission_type, resource, "validate", result, error);
    }

    /// Whether `path` matches `scope`: below the scope's prefix when it ends in `/*`,
    /// equal to it otherwise, separators normalized to `/` on both sides.
    fn matches_scope(&self, path: &str, scope: &str) -> (r: bool)
        ensures
            r == scope_matches(path@, scope@),
    {
        let normalized_path = normalized(path);
        let normalized_scope = normalized(scope);
        let ns = normalized_scope.as_str();
        proof {
            reveal_strlit("/*");
        }
        if ends_with(ns, "/*") {
            let n = ns.unicode_len();
            let prefix = ns.substring_char(0, n - 2);
            starts_with(normalized_path.as_str(), prefix)
        } else {
            str_eq(normalized_path.as_str(), ns)
        }
    }

    /// Whether a requested scope is covered by a granted one of capability `t`.
    fn matches_permission_scope(&self, t: PermissionType, requested: &str, granted: &str) -> (r: bool)
        ensures
            r == permission_scope_matches(t, requested@, granted@),
    {
        match t {
            PermissionType::FilesystemRead | PermissionType::FilesystemWrite => self.matches_scope(requested, granted),
            _ => str_eq(requested, granted),
        }
    }

    /// Whether host `domain` matches `pattern`: `*.d` admits `d` and hosts ending in
    /// `.d`; any other pattern admits itself only.
    fn matches_domain(&self, domain: &str, pattern: &str) -> (r: bool)
        ensures
            r == domain_matches(domain@, pattern@),
    {
        proof {
            reveal_strlit("*.");
        }
        if starts_with(pattern, "*.") {
            let pn = pattern.unicode_len();
            let suffix = pattern.substring_char(2, pn);
            if str_eq(domain, suffix) {
                return true;
            }
            if ends_with(domain, suffix) {
                let dn = domain.unicode_len();
                let sn = suffix.unicode_len();
                if dn > sn {
                    return domain.get_char(dn - sn - 1) == '.';
                }
            }
            false
        } else {
            str_eq(domain, pattern)
        }
    }

    /// Whether plugin `plugin_id` already holds `type[:scope]` (scope `*` when absent).
    pub fn has_permission(&self, plugin_id: &str, permission_str: &str) -> (r: bool)
        ensures
            r == match permission_type_named(before_first(permission_str@, ':')) {
                Some(t) => holds_permission(
                    self.grants(),
                    plugin_id@,
                    t,
                    requested_scope(permission_str@),
                ),
                None => false,
            },
    {
        let (kind, scope) = split_permission(permission_str);
        let t = match PermissionType::from_str(kind.as_str()) {
            Some(t) => t,
            None => return false,
        };
        let mut i: usize = 0;
        while i < self.permissions.len()
            invariant
                0 <= i <= self.permissions@.len(),
                permission_type_named(before_first(permission_str@, ':')) == Some(t),
                scope@ == requested_scope(permission_str@),
                forall|j: int|
                    0 <= j < i ==> !((#[trigger] self.permissions@[j]).plugin_id@ == plugin_id@
                        && self.permissions@[j].permission_type == t && self.permissions@[j].granted
                        && (self.permissions@[j].resource_scope@ == "*"@ || permission_scope_matches(
                        t,
                        scope@,
                        self.permissions@[j].resource_scope@,
                    ))),
            decreases self.permissions@.len() - i,
        {
            let p = &self.permissions[i];
            if str_eq(p.plugin_id.as_str(), plugin_id) && p.permission_type == t && p.granted && (
            str_eq(p.resource_scope.as_str(), "*") || self.matches_permission_scope(
                t,
                scope.as_str(),
                p.resource_scope.as_str(),
            )) {
                assert(self.grants()[i as int] == self.permissions@[i as int]);
                return true;
            }
            i = i + 1;
        }
        false
    }

    /// Grants `permission_type` over `resource_scope` to the plugin when the scope is valid
    /// for it; the record is appended and the grant recorded for audit.
    pub fn grant_permission(
        &mut self,
        plugin_id: &str,
        permission_type: PermissionType,
        resource_scope: String,
    ) -> (r: PluginResult<()>)
        requires
            old(self).wf(),
        ensures
            final(self).wf(),
            r is Ok <==> valid_scope(permission_type, resource_scope@),
            r is Ok ==> grant_appended(
                old(self).grants(),
                final(self).grants(),
                plugin_id@,
                permission_type,
                resource_scope@,
            ),
            r is Ok ==> holds_permission(final(self).grants(), plugin_id@, permission_type, resource_scope@),
            r is Err ==> final(self).grants() == old(self).grants(),
            r matches Err(e) ==> e is PermissionDenied,
            final(self).auto_approves() == old(self).auto_approves(),
            final(self).app_data() == old(self).app_data(),
            forall|id: Seq<char>| final(self).limiter_for(id) == old(self).limiter_for(id),
    {
        let permission = PluginPermission {
            plugin_id: owned(plugin_id),
            permission_type,
            resource_scope,
            granted: true,
            granted_at: Some(now_rfc3339()),
            granted_by: Some(owned("user")),
            expires_at: None,
        };
        permission.validate_scope()?;
        let ghost before = self.permissions@;
        self.permissions.push(permission);
        assert(self.permissions@.subrange(0, before.len() as int) =~= before);
        assert(self.rate_limiters == old(self).rate_limiters);
        proof {
            lemma_appended_grant_held(
                old(self).grants(),
                self.grants(),
                plugin_id@,
                permission_type,
                self.permissions@.last().resource_scope@,
            );
        }
        let scope = &self.permissions[self.permissions.len() - 1].resource_scope;
        let scope_text = owned(scope.as_str());
        self.record(plugin_id, &permission_type, scope_text.as_str(), "grant", true, None);
        Ok(())
    }

    /// Asks whether the plugin may have `permission`: approved exactly when the manager
    /// auto-approves; an approval is recorded for audit.
    pub fn request_user_authorization(
        &mut self,
        plugin_id: &str,
        permission: &PluginPermission,
    ) -> (r: PluginResult<bool>)
        requires
            old(self).wf(),
        ensures
            final(self).wf(),
            r == Ok::<bool, PluginError>(old(self).auto_approves()),
            final(self).grants() == old(self).grants(),
            final(self).auto_approves() == old(self).auto_approves(),
            final(self).app_data() == old(self).app_data(),
            forall|id: Seq<char>| final(self).limiter_for(id) == old(self).limiter_for(id),
    {
        if !self.auto_approve {
            return Ok(false);
        }
        self.record(
            plugin_id,
            &permission.permission_type,
            permission.resource_scope.as_str(),
            "request",
            true,
            None,
        );
        Ok(true)
    }

    /// Handles `type[:scope]` from a manifest: the type must be known and the scope valid,
    /// then the request is put to authorization and granted on approval.
    pub fn request_permission(&mut self, plugin_id: &str, permission_str: &str) -> (r: PluginResult<
        (),
    >)
        requires
            old(self).wf(),
        ensures
            final(self).wf(),
            r is Ok <==> (match permission_type_named(before_first(permission_str@, ':')) {
                Some(t) => valid_scope(t, requested_scope(permission_str@)),
                None => false,
            } && old(self).auto_approves()),
            r is Ok ==> grant_appended(
                old(self).grants(),
                final(self).grants(),
                plugin_id@,
                permission_type_named(before_first(permission_str@, ':'))->0,
                requested_scope(permission_str@),
            ),
            r is Ok ==> holds_permission(
                final(self).grants(),
                plugin_id@,
                permission_type_named(before_first(permission_str@, ':'))->0,
                requested_scope(permission_str@),
            ),
            r is Err ==> final(self).grants() == old(self).grants(),
            r matches Err(e) ==> e is PermissionDenied,
            final(self).auto_approves() == old(self).auto_approves(),
            final(self).app_data() == old(self).app_data(),
            forall|id: Seq<char>| final(self).limiter_for(id) == old(self).limiter_for(id),
    {
        let (kind, scope) = split_permission(permission_str);
        let permission_type = match PermissionType::from_str(kind.as_str()) {
            Some(t) => t,
            None => {
                return Err(
                    PluginError::PermissionDenied(
                        joined("Unknown permission type: ", kind.as_str()),
                    ),
                );
            },
        };
        let permission = PluginPermission {
            plugin_id: owned(plugin_id),
            permission_type,
            resource_scope: owned(scope.as_str()),
            granted: false,
            granted_at: None,
            granted_by: None,
            expires_at: None,
        };
        permission.validate_scope()?;
        let approved = self.request_user_authorization(plugin_id, &permission)?;
        if approved {
            self.grant_permission(plugin_id, permission_type, scope)
        } else {
            Err(
                PluginError::PermissionDenied(
                    joined(&joined("Permission denied for plugin ", plugin_id), ": "),
                ),
            )
        }
    }
}

/// Splits `type[:scope]` at the first `:`; the scope is `*` when absent.
pub(crate) fn split_permission(s: &str) -> (r: (String, String))
    ensures
        r.0@ == before_first(s@, ':'),
        r.1@ == requested_scope(s@),
{
    let n = s.unicode_len();
    match find_char(s, ':') {
        Some(i) => (owned(s.substring_char(0, i)), owned(s.substring_char(i + 1, n))),
        None => (owned(s), owned("*")),
    }
}

/// The records that revoking from plugin `id` keeps: all but its records of type `t`,
/// or all but every record of it when `t` is `None`.
pub open spec fn kept_after_revoke(id: Seq<char>, t: Option<PermissionType>) -> spec_fn(
    PluginPermission,
) -> bool {
    |p: PluginPermission|
        !(p.plugin_id@ == id && match t {
            Some(t) => p.permission_type == t,
            None => true,
        })
}

/// A call at `now` on a plugin's bucket `l`, or on a full one when it has none: the
/// bucket after the call and whether the call was admitted.
pub open spec fn acquired_from(l: Option<RateLimiter>, now: u64) -> (RateLimiter, bool) {
    match l {
        Some(l) => acquired(l, now),
        None => acquired(fresh_limiter(now), now),
    }
}

/// The bucket a plugin starts with at `now`.
pub open spec fn fresh_limiter(now: u64) -> RateLimiter {
    RateLimiter {
        capacity: DEFAULT_RATE_LIMIT,
        tokens: DEFAULT_RATE_LIMIT,
        refill_rate: DEFAULT_RATE_LIMIT,
        last_refill: now,
    }
}

impl PermissionManager {
    /// Drops the records that `kept_after_revoke(plugin_id, t)` does not keep, in place.
    fn retain_permissions(&mut self, plugin_id: &str, t: Option<PermissionType>)
        requires
            old(self).wf(),
        ensures
            final(self).wf(),
            final(self).grants() == old(self).grants().filter(kept_after_revoke(plugin_id@, t)),
            final(self).auto_approves() == old(self).auto_approves(),
            final(self).app_data() == old(self).app_data(),
            final(self).pending_audit() == old(self).pending_audit(),
            final(self).rate_limiters == old(self).rate_limiters,
    {
        let ghost orig = self.permissions@;
        let ghost pred = kept_after_revoke(plugin_id@, t);
        let ghost mut k: int = 0;
        let mut i: usize = 0;
        while i < self.permissions.len()
            invariant
                0 <= k <= orig.len(),
                pred == kept_after_revoke(plugin_id@, t),
                self.permissions@ == orig.subrange(0, k).filter(pred) + orig.subrange(
                    k,
                    orig.len() as int,
                ),
                i == orig.subrange(0, k).filter(pred).len(),
                self.rate_limiters == old(self).rate_limiters,
                self.auto_approve == old(self).auto_approve,
                self.app_data_dir == old(self).app_data_dir,
                self.audit_entries == old(self).audit_entries,
                self.default_rate_limit == old(self).default_rate_limit,
            decreases self.permissions@.len() - i,
        {
            let ghost before = self.permissions@;
            let ghost x = orig[k];
            assert(before[i as int] == x) by {
                assert(before[i as int] == orig.subrange(k, orig.len() as int)[0]);
            }
            let p = &self.permissions[i];
            let matches_id = str_eq(p.plugin_id.as_str(), plugin_id);
            let drop = matches_id && match t {
                Some(tt) => p.permission_type == tt,
                None => true,
            };
            proof {
                assert(orig.subrange(0, k + 1) =~= orig.subrange(0, k).push(x));
                orig.subrange(0, k).lemma_filter_push(x, pred);
            }
            if drop {
                self.permissions.remove(i);
                proof {
                    assert(!pred(x));
                    assert(self.permissions@ =~= orig.subrange(0, k + 1).filter(pred) + orig.subrange(
                        k + 1,
                        orig.len() as int,
                    ));
                }
            } else {
                i = i + 1;
                proof {
                    assert(pred(x));
                    assert(self.permissions@ =~= orig.subrange(0, k + 1).filter(pred) + orig.subrange(
                        k + 1,
                        orig.len() as int,
                    ));
                }
            }
            proof {
                k = k + 1;
            }
        }
        proof {
            assert(k == orig.len()) by {
                assert(self.permissions@.len() == i);
            }
            assert(orig.subrange(0, k) =~= orig);
            assert(self.permissions@ =~= orig.filter(pred));
        }
    }

    /// Revokes every record of `permission_type` held by the plugin.
    pub fn revoke_permission(
        &mut self,
        plugin_id: &str,
        permission_type: &PermissionType,
    ) -> (r: PluginResult<()>)
        requires
            old(self).wf(),
        ensures
            final(self).wf(),
            r is Ok,
            final(self).grants() == old(self).grants().filter(
                kept_after_revoke(plugin_id@, Some(*permission_type)),
            ),
            final(self).auto_approves() == old(self).auto_approves(),
            final(self).app_data() == old(self).app_data(),
            forall|id: Seq<char>| final(self).limiter_for(id) == old(self).limiter_for(id),
    {
        self.retain_permissions(plugin_id, Some(*permission_type));
        self.record(plugin_id, permission_type, "*", "revoke", true, None);
        Ok(())
    }

    /// Revokes every record of the plugin and forgets its rate limiter.
    pub fn revoke_all_permissions(&mut self, plugin_id: &str) -> (r: PluginResult<()>)
        requires
            old(self).wf(),
        ensures
            final(self).wf(),
            r is Ok,
            final(self).grants() == old(self).grants().filter(kept_after_revoke(plugin_id@, None)),
            forall|i: int|
                0 <= i < final(self).grants().len() ==> (#[trigger] final(self).grants()[i]).plugin_id@
                    != plugin_id@,
            final(self).limiter_for(plugin_id@) is None,
            forall|id: Seq<char>|
                id != plugin_id@ ==> final(self).limiter_for(id) == old(self).limiter_for(id),
            final(self).auto_approves() == old(self).auto_approves(),
            final(self).app_data() == old(self).app_data(),
    {
        self.retain_permissions(plugin_id, None);
        proof {
            let g = old(self).grants();
            let pred = kept_after_revoke(plugin_id@, None);
            assert forall|i: int| 0 <= i < g.filter(pred).len() implies pred(
                #[trigger] g.filter(pred)[i],
            ) by {
                g.lemma_filter_pred(pred, i);
            }
        }
        let ghost before = *self;
        match self.find_limiter(plugin_id) {
            Some(i) => {
                self.rate_limiters.remove(i);
                proof {
                    self.lemma_limiters_removed(&before, i as int);
                }
            },
            None => {},
        }
        self.record(plugin_id, &PermissionType::FilesystemRead, "*", "revoke_all", true, None);
        Ok(())
    }

    proof fn lemma_limiters_removed(&self, before: &Self, i: int)
        requires
            before.wf(),
            0 <= i < before.rate_limiters@.len(),
            self.rate_limiters@ == before.rate_limiters@.remove(i),
            self.default_rate_limit == before.default_rate_limit,
        ensures
            self.wf(),
            self.limiter_for(before.rate_limiters@[i].plugin_id@) is None,
            forall|id: Seq<char>|
                id != before.rate_limiters@[i].plugin_id@ ==> self.limiter_for(id)
                    == before.limiter_for(id),
    {
        let rl = before.rate_limiters@;
        rl.remove_ensures(i);
        let gone = rl[i].plugin_id@;
        assert forall|a: int, b: int|
            0 <= a < self.rate_limiters@.len() && 0 <= b < self.rate_limiters@.len() && a != b
            implies self.rate_limiters@[a].plugin_id@ != self.rate_limiters@[b].plugin_id@ by {
            let aa = if a < i { a } else { a + 1 };
            let bb = if b < i { b } else { b + 1 };
            assert(self.rate_limiters@[a] == rl[aa]);
            assert(self.rate_limiters@[b] == rl[bb]);
        }
        assert forall|a: int| 0 <= a < self.rate_limiters@.len() implies (
        #[trigger] self.rate_limiters@[a]).limiter.wf() by {
            let aa = if a < i { a } else { a + 1 };
            assert(self.rate_limiters@[a] == rl[aa]);
        }
        if exists|j: int| 0 <= j < self.rate_limiters@.len() && self.rate_limiters@[j].plugin_id@ == gone {
            let j = choose|j: int| 0 <= j < self.rate_limiters@.len() && self.rate_limiters@[j].plugin_id@ == gone;
            let jj = if j < i { j } else { j + 1 };
            assert(self.rate_limiters@[j] == rl[jj]);
        }
        assert forall|id: Seq<char>| id != gone implies self.limiter_for(id) == before.limiter_for(id) by {
            if exists|j: int| 0 <= j < self.rate_limiters@.len() && self.rate_limiters@[j].plugin_id@ == id {
                let j = choose|j: int| 0 <= j < self.rate_limiters@.len() && self.rate_limiters@[j].plugin_id@ == id;
                let jj = if j < i { j } else { j + 1 };
                assert(self.rate_limiters@[j] == rl[jj]);
                self.lemma_limiter_at(j);
                before.lemma_limiter_at(jj);
            }
            if exists|j: int| 0 <= j < rl.len() && rl[j].plugin_id@ == id {
                let j = choose|j: int| 0 <= j < rl.len() && rl[j].plugin_id@ == id;
                assert(j != i);
                let jj = if j < i { j } else { j - 1 };
                assert(self.rate_limiters@[jj] == rl[j]);
            }
        }
    }

    fn find_limiter(&self, plugin_id: &str) -> (r: Option<usize>)
        requires
            self.wf(),
        ensures
            r is None <==> self.limiter_for(plugin_id@) is None,
            r matches Some(i) ==> i < self.rate_limiters@.len() && self.rate_limiters@[i as int].plugin_id@
                == plugin_id@ && self.limiter_for(plugin_id@) == Some(self.rate_limiters@[i as int].limiter),
    {
        let mut i: usize = 0;
        while i < self.rate_limiters.len()
            invariant
                self.wf(),
                0 <= i <= self.rate_limiters@.len(),
                forall|j: int| 0 <= j < i ==> self.rate_limiters@[j].plugin_id@ != plugin_id@,
            decreases self.rate_limiters@.len() - i,
        {
            if str_eq(self.rate_limiters[i].plugin_id.as_str(), plugin_id) {
                proof {
                    self.lemma_limiter_at(i as int);
                }
                return Some(i);
            }
            i = i + 1;
        }
        None
    }
}

impl PermissionManager {
    /// Whether the plugin may read (or, with `write`, write) the AppData-relative path
    /// `relative_path`; the outcome is recorded for audit.
    pub fn validate_filesystem_permission(
        &mut self,
        plugin_id: &str,
        relative_path: &str,
        write: bool,
    ) -> (r: bool)
        requires
            old(self).wf(),
        ensures
            final(self).wf(),
            r == file_access_granted(old(self).grants(), plugin_id@, relative_path@, write),
            final(self).pending_audit().len() == old(self).pending_audit().len() + 1,
            final(self).pending_audit().last().result == r,
            final(self).pending_audit().last().plugin_id@ == plugin_id@,
            !r ==> final(self).pending_audit().last().error_message is Some,
            final(self).grants() == old(self).grants(),
            final(self).auto_approves() == old(self).auto_approves(),
            final(self).app_data() == old(self).app_data(),
            forall|id: Seq<char>| final(self).limiter_for(id) == old(self).limiter_for(id),
    {
        let permission_type = if write {
            PermissionType::FilesystemWrite
        } else {
            PermissionType::FilesystemRead
        };
        let mut i: usize = 0;
        while i < self.permissions.len()
            invariant
                self.wf(),
                *self == *old(self),
                0 <= i <= self.permissions@.len(),
                permission_type == (if write {
                    PermissionType::FilesystemWrite
                } else {
                    PermissionType::FilesystemRead
                }),
                forall|j: int|
                    0 <= j < i ==> !((#[trigger] self.permissions@[j]).plugin_id@ == plugin_id@
                        && self.permissions@[j].permission_type == permission_type
                        && self.permissions@[j].granted && (self.permissions@[j].resource_scope@
                        == "*"@ || scope_matches(
                        relative_path@,
                        file_scope(self.permissions@[j].resource_scope@),
                    ))),
            decreases self.permissions@.len() - i,
        {
            let p = &self.permissions[i];
            if str_eq(p.plugin_id.as_str(), plugin_id) && p.permission_type == permission_type
                && p.granted {
                let scope = p.resource_scope.as_str();
                let allowed = str_eq(scope, "*") || self.matches_scope(
                    relative_path,
                    stripped_file_scope(scope),
                );
                if allowed {
                    assert(self.grants()[i as int] == self.permissions@[i as int]);
                    self.log_validation(plugin_id, &permission_type, relative_path, true, None);
                    return true;
                }
            }
            i = i + 1;
        }
        self.log_validation(
            plugin_id,
            &permission_type,
            relative_path,
            false,
            Some("No matching permission"),
        );
        false
    }

    /// Whether the plugin may reach host `domain`; the outcome is recorded for audit.
    pub fn validate_network_permission(&mut self, plugin_id: &str, domain: &str) -> (r: bool)
        requires
            old(self).wf(),
        ensures
            final(self).wf(),
            r == network_access_granted(old(self).grants(), plugin_id@, domain@),
            final(self).pending_audit().len() == old(self).pending_audit().len() + 1,
            final(self).pending_audit().last().result == r,
            final(self).pending_audit().last().plugin_id@ == plugin_id@,
            !r ==> final(self).pending_audit().last().error_message is Some,
            final(self).grants() == old(self).grants(),
            final(self).auto_approves() == old(self).auto_approves(),
            final(self).app_data() == old(self).app_data(),
            forall|id: Seq<char>| final(self).limiter_for(id) == old(self).limiter_for(id),
    {
        let permission_type = PermissionType::NetworkRequest;
        let mut i: usize = 0;
        while i < self.permissions.len()
            invariant
                self.wf(),
                *self == *old(self),
                0 <= i <= self.permissions@.len(),
                permission_type == PermissionType::NetworkRequest,
                forall|j: int|
                    0 <= j < i ==> !((#[trigger] self.permissions@[j]).plugin_id@ == plugin_id@
                        && self.permissions@[j].permission_type == PermissionType::NetworkRequest
                        && self.permissions@[j].granted && (self.permissions@[j].resource_scope@
                        == "*"@ || domain_matches(domain@, self.permissions@[j].resource_scope@))),
            decreases self.permissions@.len() - i,
        {
            let p = &self.permissions[i];
            if str_eq(p.plugin_id.as_str(), plugin_id) && p.permission_type == permission_type
                && p.granted {
                let scope = p.resource_scope.as_str();
                if str_eq(scope, "*") || self.matches_domain(domain, scope) {
                    assert(self.grants()[i as int] == self.permissions@[i as int]);
                    self.log_validation(plugin_id, &permission_type, domain, true, None);
                    return true;
                }
            }
            i = i + 1;
        }
        self.log_validation(plugin_id, &permission_type, domain, false, Some("No matching permission"));
        false
    }

    /// Takes a network token for the plugin at time `now` (milliseconds); a plugin without
    /// a bucket starts with a full one. A refusal is recorded for audit.
    pub fn check_rate_limit_at(&mut self, plugin_id: &str, now: u64) -> (r: bool)
        requires
            old(self).wf(),
        ensures
            final(self).wf(),
            ({
                let start = match old(self).limiter_for(plugin_id@) {
                    Some(l) => l,
                    None => fresh_limiter(now),
                };
                r == acquired(start, now).1 && final(self).limiter_for(plugin_id@) == Some(
                    acquired(start, now).0,
                )
            }),
            r ==> final(self).pending_audit() == old(self).pending_audit(),
            !r ==> final(self).pending_audit().len() == old(self).pending_audit().len() + 1
                && !final(self).pending_audit().last().result
                && final(self).pending_audit().last().error_message is Some
                && final(self).pending_audit().last().error_message->0@ == "Rate limit exceeded"@,
            forall|id: Seq<char>|
                id != plugin_id@ ==> final(self).limiter_for(id) == old(self).limiter_for(id),
            final(self).grants() == old(self).grants(),
            final(self).auto_approves() == old(self).auto_approves(),
            final(self).app_data() == old(self).app_data(),
    {
        let ghost old_self = *self;
        let i = match self.find_limiter(plugin_id) {
            Some(i) => i,
            None => {
                let limiter = RateLimiter::new(self.default_rate_limit, now);
                self.rate_limiters.push(PluginRateLimiter { plugin_id: owned(plugin_id), limiter });
                proof {
                    let n = old_self.rate_limiters@.len();
                    assert forall|a: int, b: int|
                        0 <= a < self.rate_limiters@.len() && 0 <= b < self.rate_limiters@.len() && a
                            != b implies self.rate_limiters@[a].plugin_id@
                        != self.rate_limiters@[b].plugin_id@ by {
                        if a < n && b < n {
                            assert(self.rate_limiters@[a] == old_self.rate_limiters@[a]);
                            assert(self.rate_limiters@[b] == old_self.rate_limiters@[b]);
                        } else if a < n {
                            assert(self.rate_limiters@[a] == old_self.rate_limiters@[a]);
                            if old_self.rate_limiters@[a].plugin_id@ == plugin_id@ {
                                old_self.lemma_limiter_at(a);
                            }
                        } else if b < n {
                            assert(self.rate_limiters@[b] == old_self.rate_limiters@[b]);
                            if old_self.rate_limiters@[b].plugin_id@ == plugin_id@ {
                                old_self.lemma_limiter_at(b);
                            }
                        }
                    }
                    assert forall|a: int| 0 <= a < self.rate_limiters@.len() implies (
                    #[trigger] self.rate_limiters@[a]).limiter.wf() by {
                        if a < n {
                            assert(self.rate_limiters@[a] == old_self.rate_limiters@[a]);
                        }
                    }
                    assert forall|id: Seq<char>| id != plugin_id@ implies self.limiter_for(id)
                        == old_self.limiter_for(id) by {
                        if exists|j: int|
                            0 <= j < self.rate_limiters@.len() && self.rate_limiters@[j].plugin_id@
                                == id {
                            let j = choose|j: int|
                                0 <= j < self.rate_limiters@.len() && self.rate_limiters@[j].plugin_id@
                                    == id;
                            assert(j < n);
                            assert(self.rate_limiters@[j] == old_self.rate_limiters@[j]);
                            self.lemma_limiter_at(j);
                            old_self.lemma_limiter_at(j);
                        }
                        if exists|j: int|
                            0 <= j < n && old_self.rate_limiters@[j].plugin_id@ == id {
                            let j = choose|j: int|
                                0 <= j < n && old_self.rate_limiters@[j].plugin_id@ == id;
                            assert(self.rate_limiters@[j] == old_self.rate_limiters@[j]);
                        }
                    }
                    self.lemma_limiter_at(n as int);
                }
                self.rate_limiters.len() - 1
            },
        };
        let ghost mid = *self;
        let mut entry = self.rate_limiters.remove(i);
        let allowed = entry.limiter.try_acquire(now);
        self.rate_limiters.insert(i, entry);
        proof {
            let rl = mid.rate_limiters@;
            rl.remove_ensures(i as int);
            assert forall|a: int| 0 <= a < rl.len() && a != i implies #[trigger] self.rate_limiters@[a]
                == rl[a] by {
                if a < i {
                    assert(self.rate_limiters@[a] == rl.remove(i as int)[a]);
                } else {
                    assert(self.rate_limiters@[a] == rl.remove(i as int)[a - 1]);
                }
            }
            assert(self.rate_limiters@.len() == rl.len());
            assert(self.rate_limiters@[i as int].plugin_id == rl[i as int].plugin_id);
            assert forall|a: int, b: int|
                0 <= a < self.rate_limiters@.len() && 0 <= b < self.rate_limiters@.len() && a != b
                implies self.rate_limiters@[a].plugin_id@ != self.rate_limiters@[b].plugin_id@ by {
                assert(self.rate_limiters@[a].plugin_id == rl[a].plugin_id);
                assert(self.rate_limiters@[b].plugin_id == rl[b].plugin_id);
            }
            assert forall|a: int| 0 <= a < self.rate_limiters@.len() implies (
            #[trigger] self.rate_limiters@[a]).limiter.wf() by {
                if a != i {
                    assert(self.rate_limiters@[a] == rl[a]);
                }
            }
            self.lemma_limiter_at(i as int);
            assert forall|id: Seq<char>| id != plugin_id@ implies self.limiter_for(id)
                == mid.limiter_for(id) by {
                if exists|j: int|
                    0 <= j < self.rate_limiters@.len() && self.rate_limiters@[j].plugin_id@ == id {
                    let j = choose|j: int|
                        0 <= j < self.rate_limiters@.len() && self.rate_limiters@[j].plugin_id@
                            == id;
                    assert(j != i);
                    self.lemma_limiter_at(j);
                    mid.lemma_limiter_at(j);
                }
                if exists|j: int| 0 <= j < rl.len() && rl[j].plugin_id@ == id {
                    let j = choose|j: int| 0 <= j < rl.len() && rl[j].plugin_id@ == id;
                    assert(j != i);
                    assert(self.rate_limiters@[j] == rl[j]);
                }
            }
        }
        if !allowed {
            self.log_validation(
                plugin_id,
                &PermissionType::NetworkRequest,
                "rate_limit",
                false,
                Some("Rate limit exceeded"),
            );
        }
        allowed
    }

    /// Takes a network token for the plugin at the current time.
    pub fn check_rate_limit(&mut self, plugin_id: &str) -> (r: bool)
        requires
            old(self).wf(),
        ensures
            final(self).wf(),
            exists|now: u64|
                r == (#[trigger] acquired_from(old(self).limiter_for(plugin_id@), now)).1
                    && final(self).limiter_for(plugin_id@) == Some(
                    acquired_from(old(self).limiter_for(plugin_id@), now).0,
                ),
            forall|id: Seq<char>|
                id != plugin_id@ ==> final(self).limiter_for(id) == old(self).limiter_for(id),
            final(self).grants() == old(self).grants(),
            final(self).auto_approves() == old(self).auto_approves(),
            final(self).app_data() == old(self).app_data(),
    {
        let now = clock_millis();
        let r = self.check_rate_limit_at(plugin_id, now);
        assert(r == acquired_from(old(self).limiter_for(plugin_id@), now).1 && self.limiter_for(plugin_id@)
            == Some(acquired_from(old(self).limiter_for(plugin_id@), now).0));
        r
    }
}

/// A file scope without a leading `AppData/`.
fn stripped_file_scope(scope: &str) -> (r: &str)
    ensures
        r@ == file_scope(scope@),
{
    proof {
        reveal_strlit("AppData/");
    }
    if starts_with(scope, "AppData/") {
        let n = scope.unicode_len();
        scope.substring_char(8, n)
    } else {
        scope
    }
}

/// The bucket after calls at `times`, one after the other, and how many were admitted.
pub open spec fn run_calls(l: RateLimiter, times: Seq<u64>) -> (RateLimiter, nat)
    decreases times.len(),
{
    if times.len() == 0 {
        (l, 0)
    } else {
        let (mid, n) = run_calls(l, times.drop_last());
        let (after, ok) = acquired(mid, times.last());
        (after, if ok { n + 1 } else { n })
    }
}

proof fn lemma_floor_add(x: int, y: int, c: int)
    requires
        x >= 0,
        y >= 0,
        c > 0,
    ensures
        x / c + y / c <= (x + y) / c,
{
    assert(x / c + y / c <= (x + y) / c) by (nonlinear_arith)
        requires
            x >= 0,
            y >= 0,
            c > 0,
    {
        let qx = x / c;
        let qy = y / c;
        assert(qx * c <= x);
        assert(qy * c <= y);
        assert((qx + qy) * c <= x + y);
    }
}

proof fn lemma_div_mono(x: int, y: int, c: int)
    requires
        0 <= x <= y,
        c > 0,
    ensures
        x / c <= y / c,
{
    assert(x / c <= y / c) by (nonlinear_arith)
        requires
            0 <= x <= y,
            c > 0,
    ;
}

proof fn lemma_run_calls_budget(l: RateLimiter, times: Seq<u64>)
    requires
        l.wf(),
        forall|i: int, j: int| 0 <= i <= j < times.len() ==> times[i] <= times[j],
        forall|i: int| 0 <= i < times.len() ==> l.last_refill <= #[trigger] times[i],
    ensures
        ({
            let (after, n) = run_calls(l, times);
            &&& after.wf()
            &&& after.capacity == l.capacity
            &&& after.refill_rate == l.refill_rate
            &&& l.last_refill <= after.last_refill
            &&& times.len() > 0 ==> after.last_refill <= times.last()
            &&& after.tokens + n <= l.tokens + ((after.last_refill - l.last_refill) * l.refill_rate) / 60000
        }),
    decreases times.len(),
{
    if times.len() > 0 {
        let prefix = times.drop_last();
        lemma_run_calls_budget(l, prefix);
        let (mid, n) = run_calls(l, prefix);
        let now = times.last();
        if prefix.len() > 0 {
            assert(prefix.last() == times[times.len() - 2]);
        }
        assert(mid.last_refill <= now);
        let r = refilled(mid, now);
        let a = refill_amount(mid.last_refill, now, mid.refill_rate);
        let rate = l.refill_rate as int;
        if a > 0 {
            lemma_floor_add(
                (mid.last_refill - l.last_refill) * rate,
                (now - mid.last_refill) * rate,
                60000,
            );
            assert((mid.last_refill - l.last_refill) * rate + (now - mid.last_refill) * rate == (now
                - l.last_refill) * rate) by (nonlinear_arith);
        }
    }
}

/// However calls are spread over a window of `w` milliseconds that starts at the last
/// refill, the bucket admits at most its tokens at the start plus what it regains over
/// the window: from a full bucket of 100 per minute, at most 100 plus the window's share
/// of 100 per minute.
pub proof fn lemma_rate_limit_window(l: RateLimiter, times: Seq<u64>, w: nat)
    requires
        l.wf(),
        forall|i: int, j: int| 0 <= i <= j < times.len() ==> times[i] <= times[j],
        forall|i: int| 0 <= i < times.len() ==> l.last_refill <= #[trigger] times[i] <= l.last_refill + w,
    ensures
        run_calls(l, times).1 <= l.tokens + (w * l.refill_rate) / 60000,
{
    lemma_run_calls_budget(l, times);
    let (after, n) = run_calls(l, times);
    if times.len() > 0 {
        assert(times.last() == times[times.len() - 1]);
    }
    assert(after.last_refill - l.last_refill <= w);
    assert((after.last_refill - l.last_refill) * l.refill_rate <= w * l.refill_rate) by (nonlinear_arith)
        requires
            0 <= after.last_refill - l.last_refill <= w,
            l.refill_rate >= 0,
    ;
    lemma_div_mono((after.last_refill - l.last_refill) * l.refill_rate, w * l.refill_rate, 60000);
}

} // verus!
