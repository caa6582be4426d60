//! Plugin manifests: activation events, contribution points and the validation rules.
use vstd::prelude::*;
use vstd::view::View as _;
use crate::state::{PluginError, PluginResult};
use crate::text::{find_char, first_index_of, owned, str_eq, joined};

verus! {

/// An ASCII letter or digit.
pub open spec fn is_ascii_alnum(c: char) -> bool {
    ('a' <= c && c <= 'z') || ('A' <= c && c <= 'Z') || ('0' <= c && c <= '9')
}

/// A character allowed in a contribution identifier: `[A-Za-z0-9.-]`.
pub open spec fn is_identifier_char(c: char) -> bool {
    is_ascii_alnum(c) || c == '.' || c == '-'
}

/// A character allowed in a plugin name: `[A-Za-z0-9_-]`.
pub open spec fn is_name_char(c: char) -> bool {
    is_ascii_alnum(c) || c == '_' || c == '-'
}

/// A contribution identifier: non-empty, with a `.`, from `[A-Za-z0-9.-]` only.
pub open spec fn valid_identifier(s: Seq<char>) -> bool {
    s.len() > 0 && s.contains('.') && forall|i: int| 0 <= i < s.len() ==> is_identifier_char(#[trigger] s[i])
}

/// A valid plugin name: every character from `[A-Za-z0-9_-]`.
pub open spec fn valid_name_chars(s: Seq<char>) -> bool {
    forall|i: int| 0 <= i < s.len() ==> is_name_char(#[trigger] s[i])
}

pub open spec fn is_digit(c: char) -> bool {
    '0' <= c && c <= '9'
}

/// The value of a string of decimal digits.
pub open spec fn digits_value(s: Seq<char>) -> nat
    decreases s.len(),
{
    if s.len() == 0 {
        0
    } else {
        digits_value(s.drop_last()) * 10 + ((s.last() as u32 - '0' as u32) as nat)
    }
}

/// A decimal integer that fits in 32 bits.
pub open spec fn is_u32_numeral(s: Seq<char>) -> bool {
    s.len() > 0 && (forall|i: int| 0 <= i < s.len() ==> is_digit(#[trigger] s[i])) && digits_value(s)
        <= u32::MAX
}

/// The text before the first `c`, or all of `s`.
pub open spec fn before_first(s: Seq<char>, c: char) -> Seq<char> {
    match first_index_of(s, c) {
        Some(i) => s.subrange(0, i),
        None => s,
    }
}

/// The text after the first `c`, if `s` holds one.
pub open spec fn after_first(s: Seq<char>, c: char) -> Option<Seq<char>> {
    match first_index_of(s, c) {
        Some(i) => Some(s.subrange(i + 1, s.len() as int)),
        None => None,
    }
}

/// `X.Y.Z`: exactly three dot-separated decimal integers.
pub open spec fn valid_version(s: Seq<char>) -> bool {
    match after_first(s, '.') {
        None => false,
        Some(rest) => match after_first(rest, '.') {
            None => false,
            Some(last) => !last.contains('.') && is_u32_numeral(before_first(s, '.'))
                && is_u32_numeral(before_first(rest, '.')) && is_u32_numeral(last),
        },
    }
}

/// A version, optionally preceded by one of `^`, `~`, `>=`, `>`, `<`, `=`.
pub open spec fn valid_version_range(s: Seq<char>) -> bool {
    valid_version(s) || (s.len() >= 2 && s[0] == '>' && s[1] == '=' && valid_version(
        s.subrange(2, s.len() as int),
    )) || (s.len() >= 1 && (s[0] == '^' || s[0] == '~' || s[0] == '>' || s[0] == '<' || s[0]
        == '=') && valid_version(s.subrange(1, s.len() as int)))
}

/// An activation event string: `onCommand:<id>`, `onView:<id>`, `onStartupFinished`,
/// `onLanguage:<id>` or `onFileOpen:<glob>`.
pub open spec fn valid_activation_event(s: Seq<char>) -> bool {
    let kind = before_first(s, ':');
    kind == "onStartupFinished"@ || (after_first(s, ':') is Some && (kind == "onCommand"@ || kind
        == "onView"@ || kind == "onLanguage"@ || kind == "onFileOpen"@))
}

/// The plugin types a manifest may declare.
pub open spec fn valid_plugin_type(s: Seq<char>) -> bool {
    s == "synchronous"@ || s == "asynchronous"@ || s == "static"@ || s == "service"@ || s
        == "messagePreprocessor"@
}

proof fn lemma_digits_value_prefix(s: Seq<char>, i: int)
    requires
        0 <= i <= s.len(),
    ensures
        digits_value(s.subrange(0, i)) <= digits_value(s),
    decreases s.len() - i,
{
    if i < s.len() {
        lemma_digits_value_prefix(s, i + 1);
        let p = s.subrange(0, i + 1);
        assert(p.drop_last() =~= s.subrange(0, i));
    } else {
        assert(s.subrange(0, i) =~= s);
    }
}

/// Whether `s` is a decimal integer that fits in 32 bits.
fn is_u32_numeral_str(s: &str) -> (r: bool)
    ensures
        r == is_u32_numeral(s@),
{
    let n = s.unicode_len();
    if n == 0 {
        return false;
    }
    let mut acc: u64 = 0;
    let mut i: usize = 0;
    while i < n
        invariant
            n == s@.len(),
            0 <= i <= n,
            forall|j: int| 0 <= j < i ==> is_digit(#[trigger] s@[j]),
            acc == digits_value(s@.subrange(0, i as int)),
            acc <= u32::MAX,
        decreases n - i,
    {
        let c = s.get_char(i);
        if !('0' <= c && c <= '9') {
            return false;
        }
        let d = (c as u32 - '0' as u32) as u64;
        let next = acc * 10 + d;
        proof {
            assert(s@.subrange(0, i + 1).drop_last() =~= s@.subrange(0, i as int));
        }
        if next > 4294967295u64 {
            proof {
                lemma_digits_value_prefix(s@, i + 1);
            }
            return false;
        }
        acc = next;
        i = i + 1;
    }
    assert(s@.subrange(0, n as int) =~= s@);
    true
}

/// Whether `version` has the form `X.Y.Z` with three decimal integers.
pub fn is_valid_version(version: &str) -> (r: bool)
    ensures
        r == valid_version(version@),
{
    let n = version.unicode_len();
    match find_char(version, '.') {
        None => false,
        Some(i) => {
            let first = version.substring_char(0, i);
            let rest = version.substring_char(i + 1, n);
            let m = rest.unicode_len();
            match find_char(rest, '.') {
                None => false,
                Some(j) => {
                    let second = rest.substring_char(0, j);
                    let last = rest.substring_char(j + 1, m);
                    match find_char(last, '.') {
                        Some(_) => false,
                        None => is_u32_numeral_str(first) && is_u32_numeral_str(second)
                            && is_u32_numeral_str(last),
                    }
                },
            }
        },
    }
}

/// Whether `version_range` is a version with at most one range operator before it.
pub fn is_valid_version_range(version_range: &str) -> (r: bool)
    ensures
        r == valid_version_range(version_range@),
{
    let n = version_range.unicode_len();
    if is_valid_version(version_range) {
        return true;
    }
    if n >= 2 && version_range.get_char(0) == '>' && version_range.get_char(1) == '=' {
        if is_valid_version(version_range.substring_char(2, n)) {
            return true;
        }
    }
    if n >= 1 {
        let c = version_range.get_char(0);
        if c == '^' || c == '~' || c == '>' || c == '<' || c == '=' {
            return is_valid_version(version_range.substring_char(1, n));
        }
    }
    false
}

/// Whether every character of `s` is allowed in a contribution identifier.
fn all_identifier_chars(s: &str) -> (r: bool)
    ensures
        r == forall|i: int| 0 <= i < s@.len() ==> is_identifier_char(#[trigger] s@[i]),
{
    let n = s.unicode_len();
    let mut i: usize = 0;
    while i < n
        invariant
            n == s@.len(),
            0 <= i <= n,
            forall|j: int| 0 <= j < i ==> is_identifier_char(#[trigger] s@[j]),
        decreases n - i,
    {
        let c = s.get_char(i);
        if !(('a' <= c && c <= 'z') || ('A' <= c && c <= 'Z') || ('0' <= c && c <= '9') || c == '.'
            || c == '-') {
            return false;
        }
        i = i + 1;
    }
    true
}

/// Whether every character of `s` is allowed in a plugin name.
fn all_name_chars(s: &str) -> (r: bool)
    ensures
        r == valid_name_chars(s@),
{
    let n = s.unicode_len();
    let mut i: usize = 0;
    while i < n
        invariant
            n == s@.len(),
            0 <= i <= n,
            forall|j: int| 0 <= j < i ==> is_name_char(#[trigger] s@[j]),
        decreases n - i,
    {
        let c = s.get_char(i);
        if !(('a' <= c && c <= 'z') || ('A' <= c && c <= 'Z') || ('0' <= c && c <= '9') || c == '_'
            || c == '-') {
            return false;
        }
        i = i + 1;
    }
    true
}

/// Checks a contribution identifier; the error names `what` and the identifier.
fn check_identifier(identifier: &String, what: &str) -> (r: PluginResult<()>)
    ensures
        r is Ok <==> valid_identifier(identifier@),
        r matches Err(e) ==> e is ManifestError,
{
    let id = identifier.as_str();
    if id.unicode_len() == 0 {
        return Err(PluginError::ManifestError(joined(what, " identifier cannot be empty")));
    }
    if !crate::text::contains_char(id, '.') {
        return Err(
            PluginError::ManifestError(
                joined(&joined(what, " identifier must have the form 'pluginId.name': "), id),
            ),
        );
    }
    if !all_identifier_chars(id) {
        return Err(
            PluginError::ManifestError(
                joined(&joined(what, " identifier has invalid characters: "), id),
            ),
        );
    }
    Ok(())
}

/// An activation trigger declared by a manifest.
#[derive(Debug, Clone)]
pub enum ActivationEvent {
    OnCommand(String),
    OnView(String),
    OnStartupFinished,
    OnLanguage(String),
    OnFileOpen(String),
}

impl ActivationEvent {
    /// Parses `type` or `type:value`, splitting at the first `:`.
    pub fn from_str(s: &str) -> (r: PluginResult<Self>)
        ensures
            r is Ok <==> valid_activation_event(s@),
            r matches Err(e) ==> e is ManifestError,
            r matches Ok(ActivationEvent::OnCommand(v)) ==> before_first(s@, ':') == "onCommand"@
                && after_first(s@, ':') == Some(v@),
            r matches Ok(ActivationEvent::OnView(v)) ==> before_first(s@, ':') == "onView"@
                && after_first(s@, ':') == Some(v@),
            r matches Ok(ActivationEvent::OnLanguage(v)) ==> before_first(s@, ':') == "onLanguage"@
                && after_first(s@, ':') == Some(v@),
            r matches Ok(ActivationEvent::OnFileOpen(v)) ==> before_first(s@, ':') == "onFileOpen"@
                && after_first(s@, ':') == Some(v@),
            r matches Ok(ActivationEvent::OnStartupFinished) ==> before_first(s@, ':')
                == "onStartupFinished"@,
    {
        let n = s.unicode_len();
        let (kind, value): (&str, Option<&str>) = match find_char(s, ':') {
            Some(i) => (s.substring_char(0, i), Some(s.substring_char(i + 1, n))),
            None => (s, None),
        };
        if str_eq(kind, "onStartupFinished") {
            return Ok(ActivationEvent::OnStartupFinished);
        }
        let is_command = str_eq(kind, "onCommand");
        let is_view = str_eq(kind, "onView");
        let is_language = str_eq(kind, "onLanguage");
        let is_file = str_eq(kind, "onFileOpen");
        if !(is_command || is_view || is_language || is_file) {
            return Err(PluginError::ManifestError(joined("Unknown activation event: ", kind)));
        }
        match value {
            None => Err(PluginError::ManifestError(joined("Activation event requires a value: ", s))),
            Some(v) => {
                let v = owned(v);
                if is_command {
                    Ok(ActivationEvent::OnCommand(v))
                } else if is_view {
                    Ok(ActivationEvent::OnView(v))
                } else if is_language {
                    Ok(ActivationEvent::OnLanguage(v))
                } else {
                    Ok(ActivationEvent::OnFileOpen(v))
                }
            },
        }
    }
}

/// A command contributed by a plugin.
#[derive(Debug, Clone)]
pub struct Command {
    pub identifier: String,
    pub title: String,
    pub description: Option<String>,
}

impl Command {
    pub open spec fn valid(&self) -> bool {
        valid_identifier(self.identifier@) && self.title@.len() > 0
    }

    /// Checks the identifier format and that the title is present.
    pub fn validate(&self) -> (r: PluginResult<()>)
        ensures
            r is Ok <==> self.valid(),
            r matches Err(e) ==> e is ManifestError,
    {
        check_identifier(&self.identifier, "Command")?;
        if self.title.as_str().unicode_len() == 0 {
            return Err(PluginError::ManifestError(owned("Command title cannot be empty")));
        }
        Ok(())
    }
}

/// Where a contributed view is shown.
#[derive(Debug, Clone, Copy, PartialEq, Eq)]
pub enum ViewLocation {
    Sidebar,
    Panel,
    Editor,
}

/// A view contributed by a plugin.
#[derive(Debug, Clone)]
pub struct View {
    pub identifier: String,
    pub title: String,
    pub description: Option<String>,
    pub location: ViewLocation,
}

impl View {
    pub open spec fn valid(&self) -> bool {
        valid_identifier(self.identifier@) && self.title@.len() > 0
    }

    /// Checks the identifier format and that the title is present.
    pub fn validate(&self) -> (r: PluginResult<()>)
        ensures
            r is Ok <==> self.valid(),
            r matches Err(e) ==> e is ManifestError,
    {
        check_identifier(&self.identifier, "View")?;
        if self.title.as_str().unicode_len() == 0 {
            return Err(PluginError::ManifestError(owned("View title cannot be empty")));
        }
        Ok(())
    }
}

/// An event contributed by a plugin.
#[derive(Debug, Clone)]
pub struct Event {
    pub identifier: String,
    pub description: Option<String>,
}

impl Event {
    pub open spec fn valid(&self) -> bool {
        valid_identifier(self.identifier@)
    }

    /// Checks the identifier format.
    pub fn validate(&self) -> (r: PluginResult<()>)
        ensures
            r is Ok <==> self.valid(),
            r matches Err(e) ==> e is ManifestError,
    {
        check_identifier(&self.identifier, "Event")
    }
}

/// A key binding contributed by a plugin.
#[derive(Debug, Clone)]
pub struct Keybinding {
    pub command: String,
    pub key: String,
    pub when: Option<String>,
}

impl Keybinding {
    pub open spec fn valid(&self) -> bool {
        self.command@.len() > 0 && self.key@.len() > 0
    }

    /// Checks that the command and the key are present.
    pub fn validate(&self) -> (r: PluginResult<()>)
        ensures
            r is Ok <==> self.valid(),
            r matches Err(e) ==> e is ManifestError,
    {
        if self.command.as_str().unicode_len() == 0 {
            return Err(PluginError::ManifestError(owned("Keybinding command cannot be empty")));
        }
        if self.key.as_str().unicode_len() == 0 {
            return Err(PluginError::ManifestError(owned("Keybinding key cannot be empty")));
        }
        Ok(())
    }
}

/// Everything a plugin contributes to the host.
#[derive(Debug, Clone)]
pub struct ContributionPoints {
    pub commands: Vec<Command>,
    pub views: Vec<View>,
    pub events: Vec<Event>,
    pub keybindings: Vec<Keybinding>,
}

impl ContributionPoints {
    pub open spec fn valid(&self) -> bool {
        &&& forall|i: int| 0 <= i < self.commands@.len() ==> (#[trigger] self.commands@[i]).valid()
        &&& forall|i: int| 0 <= i < self.views@.len() ==> (#[trigger] self.views@[i]).valid()
        &&& forall|i: int| 0 <= i < self.events@.len() ==> (#[trigger] self.events@[i]).valid()
        &&& forall|i: int| 0 <= i < self.keybindings@.len() ==> (
        #[trigger] self.keybindings@[i]).valid()
    }

    /// No contributions.
    pub fn empty() -> (r: Self)
        ensures
            r.commands@.len() == 0,
            r.views@.len() == 0,
            r.events@.len() == 0,
            r.keybindings@.len() == 0,
    {
        ContributionPoints {
            commands: Vec::new(),
            views: Vec::new(),
            events: Vec::new(),
            keybindings: Vec::new(),
        }
    }

    /// Checks every contribution, stopping at the first invalid one.
    pub fn validate(&self) -> (r: PluginResult<()>)
        ensures
            r is Ok <==> self.valid(),
            r matches Err(e) ==> e is ManifestError,
    {
        let mut i: usize = 0;
        while i < self.commands.len()
            invariant
                0 <= i <= self.commands@.len(),
                forall|j: int| 0 <= j < i ==> (#[trigger] self.commands@[j]).valid(),
            decreases self.commands@.len() - i,
        {
            self.commands[i].validate()?;
            i = i + 1;
        }
        let mut i: usize = 0;
        while i < self.views.len()
            invariant
                0 <= i <= self.views@.len(),
                forall|j: int| 0 <= j < i ==> (#[trigger] self.views@[j]).valid(),
            decreases self.views@.len() - i,
        {
            self.views[i].validate()?;
            i = i + 1;
        }
        let mut i: usize = 0;
        while i < self.events.len()
            invariant
                0 <= i <= self.events@.len(),
                forall|j: int| 0 <= j < i ==> (#[trigger] self.events@[j]).valid(),
            decreases self.events@.len() - i,
        {
            self.events[i].validate()?;
            i = i + 1;
        }
        let mut i: usize = 0;
        while i < self.keybindings.len()
            invariant
                0 <= i <= self.keybindings@.len(),
                forall|j: int| 0 <= j < i ==> (#[trigger] self.keybindings@[j]).valid(),
            decreases self.keybindings@.len() - i,
        {
            self.keybindings[i].validate()?;
            i = i + 1;
        }
        Ok(())
    }
}

/// A plugin's declarative manifest.
#[derive(Debug, Clone)]
pub struct PluginManifest {
    pub manifest_version: String,
    pub name: String,
    pub display_name: String,
    pub version: String,
    pub description: String,
    pub author: String,
    pub plugin_type: String,
    pub main: String,
    pub activation_events: Vec<String>,
    pub permissions: Vec<String>,
    pub contributes: ContributionPoints,
    pub engines: Vec<(String, String)>,
    /// Dependency name and version range, names unique.
    pub dependencies: Vec<(String, String)>,
}

/// The plugin type a manifest gets when it names none.
pub fn default_plugin_type() -> (r: String)
    ensures
        r@ == "synchronous"@,
{
    owned("synchronous")
}

/// The entry point a manifest gets when it names none.
pub fn default_main() -> (r: String)
    ensures
        r@ == "index.js"@,
{
    owned("index.js")
}

impl PluginManifest {
    /// Every rule a manifest must meet.
    pub open spec fn valid(&self) -> bool {
        &&& self.name@.len() > 0
        &&& self.version@.len() > 0
        &&& self.description@.len() > 0
        &&& valid_version(self.manifest_version@)
        &&& valid_version(self.version@)
        &&& valid_name_chars(self.name@)
        &&& valid_plugin_type(self.plugin_type@)
        &&& forall|i: int|
            0 <= i < self.activation_events@.len() ==> valid_activation_event(
                #[trigger] self.activation_events@[i]@,
            )
        &&& self.contributes.valid()
        &&& forall|i: int|
            0 <= i < self.dependencies@.len() ==> valid_version_range(
                (#[trigger] self.dependencies@[i]).1@,
            )
    }

    /// Applies every manifest rule; the first one broken is reported.
    pub fn validate(&self) -> (r: PluginResult<()>)
        ensures
            r is Ok <==> self.valid(),
            r matches Err(e) ==> e is ManifestValidation,
    {
        if self.name.as_str().unicode_len() == 0 {
            return Err(PluginError::ManifestValidation(owned("Missing required field: name")));
        }
        if self.version.as_str().unicode_len() == 0 {
            return Err(PluginError::ManifestValidation(owned("Missing required field: version")));
        }
        if self.description.as_str().unicode_len() == 0 {
            return Err(
                PluginError::ManifestValidation(owned("Missing required field: description")),
            );
        }
        if !is_valid_version(self.manifest_version.as_str()) {
            return Err(
                PluginError::ManifestValidation(
                    joined("Invalid manifest version format: ", self.manifest_version.as_str()),
                ),
            );
        }
        if !is_valid_version(self.version.as_str()) {
            return Err(
                PluginError::ManifestValidation(
                    joined("Invalid version format: ", self.version.as_str()),
                ),
            );
        }
        if !all_name_chars(self.name.as_str()) {
            return Err(
                PluginError::ManifestValidation(
                    joined("Invalid plugin name: ", self.name.as_str()),
                ),
            );
        }
        let t = self.plugin_type.as_str();
        if !(str_eq(t, "synchronous") || str_eq(t, "asynchronous") || str_eq(t, "static")
            || str_eq(t, "service") || str_eq(t, "messagePreprocessor")) {
            return Err(PluginError::ManifestValidation(joined("Invalid plugin type: ", t)));
        }
        let mut i: usize = 0;
        while i < self.activation_events.len()
            invariant
                0 <= i <= self.activation_events@.len(),
                forall|j: int|
                    0 <= j < i ==> valid_activation_event(#[trigger] self.activation_events@[j]@),
            decreases self.activation_events@.len() - i,
        {
            if ActivationEvent::from_str(self.activation_events[i].as_str()).is_err() {
                return Err(
                    PluginError::ManifestValidation(
                        joined("Invalid activation event: ", self.activation_events[i].as_str()),
                    ),
                );
            }
            i = i + 1;
        }
        if self.contributes.validate().is_err() {
            return Err(PluginError::ManifestValidation(owned("Invalid contribution point")));
        }
        let mut i: usize = 0;
        while i < self.dependencies.len()
            invariant
                0 <= i <= self.dependencies@.len(),
                forall|j: int|
                    0 <= j < i ==> valid_version_range((#[trigger] self.dependencies@[j]).1@),
            decreases self.dependencies@.len() - i,
        {
            let dep = &self.dependencies[i];
            if !is_valid_version_range(dep.1.as_str()) {
                return Err(
                    PluginError::ManifestValidation(
                        joined(
                            &joined(&joined("Invalid dependency version for ", dep.0.as_str()), ": "),
                            dep.1.as_str(),
                        ),
                    ),
                );
            }
            i = i + 1;
        }
        Ok(())
    }
}

impl Default for PluginManifest {
    /// An empty manifest of version `1.0.0` with the default type and entry point.
    fn default() -> (r: Self)
        ensures
            r.manifest_version@ == "1.0.0"@,
            r.name@.len() == 0,
            r.display_name@.len() == 0,
            r.version@ == "1.0.0"@,
            r.description@.len() == 0,
            r.author@.len() == 0,
            r.plugin_type@ == "synchronous"@,
            r.main@ == "index.js"@,
            r.activation_events@.len() == 0,
            r.permissions@.len() == 0,
            r.contributes.commands@.len() == 0,
            r.contributes.views@.len() == 0,
            r.contributes.events@.len() == 0,
            r.contributes.keybindings@.len() == 0,
            r.engines@.len() == 0,
            r.dependencies@.len() == 0,
    {
        PluginManifest {
            manifest_version: owned("1.0.0"),
            name: String::new(),
            display_name: String::new(),
            version: owned("1.0.0"),
            description: String::new(),
            author: String::new(),
            plugin_type: default_plugin_type(),
            main: default_main(),
            activation_events: Vec::new(),
            permissions: Vec::new(),
            contributes: ContributionPoints::empty(),
            engines: Vec::new(),
            dependencies: Vec::new(),
        }
    }
}

/// Validates manifests that the host has read and decoded.
pub struct ManifestParser;

impl ManifestParser {
    pub fn new() -> (r: Self) {
        ManifestParser
    }

    /// Hands back `manifest` when it meets every rule, else the rule it breaks.
    pub fn parse_and_validate(&self, manifest: PluginManifest) -> (r: PluginResult<PluginManifest>)
        ensures
            r is Ok <==> manifest.valid(),
            r matches Ok(m) ==> m == manifest,
            r matches Err(e) ==> e is ManifestValidation,
    {
        manifest.validate()?;
        Ok(manifest)
    }
}

} // verus!
