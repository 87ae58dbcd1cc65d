//! Configuration: the settings tree, where each value came from, validation, and the
//! places a configuration file is looked for.
use vstd::prelude::*;
use vstd::string::StringExecFns;

verus! {

/// The whole configuration file, each section optional.
pub struct Config {
    pub logging: Option<LoggingConfig>,
    pub summary: Option<SummaryConfig>,
    pub compress: Option<CompressConfig>,
    pub server: Option<ServerConfig>,
    pub model: Option<ModelConfig>,
}

pub struct LoggingConfig {
    pub enabled: Option<bool>,
}

pub struct SummaryConfig {
    pub disable: Option<bool>,
    pub threshold: Option<usize>,
    pub timeout_secs: Option<u64>,
}

pub struct CompressConfig {
    pub prompt: Option<String>,
}

pub struct ServerConfig {
    pub control_tcp: Option<String>,
}

pub struct ModelConfig {
    pub name: Option<String>,
    pub addr: Option<String>,
}

/// Where a configuration value came from.
#[derive(Debug, Clone, Copy, PartialEq, Eq, Structural)]
pub enum Source {
    Config,
    Missing,
}

/// The source that goes with an optional value: `Config` exactly when it is present.
pub open spec fn source_of<T>(v: Option<T>) -> Source {
    if v is Some {
        Source::Config
    } else {
        Source::Missing
    }
}

/// The characters of an optional string.
pub open spec fn opt_chars(s: Option<String>) -> Option<Seq<char>> {
    match s {
        Some(s) => Some(s@),
        None => None,
    }
}

fn clone_opt_string(s: &Option<String>) -> (r: Option<String>)
    ensures
        opt_chars(r) == opt_chars(*s),
{
    match s {
        Some(v) => Some(v.clone()),
        None => None,
    }
}

impl Config {
    /// The `logging.enabled` value.
    pub open spec fn logging_enabled_value(&self) -> Option<bool> {
        match self.logging {
            Some(l) => l.enabled,
            None => None,
        }
    }

    /// The `summary.disable` value.
    pub open spec fn summary_disable_value(&self) -> Option<bool> {
        match self.summary {
            Some(s) => s.disable,
            None => None,
        }
    }

    /// The `summary.threshold` value.
    pub open spec fn summary_threshold_value(&self) -> Option<usize> {
        match self.summary {
            Some(s) => s.threshold,
            None => None,
        }
    }

    /// The `summary.timeout_secs` value.
    pub open spec fn summary_timeout_value(&self) -> Option<u64> {
        match self.summary {
            Some(s) => s.timeout_secs,
            None => None,
        }
    }

    /// The `compress.prompt` text.
    pub open spec fn compress_prompt_value(&self) -> Option<Seq<char>> {
        match self.compress {
            Some(c) => opt_chars(c.prompt),
            None => None,
        }
    }

    /// The `server.control_tcp` text.
    pub open spec fn control_tcp_value(&self) -> Option<Seq<char>> {
        match self.server {
            Some(s) => opt_chars(s.control_tcp),
            None => None,
        }
    }

    /// The `model.addr` text.
    pub open spec fn model_addr_value(&self) -> Option<Seq<char>> {
        match self.model {
            Some(m) => opt_chars(m.addr),
            None => None,
        }
    }

    /// The `model.name` text.
    pub open spec fn model_name_value(&self) -> Option<Seq<char>> {
        match self.model {
            Some(m) => opt_chars(m.name),
            None => None,
        }
    }

    /// Logging enabled flag plus its source.
    pub fn logging_enabled_with_source(&self) -> (r: (Option<bool>, Source))
        ensures
            r.0 == self.logging_enabled_value(),
            r.1 == source_of(self.logging_enabled_value()),
    {
        if let Some(logging) = &self.logging {
            if let Some(enabled) = logging.enabled {
                return (Some(enabled), Source::Config);
            }
        }
        (None, Source::Missing)
    }

    /// Disable-summary value plus its source.
    pub fn disable_summary_with_source(&self) -> (r: (Option<bool>, Source))
        ensures
            r.0 == self.summary_disable_value(),
            r.1 == source_of(self.summary_disable_value()),
    {
        if let Some(summary) = &self.summary {
            if let Some(disable) = summary.disable {
                return (Some(disable), Source::Config);
            }
        }
        (None, Source::Missing)
    }

    /// Summarize threshold plus its source.
    pub fn summarize_threshold_with_source(&self) -> (r: (Option<usize>, Source))
        ensures
            r.0 == self.summary_threshold_value(),
            r.1 == source_of(self.summary_threshold_value()),
    {
        if let Some(summary) = &self.summary {
            if let Some(threshold) = summary.threshold {
                return (Some(threshold), Source::Config);
            }
        }
        (None, Source::Missing)
    }

    /// Summarize timeout plus its source.
    pub fn summarize_timeout_secs_with_source(&self) -> (r: (Option<u64>, Source))
        ensures
            r.0 == self.summary_timeout_value(),
            r.1 == source_of(self.summary_timeout_value()),
    {
        if let Some(summary) = &self.summary {
            if let Some(timeout_secs) = summary.timeout_secs {
                return (Some(timeout_secs), Source::Config);
            }
        }
        (None, Source::Missing)
    }

    /// Prompt template for LLM compression.
    pub fn compress_prompt(&self) -> (r: Option<String>)
        ensures
            opt_chars(r) == self.compress_prompt_value(),
    {
        match &self.compress {
            Some(c) => clone_opt_string(&c.prompt),
            None => None,
        }
    }

    /// Control TCP address plus its source.
    pub fn control_tcp_with_source(&self) -> (r: (Option<String>, Source))
        ensures
            opt_chars(r.0) == self.control_tcp_value(),
            r.1 == source_of(self.control_tcp_value()),
    {
        if let Some(server) = &self.server {
            if let Some(control_tcp) = &server.control_tcp {
                return (Some(control_tcp.clone()), Source::Config);
            }
        }
        (None, Source::Missing)
    }

    /// Control TCP address.
    pub fn control_tcp(&self) -> (r: Option<String>)
        ensures
            opt_chars(r) == self.control_tcp_value(),
    {
        match &self.server {
            Some(s) => clone_opt_string(&s.control_tcp),
            None => None,
        }
    }

    /// Model server address plus its source.
    pub fn model_addr_with_source(&self) -> (r: (Option<String>, Source))
        ensures
            opt_chars(r.0) == self.model_addr_value(),
            r.1 == source_of(self.model_addr_value()),
    {
        if let Some(model) = &self.model {
            if let Some(addr) = &model.addr {
                return (Some(addr.clone()), Source::Config);
            }
        }
        (None, Source::Missing)
    }

    /// Model server address.
    pub fn model_addr(&self) -> (r: Option<String>)
        ensures
            opt_chars(r) == self.model_addr_value(),
    {
        match &self.model {
            Some(m) => clone_opt_string(&m.addr),
            None => None,
        }
    }

    /// Model name.
    pub fn model_name(&self) -> (r: Option<String>)
        ensures
            opt_chars(r) == self.model_name_value(),
    {
        match &self.model {
            Some(m) => clone_opt_string(&m.name),
            None => None,
        }
    }

    /// Model base URL for Ollama, derived from the address: `http://` followed by it.
    pub fn model_base_url(&self) -> (r: Option<String>)
        ensures
            opt_chars(r) == (match self.model_addr_value() {
                Some(a) => Some("http://"@ + a),
                None => None,
            }),
    {
        match self.model_addr() {
            Some(addr) => {
                let mut url = String::from_str("http://");
                url.append(addr.as_str());
                Some(url)
            },
            None => None,
        }
    }

    /// The first required key, in the order they are checked, that has no value.
    pub open spec fn first_missing_key(&self) -> Option<ConfigKey> {
        if self.logging_enabled_value() is None {
            Some(ConfigKey::LoggingEnabled)
        } else if self.summary_disable_value() is None {
            Some(ConfigKey::SummaryDisable)
        } else if self.summary_threshold_value() is None {
            Some(ConfigKey::SummaryThreshold)
        } else if self.summary_timeout_value() is None {
            Some(ConfigKey::SummaryTimeoutSecs)
        } else if self.compress_prompt_value() is None {
            Some(ConfigKey::CompressPrompt)
        } else if self.control_tcp_value() is None {
            Some(ConfigKey::ServerControlTcp)
        } else if self.model_name_value() is None {
            Some(ConfigKey::ModelName)
        } else {
            None
        }
    }

    /// Validate that all required config values are present. The first missing one, in the
    /// order `logging.enabled`, `summary.disable`, `summary.threshold`,
    /// `summary.timeout_secs`, `compress.prompt`, `server.control_tcp`, `model.name`, is
    /// reported.
    pub fn validate(&self) -> (r: Result<(), ConfigError>)
        ensures
            r is Ok <==> self.first_missing_key() is None,
            r matches Err(ConfigError::Missing(k)) ==> self.first_missing_key() == Some(k),
    {
        if self.logging_enabled_with_source().0.is_none() {
            return Err(ConfigError::Missing(ConfigKey::LoggingEnabled));
        }
        if self.disable_summary_with_source().0.is_none() {
            return Err(ConfigError::Missing(ConfigKey::SummaryDisable));
        }
        if self.summarize_threshold_with_source().0.is_none() {
            return Err(ConfigError::Missing(ConfigKey::SummaryThreshold));
        }
        if self.summarize_timeout_secs_with_source().0.is_none() {
            return Err(ConfigError::Missing(ConfigKey::SummaryTimeoutSecs));
        }
        if self.compress_prompt().is_none() {
            return Err(ConfigError::Missing(ConfigKey::CompressPrompt));
        }
        if self.control_tcp().is_none() {
            return Err(ConfigError::Missing(ConfigKey::ServerControlTcp));
        }
        if self.model_name().is_none() {
            return Err(ConfigError::Missing(ConfigKey::ModelName));
        }
        Ok(())
    }
}

/// A key that must be present in the configuration.
#[derive(Debug, Clone, Copy, PartialEq, Eq, Structural)]
pub enum ConfigKey {
    LoggingEnabled,
    SummaryDisable,
    SummaryThreshold,
    SummaryTimeoutSecs,
    CompressPrompt,
    ServerControlTcp,
    ModelName,
}

/// Why a configuration was refused.
#[derive(Debug, Clone, Copy, PartialEq, Eq, Structural)]
pub enum ConfigError {
    Missing(ConfigKey),
}

/// The text that reports a missing key.
pub open spec fn missing_key_message(k: ConfigKey) -> Seq<char> {
    match k {
        ConfigKey::LoggingEnabled => "logging.enabled is missing in config"@,
        ConfigKey::SummaryDisable => "summary.disable is missing in config"@,
        ConfigKey::SummaryThreshold => "summary.threshold is missing in config"@,
        ConfigKey::SummaryTimeoutSecs => "summary.timeout_secs is missing in config"@,
        ConfigKey::CompressPrompt => "compress.prompt is missing in config"@,
        ConfigKey::ServerControlTcp => "server.control_tcp is missing in config"@,
        ConfigKey::ModelName => "model.name is missing in config"@,
    }
}

impl ConfigError {
    /// The human-readable message for this error.
    pub fn message(&self) -> (m: String)
        ensures
            m@ == (match *self {
                ConfigError::Missing(k) => missing_key_message(k),
            }),
    {
        match self {
            ConfigError::Missing(k) => match k {
                ConfigKey::LoggingEnabled => String::from_str(
                    "logging.enabled is missing in config",
                ),
                ConfigKey::SummaryDisable => String::from_str(
                    "summary.disable is missing in config",
                ),
                ConfigKey::SummaryThreshold => String::from_str(
                    "summary.threshold is missing in config",
                ),
                ConfigKey::SummaryTimeoutSecs => String::from_str(
                    "summary.timeout_secs is missing in config",
                ),
                ConfigKey::CompressPrompt => String::from_str(
                    "compress.prompt is missing in config",
                ),
                ConfigKey::ServerControlTcp => String::from_str(
                    "server.control_tcp is missing in config",
                ),
                ConfigKey::ModelName => String::from_str("model.name is missing in config"),
            },
        }
    }
}

/// A validated configuration has a value for every required key.
pub proof fn lemma_valid_config_has_required_values(cfg: Config)
    requires
        cfg.first_missing_key() is None,
    ensures
        cfg.logging_enabled_value() is Some,
        cfg.summary_disable_value() is Some,
        cfg.summary_threshold_value() is Some,
        cfg.summary_timeout_value() is Some,
        cfg.compress_prompt_value() is Some,
        cfg.control_tcp_value() is Some,
        cfg.model_name_value() is Some,
{
}

/// A filesystem path as its parts: whether it starts at the root, then its components
/// (normal names, `.` and `..`) in order.
pub struct ConfigPath {
    pub absolute: bool,
    pub parts: Vec<String>,
}

/// The mathematical value of a [`ConfigPath`].
pub struct PathView {
    pub absolute: bool,
    pub parts: Seq<Seq<char>>,
}

impl View for ConfigPath {
    type V = PathView;

    open spec fn view(&self) -> PathView {
        PathView { absolute: self.absolute, parts: self.parts@.map_values(|p: String| p@) }
    }
}

/// The views of a sequence of paths.
pub open spec fn paths_view(paths: Seq<ConfigPath>) -> Seq<PathView> {
    paths.map_values(|p: ConfigPath| p@)
}

/// `path` followed by the relative components `rel`, as `Path::join` gives it.
pub open spec fn join_parts(path: PathView, rel: Seq<Seq<char>>) -> PathView {
    PathView { absolute: path.absolute, parts: path.parts + rel }
}

/// The relative location of the configuration file inside a directory.
pub open spec fn config_file_rel() -> Seq<Seq<char>> {
    seq!["config"@, "aura.toml"@]
}

/// The configuration file location inside the XDG configuration directory.
pub open spec fn xdg_config_rel() -> Seq<Seq<char>> {
    seq!["aura"@, "aura.toml"@]
}

/// The configuration file location inside the home directory.
pub open spec fn home_config_rel() -> Seq<Seq<char>> {
    seq![".config"@, "aura"@, "aura.toml"@]
}

/// `config/aura.toml` inside `start` and inside each of its ancestors, nearest first: what
/// repeated `PathBuf::pop` walks through, ending at the root (or the empty path).
pub open spec fn ancestor_paths(start: PathView) -> Seq<PathView> {
    Seq::new(
        start.parts.len() + 1,
        |i: int|
            join_parts(
                PathView { absolute: start.absolute, parts: start.parts.take(start.parts.len() - i) },
                config_file_rel(),
            ),
    )
}

/// The directory holding `path` (`Path::parent`): none for the root or the empty path.
pub open spec fn parent_of(path: PathView) -> Option<PathView> {
    if path.parts.len() == 0 {
        None
    } else {
        Some(PathView { absolute: path.absolute, parts: path.parts.drop_last() })
    }
}

/// Every place a configuration file is looked for, in order: around the working directory,
/// around the executable's directory, in the XDG configuration directory, in `~/.config`.
pub open spec fn config_search_paths(
    cwd: Option<PathView>,
    exe: Option<PathView>,
    xdg: Option<PathView>,
    home: Option<PathView>,
) -> Seq<PathView> {
    let around_cwd = match cwd {
        Some(c) => ancestor_paths(c),
        None => Seq::empty(),
    };
    let around_exe = match exe {
        Some(e) => match parent_of(e) {
            Some(d) => ancestor_paths(d),
            None => Seq::empty(),
        },
        None => Seq::empty(),
    };
    let in_xdg = match xdg {
        Some(x) => seq![join_parts(x, xdg_config_rel())],
        None => Seq::empty(),
    };
    let in_home = match home {
        Some(h) => seq![join_parts(h, home_config_rel())],
        None => Seq::empty(),
    };
    around_cwd + around_exe + in_xdg + in_home
}

/// The first `n` parts of `parts`, followed by the strings of `rel`.
fn parts_prefix_then(parts: &Vec<String>, n: usize, rel: &[&str]) -> (r: Vec<String>)
    requires
        n <= parts@.len(),
    ensures
        r@.map_values(|p: String| p@) == parts@.map_values(|p: String| p@).take(n as int)
            + rel@.map_values(|p: &str| p@),
{
    let mut r: Vec<String> = Vec::new();
    let mut i: usize = 0;
    while i < n
        invariant
            n <= parts@.len(),
            i <= n,
            r@.map_values(|p: String| p@) == parts@.map_values(|p: String| p@).take(i as int),
        decreases n - i,
    {
        let ghost before = r@;
        r.push(parts[i].clone());
        assert(r@.map_values(|p: String| p@) =~= before.map_values(|p: String| p@).push(
            parts@[i as int]@,
        ));
        assert(parts@.map_values(|p: String| p@).take(i as int + 1) =~= parts@.map_values(
            |p: String| p@,
        ).take(i as int).push(parts@[i as int]@));
        i = i + 1;
    }
    let mut k: usize = 0;
    while k < rel.len()
        invariant
            k <= rel@.len(),
            r@.map_values(|p: String| p@) == parts@.map_values(|p: String| p@).take(n as int)
                + rel@.map_values(|p: &str| p@).take(k as int),
        decreases rel@.len() - k,
    {
        let ghost before = r@;
        r.push(String::from_str(rel[k]));
        assert(r@.map_values(|p: String| p@) =~= before.map_values(|p: String| p@).push(
            rel@[k as int]@,
        ));
        assert(rel@.map_values(|p: &str| p@).take(k as int + 1) =~= rel@.map_values(
            |p: &str| p@,
        ).take(k as int).push(rel@[k as int]@));
        k = k + 1;
    }
    assert(rel@.map_values(|p: &str| p@).take(rel@.len() as int) =~= rel@.map_values(
        |p: &str| p@,
    ));
    r
}

/// The path of `config/aura.toml` inside `start` and inside each ancestor of `start`,
/// nearest first.
pub fn ancestor_config_paths(start: &ConfigPath) -> (paths: Vec<ConfigPath>)
    ensures
        paths_view(paths@) == ancestor_paths(start@),
{
    let n = start.parts.len();
    let rel: [&str; 2] = ["config", "aura.toml"];
    proof {
        reveal_strlit("config");
        reveal_strlit("aura.toml");
        assert(rel@.map_values(|p: &str| p@) == config_file_rel());
    }
    let mut paths: Vec<ConfigPath> = Vec::new();
    let mut k: usize = 0;
    while k < n
        invariant
            n == start.parts@.len(),
            k <= n,
            rel@.map_values(|p: &str| p@) == config_file_rel(),
            paths_view(paths@) == ancestor_paths(start@).take(k as int),
        decreases n - k,
    {
        let ghost before = paths@;
        let parts = parts_prefix_then(&start.parts, n - k, &rel);
        paths.push(ConfigPath { absolute: start.absolute, parts });
        assert(paths_view(paths@) =~= paths_view(before).push(ancestor_paths(start@)[k as int]));
        assert(ancestor_paths(start@).take(k as int + 1) =~= ancestor_paths(start@).take(
            k as int,
        ).push(ancestor_paths(start@)[k as int]));
        k = k + 1;
    }
    let ghost before = paths@;
    let parts = parts_prefix_then(&start.parts, 0, &rel);
    paths.push(ConfigPath { absolute: start.absolute, parts });
    assert(paths_view(paths@) =~= paths_view(before).push(ancestor_paths(start@)[n as int]));
    assert(ancestor_paths(start@) =~= ancestor_paths(start@).take(n as int).push(
        ancestor_paths(start@)[n as int],
    ));
    paths
}

fn joined(path: &ConfigPath, rel: &[&str]) -> (r: ConfigPath)
    ensures
        r@ == join_parts(path@, rel@.map_values(|p: &str| p@)),
{
    let parts = parts_prefix_then(&path.parts, path.parts.len(), rel);
    assert(path@.parts.take(path.parts@.len() as int) == path@.parts);
    ConfigPath { absolute: path.absolute, parts }
}

/// Every place a configuration file is looked for, in order: `config/aura.toml` in the
/// working directory `cwd` and each of its ancestors, the same around the directory of the
/// executable `exe`, then `aura/aura.toml` in the XDG configuration directory `xdg`, then
/// `.config/aura/aura.toml` in the home directory `home`. An absent input contributes
/// nothing.
pub fn config_file_paths(
    cwd: Option<&ConfigPath>,
    exe: Option<&ConfigPath>,
    xdg: Option<&ConfigPath>,
    home: Option<&ConfigPath>,
) -> (paths: Vec<ConfigPath>)
    ensures
        paths_view(paths@) == config_search_paths(
            match cwd {
                Some(c) => Some(c@),
                None => None,
            },
            match exe {
                Some(e) => Some(e@),
                None => None,
            },
            match xdg {
                Some(x) => Some(x@),
                None => None,
            },
            match home {
                Some(h) => Some(h@),
                None => None,
            },
        ),
{
    let mut paths: Vec<ConfigPath> = Vec::new();
    if let Some(c) = cwd {
        let mut around = ancestor_config_paths(c);
        paths.append(&mut around);
    }
    let ghost after_cwd = paths@;
    if let Some(e) = exe {
        if e.parts.len() > 0 {
            let dir = ConfigPath {
                absolute: e.absolute,
                parts: parts_prefix_then(&e.parts, e.parts.len() - 1, &[]),
            };
            assert(dir@.parts == e@.parts.drop_last());
            let mut around = ancestor_config_paths(&dir);
            paths.append(&mut around);
        }
    }
    if let Some(x) = xdg {
        let rel: [&str; 2] = ["aura", "aura.toml"];
        proof {
            reveal_strlit("aura");
            reveal_strlit("aura.toml");
            assert(rel@.map_values(|p: &str| p@) == xdg_config_rel());
        }
        paths.push(joined(x, &rel));
    }
    if let Some(h) = home {
        let rel: [&str; 3] = [".config", "aura", "aura.toml"];
        proof {
            reveal_strlit(".config");
            reveal_strlit("aura");
            reveal_strlit("aura.toml");
            assert(rel@.map_values(|p: &str| p@) == home_config_rel());
        }
        paths.push(joined(h, &rel));
    }
    paths
}

} // verus!
