//! Commands of the configuration control server.
use vstd::prelude::*;
use vstd::string::StringExecFns;
use crate::cfg::{source_of, Config, Source};
use crate::text::{
    chars_equal, chars_of, decimal, push_bool, push_decimal, string_of, trim, trim_chars,
};

verus! {

/// Parsed command actions from a single-line control command.
pub enum ServerAction {
    ConfigShow,
    Unknown(String),
}

/// The mathematical value of a [`ServerAction`].
pub enum ServerActionView {
    ConfigShow,
    Unknown(Seq<char>),
}

impl View for ServerAction {
    type V = ServerActionView;

    open spec fn view(&self) -> ServerActionView {
        match self {
            ServerAction::ConfigShow => ServerActionView::ConfigShow,
            ServerAction::Unknown(s) => ServerActionView::Unknown(s@),
        }
    }
}

/// The action a control line asks for: `config show` or `config` (surrounded by any white
/// space) shows the configuration; anything else is unknown and carries the trimmed line.
pub open spec fn server_action(line: Seq<char>) -> ServerActionView {
    if trim(line) == "config show"@ || trim(line) == "config"@ {
        ServerActionView::ConfigShow
    } else {
        ServerActionView::Unknown(trim(line))
    }
}

/// Parse a single-line control command.
pub fn parse_command(line: &str) -> (a: ServerAction)
    ensures
        a@ == server_action(line@),
{
    let s = trim_chars(chars_of(line).as_slice());
    if chars_equal(s.as_slice(), "config show") || chars_equal(s.as_slice(), "config") {
        ServerAction::ConfigShow
    } else {
        ServerAction::Unknown(string_of(s.as_slice()))
    }
}

/// The reply to an unknown command.
pub fn unknown_reply(command: &str) -> (reply: String)
    ensures
        reply@ == "Unknown aura command: "@ + command@ + "\n"@,
{
    let mut r = String::from_str("Unknown aura command: ");
    r.append(command);
    r.append("\n");
    r
}

/// The name shown for a value's source.
pub open spec fn source_name(s: Source) -> Seq<char> {
    match s {
        Source::Config => "config file"@,
        Source::Missing => "missing"@,
    }
}

/// One line of the configuration listing: `name: value (source)`, with `unset` for a
/// missing value.
pub open spec fn listing_line(name: Seq<char>, value: Option<Seq<char>>, src: Source) -> Seq<char> {
    name + ": "@ + (match value {
        Some(v) => v,
        None => "unset"@,
    }) + " ("@ + source_name(src) + ")\n"@
}

/// The text of a boolean value.
pub open spec fn bool_text(b: bool) -> Seq<char> {
    if b {
        "true"@
    } else {
        "false"@
    }
}

/// The listing the `config show` command answers with: logging, model name, summary
/// switch, threshold, timeout and control address, each with where it came from.
pub open spec fn config_listing(cfg: Config) -> Seq<char> {
    listing_line(
        "logging"@,
        match cfg.logging_enabled_value() {
            Some(b) => Some(bool_text(b)),
            None => None,
        },
        source_of(cfg.logging_enabled_value()),
    ) + listing_line("model"@, cfg.model_name_value(), source_of(cfg.model_name_value()))
        + listing_line(
        "disable_summary"@,
        match cfg.summary_disable_value() {
            Some(b) => Some(bool_text(b)),
            None => None,
        },
        source_of(cfg.summary_disable_value()),
    ) + listing_line(
        "summarize_threshold"@,
        match cfg.summary_threshold_value() {
            Some(n) => Some(decimal(n as nat)),
            None => None,
        },
        source_of(cfg.summary_threshold_value()),
    ) + listing_line(
        "summarize_timeout_secs"@,
        match cfg.summary_timeout_value() {
            Some(n) => Some(decimal(n as nat)),
            None => None,
        },
        source_of(cfg.summary_timeout_value()),
    ) + listing_line(
        "control_tcp"@,
        cfg.control_tcp_value(),
        source_of(cfg.control_tcp_value()),
    )
}

/// A setting as the listing must report it: its value marked `(config file)` when the
/// configuration holds it, `unset (missing)` when it does not.
pub open spec fn reported_line(name: Seq<char>, value: Option<Seq<char>>) -> Seq<char> {
    match value {
        Some(v) => name + ": "@ + v + " (config file)\n"@,
        None => name + ": unset (missing)\n"@,
    }
}

proof fn lemma_line_reports_own_source<T>(name: Seq<char>, value: Option<Seq<char>>, own: Option<T>)
    requires
        value is Some <==> own is Some,
    ensures
        listing_line(name, value, source_of(own)) == reported_line(name, value),
{
    reveal_strlit(": ");
    reveal_strlit("unset");
    reveal_strlit(" (");
    reveal_strlit("config file");
    reveal_strlit("missing");
    reveal_strlit(")\n");
    reveal_strlit(" (config file)\n");
    reveal_strlit(": unset (missing)\n");
    match value {
        Some(v) => {
            assert(name + ": "@ + v + " ("@ + "config file"@ + ")\n"@ =~= name + ": "@ + v
                + " (config file)\n"@);
        },
        None => {
            assert(name + ": "@ + "unset"@ + " ("@ + "missing"@ + ")\n"@ =~= name
                + ": unset (missing)\n"@);
        },
    }
}

/// Each line of the `config show` listing reports the source of its own setting, in
/// order: logging, model, summary switch, threshold, timeout, control address; a line
/// says `(config file)` exactly when its setting is present and `unset (missing)` exactly
/// when it is absent, whatever the other settings are.
pub proof fn lemma_listing_reports_each_source(cfg: Config)
    ensures
        config_listing(cfg) == reported_line(
            "logging"@,
            match cfg.logging_enabled_value() {
                Some(b) => Some(bool_text(b)),
                None => None,
            },
        ) + reported_line("model"@, cfg.model_name_value()) + reported_line(
            "disable_summary"@,
            match cfg.summary_disable_value() {
                Some(b) => Some(bool_text(b)),
                None => None,
            },
        ) + reported_line(
            "summarize_threshold"@,
            match cfg.summary_threshold_value() {
                Some(n) => Some(decimal(n as nat)),
                None => None,
            },
        ) + reported_line(
            "summarize_timeout_secs"@,
            match cfg.summary_timeout_value() {
                Some(n) => Some(decimal(n as nat)),
                None => None,
            },
        ) + reported_line("control_tcp"@, cfg.control_tcp_value()),
{
    lemma_line_reports_own_source(
        "logging"@,
        match cfg.logging_enabled_value() {
            Some(b) => Some(bool_text(b)),
            None => None,
        },
        cfg.logging_enabled_value(),
    );
    lemma_line_reports_own_source("model"@, cfg.model_name_value(), cfg.model_name_value());
    lemma_line_reports_own_source(
        "disable_summary"@,
        match cfg.summary_disable_value() {
            Some(b) => Some(bool_text(b)),
            None => None,
        },
        cfg.summary_disable_value(),
    );
    lemma_line_reports_own_source(
        "summarize_threshold"@,
        match cfg.summary_threshold_value() {
            Some(n) => Some(decimal(n as nat)),
            None => None,
        },
        cfg.summary_threshold_value(),
    );
    lemma_line_reports_own_source(
        "summarize_timeout_secs"@,
        match cfg.summary_timeout_value() {
            Some(n) => Some(decimal(n as nat)),
            None => None,
        },
        cfg.summary_timeout_value(),
    );
    lemma_line_reports_own_source(
        "control_tcp"@,
        cfg.control_tcp_value(),
        cfg.control_tcp_value(),
    );
}

fn push_source(out: &mut String, src: Source)
    ensures
        final(out)@ == old(out)@ + " ("@ + source_name(src) + ")\n"@,
{
    out.append(" (");
    match src {
        Source::Config => out.append("config file"),
        Source::Missing => out.append("missing"),
    }
    out.append(")\n");
}

fn push_text_line(out: &mut String, name: &str, value: &Option<String>, src: Source)
    ensures
        final(out)@ == old(out)@ + listing_line(
            name@,
            match value {
                Some(v) => Some(v@),
                None => None,
            },
            src,
        ),
{
    out.append(name);
    out.append(": ");
    match value {
        Some(v) => out.append(v.as_str()),
        None => out.append("unset"),
    }
    push_source(out, src);
}

fn push_bool_line(out: &mut String, name: &str, value: Option<bool>, src: Source)
    ensures
        final(out)@ == old(out)@ + listing_line(
            name@,
            match value {
                Some(b) => Some(bool_text(b)),
                None => None,
            },
            src,
        ),
{
    out.append(name);
    out.append(": ");
    match value {
        Some(b) => push_bool(out, b),
        None => out.append("unset"),
    }
    push_source(out, src);
}

fn push_number_line(out: &mut String, name: &str, value: Option<u64>, src: Source)
    ensures
        final(out)@ == old(out)@ + listing_line(
            name@,
            match value {
                Some(n) => Some(decimal(n as nat)),
                None => None,
            },
            src,
        ),
{
    out.append(name);
    out.append(": ");
    match value {
        Some(n) => push_decimal(out, n),
        None => out.append("unset"),
    }
    push_source(out, src);
}

/// The reply to `config show`: each setting with its value and where it came from.
pub fn config_show_text(cfg: &Config) -> (text: String)
    ensures
        text@ == config_listing(*cfg),
{
    let mut out = String::new();
    let (logging, logging_src) = cfg.logging_enabled_with_source();
    push_bool_line(&mut out, "logging", logging, logging_src);
    let model = cfg.model_name();
    let model_src = if model.is_some() {
        Source::Config
    } else {
        Source::Missing
    };
    push_text_line(&mut out, "model", &model, model_src);
    let (disable, disable_src) = cfg.disable_summary_with_source();
    push_bool_line(&mut out, "disable_summary", disable, disable_src);
    let (threshold, threshold_src) = cfg.summarize_threshold_with_source();
    let threshold64: Option<u64> = match threshold {
        Some(t) => Some(t as u64),
        None => None,
    };
    push_number_line(&mut out, "summarize_threshold", threshold64, threshold_src);
    let (timeout, timeout_src) = cfg.summarize_timeout_secs_with_source();
    push_number_line(&mut out, "summarize_timeout_secs", timeout, timeout_src);
    let (tcp, tcp_src) = cfg.control_tcp_with_source();
    push_text_line(&mut out, "control_tcp", &tcp, tcp_src);
    out
}

} // verus!
