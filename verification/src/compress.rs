//! The summarizing stage: when a captured command is summarized, the prompt sent to the
//! model, and the bytes displayed in each outcome.
use vstd::prelude::*;
use vstd::string::StringExecFns;
use vstd::utf8::encode_utf8;
use crate::cfg::Config;
use crate::fence::{fence_output, fenced};
use crate::pty::CapturedCommand;
use crate::text::{
    trim, trim_chars, chars_of, extend_with_str, has_infix, lemma_replace_absent, replace_all, replace_chars, string_of,
};

verus! {

/// How captured output is summarized.
pub struct SummarySettings {
    /// Clean output shorter than this many bytes is displayed as is.
    pub threshold: usize,
    /// Summaries are turned off.
    pub disabled: bool,
    /// How long to wait for the model, in seconds.
    pub timeout_secs: u64,
}

/// A value, or the default when it is absent.
pub open spec fn or_default<T>(v: Option<T>, d: T) -> T {
    match v {
        Some(x) => x,
        None => d,
    }
}

/// The summary settings of a configuration: threshold 250 bytes, summaries on, and a
/// 3000 second timeout where the configuration says nothing.
pub fn summary_settings(config: &Config) -> (s: SummarySettings)
    ensures
        s.threshold == or_default(config.summary_threshold_value(), 250usize),
        s.disabled == or_default(config.summary_disable_value(), false),
        s.timeout_secs == or_default(config.summary_timeout_value(), 3000u64),
{
    let threshold = match config.summarize_threshold_with_source().0 {
        Some(t) => t,
        None => 250,
    };
    let disabled = match config.disable_summary_with_source().0 {
        Some(d) => d,
        None => false,
    };
    let timeout_secs = match config.summarize_timeout_secs_with_source().0 {
        Some(t) => t,
        None => 3000,
    };
    SummarySettings { threshold, disabled, timeout_secs }
}

/// Whether the clean output goes to the model: summaries are on and it is at least the
/// threshold long, in UTF-8 bytes.
pub fn should_summarize(settings: &SummarySettings, clean: &str) -> (b: bool)
    ensures
        b == (!settings.disabled && clean.len() >= settings.threshold),
{
    !settings.disabled && clean.len() >= settings.threshold
}

/// What is displayed when the output is not summarized: a line break, the captured bytes,
/// then the prompt.
pub fn passthrough_output(cap: &CapturedCommand) -> (out: Vec<u8>)
    ensures
        out@ == encode_utf8("\r\n"@) + cap.bytes@ + cap.prompt@,
{
    let mut out: Vec<u8> = Vec::new();
    extend_with_str(&mut out, "\r\n");
    out.extend_from_slice(cap.bytes.as_slice());
    if cap.prompt.len() > 0 {
        out.extend_from_slice(cap.prompt.as_slice());
    }
    assert(out@ =~= encode_utf8("\r\n"@) + cap.bytes@ + cap.prompt@);
    out
}

/// What is displayed when the model could not be asked: a line naming the error, then the
/// captured bytes and the prompt.
pub fn summarize_error_output(cap: &CapturedCommand, error: &str) -> (out: Vec<u8>)
    ensures
        out@ == encode_utf8("\r\n[AURA: summarize error: "@) + encode_utf8(error@) + encode_utf8(
            "]\r\n"@,
        ) + cap.bytes@ + cap.prompt@,
{
    let mut out: Vec<u8> = Vec::new();
    extend_with_str(&mut out, "\r\n[AURA: summarize error: ");
    extend_with_str(&mut out, error);
    extend_with_str(&mut out, "]\r\n");
    out.extend_from_slice(cap.bytes.as_slice());
    if cap.prompt.len() > 0 {
        out.extend_from_slice(cap.prompt.as_slice());
    }
    assert(out@ =~= encode_utf8("\r\n[AURA: summarize error: "@) + encode_utf8(error@)
        + encode_utf8("]\r\n"@) + cap.bytes@ + cap.prompt@);
    out
}

/// What is displayed when the model did not answer in time: a timeout line, then the
/// captured bytes and the prompt.
pub fn summarize_timeout_output(cap: &CapturedCommand) -> (out: Vec<u8>)
    ensures
        out@ == encode_utf8("\r\n[AURA: summarize timeout]\r\n"@) + cap.bytes@ + cap.prompt@,
{
    let mut out: Vec<u8> = Vec::new();
    extend_with_str(&mut out, "\r\n[AURA: summarize timeout]\r\n");
    out.extend_from_slice(cap.bytes.as_slice());
    if cap.prompt.len() > 0 {
        out.extend_from_slice(cap.prompt.as_slice());
    }
    assert(out@ =~= encode_utf8("\r\n[AURA: summarize timeout]\r\n"@) + cap.bytes@
        + cap.prompt@);
    out
}

/// The prompt template with its placeholders filled: every `{cmd}` becomes the command,
/// then every `{clean_output}` in the result becomes the clean output framed between
/// `<BEGIN_OUTPUT>` and `<END_OUTPUT>` lines, its markup characters escaped.
pub open spec fn rendered_prompt(template: Seq<char>, cmd: Seq<char>, clean: Seq<char>) -> Seq<
    char,
> {
    replace_all(replace_all(template, "{cmd}"@, cmd), "{clean_output}"@, fenced(clean))
}

/// Fills the prompt template with the command and its framed clean output.
pub fn render_prompt(template: &str, cmd: &str, clean: &str) -> (prompt: String)
    ensures
        prompt@ == rendered_prompt(template@, cmd@, clean@),
{
    let t = chars_of(template);
    let cmd_pat = chars_of("{cmd}");
    let out_pat = chars_of("{clean_output}");
    proof {
        reveal_strlit("{cmd}");
        reveal_strlit("{clean_output}");
    }
    let c = chars_of(cmd);
    let block = fence_output(clean);
    let o = chars_of(block.as_str());
    let step = replace_chars(&t, &cmd_pat, &c);
    let done = replace_chars(&step, &out_pat, &o);
    string_of(&done)
}

/// The bytes displayed for one streamed piece of the summary: each newline becomes a
/// carriage return and a newline.
pub fn stream_chunk_bytes(text: &str) -> (out: Vec<u8>)
    ensures
        out@ == encode_utf8(replace_all(text@, "\n"@, "\r\n"@)),
{
    let t = chars_of(text);
    let nl = chars_of("\n");
    let crnl = chars_of("\r\n");
    proof {
        reveal_strlit("\n");
    }
    let converted = replace_chars(&t, &nl, &crnl);
    let s = string_of(&converted);
    let mut out: Vec<u8> = Vec::new();
    extend_with_str(&mut out, s.as_str());
    assert(out@ =~= encode_utf8(replace_all(text@, "\n"@, "\r\n"@)));
    out
}

/// Whether the model's complete reply replaces the captured output: it is not blank and
/// it is shorter than the clean output, in UTF-8 bytes.
pub open spec fn reply_replaces_output(reply: Seq<char>, clean: Seq<char>) -> bool {
    trim(reply).len() > 0 && encode_utf8(reply).len() < encode_utf8(clean).len()
}

/// What is displayed once the model's reply is complete: a line break, the reply with each
/// newline made a carriage return and a newline, then the prompt; or, when the reply is
/// blank or not shorter than the clean output, the captured output unchanged.
pub fn stream_outcome(cap: &CapturedCommand, clean: &str, reply: &str) -> (out: Vec<u8>)
    requires
        encode_utf8(reply@).len() <= usize::MAX,
        encode_utf8(clean@).len() <= usize::MAX,
    ensures
        reply_replaces_output(reply@, clean@) ==> out@ == encode_utf8("\r\n"@) + encode_utf8(
            replace_all(reply@, "\n"@, "\r\n"@),
        ) + cap.prompt@,
        !reply_replaces_output(reply@, clean@) ==> out@ == encode_utf8("\r\n"@) + cap.bytes@
            + cap.prompt@,
{
    let t = trim_chars(chars_of(reply).as_slice());
    if t.len() > 0 && reply.len() < clean.len() {
        let mut out: Vec<u8> = Vec::new();
        extend_with_str(&mut out, "\r\n");
        let body = stream_chunk_bytes(reply);
        out.extend_from_slice(body.as_slice());
        if cap.prompt.len() > 0 {
            out.extend_from_slice(cap.prompt.as_slice());
        }
        assert(out@ =~= encode_utf8("\r\n"@) + encode_utf8(replace_all(reply@, "\n"@, "\r\n"@))
            + cap.prompt@);
        out
    } else {
        passthrough_output(cap)
    }
}

/// A template without placeholders is sent as it is.
pub proof fn lemma_plain_template_unchanged(template: Seq<char>, cmd: Seq<char>, clean: Seq<char>)
    requires
        !has_infix(template, "{cmd}"@),
        !has_infix(template, "{clean_output}"@),
    ensures
        rendered_prompt(template, cmd, clean) == template,
{
    reveal_strlit("{cmd}");
    reveal_strlit("{clean_output}");
    lemma_replace_absent(template, "{cmd}"@, cmd);
    lemma_replace_absent(template, "{clean_output}"@, fenced(clean));
}

/// A streamed piece without newlines is displayed as its own UTF-8 bytes.
pub proof fn lemma_single_line_chunk_unchanged(text: Seq<char>)
    requires
        !has_infix(text, "\n"@),
    ensures
        encode_utf8(replace_all(text, "\n"@, "\r\n"@)) == encode_utf8(text),
{
    reveal_strlit("\n");
    lemma_replace_absent(text, "\n"@, "\r\n"@);
}

} // verus!
