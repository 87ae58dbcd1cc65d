//! The reply the control socket gives to one command line.
use vstd::prelude::*;
use vstd::string::StringExecFns;
use crate::cmd::{command_action, parse_command, status_string, CmdAction, CmdActionView};
use crate::text::{chars_of, is_white_space, string_of, trim, trim_end, trim_start};

verus! {

/// `s` without the carriage returns and newlines at its end.
pub open spec fn strip_line_end(s: Seq<char>) -> Seq<char>
    decreases s.len(),
{
    if s.len() > 0 && (s.last() == '\r' || s.last() == '\n') {
        strip_line_end(s.drop_last())
    } else {
        s
    }
}

/// The reply text for a parsed control command.
pub open spec fn reply_text(a: CmdActionView) -> Seq<char> {
    match a {
        CmdActionView::Status => "OK"@ + "\n"@,
        CmdActionView::Unknown(u) => "Unknown aura command: "@ + u + "\n"@,
    }
}

fn strip_line_end_chars(v: &[char]) -> (r: Vec<char>)
    ensures
        r@ == strip_line_end(v@),
{
    let mut j: usize = v.len();
    assert(v@.take(j as int) == v@);
    while j > 0 && (v[j - 1] == '\r' || v[j - 1] == '\n')
        invariant
            j <= v@.len(),
            strip_line_end(v@) == strip_line_end(v@.take(j as int)),
        decreases j,
    {
        assert(v@.take(j as int).drop_last() == v@.take(j - 1));
        j = j - 1;
    }
    let mut r: Vec<char> = Vec::new();
    let mut k: usize = 0;
    while k < j
        invariant
            k <= j <= v@.len(),
            r@ == v@.take(k as int),
        decreases j - k,
    {
        assert(v@.take(k as int + 1) == v@.take(k as int).push(v@[k as int]));
        r.push(v[k]);
        k = k + 1;
    }
    r
}

/// The reply to one command line received on the control socket: the line loses its
/// trailing line end, is parsed, and `status` is answered with the status string while
/// anything else is reported as unknown; each reply ends with a newline.
pub fn control_reply(line: &str) -> (reply: String)
    ensures
        reply@ == reply_text(command_action(strip_line_end(line@))),
{
    let cmdline = string_of(strip_line_end_chars(chars_of(line).as_slice()).as_slice());
    match parse_command(cmdline.as_str()) {
        CmdAction::Status => {
            let mut r = status_string();
            r.append("\n");
            r
        },
        CmdAction::Unknown(u) => {
            let mut r = String::from_str("Unknown aura command: ");
            r.append(u.as_str());
            r.append("\n");
            r
        },
    }
}

proof fn lemma_strip_line_end_trim_start(s: Seq<char>)
    ensures
        trim(strip_line_end(s)) == trim(s),
    decreases s.len(),
{
    if s.len() > 0 && (s.last() == '\r' || s.last() == '\n') {
        lemma_strip_line_end_trim_start(s.drop_last());
        lemma_trim_drops_trailing_space(s);
    }
}

proof fn lemma_trim_drops_trailing_space(s: Seq<char>)
    requires
        s.len() > 0,
        is_white_space(s.last()),
    ensures
        trim(s) == trim(s.drop_last()),
    decreases s.len(),
{
    if is_white_space(s[0]) {
        if s.len() == 1 {
            assert(s.drop_first().len() == 0);
            assert(trim_start(s.drop_first()) == s.drop_first());
            assert(trim_start(s) == s.drop_first());
            assert(s.drop_last().len() == 0);
            assert(trim_start(s.drop_last()) == s.drop_last());
        } else {
            assert(s.drop_first().last() == s.last());
            lemma_trim_drops_trailing_space(s.drop_first());
            assert(s.drop_first().drop_last() == s.drop_last().drop_first());
            assert(s.drop_last()[0] == s[0]);
        }
    } else {
        assert(trim_start(s) == s);
        assert(s.drop_last().len() > 0 ==> s.drop_last()[0] == s[0]);
        if s.drop_last().len() > 0 {
            assert(trim_start(s.drop_last()) == s.drop_last());
        } else {
            assert(trim_start(s.drop_last()) == s.drop_last());
        }
        assert(trim_end(s) == trim_end(s.drop_last()));
    }
}

/// The line end that ends a received line makes no difference to the reply.
pub proof fn lemma_reply_ignores_line_end(line: Seq<char>)
    ensures
        reply_text(command_action(strip_line_end(line))) == reply_text(command_action(line)),
{
    lemma_strip_line_end_trim_start(line);
}

/// Where the control socket lives: the path set explicitly, else `aura.sock` in the
/// runtime directory, else `/tmp/aura.sock`.
pub open spec fn socket_path_choice(explicit: Option<Seq<char>>, runtime_dir: Option<Seq<char>>) -> Seq<
    char,
> {
    match explicit {
        Some(p) => p,
        None => match runtime_dir {
            Some(d) => d + "/aura.sock"@,
            None => "/tmp/aura.sock"@,
        },
    }
}

/// Chooses the control socket path from the explicit setting and the runtime directory,
/// each absent when unset.
pub fn control_socket_path(explicit: Option<String>, runtime_dir: Option<String>) -> (path:
    String)
    ensures
        path@ == socket_path_choice(
            match explicit {
                Some(p) => Some(p@),
                None => None,
            },
            match runtime_dir {
                Some(d) => Some(d@),
                None => None,
            },
        ),
{
    match explicit {
        Some(p) => p,
        None => match runtime_dir {
            Some(d) => {
                let mut path = d;
                path.append("/aura.sock");
                path
            },
            None => String::from_str("/tmp/aura.sock"),
        },
    }
}

/// Chooses the control TCP address: the one set explicitly, else `127.0.0.1:40001`.
pub fn control_tcp_addr(explicit: Option<String>) -> (addr: String)
    ensures
        addr@ == (match explicit {
            Some(a) => a@,
            None => "127.0.0.1:40001"@,
        }),
{
    match explicit {
        Some(a) => a,
        None => String::from_str("127.0.0.1:40001"),
    }
}

} // verus!
