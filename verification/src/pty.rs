//! Terminal capture: escape-sequence stripping and the command-capture state machine.
use vstd::prelude::*;
use vstd::string::StringExecFns;
use crate::text::{bytes_contain, has_infix, push_char};
use vstd::utf8::valid_utf8;

verus! {

/// One piece of what the VT parser recognised in a byte stream, as plain values.
pub enum VtPiece {
    /// A single printable character.
    Char(char),
    /// A run of printable characters.
    Text(String),
    /// Anything else: control codes, CSI/OSC/ESC sequences, device control.
    Other,
}

/// The mathematical value of a [`VtPiece`].
pub enum VtEvent {
    Char(char),
    Text(Seq<char>),
    Other,
}

impl View for VtPiece {
    type V = VtEvent;

    open spec fn view(&self) -> VtEvent {
        match self {
            VtPiece::Char(c) => VtEvent::Char(*c),
            VtPiece::Text(s) => VtEvent::Text(s@),
            VtPiece::Other => VtEvent::Other,
        }
    }
}

/// What a fresh termwiz escape-sequence parser reports for `bytes`, piece by piece.
pub uninterp spec fn vt_parse(bytes: Seq<u8>) -> Seq<VtEvent>;

/// The printable text carried by a sequence of parser events, in order.
pub open spec fn printed_text(events: Seq<VtEvent>) -> Seq<char>
    decreases events.len(),
{
    if events.len() == 0 {
        Seq::empty()
    } else {
        let rest = printed_text(events.drop_last());
        match events.last() {
            VtEvent::Char(c) => rest.push(c),
            VtEvent::Text(s) => rest + s,
            VtEvent::Other => rest,
        }
    }
}

/// Runs `termwiz::escape::parser::Parser::parse_as_vec` on `bytes` with a fresh parser and
/// converts each recognised action: `Print` and `PrintString` keep their text, every other
/// action becomes `Other`. The contract claims only that the pieces are, in order, the
/// named result `vt_parse` of the bytes; what the parser recognises is not stated here.
#[verifier::external_body]
fn vt_pieces(bytes: &[u8]) -> (pieces: Vec<VtPiece>)
    ensures
        pieces@.map_values(|p: VtPiece| p@) == vt_parse(bytes@),
{
    let mut parser = termwiz::escape::parser::Parser::new();
    let mut pieces = Vec::new();
    for action in parser.parse_as_vec(bytes) {
        pieces.push(match action {
            termwiz::escape::Action::Print(c) => VtPiece::Char(c),
            termwiz::escape::Action::PrintString(s) => VtPiece::Text(s),
            _ => VtPiece::Other,
        });
    }
    pieces
}

/// The printable text of parser pieces, concatenated in order.
pub fn text_of_pieces(pieces: &Vec<VtPiece>) -> (text: String)
    ensures
        text@ == printed_text(pieces@.map_values(|p: VtPiece| p@)),
{
    let ghost events = pieces@.map_values(|p: VtPiece| p@);
    let mut text = String::new();
    let mut i: usize = 0;
    while i < pieces.len()
        invariant
            i <= pieces.len(),
            events == pieces@.map_values(|p: VtPiece| p@),
            text@ == printed_text(events.take(i as int)),
        decreases pieces.len() - i,
    {
        assert(events.take(i as int + 1).drop_last() == events.take(i as int));
        match &pieces[i] {
            VtPiece::Char(c) => push_char(&mut text, *c),
            VtPiece::Text(s) => text.append(s.as_str()),
            VtPiece::Other => {},
        }
        i = i + 1;
    }
    assert(events.take(pieces.len() as int) == events);
    text
}

/// Strips ANSI/VT escape sequences from `bytes` with the termwiz parser, returning the
/// printable text it recognises.
pub fn strip_ansi(bytes: &[u8]) -> (text: String)
    ensures
        text@ == printed_text(vt_parse(bytes@)),
{
    let pieces = vt_pieces(bytes);
    text_of_pieces(&pieces)
}

/// A complete command cycle captured from the PTY, ready for the pipeline.
pub struct CapturedCommand {
    /// The command line the user typed.
    pub cmd: String,
    /// Everything the PTY printed while the command ran (output and trailing prompt).
    pub bytes: Vec<u8>,
    /// The bytes after the last newline of `bytes` (empty when there is none): the shell
    /// prompt that followed.
    pub prompt: Vec<u8>,
}

/// The mathematical value of a [`CapturedCommand`].
pub struct CapturedView {
    pub cmd: Seq<char>,
    pub bytes: Seq<u8>,
    pub prompt: Seq<u8>,
}

impl View for CapturedCommand {
    type V = CapturedView;

    open spec fn view(&self) -> CapturedView {
        CapturedView { cmd: self.cmd@, bytes: self.bytes@, prompt: self.prompt@ }
    }
}

/// PTY state machine modes.
#[derive(Debug, Clone, Copy, PartialEq, Eq, Structural)]
pub enum Mode {
    /// The shell shows a prompt; PTY output goes to the display as it comes.
    Idle,
    /// A command line was entered; PTY output is captured and held back.
    Running,
    /// A full-screen program is on the alternate screen; everything goes to the display.
    Passthrough,
}

/// The capture state. Times are nanoseconds on a monotonic clock chosen by the caller.
pub struct CommandState {
    pub mode: Mode,
    /// When the PTY last printed while a command was running.
    pub last_pty_activity: Option<u64>,
    /// PTY bytes held back while a command runs.
    pub captured: Vec<u8>,
    /// Printable text typed for the current command line.
    pub pending_cmd: String,
}

/// The mathematical value of a [`CommandState`].
pub struct StateView {
    pub mode: Mode,
    pub last: Option<u64>,
    pub captured: Seq<u8>,
    pub pending: Seq<char>,
}

impl View for CommandState {
    type V = StateView;

    open spec fn view(&self) -> StateView {
        StateView {
            mode: self.mode,
            last: self.last_pty_activity,
            captured: self.captured@,
            pending: self.pending_cmd@,
        }
    }
}

/// Whether a typed byte becomes part of the command text: ASCII graphic or space.
pub open spec fn is_command_byte(b: u8) -> bool {
    0x20 <= b <= 0x7E
}

/// Whether a typed byte ends a command line: newline or carriage return.
pub open spec fn is_line_end(b: u8) -> bool {
    b == 0x0A || b == 0x0D
}

/// The state after one typed byte.
pub open spec fn stdin_byte_step(st: StateView, b: u8) -> StateView {
    if is_line_end(b) {
        if st.mode == Mode::Idle {
            StateView { mode: Mode::Running, last: None, captured: Seq::empty(), ..st }
        } else {
            StateView { pending: Seq::empty(), ..st }
        }
    } else if is_command_byte(b) && st.mode == Mode::Idle {
        StateView { pending: st.pending.push(b as char), ..st }
    } else {
        st
    }
}

/// The state after typed bytes, taken in order.
pub open spec fn stdin_step(st: StateView, data: Seq<u8>) -> StateView
    decreases data.len(),
{
    if data.len() == 0 {
        st
    } else {
        stdin_byte_step(stdin_step(st, data.drop_last()), data.last())
    }
}

/// `ESC [ ? 1 0 4 9 h` and `ESC [ ? 1 0 4 7 h`: a program switches to the alternate screen.
pub open spec fn alt_enter_1049() -> Seq<u8> {
    seq![0x1bu8, 0x5bu8, 0x3fu8, 0x31u8, 0x30u8, 0x34u8, 0x39u8, 0x68u8]
}

pub open spec fn alt_enter_1047() -> Seq<u8> {
    seq![0x1bu8, 0x5bu8, 0x3fu8, 0x31u8, 0x30u8, 0x34u8, 0x37u8, 0x68u8]
}

/// `ESC [ ? 1 0 4 9 l` and `ESC [ ? 1 0 4 7 l`: a program leaves the alternate screen.
pub open spec fn alt_exit_1049() -> Seq<u8> {
    seq![0x1bu8, 0x5bu8, 0x3fu8, 0x31u8, 0x30u8, 0x34u8, 0x39u8, 0x6cu8]
}

pub open spec fn alt_exit_1047() -> Seq<u8> {
    seq![0x1bu8, 0x5bu8, 0x3fu8, 0x31u8, 0x30u8, 0x34u8, 0x37u8, 0x6cu8]
}

/// Whether a chunk of PTY output, read as UTF-8 text, switches to the alternate screen.
/// A chunk that is not valid UTF-8 is read as empty text.
pub open spec fn enters_alt(data: Seq<u8>) -> bool {
    valid_utf8(data) && (has_infix(data, alt_enter_1049()) || has_infix(data, alt_enter_1047()))
}

/// Whether a chunk of PTY output, read as UTF-8 text, leaves the alternate screen.
pub open spec fn exits_alt(data: Seq<u8>) -> bool {
    valid_utf8(data) && (has_infix(data, alt_exit_1049()) || has_infix(data, alt_exit_1047()))
}

/// The state after a chunk of PTY output at time `now`, and the chunks to display, in order.
pub open spec fn output_step(st: StateView, data: Seq<u8>, now: u64) -> (StateView, Seq<Seq<u8>>) {
    match st.mode {
        Mode::Idle => (
            if enters_alt(data) {
                StateView { mode: Mode::Passthrough, ..st }
            } else {
                st
            },
            seq![data],
        ),
        Mode::Passthrough => (
            if exits_alt(data) {
                StateView { mode: Mode::Idle, ..st }
            } else {
                st
            },
            seq![data],
        ),
        Mode::Running => if enters_alt(data) {
            (
                StateView { mode: Mode::Passthrough, last: None, captured: Seq::empty(), ..st },
                if st.captured.len() > 0 {
                    seq![st.captured, data]
                } else {
                    seq![data]
                },
            )
        } else {
            (StateView { captured: st.captured + data, last: Some(now), ..st }, Seq::empty())
        },
    }
}

/// Silence needed after the shell is back in the foreground, and without that signal.
pub open spec fn settle_nanos() -> u64 {
    50_000_000
}

pub open spec fn fallback_silence_nanos() -> u64 {
    200_000_000
}

/// How long the PTY has been silent at `now`, if it printed since the command started.
pub open spec fn silence(st: StateView, now: u64) -> Option<int> {
    match st.last {
        Some(t) => Some(if now >= t {
            now - t
        } else {
            0
        }),
        None => None,
    }
}

/// Whether a running command counts as finished at `now`. With a foreground process group
/// known, the shell must be back in the foreground and the PTY silent for 50 ms (or silent
/// since the command started); without it, the PTY must have been silent for 200 ms.
pub open spec fn command_finished(
    st: StateView,
    now: u64,
    foreground: Option<i32>,
    shell_pgid: i32,
) -> bool {
    match foreground {
        Some(pgid) => pgid == shell_pgid && match silence(st, now) {
            Some(d) => d >= settle_nanos(),
            None => true,
        },
        None => match silence(st, now) {
            Some(d) => d >= fallback_silence_nanos(),
            None => false,
        },
    }
}

/// The bytes after the last newline of `s` (all of `s` when it holds none).
pub open spec fn after_last_newline(s: Seq<u8>) -> Seq<u8>
    decreases s.len(),
{
    if s.len() == 0 {
        s
    } else if s.last() == 0x0A {
        Seq::empty()
    } else {
        after_last_newline(s.drop_last()).push(s.last())
    }
}

/// The prompt the shell printed after a command's output: the bytes after the last newline
/// of `s`, and nothing when `s` holds no newline.
pub open spec fn trailing_prompt(s: Seq<u8>) -> Seq<u8> {
    if s.contains(0x0A) {
        after_last_newline(s)
    } else {
        Seq::empty()
    }
}

/// The state at a poll at time `now`, and the command emitted if it finished.
pub open spec fn tick_step(st: StateView, now: u64, foreground: Option<i32>, shell_pgid: i32) -> (
    StateView,
    Option<CapturedView>,
) {
    if st.mode == Mode::Running && command_finished(st, now, foreground, shell_pgid) {
        (
            StateView {
                mode: Mode::Idle,
                last: None,
                captured: Seq::empty(),
                pending: Seq::empty(),
            },
            Some(
                CapturedView {
                    cmd: st.pending,
                    bytes: st.captured,
                    prompt: trailing_prompt(st.captured),
                },
            ),
        )
    } else {
        (st, None)
    }
}

/// Whether the bytes are valid UTF-8 (`std::str::from_utf8` succeeds).
#[verifier::external_body]
fn is_valid_utf8(bytes: &[u8]) -> (b: bool)
    ensures
        b == valid_utf8(bytes@),
{
    std::str::from_utf8(bytes).is_ok()
}

fn chunk_enters_alt(data: &[u8]) -> (b: bool)
    ensures
        b == enters_alt(data@),
{
    let a: [u8; 8] = [0x1b, 0x5b, 0x3f, 0x31, 0x30, 0x34, 0x39, 0x68];
    let c: [u8; 8] = [0x1b, 0x5b, 0x3f, 0x31, 0x30, 0x34, 0x37, 0x68];
    assert(a@ == alt_enter_1049());
    assert(c@ == alt_enter_1047());
    is_valid_utf8(data) && (bytes_contain(data, &a) || bytes_contain(data, &c))
}

fn chunk_exits_alt(data: &[u8]) -> (b: bool)
    ensures
        b == exits_alt(data@),
{
    let a: [u8; 8] = [0x1b, 0x5b, 0x3f, 0x31, 0x30, 0x34, 0x39, 0x6c];
    let c: [u8; 8] = [0x1b, 0x5b, 0x3f, 0x31, 0x30, 0x34, 0x37, 0x6c];
    assert(a@ == alt_exit_1049());
    assert(c@ == alt_exit_1047());
    is_valid_utf8(data) && (bytes_contain(data, &a) || bytes_contain(data, &c))
}

/// The bytes after the last newline of `captured` (nothing when it holds no newline): the
/// prompt the shell printed after the command.
pub fn prompt_after_output(captured: &[u8]) -> (prompt: Vec<u8>)
    ensures
        prompt@ == trailing_prompt(captured@),
{
    let n = captured.len();
    let mut j: usize = n;
    assert(captured@.take(n as int) == captured@);
    assert(captured@.skip(n as int) == Seq::<u8>::empty());
    assert(after_last_newline(captured@) + Seq::<u8>::empty() == after_last_newline(captured@));
    while j > 0 && captured[j - 1] != 0x0A
        invariant
            j <= n == captured@.len(),
            after_last_newline(captured@) == after_last_newline(captured@.take(j as int))
                + captured@.skip(j as int),
            forall|i: int| j <= i < n ==> captured@[i] != 0x0A,
        decreases j,
    {
        proof {
            let t = captured@.take(j as int);
            assert(t.drop_last() == captured@.take(j - 1));
            assert(captured@.skip(j - 1) == seq![captured@[j - 1]] + captured@.skip(j as int));
            assert(after_last_newline(t) == after_last_newline(captured@.take(j - 1)).push(
                captured@[j - 1],
            ));
            assert(after_last_newline(captured@.take(j - 1)).push(captured@[j - 1])
                + captured@.skip(j as int) == after_last_newline(captured@.take(j - 1))
                + captured@.skip(j - 1));
        }
        j = j - 1;
    }
    if j == 0 {
        assert(!captured@.contains(0x0A)) by {
            assert forall|i: int| 0 <= i < n implies captured@[i] != 0x0A by {}
        }
        return Vec::new();
    }
    assert(captured@[j - 1] == 0x0A);
    assert(captured@.contains(0x0A));
    assert(after_last_newline(captured@.take(j as int)) == Seq::<u8>::empty()) by {
        assert(captured@.take(j as int).last() == 0x0A);
    }
    assert(Seq::<u8>::empty() + captured@.skip(j as int) == captured@.skip(j as int));
    let mut prompt: Vec<u8> = Vec::new();
    let mut k: usize = j;
    while k < n
        invariant
            j <= k <= n == captured@.len(),
            prompt@ == captured@.subrange(j as int, k as int),
        decreases n - k,
    {
        prompt.push(captured[k]);
        k = k + 1;
    }
    assert(captured@.subrange(j as int, n as int) == captured@.skip(j as int));
    prompt
}

impl CommandState {
    /// The state at the start of a session: idle, nothing captured, nothing typed.
    pub fn new() -> (st: CommandState)
        ensures
            st@ == (StateView {
                mode: Mode::Idle,
                last: None,
                captured: Seq::empty(),
                pending: Seq::empty(),
            }),
    {
        CommandState {
            mode: Mode::Idle,
            last_pty_activity: None,
            captured: Vec::new(),
            pending_cmd: String::new(),
        }
    }

    /// Tracks command boundaries in typed input. A newline or carriage return while idle
    /// starts a command (capture begins empty); while a command runs it clears the typed
    /// text. ASCII graphic characters and spaces typed while idle extend the command text.
    /// The caller forwards every typed byte to the PTY unchanged.
    pub fn on_stdin(&mut self, data: &[u8])
        ensures
            final(self)@ == stdin_step(old(self)@, data@),
    {
        let ghost start = self@;
        let mut i: usize = 0;
        while i < data.len()
            invariant
                i <= data@.len(),
                self@ == stdin_step(start, data@.take(i as int)),
            decreases data@.len() - i,
        {
            let b = data[i];
            proof {
                assert(data@.take(i as int + 1).drop_last() == data@.take(i as int));
            }
            if b == 0x0A || b == 0x0D {
                if self.mode == Mode::Idle {
                    self.mode = Mode::Running;
                    self.last_pty_activity = None;
                    self.captured = Vec::new();
                } else {
                    self.pending_cmd = String::new();
                }
            } else if 0x20 <= b && b <= 0x7E {
                if self.mode == Mode::Idle {
                    push_char(&mut self.pending_cmd, b as char);
                }
            }
            i = i + 1;
        }
        assert(data@.take(data@.len() as int) == data@);
    }

    /// Handles a chunk of PTY output at time `now`, returning the chunks to display in
    /// order. Idle or on the alternate screen the chunk is displayed as is (and the mode
    /// follows alternate-screen switches); while a command runs the chunk is captured and
    /// held back, unless it switches to the alternate screen, in which case what was
    /// captured and then the chunk are displayed and capture stops.
    pub fn on_pty_output(&mut self, data: &[u8], now: u64) -> (display: Vec<Vec<u8>>)
        ensures
            final(self)@ == output_step(old(self)@, data@, now).0,
            display@.map_values(|c: Vec<u8>| c@) == output_step(old(self)@, data@, now).1,
    {
        let mut display: Vec<Vec<u8>> = Vec::new();
        match self.mode {
            Mode::Idle => {
                if chunk_enters_alt(data) {
                    self.mode = Mode::Passthrough;
                }
                display.push(vstd::slice::slice_to_vec(data));
            },
            Mode::Passthrough => {
                if chunk_exits_alt(data) {
                    self.mode = Mode::Idle;
                }
                display.push(vstd::slice::slice_to_vec(data));
            },
            Mode::Running => {
                if chunk_enters_alt(data) {
                    let mut prev: Vec<u8> = Vec::new();
                    std::mem::swap(&mut prev, &mut self.captured);
                    self.mode = Mode::Passthrough;
                    self.last_pty_activity = None;
                    if prev.len() > 0 {
                        display.push(prev);
                    }
                    display.push(vstd::slice::slice_to_vec(data));
                } else {
                    let ghost before = self.captured@;
                    self.captured.extend_from_slice(data);
                    assert(self.captured@ =~= before + data@);
                    self.last_pty_activity = Some(now);
                }
            },
        }
        assert(display@.map_values(|c: Vec<u8>| c@) =~= output_step(old(self)@, data@, now).1);
        display
    }

    /// Polls at time `now` whether a running command has finished; if so, emits it and
    /// goes back to idle. `foreground` is the PTY's foreground process group when the
    /// backend reports one.
    pub fn on_tick(&mut self, now: u64, foreground: Option<i32>, shell_pgid: i32) -> (emitted:
        Option<CapturedCommand>)
        ensures
            final(self)@ == tick_step(old(self)@, now, foreground, shell_pgid).0,
            (match emitted {
                Some(c) => Some(c@),
                None => None,
            }) == tick_step(old(self)@, now, foreground, shell_pgid).1,
    {
        if self.mode != Mode::Running {
            return None;
        }
        let silence: Option<u64> = match self.last_pty_activity {
            Some(t) => Some(
                if now >= t {
                    now - t
                } else {
                    0
                },
            ),
            None => None,
        };
        let finished = match foreground {
            Some(pgid) => pgid == shell_pgid && match silence {
                Some(d) => d >= 50_000_000,
                None => true,
            },
            None => match silence {
                Some(d) => d >= 200_000_000,
                None => false,
            },
        };
        if !finished {
            return None;
        }
        let mut bytes: Vec<u8> = Vec::new();
        std::mem::swap(&mut bytes, &mut self.captured);
        let mut cmd = String::new();
        std::mem::swap(&mut cmd, &mut self.pending_cmd);
        self.mode = Mode::Idle;
        self.last_pty_activity = None;
        let prompt = prompt_after_output(&bytes);
        Some(CapturedCommand { cmd, bytes, prompt })
    }
}

/// The capture invariant: outside a running command nothing is held back and no PTY
/// activity is being timed.
pub open spec fn capture_wf(st: StateView) -> bool {
    st.mode != Mode::Running ==> st.captured.len() == 0 && st.last is None
}

/// The concatenation of displayed chunks.
pub open spec fn flatten_chunks(chunks: Seq<Seq<u8>>) -> Seq<u8>
    decreases chunks.len(),
{
    if chunks.len() == 0 {
        Seq::empty()
    } else {
        flatten_chunks(chunks.drop_last()) + chunks.last()
    }
}

/// Typed input keeps the capture invariant.
pub proof fn lemma_stdin_keeps_capture_wf(st: StateView, data: Seq<u8>)
    requires
        capture_wf(st),
    ensures
        capture_wf(stdin_step(st, data)),
    decreases data.len(),
{
    if data.len() > 0 {
        lemma_stdin_keeps_capture_wf(st, data.drop_last());
    }
}

/// PTY output keeps the capture invariant.
pub proof fn lemma_output_keeps_capture_wf(st: StateView, data: Seq<u8>, now: u64)
    requires
        capture_wf(st),
    ensures
        capture_wf(output_step(st, data, now).0),
{
}

/// Polling keeps the capture invariant.
pub proof fn lemma_tick_keeps_capture_wf(
    st: StateView,
    now: u64,
    foreground: Option<i32>,
    shell_pgid: i32,
)
    requires
        capture_wf(st),
    ensures
        capture_wf(tick_step(st, now, foreground, shell_pgid).0),
{
}

/// No PTY byte is lost or duplicated: what was held back, followed by the new chunk, is
/// exactly what is displayed now followed by what stays held back.
pub proof fn lemma_output_conserves_bytes(st: StateView, data: Seq<u8>, now: u64)
    requires
        capture_wf(st),
    ensures
        flatten_chunks(output_step(st, data, now).1) + output_step(st, data, now).0.captured
            == st.captured + data,
{
    let (next, shown) = output_step(st, data, now);
    if st.mode == Mode::Running && !enters_alt(data) {
        assert(flatten_chunks(shown) == Seq::<u8>::empty());
        assert(Seq::<u8>::empty() + (st.captured + data) == st.captured + data);
    } else if st.mode == Mode::Running && st.captured.len() > 0 {
        assert(shown.drop_last() == seq![st.captured]);
        assert(seq![st.captured].drop_last() == Seq::<Seq<u8>>::empty());
        assert(flatten_chunks(Seq::<Seq<u8>>::empty()) == Seq::<u8>::empty());
        assert(flatten_chunks(seq![st.captured]) == Seq::<u8>::empty() + st.captured);
        assert(Seq::<u8>::empty() + st.captured == st.captured);
        assert(flatten_chunks(shown) == st.captured + data);
        assert(flatten_chunks(shown) + Seq::<u8>::empty() == flatten_chunks(shown));
    } else {
        assert(shown.drop_last() == Seq::<Seq<u8>>::empty());
        assert(flatten_chunks(Seq::<Seq<u8>>::empty()) == Seq::<u8>::empty());
        assert(flatten_chunks(shown) == Seq::<u8>::empty() + data);
        assert(st.captured.len() == 0);
        assert(st.captured + data == data);
        assert(flatten_chunks(shown) + next.captured == data);
    }
}

proof fn lemma_after_last_newline_is_suffix(s: Seq<u8>)
    ensures
        after_last_newline(s).len() <= s.len(),
        s.skip(s.len() - after_last_newline(s).len()) == after_last_newline(s),
        forall|i: int|
            0 <= i < after_last_newline(s).len() ==> after_last_newline(s)[i] != 0x0A,
        after_last_newline(s).len() < s.len() ==> s[s.len() - after_last_newline(s).len() - 1]
            == 0x0A,
    decreases s.len(),
{
    if s.len() > 0 && s.last() != 0x0A {
        lemma_after_last_newline_is_suffix(s.drop_last());
        let p = after_last_newline(s.drop_last());
        assert(s.skip(s.len() - p.len() - 1) == s.drop_last().skip(s.drop_last().len() - p.len())
            .push(s.last()));
    } else if s.len() > 0 {
        assert(s.skip(s.len() as int) == Seq::<u8>::empty());
    } else {
        assert(s.skip(0) == s);
    }
}

/// The prompt is the part of the bytes after the last newline: the bytes end with it, it
/// holds no newline, a newline stands right before it when the bytes hold one, and it is
/// empty when they hold none.
pub proof fn lemma_trailing_prompt_is_suffix(s: Seq<u8>)
    ensures
        trailing_prompt(s).len() <= s.len(),
        s.skip(s.len() - trailing_prompt(s).len()) == trailing_prompt(s),
        forall|i: int| 0 <= i < trailing_prompt(s).len() ==> trailing_prompt(s)[i] != 0x0A,
        s.contains(0x0A) ==> s[s.len() - trailing_prompt(s).len() - 1] == 0x0A,
        !s.contains(0x0A) ==> trailing_prompt(s).len() == 0,
{
    lemma_after_last_newline_is_suffix(s);
    if s.contains(0x0A) {
        let k = choose|k: int| 0 <= k < s.len() && s[k] == 0x0A;
        let p = after_last_newline(s);
        if p.len() == s.len() {
            assert(s.skip(0) == s);
            assert(p[k] == s[k]);
        }
    } else {
        assert(s.skip(s.len() as int) == Seq::<u8>::empty());
    }
}

/// A finished command hands over everything that was captured, with the typed command line
/// and the prompt that ends the capture, and leaves the state idle and empty.
pub proof fn lemma_emitted_command_holds_capture(
    st: StateView,
    now: u64,
    foreground: Option<i32>,
    shell_pgid: i32,
)
    requires
        tick_step(st, now, foreground, shell_pgid).1 is Some,
    ensures
        ({
            let (next, c) = tick_step(st, now, foreground, shell_pgid);
            let c = c.unwrap();
            &&& st.mode == Mode::Running
            &&& c.bytes == st.captured
            &&& c.cmd == st.pending
            &&& c.bytes.skip(c.bytes.len() - c.prompt.len()) == c.prompt
            &&& next.mode == Mode::Idle
            &&& next.captured.len() == 0
            &&& next.pending.len() == 0
        }),
{
    lemma_trailing_prompt_is_suffix(st.captured);
}

/// A command line typed while idle (printable bytes, then a newline or carriage return)
/// starts a running command whose text is what was typed, with nothing captured yet.
pub proof fn lemma_typed_line_starts_command(st: StateView, line: Seq<u8>, end: u8)
    requires
        st.mode == Mode::Idle,
        is_line_end(end),
        forall|i: int| 0 <= i < line.len() ==> is_command_byte(#[trigger] line[i]),
    ensures
        stdin_step(st, line.push(end)).mode == Mode::Running,
        stdin_step(st, line.push(end)).pending == st.pending + line.map_values(|b: u8| b as char),
        stdin_step(st, line.push(end)).captured.len() == 0,
        stdin_step(st, line.push(end)).last is None,
{
    lemma_typed_text_accumulates(st, line);
    assert(line.push(end).drop_last() == line);
}

proof fn lemma_typed_text_accumulates(st: StateView, line: Seq<u8>)
    requires
        st.mode == Mode::Idle,
        forall|i: int| 0 <= i < line.len() ==> is_command_byte(#[trigger] line[i]),
    ensures
        stdin_step(st, line).mode == Mode::Idle,
        stdin_step(st, line).pending == st.pending + line.map_values(|b: u8| b as char),
    decreases line.len(),
{
    if line.len() == 0 {
        assert(st.pending + line.map_values(|b: u8| b as char) == st.pending);
    } else {
        let init = line.drop_last();
        assert forall|i: int| 0 <= i < init.len() implies is_command_byte(#[trigger] init[i]) by {
            assert(init[i] == line[i]);
        }
        lemma_typed_text_accumulates(st, init);
        assert(is_command_byte(line[line.len() - 1]));
        assert(line.map_values(|b: u8| b as char) == init.map_values(|b: u8| b as char).push(
            line.last() as char,
        ));
    }
}

/// The state after chunks of PTY output, each with the time it arrived, taken in order.
pub open spec fn feed_outputs(st: StateView, chunks: Seq<(Seq<u8>, u64)>) -> StateView
    decreases chunks.len(),
{
    if chunks.len() == 0 {
        st
    } else {
        output_step(feed_outputs(st, chunks.drop_last()), chunks.last().0, chunks.last().1).0
    }
}

/// The output bytes of timed chunks, concatenated in order.
pub open spec fn chunk_bytes(chunks: Seq<(Seq<u8>, u64)>) -> Seq<u8>
    decreases chunks.len(),
{
    if chunks.len() == 0 {
        Seq::empty()
    } else {
        chunk_bytes(chunks.drop_last()) + chunks.last().0
    }
}

/// While a command runs and no program switches to the alternate screen, every chunk of
/// output is appended to the capture, in order, and the command keeps running.
pub proof fn lemma_running_output_accumulates(st: StateView, chunks: Seq<(Seq<u8>, u64)>)
    requires
        st.mode == Mode::Running,
        forall|i: int| 0 <= i < chunks.len() ==> !enters_alt(#[trigger] chunks[i].0),
    ensures
        feed_outputs(st, chunks).mode == Mode::Running,
        feed_outputs(st, chunks).captured == st.captured + chunk_bytes(chunks),
        feed_outputs(st, chunks).pending == st.pending,
        chunks.len() > 0 ==> feed_outputs(st, chunks).last == Some(chunks.last().1),
    decreases chunks.len(),
{
    if chunks.len() == 0 {
        assert(st.captured + Seq::<u8>::empty() == st.captured);
    } else {
        let init = chunks.drop_last();
        assert forall|i: int| 0 <= i < init.len() implies !enters_alt(#[trigger] init[i].0) by {
            assert(init[i] == chunks[i]);
        }
        lemma_running_output_accumulates(st, init);
        assert(!enters_alt(chunks[chunks.len() - 1].0));
        assert(st.captured + chunk_bytes(init) + chunks.last().0 == st.captured + (chunk_bytes(
            init,
        ) + chunks.last().0));
    }
}

/// A whole command cycle: from idle with nothing typed, a command line is typed and ended,
/// the command prints its output in chunks without switching to the alternate screen, and
/// a poll finds it finished. The command emitted carries exactly the typed line and exactly
/// the printed bytes, and the state is idle and empty again.
pub proof fn lemma_command_cycle(
    st: StateView,
    line: Seq<u8>,
    end: u8,
    chunks: Seq<(Seq<u8>, u64)>,
    now: u64,
    foreground: Option<i32>,
    shell_pgid: i32,
)
    requires
        st.mode == Mode::Idle,
        st.pending.len() == 0,
        is_line_end(end),
        forall|i: int| 0 <= i < line.len() ==> is_command_byte(#[trigger] line[i]),
        forall|i: int| 0 <= i < chunks.len() ==> !enters_alt(#[trigger] chunks[i].0),
        command_finished(
            feed_outputs(stdin_step(st, line.push(end)), chunks),
            now,
            foreground,
            shell_pgid,
        ),
    ensures
        ({
            let running = feed_outputs(stdin_step(st, line.push(end)), chunks);
            let (next, emitted) = tick_step(running, now, foreground, shell_pgid);
            &&& emitted is Some
            &&& emitted.unwrap().cmd == line.map_values(|b: u8| b as char)
            &&& emitted.unwrap().bytes == chunk_bytes(chunks)
            &&& emitted.unwrap().prompt == trailing_prompt(chunk_bytes(chunks))
            &&& next == StateView {
                mode: Mode::Idle,
                last: None,
                captured: Seq::empty(),
                pending: Seq::empty(),
            }
        }),
{
    lemma_typed_line_starts_command(st, line, end);
    let started = stdin_step(st, line.push(end));
    lemma_running_output_accumulates(started, chunks);
    assert(Seq::<char>::empty() + line.map_values(|b: u8| b as char) == line.map_values(
        |b: u8| b as char,
    ));
    assert(Seq::<u8>::empty() + chunk_bytes(chunks) == chunk_bytes(chunks));
}

/// A line end typed while a command runs or a full-screen program is shown leaves the mode
/// as it is and empties the typed command text; outside the idle mode typing never adds to
/// the command text.
pub proof fn lemma_line_end_outside_idle_clears_command(st: StateView, b: u8)
    requires
        st.mode != Mode::Idle,
    ensures
        stdin_byte_step(st, b).mode == st.mode,
        stdin_byte_step(st, b).captured == st.captured,
        is_line_end(b) ==> stdin_byte_step(st, b).pending.len() == 0,
        !is_line_end(b) ==> stdin_byte_step(st, b).pending == st.pending,
{
}

/// Keys typed outside the idle mode never change the mode, and when the last of them ends
/// a line the typed command text is empty.
pub proof fn lemma_keys_outside_idle(st: StateView, keys: Seq<u8>)
    requires
        st.mode != Mode::Idle,
    ensures
        stdin_step(st, keys).mode == st.mode,
        keys.len() > 0 && is_line_end(keys.last()) ==> stdin_step(st, keys).pending.len() == 0,
    decreases keys.len(),
{
    if keys.len() > 0 {
        lemma_keys_outside_idle(st, keys.drop_last());
        lemma_line_end_outside_idle_clears_command(stdin_step(st, keys.drop_last()), keys.last());
    }
}

/// After a full-screen program: keys typed inside it that end with a line end (such as
/// `:wq` and Enter), then the program leaving the alternate screen, then a command line
/// typed at the prompt. The command that starts carries exactly the characters typed for
/// it, nothing typed before it.
pub proof fn lemma_command_after_full_screen(
    st: StateView,
    keys: Seq<u8>,
    exit_chunk: Seq<u8>,
    now: u64,
    line: Seq<u8>,
    end: u8,
)
    requires
        st.mode == Mode::Passthrough,
        keys.len() > 0,
        is_line_end(keys.last()),
        exits_alt(exit_chunk),
        is_line_end(end),
        forall|i: int| 0 <= i < line.len() ==> is_command_byte(#[trigger] line[i]),
    ensures
        ({
            let back = output_step(stdin_step(st, keys), exit_chunk, now).0;
            let started = stdin_step(back, line.push(end));
            &&& back.mode == Mode::Idle
            &&& started.mode == Mode::Running
            &&& started.pending == line.map_values(|b: u8| b as char)
        }),
{
    lemma_keys_outside_idle(st, keys);
    let back = output_step(stdin_step(st, keys), exit_chunk, now).0;
    assert(back.pending.len() == 0);
    lemma_typed_line_starts_command(back, line, end);
    assert(back.pending == Seq::<char>::empty());
    assert(Seq::<char>::empty() + line.map_values(|b: u8| b as char) == line.map_values(
        |b: u8| b as char,
    ));
}

} // verus!
