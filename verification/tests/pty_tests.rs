use aura::pty::{prompt_after_output, strip_ansi, text_of_pieces, CommandState, Mode, VtPiece};

const MS: u64 = 1_000_000;

fn running_state() -> CommandState {
    let mut st = CommandState::new();
    st.on_stdin(b"ls -l\r");
    st
}

#[test]
fn strip_ansi_keeps_printable_text() {
    assert_eq!(strip_ansi(b"\x1b[31mred\x1b[0m plain"), "red plain");
    assert_eq!(strip_ansi(b"no escapes"), "no escapes");
    assert_eq!(strip_ansi(b""), "");
}

#[test]
fn strip_ansi_drops_control_codes() {
    assert_eq!(strip_ansi(b"a\r\nb\x07"), "ab");
}

#[test]
fn new_state_is_idle_and_empty() {
    let st = CommandState::new();
    assert_eq!(st.mode, Mode::Idle);
    assert_eq!(st.last_pty_activity, None);
    assert!(st.captured.is_empty());
    assert!(st.pending_cmd.is_empty());
}

#[test]
fn typed_line_starts_command() {
    let mut st = CommandState::new();
    st.on_stdin(b"git status");
    assert_eq!(st.mode, Mode::Idle);
    assert_eq!(st.pending_cmd, "git status");
    st.on_stdin(b"\n");
    assert_eq!(st.mode, Mode::Running);
    assert_eq!(st.pending_cmd, "git status");
    assert!(st.captured.is_empty());
}

#[test]
fn non_printable_typed_bytes_are_not_command_text() {
    let mut st = CommandState::new();
    st.on_stdin(b"a\x7f\x1bb\tc");
    assert_eq!(st.pending_cmd, "abc");
}

#[test]
fn newline_while_running_clears_typed_text() {
    let mut st = running_state();
    st.on_stdin(b"more\n");
    assert_eq!(st.mode, Mode::Running);
    assert_eq!(st.pending_cmd, "");
}

#[test]
fn idle_output_is_displayed_verbatim() {
    let mut st = CommandState::new();
    let shown = st.on_pty_output(b"$ ", 5);
    assert_eq!(shown, vec![b"$ ".to_vec()]);
    assert_eq!(st.mode, Mode::Idle);
}

#[test]
fn running_output_is_captured() {
    let mut st = running_state();
    assert!(st.on_pty_output(b"total 0\n", 10 * MS).is_empty());
    assert!(st.on_pty_output(b"user@host:~$ ", 11 * MS).is_empty());
    assert_eq!(st.captured, b"total 0\nuser@host:~$ ".to_vec());
    assert_eq!(st.last_pty_activity, Some(11 * MS));
}

#[test]
fn alt_screen_switches_and_flushes() {
    let mut st = running_state();
    st.on_pty_output(b"partial", 1);
    let shown = st.on_pty_output(b"\x1b[?1049hvim", 2);
    assert_eq!(shown, vec![b"partial".to_vec(), b"\x1b[?1049hvim".to_vec()]);
    assert_eq!(st.mode, Mode::Passthrough);
    assert!(st.captured.is_empty());
    assert_eq!(st.last_pty_activity, None);
    let shown = st.on_pty_output(b"screen", 3);
    assert_eq!(shown, vec![b"screen".to_vec()]);
    let shown = st.on_pty_output(b"\x1b[?1049l", 4);
    assert_eq!(shown, vec![b"\x1b[?1049l".to_vec()]);
    assert_eq!(st.mode, Mode::Idle);
}

#[test]
fn alt_screen_with_nothing_captured_shows_one_chunk() {
    let mut st = running_state();
    let shown = st.on_pty_output(b"\x1b[?1047h", 2);
    assert_eq!(shown, vec![b"\x1b[?1047h".to_vec()]);
    assert_eq!(st.mode, Mode::Passthrough);
}

#[test]
fn idle_enters_alt_screen() {
    let mut st = CommandState::new();
    st.on_pty_output(b"\x1b[?1049h", 1);
    assert_eq!(st.mode, Mode::Passthrough);
}

#[test]
fn invalid_utf8_chunk_is_not_an_alt_screen_switch() {
    let mut st = CommandState::new();
    st.on_pty_output(b"\xff\x1b[?1049h", 1);
    assert_eq!(st.mode, Mode::Idle);
}

#[test]
fn tick_with_shell_in_foreground_emits_after_settling() {
    let mut st = running_state();
    st.on_pty_output(b"file.txt\nuser@host:~$ ", 100 * MS);
    assert!(st.on_tick(140 * MS, Some(42), 42).is_none());
    let cap = st.on_tick(150 * MS, Some(42), 42).expect("finished");
    assert_eq!(cap.cmd, "ls -l");
    assert_eq!(cap.bytes, b"file.txt\nuser@host:~$ ".to_vec());
    assert_eq!(cap.prompt, b"user@host:~$ ".to_vec());
    assert_eq!(st.mode, Mode::Idle);
    assert!(st.captured.is_empty());
    assert!(st.pending_cmd.is_empty());
    assert_eq!(st.last_pty_activity, None);
}

#[test]
fn tick_waits_while_command_in_foreground() {
    let mut st = running_state();
    st.on_pty_output(b"out", 0);
    assert!(st.on_tick(10_000 * MS, Some(7), 42).is_none());
    assert_eq!(st.mode, Mode::Running);
}

#[test]
fn tick_with_shell_in_foreground_and_no_output_emits() {
    let mut st = running_state();
    let cap = st.on_tick(0, Some(42), 42).expect("finished");
    assert!(cap.bytes.is_empty());
    assert!(cap.prompt.is_empty());
}

#[test]
fn tick_without_process_group_uses_silence() {
    let mut st = running_state();
    assert!(st.on_tick(1_000 * MS, None, 42).is_none());
    st.on_pty_output(b"x\n", 1_000 * MS);
    assert!(st.on_tick(1_199 * MS, None, 42).is_none());
    let cap = st.on_tick(1_200 * MS, None, 42).expect("finished");
    assert_eq!(cap.bytes, b"x\n".to_vec());
    assert!(cap.prompt.is_empty());
}

#[test]
fn tick_while_idle_emits_nothing() {
    let mut st = CommandState::new();
    assert!(st.on_tick(1_000_000 * MS, Some(1), 1).is_none());
    assert_eq!(st.mode, Mode::Idle);
}

#[test]
fn prompt_is_after_last_newline() {
    assert_eq!(prompt_after_output(b"a\nb\nprompt$ "), b"prompt$ ".to_vec());
    assert_eq!(prompt_after_output(b"no newline"), Vec::<u8>::new());
    assert_eq!(prompt_after_output(b"ends\n"), Vec::<u8>::new());
    assert_eq!(prompt_after_output(b""), Vec::<u8>::new());
}

#[test]
fn output_bytes_are_conserved() {
    for start_running in [false, true] {
        let mut st = if start_running { running_state() } else { CommandState::new() };
        st.on_pty_output(b"abc", 1);
        let before = st.captured.clone();
        let data = b"x\x1b[?1049hy".to_vec();
        let shown = st.on_pty_output(&data, 2);
        let mut lhs: Vec<u8> = shown.concat();
        lhs.extend_from_slice(&st.captured);
        let mut rhs = before;
        rhs.extend_from_slice(&data);
        assert_eq!(lhs, rhs);
    }
}

#[test]
fn full_command_cycle() {
    let mut st = CommandState::new();
    st.on_stdin(b"echo hi");
    st.on_stdin(b"\n");
    st.on_pty_output(b"hi\n", 1 * MS);
    st.on_pty_output(b"$ ", 2 * MS);
    let cap = st.on_tick(300 * MS, None, 9).expect("finished");
    assert_eq!(cap.cmd, "echo hi");
    assert_eq!(cap.bytes, b"hi\n$ ".to_vec());
    assert_eq!(cap.prompt, b"$ ".to_vec());
    assert_eq!(st.mode, Mode::Idle);
}

#[test]
fn text_of_pieces_keeps_printed_text() {
    let pieces = vec![
        VtPiece::Char('a'),
        VtPiece::Other,
        VtPiece::Text("bc".to_string()),
        VtPiece::Other,
        VtPiece::Char('d'),
    ];
    assert_eq!(text_of_pieces(&pieces), "abcd");
    assert_eq!(text_of_pieces(&Vec::new()), "");
}
