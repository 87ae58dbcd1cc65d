use aura::aura::help::{
    agent_instructions, help_after_search, help_prompt, no_context_reply, no_embedding_reply, HelpStep,
};
use aura::cli_server::{control_reply, control_socket_path, control_tcp_addr};
use aura::cmd::{parse_command, status_string, CmdAction};
use aura::grpc::MyAura;
use aura::context::AppContext;
use aura::ingest::{
    batch_is_full, chunk_id, documents_to_embed, epoch_millis_as_i64, is_worth_embedding,
    looks_like_prompt, now_millis, worker_step, SanitizedChunk, WorkerEvent,
};
use aura::rag::query_text;
use aura::server::{parse_command as parse_server_command, unknown_reply, ServerAction};
use aura::tools::status::{compute_status_blocking, status_text};
use std::sync::Arc;

#[test]
fn parse_status_command() {
    assert!(matches!(parse_command("status"), CmdAction::Status));
    assert!(matches!(parse_command("  status \r\n"), CmdAction::Status));
    assert!(matches!(parse_command("\u{3000}status\u{a0}"), CmdAction::Status));
}

#[test]
fn parse_unknown_command_is_trimmed() {
    match parse_command("  do things  ") {
        CmdAction::Unknown(u) => assert_eq!(u, "do things"),
        _ => panic!("expected unknown"),
    }
    match parse_command("Status") {
        CmdAction::Unknown(u) => assert_eq!(u, "Status"),
        _ => panic!("expected unknown"),
    }
    match parse_command("   ") {
        CmdAction::Unknown(u) => assert_eq!(u, ""),
        _ => panic!("expected unknown"),
    }
}

#[test]
fn status_string_is_ok() {
    assert_eq!(status_string(), "OK");
}

#[test]
fn control_replies() {
    assert_eq!(control_reply("status\r\n"), "OK\n");
    assert_eq!(control_reply("reboot\n"), "Unknown aura command: reboot\n");
    assert_eq!(control_reply(""), "Unknown aura command: \n");
}

#[test]
fn server_commands() {
    assert!(matches!(parse_server_command("config show"), ServerAction::ConfigShow));
    assert!(matches!(parse_server_command(" config\n"), ServerAction::ConfigShow));
    match parse_server_command("config  show") {
        ServerAction::Unknown(u) => assert_eq!(u, "config  show"),
        _ => panic!("expected unknown"),
    }
    assert_eq!(unknown_reply("x y"), "Unknown aura command: x y\n");
}

#[test]
fn status_text_formats_uptime() {
    assert_eq!(status_text(0), "OK uptime=0s");
    assert_eq!(status_text(1234), "OK uptime=1234s");
    assert_eq!(status_text(u64::MAX), "OK uptime=18446744073709551615s");
}

#[test]
fn status_of_fresh_context() {
    let ctx = AppContext::new();
    let s = compute_status_blocking(&ctx);
    assert!(s.starts_with("OK uptime="));
    assert!(s.ends_with('s'));
    let svc = MyAura::new(Arc::new(AppContext::new()));
    assert!(svc.status_reply().starts_with("OK"));
}

#[test]
fn prompt_detection() {
    assert!(looks_like_prompt("user@host:~/src$"));
    assert!(looks_like_prompt("  user@host:C> \n"));
    assert!(!looks_like_prompt("user@host ~$"));
    assert!(!looks_like_prompt("echo a:b$c"));
    assert!(!looks_like_prompt(""));
    assert!(!looks_like_prompt("   "));
}

#[test]
fn embedding_filter() {
    assert!(is_worth_embedding("cargo build failed"));
    assert!(!is_worth_embedding("   \n\t"));
    assert!(!is_worth_embedding("me@box:/tmp$ "));
    assert!(!is_worth_embedding("\u{1}\u{2}"));
    assert!(is_worth_embedding(" x\u{1} "));
}

#[test]
fn documents_keep_order_and_text() {
    let batch = vec![
        SanitizedChunk { text: "first".to_string() },
        SanitizedChunk { text: "  ".to_string() },
        SanitizedChunk { text: "a@b:c$".to_string() },
        SanitizedChunk { text: " second \n".to_string() },
    ];
    let docs = documents_to_embed(&batch);
    let texts: Vec<&str> = docs.iter().map(|d| d.content.as_str()).collect();
    assert_eq!(texts, vec!["first", " second \n"]);
}

#[test]
fn batch_limit() {
    assert!(!batch_is_full(0));
    assert!(!batch_is_full(31));
    assert!(batch_is_full(32));
    assert!(batch_is_full(33));
}

#[test]
fn chunk_ids() {
    assert_eq!(chunk_id(1700000000123, 7), "1700000000123-7");
    assert_eq!(chunk_id(-5, 0), "-5-0");
    assert_eq!(chunk_id(i64::MIN, u64::MAX), "-9223372036854775808-18446744073709551615");
}

#[test]
fn epoch_millis_conversion() {
    assert_eq!(epoch_millis_as_i64(None), 0);
    assert_eq!(epoch_millis_as_i64(Some(42)), 42);
    assert_eq!(epoch_millis_as_i64(Some(1u128 << 64)), 0);
    assert_eq!(epoch_millis_as_i64(Some((1u128 << 63) + 1)), i64::MIN + 1);
    assert!(now_millis() > 1_600_000_000_000);
    assert!(aura::rag::now_millis() > 1_600_000_000_000);
}

#[test]
fn retrieval_query_keeps_512_bytes() {
    assert_eq!(query_text("ls", "short"), "Command: ls\nshort");
    let long = "a".repeat(600);
    let q = query_text("make", &long);
    assert_eq!(q, format!("Command: make\n{}", "a".repeat(512)));
    let exact = "b".repeat(510) + "é";
    assert_eq!(query_text("c", &exact), format!("Command: c\n{}", exact));
}

#[test]
fn help_prompt_layout() {
    let contents = vec!["one".to_string(), "two".to_string()];
    let p = help_prompt(&contents, "why?");
    assert_eq!(
        p,
        "Use the following context to answer the user's question. If the answer is not contained in the context, say you don't know.\n\nContext:\none\n\ntwo\n\n\nUser Question:\nwhy?\n\nAnswer:"
    );
    assert_eq!(no_context_reply(), "No relevant context found.");
    assert_eq!(no_embedding_reply(), "No embedding produced for query.");
    assert_eq!(
        agent_instructions(),
        "You are a helpful assistant. Answer concisely using only the provided context."
    );
}

#[test]
fn chunk_ids_do_not_collide() {
    let ids = [
        chunk_id(12, 3),
        chunk_id(1, 23),
        chunk_id(-1, 23),
        chunk_id(-12, 3),
        chunk_id(123, 0),
        chunk_id(0, 123),
    ];
    for i in 0..ids.len() {
        for j in 0..ids.len() {
            assert_eq!(ids[i] == ids[j], i == j);
        }
    }
}

#[test]
fn embedding_decision_ignores_surrounding_space() {
    for text in ["  hello  ", "a@b:c$", "\u{1}", "", " x "] {
        assert_eq!(is_worth_embedding(text), is_worth_embedding(text.trim()));
    }
}

#[test]
fn worker_batching_decisions() {
    let mut batch: Vec<u32> = Vec::new();
    assert_eq!(worker_step(&mut batch, WorkerEvent::Deadline), (None, false));
    for i in 0..31u32 {
        assert_eq!(worker_step(&mut batch, WorkerEvent::Chunk(i)), (None, false));
    }
    let (full, stop) = worker_step(&mut batch, WorkerEvent::Chunk(31));
    assert_eq!(full, Some((0..32u32).collect::<Vec<u32>>()));
    assert!(!stop);
    assert!(batch.is_empty());
    assert_eq!(worker_step(&mut batch, WorkerEvent::Chunk(40)), (None, false));
    assert_eq!(worker_step(&mut batch, WorkerEvent::Deadline), (Some(vec![40]), false));
    assert_eq!(worker_step(&mut batch, WorkerEvent::Chunk(41)), (None, false));
    assert_eq!(worker_step(&mut batch, WorkerEvent::Closed), (Some(vec![41]), true));
    assert!(batch.is_empty());
    assert_eq!(worker_step(&mut batch, WorkerEvent::Closed), (None, true));
}

#[test]
fn worker_run_embeds_every_chunk_once() {
    let mut batch: Vec<u32> = Vec::new();
    let mut embedded: Vec<Vec<u32>> = Vec::new();
    let mut events: Vec<WorkerEvent<u32>> = (0..70u32).map(WorkerEvent::Chunk).collect();
    events.insert(10, WorkerEvent::Deadline);
    events.push(WorkerEvent::Closed);
    for e in events {
        let (due, stop) = worker_step(&mut batch, e);
        if let Some(b) = due {
            embedded.push(b);
        }
        if stop {
            break;
        }
    }
    assert_eq!(embedded.iter().map(|b| b.len()).collect::<Vec<_>>(), vec![10, 32, 28]);
    assert_eq!(embedded.concat(), (0..70u32).collect::<Vec<u32>>());
}

#[test]
fn help_without_context_does_not_ask() {
    match help_after_search(&Vec::new(), "why?") {
        HelpStep::Reply(r) => assert_eq!(r, "No relevant context found."),
        HelpStep::Ask(_) => panic!("asked the model without context"),
    }
    let contents = vec!["ctx".to_string()];
    match help_after_search(&contents, "why?") {
        HelpStep::Ask(p) => assert_eq!(p, help_prompt(&contents, "why?")),
        HelpStep::Reply(_) => panic!("did not ask the model"),
    }
}

#[test]
fn control_endpoints() {
    assert_eq!(control_socket_path(Some("/run/x.sock".to_string()), Some("/run/user/1".to_string())), "/run/x.sock");
    assert_eq!(control_socket_path(None, Some("/run/user/1".to_string())), "/run/user/1/aura.sock");
    assert_eq!(control_socket_path(None, None), "/tmp/aura.sock");
    assert_eq!(control_tcp_addr(None), "127.0.0.1:40001");
    assert_eq!(control_tcp_addr(Some("0.0.0.0:9".to_string())), "0.0.0.0:9");
}
