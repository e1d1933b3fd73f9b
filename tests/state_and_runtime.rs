use waterfall::{
    blake3_hash, namespaced_key, prepare_messages, read_reply, state_diff_from_response,
    ChatMessage, ChatRole, CryptoHash, ErrorKind, Instruction, LlmInstruction, LlmRuntime,
    ReplyChoice, Runtime, ServiceReply, State, StateDiff, Store, ToolCall, Usage,
};

fn key(n: u8) -> CryptoHash {
    blake3_hash(&[n])
}

fn usage() -> Usage {
    Usage { prompt_tokens: 10, completion_tokens: 5, total_tokens: 15 }
}

fn reply_with(text: &str) -> ServiceReply {
    ServiceReply {
        choices: vec![ReplyChoice { content: Some(text.to_string()), tool_calls: Vec::new() }],
        usage: Some(usage()),
    }
}

fn config_id() -> CryptoHash {
    blake3_hash(b"config C")
}

fn runtime_with_config(prompt: &str) -> LlmRuntime {
    let mut rt = LlmRuntime::new();
    rt.inject_system_config(config_id(), prompt.to_string());
    rt
}

/// Drains the queue in order, handing each request to `service`; stops at the
/// first failure. The stored configuration text is used as the prompt.
fn execute_all(
    rt: &mut LlmRuntime,
    calls: &mut Vec<Vec<ChatMessage>>,
    service: &mut dyn FnMut(&[ChatMessage]) -> Result<ServiceReply, ErrorKind>,
) -> Result<(), ErrorKind> {
    while let Some(ix) = rt.next_instruction() {
        let ix = ix.clone();
        let outcome = match rt.config_text(&ix) {
            Ok(prompt) => {
                let messages = prepare_messages(&ix, prompt);
                let out = service(&messages);
                calls.push(messages);
                out
            }
            Err(e) => Err(e),
        };
        rt.complete_one(outcome)?;
    }
    Ok(())
}

fn text(state: &State<String>, k: &CryptoHash) -> Option<String> {
    state.storage.get(k).cloned()
}

#[test]
fn store_insert_get_overwrite_remove() {
    let mut s: Store<u32> = Store::new();
    assert!(!s.contains_key(&key(1)));
    s.insert(key(1), 10);
    s.insert(key(2), 20);
    assert_eq!(s.get(&key(1)), Some(&10));
    s.insert(key(1), 11);
    assert_eq!(s.get(&key(1)), Some(&11));
    s.remove(&key(1));
    assert_eq!(s.get(&key(1)), None);
    s.remove(&key(3));
    assert_eq!(s.get(&key(2)), Some(&20));
    let e = s.pop_entry().unwrap();
    assert_eq!(e, (key(2), 20));
    assert!(s.pop_entry().is_none());
}

#[test]
fn new_state_is_empty() {
    let s: State<String> = State::new();
    assert_eq!(s.id, CryptoHash::default());
    assert!(s.storage.get(&key(0)).is_none());
    assert!(s.sub_states.is_empty());
}

#[test]
fn diff_application_writes_deletes_and_keeps_the_rest() {
    let mut state: State<String> = State::default();
    let mut seed = StateDiff::new();
    seed.storage_insert.insert(key(1), "one".to_string());
    seed.storage_insert.insert(key(2), "two".to_string());
    seed.storage_insert.insert(key(3), "three".to_string());
    seed.apply(&mut state);

    let mut d = StateDiff::new();
    d.storage_insert.insert(key(4), "four".to_string());
    d.storage_update.insert(key(2), "TWO".to_string());
    d.storage_delete.push(key(3));
    d.storage_delete.push(key(9));
    d.apply(&mut state);

    assert_eq!(text(&state, &key(1)), Some("one".to_string()));
    assert_eq!(text(&state, &key(2)), Some("TWO".to_string()));
    assert_eq!(text(&state, &key(3)), None);
    assert_eq!(text(&state, &key(4)), Some("four".to_string()));
    assert_eq!(text(&state, &key(9)), None);
}

#[test]
fn replaying_a_diff_gives_the_same_state() {
    let mut d = StateDiff::new();
    d.storage_insert.insert(key(1), "one".to_string());
    d.storage_update.insert(key(2), "two".to_string());
    d.storage_delete.push(key(3));
    let mut first: State<String> = State::new();
    let mut second: State<String> = State::new();
    for s in [&mut first, &mut second] {
        s.storage.insert(key(3), "three".to_string());
        s.storage.insert(key(4), "four".to_string());
    }
    d.clone().apply(&mut first);
    d.apply(&mut second);
    for n in 0..6u8 {
        assert_eq!(text(&first, &key(n)), text(&second, &key(n)));
    }
    assert_eq!(text(&first, &key(1)), Some("one".to_string()));
    assert_eq!(text(&first, &key(3)), None);
}

#[test]
fn empty_diff_changes_nothing() {
    let mut state: State<String> = State::new();
    state.storage.insert(key(1), "one".to_string());
    StateDiff::new().apply(&mut state);
    assert_eq!(text(&state, &key(1)), Some("one".to_string()));
}

#[test]
fn update_wins_over_insert_and_delete_wins_over_both() {
    let mut state: State<String> = State::new();
    let mut d = StateDiff::new();
    d.storage_insert.insert(key(1), "ins".to_string());
    d.storage_update.insert(key(1), "upd".to_string());
    d.storage_insert.insert(key(2), "ins".to_string());
    d.storage_delete.push(key(2));
    d.apply(&mut state);
    assert_eq!(text(&state, &key(1)), Some("upd".to_string()));
    assert_eq!(text(&state, &key(2)), None);
}

#[test]
fn parse_into_returns_the_input() {
    let ix = LlmInstruction::parse_from("hello".to_string(), config_id());
    assert_eq!(ix.parse_into(), "hello");
    assert_eq!(ix.system_config_hash, config_id());
    assert!(ix.memory.is_empty());
    assert_eq!(ix.new_message_index, 0);
    assert!(!LlmInstruction::FALLIBLE);
    assert_eq!(LlmInstruction::INSTRUCTION_NAME, "llm_instruction");
}

#[test]
fn prepare_fails_without_configuration() {
    let state: State<String> = State::new();
    let mut ix = LlmInstruction::parse_from("hello".to_string(), config_id());
    assert_eq!(ix.prepare(&state), Err(ErrorKind::StateLookup));
    assert!(ix.memory.is_empty());
}

#[test]
fn prepare_stops_at_the_first_gap() {
    let mut state: State<String> = State::new();
    state.storage.insert(config_id(), "prompt".to_string());
    for i in [0usize, 1, 3] {
        state.storage.insert(namespaced_key("user_message", i), format!("u{}", i));
        state.storage.insert(namespaced_key("assistant_message", i), format!("a{}", i));
    }
    state.storage.insert(namespaced_key("tool_call", 1), "call".to_string());
    let mut ix = LlmInstruction::parse_from("next".to_string(), config_id());
    assert_eq!(ix.prepare(&state), Ok(()));
    assert_eq!(ix.new_message_index, 2);
    assert_eq!(
        ix.memory,
        vec![
            ("u0".to_string(), "a0".to_string(), None),
            ("u1".to_string(), "a1".to_string(), Some("call".to_string())),
        ]
    );
}

#[test]
fn prepare_needs_both_halves_of_a_turn() {
    let mut state: State<String> = State::new();
    state.storage.insert(config_id(), "prompt".to_string());
    state.storage.insert(namespaced_key("user_message", 0), "u0".to_string());
    let mut ix = LlmInstruction::parse_from("next".to_string(), config_id());
    assert_eq!(ix.prepare(&state), Ok(()));
    assert_eq!(ix.new_message_index, 0);
    assert!(ix.memory.is_empty());
}

#[test]
fn messages_are_prompt_history_then_input() {
    let ix = LlmInstruction {
        system_config_hash: config_id(),
        memory: vec![
            ("q0".to_string(), "r0".to_string(), None),
            ("q1".to_string(), "r1".to_string(), Some("t".to_string())),
        ],
        new_message: "q2".to_string(),
        new_message_index: 2,
    };
    let m = prepare_messages(&ix, "sys".to_string());
    let got: Vec<(ChatRole, String)> = m.into_iter().map(|c| (c.role, c.content)).collect();
    assert_eq!(
        got,
        vec![
            (ChatRole::System, "sys".to_string()),
            (ChatRole::User, "q0".to_string()),
            (ChatRole::Assistant, "r0".to_string()),
            (ChatRole::User, "q1".to_string()),
            (ChatRole::Assistant, "r1".to_string()),
            (ChatRole::User, "q2".to_string()),
        ]
    );
}

#[test]
fn read_reply_takes_the_first_choice() {
    let reply = ServiceReply {
        choices: vec![
            ReplyChoice {
                content: None,
                tool_calls: vec![ToolCall { name: "f".to_string(), arguments: "{}".to_string() }],
            },
            ReplyChoice { content: Some("second".to_string()), tool_calls: Vec::new() },
        ],
        usage: Some(usage()),
    };
    let c = read_reply(reply).unwrap();
    assert_eq!(c.text, "");
    assert_eq!(c.tool_calls.len(), 1);
    assert_eq!(c.tool_calls[0].name, "f");
    assert_eq!(c.usage, usage());
}

#[test]
fn read_reply_fails_without_choices() {
    let reply = ServiceReply { choices: Vec::new(), usage: Some(usage()) };
    assert_eq!(read_reply(reply).err(), Some(ErrorKind::ExternalService));
}

#[test]
fn read_reply_fails_without_usage() {
    let mut reply = reply_with("text");
    reply.usage = None;
    assert_eq!(read_reply(reply).err(), Some(ErrorKind::ExternalService));
}

#[test]
fn diff_from_response_records_the_turn() {
    let d = state_diff_from_response(3, "q".to_string(), "r".to_string());
    assert_eq!(d.storage_insert.get(&namespaced_key("user_message", 3)), Some(&"q".to_string()));
    assert_eq!(
        d.storage_insert.get(&namespaced_key("assistant_message", 3)),
        Some(&"r".to_string())
    );
    assert!(d.storage_delete.is_empty());
}

#[test]
fn push_fails_for_unknown_configuration() {
    let mut rt = LlmRuntime::new();
    let ix = LlmInstruction::parse_from("hello".to_string(), config_id());
    assert_eq!(rt.push_instruction(ix), Err(ErrorKind::StateLookup));
    assert_eq!(rt.pending_count(), 0);
}

#[test]
fn injecting_a_configuration_again_overwrites_it() {
    let mut rt = runtime_with_config("old");
    rt.inject_system_config(config_id(), "new".to_string());
    assert_eq!(text(rt.state(), &config_id()), Some("new".to_string()));
}

#[test]
fn single_turn_records_request_and_response() {
    let mut rt = runtime_with_config("You are helpful.");
    let ix = LlmInstruction::parse_from("hello".to_string(), config_id());
    assert_eq!(rt.push_instruction(ix), Ok(()));
    let mut calls = Vec::new();
    let r = execute_all(&mut rt, &mut calls, &mut |_m| Ok(reply_with("hi there")));
    assert_eq!(r, Ok(()));
    assert_eq!(calls.len(), 1);
    let sent: Vec<(ChatRole, String)> =
        calls[0].iter().map(|c| (c.role, c.content.clone())).collect();
    assert_eq!(
        sent,
        vec![
            (ChatRole::System, "You are helpful.".to_string()),
            (ChatRole::User, "hello".to_string()),
        ]
    );
    let st = rt.state();
    assert_eq!(text(st, &namespaced_key("user_message", 0)), Some("hello".to_string()));
    assert_eq!(text(st, &namespaced_key("assistant_message", 0)), Some("hi there".to_string()));
    assert_eq!(rt.pending_count(), 0);
}

#[test]
fn back_to_back_pushes_see_the_push_time_state() {
    let mut rt = runtime_with_config("p");
    rt.push_instruction(LlmInstruction::parse_from("first".to_string(), config_id())).unwrap();
    rt.push_instruction(LlmInstruction::parse_from("second".to_string(), config_id())).unwrap();
    assert_eq!(rt.pending_count(), 2);
    let first = rt.next_instruction().unwrap().clone();
    assert_eq!(first.new_message, "first");

    let mut calls = Vec::new();
    let mut n = 0;
    let r = execute_all(&mut rt, &mut calls, &mut |_m| {
        n += 1;
        Ok(reply_with(&format!("reply {}", n)))
    });
    assert_eq!(r, Ok(()));
    assert_eq!(calls.len(), 2);
    // the second request carries no history: it was prepared before the first ran
    let second: Vec<(ChatRole, String)> =
        calls[1].iter().map(|c| (c.role, c.content.clone())).collect();
    assert_eq!(
        second,
        vec![(ChatRole::System, "p".to_string()), (ChatRole::User, "second".to_string())]
    );
    let st = rt.state();
    assert_eq!(text(st, &namespaced_key("user_message", 0)), Some("second".to_string()));
    assert_eq!(text(st, &namespaced_key("assistant_message", 0)), Some("reply 2".to_string()));
}

#[test]
fn later_pushes_see_executed_turns() {
    let mut rt = runtime_with_config("p");
    rt.push_instruction(LlmInstruction::parse_from("first".to_string(), config_id())).unwrap();
    let mut calls = Vec::new();
    execute_all(&mut rt, &mut calls, &mut |_m| Ok(reply_with("one"))).unwrap();
    rt.push_instruction(LlmInstruction::parse_from("second".to_string(), config_id())).unwrap();
    let ix = rt.next_instruction().unwrap();
    assert_eq!(ix.new_message_index, 1);
    assert_eq!(ix.memory, vec![("first".to_string(), "one".to_string(), None)]);
}

#[test]
fn service_failure_leaves_state_unchanged() {
    let mut rt = runtime_with_config("p");
    rt.push_instruction(LlmInstruction::parse_from("hello".to_string(), config_id())).unwrap();
    let mut calls = Vec::new();
    let r = execute_all(&mut rt, &mut calls, &mut |_m| Err(ErrorKind::ExternalService));
    assert_eq!(r, Err(ErrorKind::ExternalService));
    let st = rt.state();
    assert_eq!(text(st, &namespaced_key("user_message", 0)), None);
    assert_eq!(text(st, &namespaced_key("assistant_message", 0)), None);
    assert_eq!(text(st, &config_id()), Some("p".to_string()));
}

#[test]
fn drain_stops_at_the_first_failure() {
    let mut rt = runtime_with_config("p");
    for m in ["a", "b", "c"] {
        rt.push_instruction(LlmInstruction::parse_from(m.to_string(), config_id())).unwrap();
    }
    let mut calls = Vec::new();
    let mut n = 0;
    let r = execute_all(&mut rt, &mut calls, &mut |_m| {
        n += 1;
        if n == 2 {
            Ok(ServiceReply { choices: Vec::new(), usage: Some(usage()) })
        } else {
            Ok(reply_with("ok"))
        }
    });
    assert_eq!(r, Err(ErrorKind::ExternalService));
    assert_eq!(calls.len(), 2);
    assert_eq!(rt.pending_count(), 1);
    assert_eq!(rt.next_instruction().unwrap().new_message, "c");
    assert_eq!(text(rt.state(), &namespaced_key("user_message", 0)), Some("a".to_string()));
}
