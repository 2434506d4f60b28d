use llm_network::codec::{declared_length, decode, encode, Decoded, Message};
use llm_network::conversation::{conversation_id_len, ChatMessage, ConversationStore, Timestamp};
use llm_network::decimal::{parse_i32, push_i32_text};
use llm_network::handler::{announcement, Action, Connection, HandlerState, MODEL_PORT};
use llm_network::outbound::{
    access_request, access_request_named, file_message, model_available, AccessOutcome, Visit,
    VisitState, VisitStep,
};
use llm_network::registry::{EndpointMap, PeerRegistry, PeerSet};
use llm_network::chat::ChatRequest;
use llm_network::assets::asset_path;

fn round_trip(m: Message) {
    let bytes = encode(&m);
    let n = bytes.len();
    assert_eq!(decode(&bytes), Decoded::Frame { msg: m, used: n });
}

fn frame(tag: &[u8], payload: &[u8]) -> Vec<u8> {
    let mut v = tag.to_vec();
    v.extend_from_slice(&(payload.len() as u64).to_le_bytes());
    v.extend_from_slice(payload);
    v
}

fn receiving(has_llm: bool, ip: &str) -> Connection {
    let mut c = Connection::new(has_llm, ip.to_string(), "192.168.1.20".to_string());
    c.greet();
    c
}

fn msg(content: &str, secs: i64) -> ChatMessage {
    ChatMessage {
        content: content.to_string(),
        timestamp: Timestamp { secs, nanos: 7 },
        sender: "user".to_string(),
    }
}

#[test]
fn round_trip_every_variant() {
    round_trip(Message::ConversationFile { name: b"a.json".to_vec(), content: b"{\"x\":\"1|2\"}".to_vec() });
    round_trip(Message::SyncRequest);
    round_trip(Message::SyncResponse { payload: b"[{\"id\":\"local\",\"messages\":[]}]".to_vec() });
    round_trip(Message::LLMCapability { has_llm: true });
    round_trip(Message::LLMCapability { has_llm: false });
    round_trip(Message::LLMAccessRequest { peer_name: b"node-a".to_vec(), reason: b"why|not".to_vec() });
    round_trip(Message::LLMAccessResponse {
        granted: true,
        message: b"ok".to_vec(),
        llm_host: Some(b"10.0.0.2".to_vec()),
        llm_port: Some(11434),
    });
    round_trip(Message::LLMAccessResponse { granted: false, message: b"no".to_vec(), llm_host: None, llm_port: None });
    round_trip(Message::LLMAccessResponse {
        granted: true,
        message: Vec::new(),
        llm_host: Some(b"h".to_vec()),
        llm_port: Some(i32::MIN),
    });
    round_trip(Message::LLMAccessResponse { granted: true, message: Vec::new(), llm_host: None, llm_port: Some(-42) });
}

#[test]
fn encode_exact_bytes() {
    let bytes = encode(&Message::LLMCapability { has_llm: true });
    assert_eq!(bytes, frame(b"LLMC:", b"true"));
    let bytes = encode(&Message::SyncRequest);
    assert_eq!(bytes, b"SYNC:\0\0\0\0\0\0\0\0".to_vec());
    let bytes = encode(&Message::LLMAccessResponse {
        granted: true,
        message: b"m".to_vec(),
        llm_host: Some(b"h".to_vec()),
        llm_port: Some(11434),
    });
    assert_eq!(bytes, frame(b"LRES:", b"true|m|h|11434"));
    let bytes = encode(&Message::LLMAccessResponse { granted: false, message: b"m".to_vec(), llm_host: None, llm_port: None });
    assert_eq!(bytes, frame(b"LRES:", b"false|m||"));
}

#[test]
fn decode_takes_exactly_the_declared_length() {
    let mut bytes = encode(&Message::ConversationFile { name: b"f".to_vec(), content: b"abc".to_vec() });
    let first = bytes.len();
    assert_eq!(first, 13 + 5);
    bytes.extend_from_slice(&encode(&Message::SyncRequest));
    bytes.extend_from_slice(b"trailing garbage");
    match decode(&bytes) {
        Decoded::Frame { msg, used } => {
            assert_eq!(used, first);
            assert_eq!(msg, Message::ConversationFile { name: b"f".to_vec(), content: b"abc".to_vec() });
            assert_eq!(decode(&bytes[used..]), Decoded::Frame { msg: Message::SyncRequest, used: 13 });
        }
        other => panic!("unexpected {:?}", other),
    }
}

#[test]
fn declared_length_is_little_endian() {
    let mut header = b"RESP:".to_vec();
    header.extend_from_slice(&[0x01, 0x02, 0, 0, 0, 0, 0, 0x80]);
    assert_eq!(declared_length(&header), 0x8000_0000_0000_0201);
}

#[test]
fn stream_end_at_boundary_is_no_message() {
    assert_eq!(decode(&[]), Decoded::End);
    let bytes = encode(&Message::SyncRequest);
    assert_eq!(decode(&bytes[bytes.len()..]), Decoded::End);
}

#[test]
fn short_streams_are_errors() {
    assert_eq!(decode(b"LLM"), Decoded::Truncated);
    assert_eq!(decode(b"LLMC:\x04\0\0\0\0\0\0\0tru"), Decoded::Truncated);
    assert_eq!(decode(b"LLMC:\x04\0\0"), Decoded::Truncated);
}

#[test]
fn malformed_frames_are_errors() {
    assert_eq!(decode(&frame(b"XXXX:", b"")), Decoded::Malformed);
    assert_eq!(decode(&frame(b"FILE:", b"no separator")), Decoded::Malformed);
    assert_eq!(decode(&frame(b"LRES:", b"true|only two")), Decoded::Malformed);
    assert_eq!(decode(&frame(b"LRES:", b"true|a|b|1|2")), Decoded::Malformed);
}

#[test]
fn fields_that_do_not_parse_are_errors() {
    assert_eq!(decode(&frame(b"LLMC:", b"yes")), Decoded::Malformed);
    assert_eq!(decode(&frame(b"LLMC:", b"")), Decoded::Malformed);
    let f = frame(b"LLMC:", b"false");
    assert_eq!(decode(&f), Decoded::Frame { msg: Message::LLMCapability { has_llm: false }, used: f.len() });
    assert_eq!(decode(&frame(b"LRES:", b"maybe|m|h|1")), Decoded::Malformed);
    assert_eq!(decode(&frame(b"LRES:", b"true|m|h|port")), Decoded::Malformed);
    assert_eq!(decode(&frame(b"LRES:", b"true|m|h|99999999999")), Decoded::Malformed);
    assert_eq!(decode(&frame(b"SYNC:", b"ignored")), Decoded::Malformed);
    let f = frame(b"LRES:", b"false|m||");
    assert_eq!(
        decode(&f),
        Decoded::Frame {
            msg: Message::LLMAccessResponse { granted: false, message: b"m".to_vec(), llm_host: None, llm_port: None },
            used: f.len()
        }
    );
}

#[test]
fn decimal_text() {
    assert_eq!(parse_i32(b"123"), Some(123));
    assert_eq!(parse_i32(b"-5"), Some(-5));
    assert_eq!(parse_i32(b"+7"), Some(7));
    assert_eq!(parse_i32(b"007"), Some(7));
    assert_eq!(parse_i32(b""), None);
    assert_eq!(parse_i32(b"-"), None);
    assert_eq!(parse_i32(b"1a"), None);
    assert_eq!(parse_i32(b"2147483647"), Some(i32::MAX));
    assert_eq!(parse_i32(b"2147483648"), None);
    assert_eq!(parse_i32(b"-2147483648"), Some(i32::MIN));
    assert_eq!(parse_i32(b"-2147483649"), None);
    assert_eq!(parse_i32(b"99999999999999999999"), None);
    let mut out = b"x".to_vec();
    push_i32_text(-2147483648, &mut out);
    assert_eq!(out, b"x-2147483648".to_vec());
    let mut out = Vec::new();
    push_i32_text(0, &mut out);
    assert_eq!(out, b"0".to_vec());
}

#[test]
fn capability_true_then_false_leaves_peer_out() {
    let mut reg = PeerRegistry::new();
    let mut c = receiving(false, "10.0.0.5");
    let a = c.step(decode(&encode(&announcement(true))), &mut reg);
    assert_eq!(a, Action::Idle);
    assert!(reg.capable.contains(&"10.0.0.5".to_string()));
    c.step(decode(&encode(&announcement(false))), &mut reg);
    assert!(!reg.capable.contains(&"10.0.0.5".to_string()));
    assert_eq!(c.state, HandlerState::Receiving);
}

#[test]
fn access_request_without_model_is_refused() {
    let mut reg = PeerRegistry::new();
    let mut c = receiving(false, "10.0.0.6");
    let req = Message::LLMAccessRequest { peer_name: b"a".to_vec(), reason: b"b".to_vec() };
    let a = c.step(decode(&encode(&req)), &mut reg);
    assert_eq!(
        a,
        Action::Reply {
            msg: Message::LLMAccessResponse {
                granted: false,
                message: b"This peer does not have LLM capability".to_vec(),
                llm_host: None,
                llm_port: None
            }
        }
    );
    assert!(!reg.authorized.contains(&"10.0.0.6".to_string()));
}

#[test]
fn access_request_with_model_is_granted() {
    let mut reg = PeerRegistry::new();
    let mut c = receiving(true, "10.0.0.7");
    let req = Message::LLMAccessRequest { peer_name: b"a".to_vec(), reason: b"b".to_vec() };
    let a = c.step(decode(&encode(&req)), &mut reg);
    assert_eq!(
        a,
        Action::Reply {
            msg: Message::LLMAccessResponse {
                granted: true,
                message: b"Access granted automatically".to_vec(),
                llm_host: Some(b"192.168.1.20".to_vec()),
                llm_port: Some(11434)
            }
        }
    );
    assert_eq!(MODEL_PORT, 11434);
    assert!(reg.authorized.contains(&"10.0.0.7".to_string()));
    assert!(!reg.capable.contains(&"10.0.0.7".to_string()));
}

#[test]
fn drain_twice_gives_nothing_second_time() {
    let mut s = PeerSet::new();
    s.insert("10.0.0.1".to_string());
    s.insert("10.0.0.2".to_string());
    s.insert("10.0.0.1".to_string());
    let mut first = s.drain();
    first.sort();
    assert_eq!(first, vec!["10.0.0.1".to_string(), "10.0.0.2".to_string()]);
    assert!(s.drain().is_empty());
    s.insert("10.0.0.3".to_string());
    assert_eq!(s.drain(), vec!["10.0.0.3".to_string()]);
}

#[test]
fn peer_set_remove() {
    let mut s = PeerSet::new();
    s.insert("a".to_string());
    s.insert("b".to_string());
    s.remove(&"a".to_string());
    s.remove(&"zzz".to_string());
    assert!(!s.contains(&"a".to_string()));
    assert!(s.contains(&"b".to_string()));
}

#[test]
fn endpoint_map_upsert() {
    let mut m = EndpointMap::new();
    assert_eq!(m.get(&"x".to_string()), None);
    m.upsert("x".to_string(), b"h1".to_vec(), 1);
    m.upsert("y".to_string(), b"h2".to_vec(), 2);
    m.upsert("x".to_string(), b"h3".to_vec(), 3);
    assert_eq!(m.get(&"x".to_string()), Some((b"h3".to_vec(), 3)));
    assert_eq!(m.get(&"y".to_string()), Some((b"h2".to_vec(), 2)));
}

#[test]
fn node_without_model_gains_access_to_peer_with_model() {
    let a_ip = "192.168.1.10".to_string();
    let b_ip = "192.168.1.20".to_string();
    let mut reg_a = PeerRegistry::new();
    let mut reg_b = PeerRegistry::new();

    // A connects to B; B's handler announces its model before reading.
    let mut b_side = Connection::new(true, a_ip.clone(), b_ip.clone());
    let b_hello = encode(&b_side.greet());
    let mut visit = Visit::new(b_ip.clone());
    let a_hello = match visit.connected(true, false) {
        VisitStep::Send { msg } => encode(&msg),
        other => panic!("unexpected {:?}", other),
    };
    assert_eq!(b_side.step(decode(&a_hello), &mut reg_b), Action::Idle);
    assert!(!reg_b.capable.contains(&a_ip));
    assert_eq!(visit.announced(true), VisitStep::Receive);

    // A reads B's announcement, records it, and asks for access.
    let request = match visit.greeted(Some(decode(&b_hello)), &mut reg_a) {
        VisitStep::Send { msg } => encode(&msg),
        other => panic!("unexpected {:?}", other),
    };
    assert!(reg_a.capable.contains(&b_ip));
    assert!(matches!(decode(&request), Decoded::Frame { msg: Message::LLMAccessRequest { .. }, .. }));

    // B grants access with its model port; A records the grant and endpoint.
    let reply = match b_side.step(decode(&request), &mut reg_b) {
        Action::Reply { msg } => encode(&msg),
        other => panic!("unexpected {:?}", other),
    };
    assert!(reg_b.authorized.contains(&a_ip));
    assert_eq!(visit.access_answered(Some(decode(&reply)), &mut reg_a), AccessOutcome::Granted);
    assert!(reg_a.authorized.contains(&b_ip));
    assert_eq!(reg_a.endpoints.get(&b_ip), Some((b_ip.clone().into_bytes(), 11434)));
    assert!(!reg_a.needs_access(&b_ip));
    assert_eq!(visit.state, VisitState::SendingFiles);
}

fn requesting_visit(reg: &mut PeerRegistry, ip: &str) -> Visit {
    let mut v = Visit::new(ip.to_string());
    v.connected(true, false);
    v.announced(true);
    let greeting = encode(&announcement(true));
    assert!(matches!(v.greeted(Some(decode(&greeting)), reg), VisitStep::Send { .. }));
    assert_eq!(v.state, VisitState::Requesting);
    v
}

#[test]
fn access_wait_outcomes() {
    let ip = "1.2.3.4".to_string();
    let mut reg = PeerRegistry::new();
    let mut v = requesting_visit(&mut reg, &ip);
    assert_eq!(v.access_answered(Some(decode(&encode(&announcement(true)))), &mut reg), AccessOutcome::Waiting);
    assert_eq!(v.access_answered(Some(decode(&encode(&Message::SyncRequest))), &mut reg), AccessOutcome::Waiting);
    assert_eq!(v.state, VisitState::Requesting);
    assert_eq!(v.access_answered(Some(Decoded::End), &mut reg), AccessOutcome::NoResponse);
    assert_eq!(v.state, VisitState::SendingFiles);

    let mut v = requesting_visit(&mut reg, &ip);
    assert_eq!(v.access_answered(Some(Decoded::Truncated), &mut reg), AccessOutcome::Failed);
    let mut v = requesting_visit(&mut reg, &ip);
    assert_eq!(v.access_answered(Some(decode(&frame(b"LRES:", b"true|ok"))), &mut reg), AccessOutcome::Failed);
    let mut v = requesting_visit(&mut reg, &ip);
    assert_eq!(v.access_answered(None, &mut reg), AccessOutcome::Failed);
    let mut v = requesting_visit(&mut reg, &ip);
    let refused = Message::LLMAccessResponse { granted: false, message: b"no".to_vec(), llm_host: None, llm_port: None };
    assert_eq!(v.access_answered(Some(decode(&encode(&refused))), &mut reg), AccessOutcome::Refused);
    assert!(!reg.authorized.contains(&ip));

    // A later announcement of no model during the wait is recorded too.
    let mut v = requesting_visit(&mut reg, &ip);
    assert_eq!(v.access_answered(Some(decode(&encode(&announcement(false)))), &mut reg), AccessOutcome::Waiting);
    assert!(!reg.capable.contains(&ip));
}

#[test]
fn granted_without_endpoint_only_authorizes() {
    let mut reg = PeerRegistry::new();
    let mut c = receiving(false, "10.0.0.8");
    let m = Message::LLMAccessResponse { granted: true, message: b"ok".to_vec(), llm_host: Some(b"h".to_vec()), llm_port: None };
    assert_eq!(c.step(decode(&encode(&m)), &mut reg), Action::Idle);
    assert!(reg.authorized.contains(&"10.0.0.8".to_string()));
    assert_eq!(reg.endpoints.get(&"10.0.0.8".to_string()), None);
}

#[test]
fn sync_request_answers_with_snapshot() {
    let mut store = ConversationStore::new();
    store.add_message("local".to_string(), msg("msg1", 1));
    let saved = store.add_message("local".to_string(), msg("msg2", 2));
    assert_eq!(saved.messages.len(), 2);
    let mut reg = PeerRegistry::new();
    let mut c = receiving(true, "10.0.0.9");
    assert_eq!(c.step(decode(&encode(&Message::SyncRequest)), &mut reg), Action::SendSnapshot);
    let all = store.get_all_conversations();
    assert_eq!(all.len(), 1);
    assert_eq!(all[0].id, "local");
    let contents: Vec<&str> = all[0].messages.iter().map(|m| m.content.as_str()).collect();
    assert_eq!(contents, vec!["msg1", "msg2"]);
    assert_eq!(all[0].messages[1].timestamp, Timestamp { secs: 2, nanos: 7 });
}

#[test]
fn store_keeps_conversations_apart() {
    let mut store = ConversationStore::new();
    store.add_message("a".to_string(), msg("1", 1));
    store.add_message("b".to_string(), msg("2", 2));
    store.add_message("a".to_string(), msg("3", 3));
    let a = store.get_conversation(&"a".to_string()).unwrap();
    assert_eq!(a.messages.iter().map(|m| m.content.clone()).collect::<Vec<_>>(), vec!["1", "3"]);
    assert!(store.get_conversation(&"c".to_string()).is_none());
    assert_eq!(store.get_all_conversations().len(), 2);
}

#[test]
fn request_without_separator_fails_connection() {
    let mut reg = PeerRegistry::new();
    reg.capable.insert("x".to_string());
    let mut c = receiving(true, "10.0.0.10");
    let bad = frame(b"LREQ:", b"no separator here");
    assert_eq!(c.step(decode(&bad), &mut reg), Action::Fail);
    assert_eq!(c.state, HandlerState::Errored);
    assert!(!reg.authorized.contains(&"10.0.0.10".to_string()));
    assert!(reg.capable.contains(&"x".to_string()));
}

#[test]
fn end_of_stream_closes() {
    let mut reg = PeerRegistry::new();
    let mut c = receiving(true, "10.0.0.11");
    assert_eq!(c.step(decode(&[]), &mut reg), Action::Close);
    assert_eq!(c.state, HandlerState::Closed);
}

#[test]
fn files_and_sync_responses_are_handed_back() {
    let mut reg = PeerRegistry::new();
    let mut c = receiving(true, "10.0.0.12");
    let f = file_message(&"c.json".to_string(), &"{\"a\":1}".to_string());
    assert_eq!(
        c.step(decode(&encode(&f)), &mut reg),
        Action::StoreFile { name: b"c.json".to_vec(), content: b"{\"a\":1}".to_vec() }
    );
    let r = Message::SyncResponse { payload: b"[]".to_vec() };
    assert_eq!(c.step(decode(&encode(&r)), &mut reg), Action::SaveConversations { payload: b"[]".to_vec() });
}

#[test]
fn access_request_carries_a_name_and_the_reason() {
    match access_request() {
        Message::LLMAccessRequest { peer_name, reason } => {
            assert!(!peer_name.is_empty());
            assert_eq!(reason, b"Requesting access to LLM services".to_vec());
        }
        other => panic!("unexpected {:?}", other),
    }
    match access_request_named(None) {
        Message::LLMAccessRequest { peer_name, .. } => assert_eq!(peer_name, b"Unknown".to_vec()),
        other => panic!("unexpected {:?}", other),
    }
}

#[test]
fn probe_status() {
    assert!(model_available(Some(200)));
    assert!(model_available(Some(299)));
    assert!(!model_available(Some(300)));
    assert!(!model_available(Some(404)));
    assert!(!model_available(None));
}

#[test]
fn chat_reply_message() {
    let req = ChatRequest::new("hello".to_string(), "ann".to_string());
    assert_eq!(req.message(), "hello");
    let m = req.reply_message("hi there".to_string(), Timestamp { secs: 5, nanos: 0 });
    assert_eq!(m.content, "hi there");
    assert_eq!(m.sender, "ann");
}

#[test]
fn asset_paths() {
    assert_eq!(asset_path("assets/app.js"), b"assets/app.js".to_vec());
    assert_eq!(asset_path("/app/index.html"), b"index.html".to_vec());
    assert_eq!(asset_path("/app//app/x.css"), b"x.css".to_vec());
    assert_eq!(asset_path("favicon.ico"), b"favicon.ico".to_vec());
}

#[test]
fn visit_asks_for_access_only_where_needed() {
    let ip = "10.1.0.1".to_string();
    let mut reg = PeerRegistry::new();

    let mut v = Visit::new(ip.clone());
    assert_eq!(v.connected(true, true), VisitStep::Send { msg: Message::LLMCapability { has_llm: true } });
    assert_eq!(v.announced(true), VisitStep::Receive);
    assert_eq!(v.state, VisitState::Greeting);
    assert_eq!(v.greeted(Some(decode(&encode(&announcement(false)))), &mut reg), VisitStep::SendFiles);
    assert_eq!(v.state, VisitState::SendingFiles);
    v.files_sent();
    assert_eq!(v.state, VisitState::Done);

    let mut v = Visit::new(ip.clone());
    v.connected(true, false);
    v.announced(true);
    match v.greeted(Some(decode(&encode(&announcement(true)))), &mut reg) {
        VisitStep::Send { msg: Message::LLMAccessRequest { reason, .. } } => {
            assert_eq!(reason, b"Requesting access to LLM services".to_vec())
        }
        other => panic!("unexpected {:?}", other),
    }
    let grant = Message::LLMAccessResponse {
        granted: true,
        message: b"ok".to_vec(),
        llm_host: Some(b"10.1.0.1".to_vec()),
        llm_port: Some(11434),
    };
    assert_eq!(v.access_answered(Some(decode(&encode(&grant))), &mut reg), AccessOutcome::Granted);

    // Once granted, a later visit goes straight to the files.
    let mut again = Visit::new(ip.clone());
    again.connected(true, true);
    again.announced(true);
    assert_eq!(again.greeted(Some(decode(&encode(&announcement(true)))), &mut reg), VisitStep::SendFiles);
}

#[test]
fn visit_stops_on_failures() {
    let mut reg = PeerRegistry::new();
    let mut v = Visit::new("10.1.0.2".to_string());
    assert_eq!(v.connected(false, true), VisitStep::Stop);
    assert_eq!(v.state, VisitState::Done);

    let mut v = Visit::new("10.1.0.2".to_string());
    v.connected(true, true);
    assert_eq!(v.announced(false), VisitStep::Stop);
    assert_eq!(v.state, VisitState::Done);

    let mut v = Visit::new("10.1.0.2".to_string());
    v.connected(true, true);
    v.announced(true);
    assert_eq!(v.greeted(Some(Decoded::End), &mut reg), VisitStep::Stop);
    let mut v = Visit::new("10.1.0.2".to_string());
    v.connected(true, true);
    v.announced(true);
    assert_eq!(v.greeted(None, &mut reg), VisitStep::Stop);
    assert!(!reg.capable.contains(&"10.1.0.2".to_string()));
}

#[test]
fn saved_conversation_file_names() {
    assert_eq!(conversation_id_len("local.json"), Some(5));
    assert_eq!(conversation_id_len("a.b.json"), Some(3));
    assert_eq!(conversation_id_len(".json"), None);
    assert_eq!(conversation_id_len("notes.txt"), None);
    assert_eq!(conversation_id_len("json"), None);
}
