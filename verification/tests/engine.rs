use open_xiaoai::data::Request;
use open_xiaoai::message::{dispatch_text, DispatchAction, MessageManager};
use open_xiaoai::rpc::{RpcEngine, RpcError};
use open_xiaoai::task::TaskManager;
use open_xiaoai::event::EventBus;

#[test]
fn call_without_sender_fails_immediately() {
    let engine = RpcEngine::new();
    let r = engine.call_remote_request("x", None);
    assert!(matches!(r, Err(RpcError::NotInitialized)));
    // Nothing was registered: a fresh engine stays empty.
    assert_eq!(engine.pending.len(), 0);
}

#[test]
fn call_after_init_builds_request() {
    let mut engine = RpcEngine::new();
    engine.init();
    let q = engine.call_remote_request("get_version", None).unwrap();
    assert_eq!(q.command, "get_version");
    assert!(q.payload.is_none());
    assert_eq!(q.id.len(), 36);
}

#[test]
fn pending_entry_lifecycle() {
    let mut engine = RpcEngine::new();
    engine.init();
    let id = String::from("call-1");
    let token = engine.register_pending(&id);
    assert_eq!(engine.pending.len(), 1);
    // The matching response takes exactly the registered slot.
    let got = engine.on_response(&id);
    assert_eq!(got, Some(token));
    assert_eq!(engine.pending.len(), 0);
    // A duplicate (late) response finds nothing and changes nothing.
    let again = engine.on_response(&id);
    assert_eq!(again, None);
    assert_eq!(engine.pending.len(), 0);
}

#[test]
fn unknown_response_has_no_effect() {
    let mut engine = RpcEngine::new();
    engine.init();
    let id = String::from("call-2");
    engine.register_pending(&id);
    let foreign = String::from("never-registered");
    assert_eq!(engine.on_response(&foreign), None);
    assert_eq!(engine.pending.len(), 1);
    assert_eq!(engine.pending[0].0, "call-2");
}

#[test]
fn reregistering_same_id_keeps_one_entry() {
    let mut engine = RpcEngine::new();
    engine.init();
    let id = String::from("dup");
    let t1 = engine.register_pending(&id);
    let t2 = engine.register_pending(&id);
    assert_ne!(t1, t2);
    assert_eq!(engine.pending.len(), 1);
    assert_eq!(engine.on_response(&id), Some(t2));
}

#[test]
fn timeout_removes_entry_and_late_response_is_discarded() {
    let mut engine = RpcEngine::new();
    engine.init();
    let id = String::from("slow-call");
    engine.register_pending(&id);
    // The deadline fired: the caller removes the stale entry.
    let removed = engine.remove_pending(&id);
    assert!(removed.is_some());
    // The peer's eventual late response finds no matching entry.
    assert_eq!(engine.on_response(&id), None);
}

#[test]
fn dispose_clears_everything() {
    let mut engine = RpcEngine::new();
    engine.init();
    engine.add_command(String::from("a"));
    engine.register_pending(&String::from("p1"));
    engine.register_pending(&String::from("p2"));
    engine.dispose();
    assert!(!engine.sender_ready);
    assert_eq!(engine.commands.len(), 0);
    assert_eq!(engine.pending.len(), 0);
}

#[test]
fn command_table_is_last_writer_wins() {
    let mut engine = RpcEngine::new();
    let (i1, replaced1) = engine.add_command(String::from("run_shell"));
    assert!(!replaced1);
    let (i2, replaced2) = engine.add_command(String::from("start_play"));
    assert!(!replaced2);
    assert_ne!(i1, i2);
    // Installing a name again keeps its index: the owner replaces the
    // handler stored there, so the last writer wins.
    let (i3, replaced3) = engine.add_command(String::from("run_shell"));
    assert!(replaced3);
    assert_eq!(i3, i1);

    let req = Request { id: String::from("r"), command: String::from("start_play"), payload: None };
    assert_eq!(engine.on_request(&req), Ok(i2));
    let missing = Request { id: String::from("r"), command: String::from("nope"), payload: None };
    assert_eq!(engine.on_request(&missing), Err(RpcError::CommandNotFound));
}

#[test]
fn error_messages_match_wire_texts() {
    assert_eq!(RpcError::NotInitialized.message(), "send_request is not initialized");
    assert_eq!(RpcError::Timeout.message(), "request timeout");
    assert_eq!(RpcError::ChannelClosed.message(), "response channel closed");
    assert_eq!(RpcError::CommandNotFound.message(), "command not found");
    assert_eq!(RpcError::Send(String::from("broken pipe")).message(), "broken pipe");
}

#[test]
fn ceiling_bounds_thousand_requests_at_32() {
    let mut m = MessageManager::new();
    let mut granted = 0u32;
    for _ in 0..1000 {
        if m.try_acquire() {
            granted += 1;
        }
    }
    assert_eq!(granted, 32);
    assert_eq!(m.in_use, 32);
    // A slot freeing lets exactly one more through.
    m.release();
    assert!(m.try_acquire());
    assert!(!m.try_acquire());
}

#[test]
fn dispatch_routes_by_kind() {
    let a = dispatch_text("{\"Request\":{\"id\":\"1\",\"command\":\"c\",\"payload\":null}}");
    assert!(matches!(a, DispatchAction::HandleRequest(_)));
    let a = dispatch_text("{\"Response\":{\"id\":\"1\"}}");
    assert!(matches!(a, DispatchAction::HandleResponse(_)));
    let a = dispatch_text("{\"Event\":{\"id\":\"1\",\"event\":\"kws\"}}");
    assert!(matches!(a, DispatchAction::HandleEvent(_)));
    // A media chunk on the text channel is ignored.
    let a = dispatch_text(
        "{\"Stream\":{\"id\":\"1\",\"tag\":\"play\",\"bytes\":[1]}}",
    );
    assert!(matches!(a, DispatchAction::DropFrame));
    // Malformed frames are dropped, not fatal.
    let a = dispatch_text("not json at all");
    assert!(matches!(a, DispatchAction::DropFrame));
}

#[test]
fn task_groups_cancel_in_bulk() {
    let mut tasks = TaskManager::new();
    tasks.add("conn", 1, &Vec::new());
    tasks.add("conn", 2, &vec![false]);
    let cancelled = tasks.dispose("conn");
    assert_eq!(cancelled, vec![1, 2]);
    // The tag is gone afterwards.
    assert_eq!(tasks.dispose("conn"), Vec::<u64>::new());
    assert_eq!(tasks.groups.len(), 0);
}

#[test]
fn task_add_prunes_finished_handles() {
    let mut tasks = TaskManager::new();
    tasks.add("loop", 10, &Vec::new());
    tasks.add("loop", 11, &vec![false]);
    // Handle 10 has finished; registering 12 prunes it and keeps 11.
    let pruned = tasks.add("loop", 12, &vec![true, false]);
    assert_eq!(pruned, vec![10]);
    assert_eq!(tasks.dispose("loop"), vec![11, 12]);
}

#[test]
fn task_groups_are_independent() {
    let mut tasks = TaskManager::new();
    tasks.add("a", 1, &Vec::new());
    tasks.add("b", 2, &Vec::new());
    assert_eq!(tasks.dispose("a"), vec![1]);
    assert_eq!(tasks.dispose("b"), vec![2]);
}

#[test]
fn event_bus_orders_and_clears_subscriptions() {
    let mut bus = EventBus::new();
    bus.subscribe("kws", 7);
    bus.subscribe("kws", 8);
    bus.subscribe("playing", 9);
    assert_eq!(bus.get_callbacks("kws"), vec![7, 8]);
    assert_eq!(bus.get_callbacks("playing"), vec![9]);
    assert_eq!(bus.get_callbacks("other"), Vec::<u64>::new());
    let dropped = bus.unsubscribe("kws");
    assert_eq!(dropped, vec![7, 8]);
    assert_eq!(bus.get_callbacks("kws"), Vec::<u64>::new());
    assert_eq!(bus.get_callbacks("playing"), vec![9]);
}
