use turbo_tasks::cell_mappings::CellMappings;
use turbo_tasks::id::{FunctionId, IdFactory, TaskId, TraitTypeId, ValueTypeId};
use turbo_tasks::id::TaskIdProvider;
use turbo_tasks::manager::{Invalidator, TurboTasks};
use turbo_tasks::node_source::{
    accepts_render, introspectable_type, route_request, str_contains, ContentSourceData,
    ContentSourceDataVary, ContentSourceResult, DataFilter,
};
use turbo_tasks::raw_vc::RawVc;
use turbo_tasks::task_input::{
    all_resolved, CellContent, PersistentTaskType, SharedValue, TaskInput,
};
use turbo_tasks::update_server::{
    instruction_for_update, ClientItem, ClientMessage, ClientPoll, InstructionKind, ServerAction,
    ServerEvent, UpdateClientState, UpdateKind, UpdateServerState,
};

#[test]
fn raw_vc_roundtrip() {
    let cases = [
        RawVc::TaskOutput(TaskId(0)),
        RawVc::TaskOutput(TaskId(41)),
        RawVc::TaskCell(TaskId(3), 9),
        RawVc::TaskCell(TaskId(usize::MAX), 0),
    ];
    for vc in cases {
        assert_eq!(RawVc::decode(vc.encode()), Some(vc));
    }
    assert_eq!(RawVc::TaskCell(TaskId(3), 9).encode(), (1, 3, 9));
    assert_eq!(RawVc::decode((2, 0, 0)), None);
}

#[test]
fn invalidator_roundtrip() {
    let inv = Invalidator { task: TaskId(12) };
    assert_eq!(Invalidator::decode(inv.encode()), inv);
    assert_eq!(inv.encode(), 12);
}

#[test]
fn id_factory_mints_and_recycles() {
    let mut f = IdFactory::new();
    let a = f.get();
    let b = f.get();
    assert_ne!(a, b);
    f.reuse(a);
    let c = f.get();
    assert_eq!(c, a);
    let d = f.get_fresh_task_id();
    assert_ne!(d, b);
    assert_ne!(d, c);
}

#[test]
fn task_input_resolution() {
    let resolved = TaskInput::Handle(RawVc::TaskCell(TaskId(1), 0));
    let unresolved = TaskInput::Handle(RawVc::TaskOutput(TaskId(1)));
    assert!(resolved.is_resolved());
    assert!(!unresolved.is_resolved());
    assert!(TaskInput::Nothing.is_resolved());
    assert!(TaskInput::Nothing.is_nothing());

    let nested = TaskInput::List(vec![TaskInput::Literal(1), unresolved]);
    assert!(!nested.is_resolved());
    let flat = TaskInput::List(vec![TaskInput::Literal(1), resolved]);
    assert!(flat.is_resolved());

    assert!(all_resolved(&vec![TaskInput::Literal(1), flat]));
    assert!(!all_resolved(&vec![TaskInput::Literal(1), TaskInput::Nothing]));
}

#[test]
fn task_type_structural_equality() {
    let a = PersistentTaskType::Native(FunctionId(1), vec![TaskInput::Literal(2)]);
    let b = PersistentTaskType::Native(FunctionId(1), vec![TaskInput::Literal(2)]);
    let c = PersistentTaskType::Native(FunctionId(1), vec![TaskInput::Literal(3)]);
    let d = PersistentTaskType::ResolveNative(FunctionId(1), vec![TaskInput::Literal(2)]);
    assert!(a.eq_type(&b));
    assert!(!a.eq_type(&c));
    assert!(!a.eq_type(&d));

    let t1 = PersistentTaskType::ResolveTrait(TraitTypeId(4), "content".to_string(), vec![]);
    let t2 = PersistentTaskType::ResolveTrait(TraitTypeId(4), "content".to_string(), vec![]);
    let t3 = PersistentTaskType::ResolveTrait(TraitTypeId(4), "title".to_string(), vec![]);
    assert!(t1.eq_type(&t2));
    assert!(!t1.eq_type(&t3));
}

#[test]
fn trait_call_always_interposes_resolver() {
    let mut tt = TurboTasks::new();
    let vc = tt.trait_call(
        TraitTypeId(4),
        "content".to_string(),
        vec![TaskInput::Handle(RawVc::TaskOutput(TaskId(0)))],
    );
    let t = vc.get_task_id();
    match &tt.tasks[t.0].kind {
        turbo_tasks::manager::TaskKind::Persistent(PersistentTaskType::ResolveTrait(tt_id, name, _)) => {
            assert_eq!(*tt_id, TraitTypeId(4));
            assert_eq!(name, "content");
        }
        other => panic!("unexpected kind {:?}", std::mem::discriminant(other)),
    }
}

#[test]
fn dynamic_call_resolves_unresolved_inputs_via_wrapper() {
    let mut tt = TurboTasks::new();
    let unresolved = vec![TaskInput::Handle(RawVc::TaskOutput(TaskId(9)))];
    let vc = tt.dynamic_call(FunctionId(2), unresolved);
    let t = vc.get_task_id();
    assert!(matches!(
        &tt.tasks[t.0].kind,
        turbo_tasks::manager::TaskKind::Persistent(PersistentTaskType::ResolveNative(_, _))
    ));

    let resolved = vec![TaskInput::Literal(5)];
    let vc2 = tt.dynamic_call(FunctionId(2), resolved);
    let t2 = vc2.get_task_id();
    assert!(matches!(
        &tt.tasks[t2.0].kind,
        turbo_tasks::manager::TaskKind::Persistent(PersistentTaskType::Native(_, _))
    ));
}

#[test]
fn cell_mappings_lookup_and_insert() {
    let mut m = CellMappings::new();
    let key = SharedValue { type_id: Some(ValueTypeId(1)), data: 5 };
    assert_eq!(m.lookup_key(ValueTypeId(1), key), None);
    m.insert_key(ValueTypeId(1), key, 3);
    assert_eq!(m.lookup_key(ValueTypeId(1), key), Some(3));
    assert_eq!(m.lookup_key(ValueTypeId(2), key), None);
}

#[test]
fn cell_content_equality() {
    let a = CellContent(Some(SharedValue { type_id: Some(ValueTypeId(1)), data: 5 }));
    let b = CellContent(Some(SharedValue { type_id: Some(ValueTypeId(1)), data: 5 }));
    let c = CellContent(Some(SharedValue { type_id: Some(ValueTypeId(1)), data: 6 }));
    let empty = CellContent(None);
    assert!(a.eq_content(&b));
    assert!(!a.eq_content(&c));
    assert!(!a.eq_content(&empty));
    assert!(empty.eq_content(&CellContent(None)));
}

#[test]
fn update_instructions_by_kind() {
    assert_eq!(instruction_for_update(UpdateKind::Partial), InstructionKind::Partial);
    assert_eq!(instruction_for_update(UpdateKind::Total), InstructionKind::Restart);
    assert_eq!(instruction_for_update(UpdateKind::Unchanged), InstructionKind::Issues);
}

#[test]
fn client_stream_ends_after_error_or_close() {
    let mut client = UpdateClientState::new();
    let msg = ClientMessage::Subscribe { chunk_path: "main.js".to_string() };
    match client.poll_step(ClientItem::Text(Some(msg))) {
        ClientPoll::Message(ClientMessage::Subscribe { chunk_path }) => {
            assert_eq!(chunk_path, "main.js");
        }
        other => panic!("unexpected {:?}", other),
    }
    assert!(!client.is_terminated(false));

    assert_eq!(client.poll_step(ClientItem::Text(None)), ClientPoll::ProtocolError);
    assert!(client.is_terminated(false));

    // once ended, every poll terminates
    let again = ClientMessage::Subscribe { chunk_path: "x".to_string() };
    assert_eq!(client.poll_step(ClientItem::Text(Some(again))), ClientPoll::Terminated);

    let mut failing = UpdateClientState::new();
    assert_eq!(failing.poll_step(ClientItem::TransportError), ClientPoll::TransportFailure);
    let mut closing = UpdateClientState::new();
    assert_eq!(closing.poll_step(ClientItem::ClosedOrOther), ClientPoll::Terminated);
}

#[test]
fn server_loop_decisions() {
    let mut server = UpdateServerState::new();
    let subscribe = ServerEvent::Client(ClientItem::Text(Some(ClientMessage::Subscribe {
        chunk_path: "main.js".to_string(),
    })));
    assert_eq!(
        server.handle_event(subscribe),
        ServerAction::OpenStream("main.js".to_string())
    );
    assert_eq!(server.subscriptions.len(), 1);

    // a repeated subscription replaces the stream without growing the set
    let again = ServerEvent::Client(ClientItem::Text(Some(ClientMessage::Subscribe {
        chunk_path: "main.js".to_string(),
    })));
    server.handle_event(again);
    assert_eq!(server.subscriptions.len(), 1);

    assert_eq!(
        server.handle_event(ServerEvent::Stream("main.js".to_string(), UpdateKind::Total)),
        ServerAction::Send("main.js".to_string(), InstructionKind::Restart)
    );
    assert_eq!(
        server.handle_event(ServerEvent::Client(ClientItem::ClosedOrOther)),
        ServerAction::Stop
    );
    assert_eq!(server.handle_event(ServerEvent::AllEnded), ServerAction::Stop);
}

fn html_request(query: Option<&str>) -> ContentSourceData {
    ContentSourceData {
        method: Some("GET".to_string()),
        url: Some("/page".to_string()),
        query: query.map(|q| q.to_string()),
        headers: Some(vec![("accept".to_string(), "text/html,*/*".to_string())]),
    }
}

#[test]
fn route_renders_html_request() {
    let params = Some(vec![("slug".to_string(), "page".to_string())]);
    match route_request("page".to_string(), params, html_request(Some("a=1"))) {
        ContentSourceResult::Static(data) => {
            assert_eq!(data.method, "GET");
            assert_eq!(data.url, "/page");
            assert_eq!(data.query, "a=1");
            assert_eq!(data.path, "/page");
            assert_eq!(data.params[0].1, "page");
        }
        other => panic!("unexpected {:?}", other),
    }
}

#[test]
fn route_asks_for_missing_data() {
    let params = Some(vec![]);
    // no headers yet: the source asks exactly for the two routing headers
    let bare = ContentSourceData { method: None, url: None, query: None, headers: None };
    match route_request("page".to_string(), params.clone(), bare) {
        ContentSourceResult::NeedData { path, vary } => {
            assert_eq!(path, "page");
            assert_eq!(
                vary,
                ContentSourceDataVary {
                    method: false,
                    url: false,
                    query: None,
                    headers: Some(DataFilter::Subset(vec![
                        "accept".to_string(),
                        "__rsc__".to_string(),
                    ])),
                }
            );
        }
        other => panic!("unexpected {:?}", other),
    }
    // headers accept html but the query is still missing: full vary
    match route_request("page".to_string(), params, html_request(None)) {
        ContentSourceResult::NeedData { vary, .. } => {
            assert!(vary.method && vary.url);
            assert_eq!(vary.query, Some(DataFilter::All));
            assert_eq!(vary.headers, Some(DataFilter::All));
        }
        other => panic!("unexpected {:?}", other),
    }
}

#[test]
fn route_rejects_underscore_and_unmatched_paths() {
    let params = Some(vec![]);
    assert!(matches!(
        route_request("_next".to_string(), params, html_request(Some(""))),
        ContentSourceResult::NotFound
    ));
    assert!(matches!(
        route_request("page".to_string(), None, html_request(Some(""))),
        ContentSourceResult::NotFound
    ));
    // headers that accept neither html nor the rsc marker
    let data = ContentSourceData {
        method: Some("GET".to_string()),
        url: Some("/page".to_string()),
        query: Some("".to_string()),
        headers: Some(vec![("accept".to_string(), "application/json".to_string())]),
    };
    assert!(matches!(
        route_request("page".to_string(), Some(vec![]), data),
        ContentSourceResult::NotFound
    ));
}

#[test]
fn rsc_marker_header_routes_to_render() {
    let data = ContentSourceData {
        method: Some("POST".to_string()),
        url: Some("/x".to_string()),
        query: Some("".to_string()),
        headers: Some(vec![("__rsc__".to_string(), "1".to_string())]),
    };
    assert!(matches!(
        route_request("x".to_string(), Some(vec![]), data),
        ContentSourceResult::Static(_)
    ));
}

#[test]
fn substring_search() {
    assert!(str_contains("text/html,*/*", "html"));
    assert!(!str_contains("application/json", "html"));
    assert!(str_contains("html", "html"));
    assert!(!str_contains("htm", "html"));
    assert!(str_contains("anything", ""));
    assert!(accepts_render(&vec![("accept".to_string(), "text/html".to_string())]));
    assert!(!accepts_render(&vec![("accept".to_string(), "text/plain".to_string())]));
}

#[test]
fn introspection_label() {
    assert_eq!(introspectable_type(), "node render content source");
}
