use koala::agent::graph::{final_status, run_id_for, Graph, Kind, Node, Status};
use koala::json::JsonValue;

fn node(id: &str, kind: Kind, data: JsonValue) -> Node {
    Node {
        id: id.into(),
        session_id: "session".into(),
        run_id: id.into(),
        parent_id: None,
        inputs: Vec::new(),
        kind,
        label: "label".into(),
        started_at: "then".into(),
        finished_at: None,
        duration_ms: None,
        status: Status::Running,
        data,
    }
}

fn object(members: Vec<(&str, JsonValue)>) -> JsonValue {
    JsonValue::Object(members.into_iter().map(|(k, v)| (k.to_string(), v)).collect())
}

#[test]
fn apply_replaces_known_nodes_and_tracks_the_current_turn() {
    let mut graph = Graph::new();
    graph.apply(node("t1", Kind::Turn, object(vec![])));
    graph.apply(node("m1", Kind::Model, object(vec![])));
    assert_eq!(graph.current_turn.as_deref(), Some("t1"));
    let mut done = node("m1", Kind::Model, object(vec![]));
    done.status = Status::Succeeded;
    graph.apply(done);
    assert_eq!(graph.nodes.len(), 2);
    assert_eq!(graph.get("m1").unwrap().status, Status::Succeeded);
    graph.apply(node("t2", Kind::Turn, object(vec![])));
    assert_eq!(graph.current_turn.as_deref(), Some("t2"));
    assert!(graph.get("missing").is_none());
}

#[test]
fn turn_parents_follow_navigation_or_the_previous_turn() {
    let mut graph = Graph::new();
    graph.apply(node("t1", Kind::Turn, object(vec![])));
    graph.apply(node("m1", Kind::Model, object(vec![])));
    graph.apply(node("t2", Kind::Turn, object(vec![])));
    graph.apply(node(
        "t3",
        Kind::Turn,
        object(vec![("conversation_parent", JsonValue::Str("t1".into()))]),
    ));
    graph.apply(node("t4", Kind::Turn, object(vec![("conversation_parent", JsonValue::Null)])));
    assert_eq!(graph.turn_parent("t1"), None);
    assert_eq!(graph.turn_parent("t2").as_deref(), Some("t1"));
    assert_eq!(graph.turn_parent("t3").as_deref(), Some("t1"));
    assert_eq!(graph.turn_parent("t4"), None);
    assert_eq!(graph.turn_parent("nope"), None);
}

#[test]
fn runs_and_rejections() {
    assert_eq!(run_id_for(Kind::Turn, "r", "n"), "n");
    assert_eq!(run_id_for(Kind::Subagent, "r", "n"), "n");
    assert_eq!(run_id_for(Kind::Tool, "r", "n"), "r");
    assert_eq!(run_id_for(Kind::Tool, "", "n"), "n");
    let rejected = object(vec![("permission", JsonValue::Str("rejected".into()))]);
    assert_eq!(final_status(Status::Failed, &rejected), Status::Rejected);
    assert_eq!(final_status(Status::Succeeded, &rejected), Status::Succeeded);
    assert_eq!(final_status(Status::Failed, &object(vec![])), Status::Failed);
}
