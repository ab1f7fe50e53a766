//! The execution graph: nodes for turns, model calls, tools and the like, with
//! explicit containment (`parent_id`) and input edges. Recording nodes in a
//! journal happens outside; how a graph is built up and read is here.
use vstd::prelude::*;
use crate::json::{JsonValue, json_get, str_eq};

verus! {

#[derive(Debug, Clone, Copy, PartialEq, Eq, Structural)]
pub enum Kind {
    Turn,
    Subagent,
    Model,
    Tool,
    Background,
    Compaction,
}

#[derive(Debug, Clone, Copy, PartialEq, Eq, Structural)]
pub enum Status {
    Running,
    Succeeded,
    Failed,
    Rejected,
    Unknown,
}

#[derive(Debug)]
pub struct Node {
    pub id: String,
    pub session_id: String,
    pub run_id: String,
    pub parent_id: Option<String>,
    pub inputs: Vec<String>,
    pub kind: Kind,
    pub label: String,
    pub started_at: String,
    pub finished_at: Option<String>,
    pub duration_ms: Option<u64>,
    pub status: Status,
    pub data: JsonValue,
}

/// The nodes in the order they were first recorded, the latest state of each,
/// and the last turn started.
#[derive(Debug)]
pub struct Graph {
    pub current_turn: Option<String>,
    pub nodes: Vec<Node>,
}

/// The first node with an id.
pub open spec fn node_index(nodes: Seq<Node>, id: Seq<char>) -> Option<int>
    decreases nodes.len(),
{
    if nodes.len() == 0 {
        None
    } else {
        match node_index(nodes.drop_last(), id) {
            Some(i) => Some(i),
            None => if nodes.last().id@ == id { Some(nodes.len() - 1) } else { None },
        }
    }
}

proof fn lemma_node_index(nodes: Seq<Node>, id: Seq<char>)
    ensures
        match node_index(nodes, id) {
            Some(i) => 0 <= i < nodes.len() && nodes[i].id@ == id && forall|j: int| 0 <= j < i ==> (#[trigger] nodes[j]).id@ != id,
            None => forall|j: int| 0 <= j < nodes.len() ==> (#[trigger] nodes[j]).id@ != id,
        },
    decreases nodes.len(),
{
    if nodes.len() > 0 {
        lemma_node_index(nodes.drop_last(), id);
        assert forall|j: int| 0 <= j < nodes.len() - 1 implies (#[trigger] nodes[j]) == nodes.drop_last()[j] by {}
    }
}

/// The last turn among the nodes.
pub open spec fn last_turn(nodes: Seq<Node>) -> Option<Seq<char>>
    decreases nodes.len(),
{
    if nodes.len() == 0 {
        None
    } else if nodes.last().kind == Kind::Turn {
        Some(nodes.last().id@)
    } else {
        last_turn(nodes.drop_last())
    }
}

/// The turn a turn continues: the one its data names as its conversation
/// parent (none where that is not a text), or, in journals from before
/// navigation was recorded, the turn recorded before it.
pub open spec fn turn_parent_of(nodes: Seq<Node>, id: Seq<char>) -> Option<Seq<char>> {
    match node_index(nodes, id) {
        None => None,
        Some(i) => match json_get(nodes[i].data, "conversation_parent"@) {
            Some(p) => match p {
                JsonValue::Str(s) => Some(s@),
                _ => None,
            },
            None => last_turn(nodes.take(i)),
        },
    }
}

impl Graph {
    pub fn new() -> (r: Self)
        ensures
            r.current_turn is None,
            r.nodes@.len() == 0,
    {
        Graph { current_turn: None, nodes: Vec::new() }
    }

    fn position(&self, id: &str) -> (r: Option<usize>)
        ensures
            match r {
                Some(i) => i < self.nodes@.len() && node_index(self.nodes@, id@) == Some(i as int),
                None => node_index(self.nodes@, id@) is None,
            },
    {
        proof {
            lemma_node_index(self.nodes@, id@);
        }
        let mut i: usize = 0;
        while i < self.nodes.len()
            invariant
                i <= self.nodes@.len(),
                forall|j: int| 0 <= j < i ==> (#[trigger] self.nodes@[j]).id@ != id@,
            decreases self.nodes@.len() - i,
        {
            if str_eq(self.nodes[i].id.as_str(), id) {
                proof {
                    lemma_node_index(self.nodes@, id@);
                    match node_index(self.nodes@, id@) {
                        Some(k) => {
                            if k > i {
                                assert(self.nodes@[i as int].id@ == id@);
                            }
                        },
                        None => {
                            assert(self.nodes@[i as int].id@ == id@);
                        },
                    }
                }
                return Some(i);
            }
            i = i + 1;
        }
        None
    }

    /// Records a node: a known id takes the new state in place; a new node is
    /// appended, and a new turn becomes the current one.
    pub fn apply(&mut self, node: Node)
        ensures
            match node_index(old(self).nodes@, node.id@) {
                Some(i) => final(self).nodes@ == old(self).nodes@.update(i, node)
                    && final(self).current_turn == old(self).current_turn,
                None => {
                    &&& final(self).nodes@ == old(self).nodes@.push(node)
                    &&& final(self).current_turn == (if node.kind == Kind::Turn {
                        Some(node.id)
                    } else {
                        old(self).current_turn
                    })
                },
            },
    {
        match self.position(node.id.as_str()) {
            Some(i) => {
                let _old = self.nodes.remove(i);
                self.nodes.insert(i, node);
                proof {
                    assert(self.nodes@ =~= old(self).nodes@.update(i as int, node));
                }
            },
            None => {
                if node.kind == Kind::Turn {
                    self.current_turn = Some(node.id.clone());
                }
                self.nodes.push(node);
            },
        }
    }

    pub fn get(&self, id: &str) -> (r: Option<&Node>)
        ensures
            match node_index(self.nodes@, id@) {
                Some(i) => r == Some(&self.nodes@[i]),
                None => r is None,
            },
    {
        match self.position(id) {
            Some(i) => Some(&self.nodes[i]),
            None => None,
        }
    }

    pub fn turn_parent(&self, id: &str) -> (r: Option<String>)
        ensures
            match r {
                Some(s) => turn_parent_of(self.nodes@, id@) == Some(s@),
                None => turn_parent_of(self.nodes@, id@) is None,
            },
    {
        let i = match self.position(id) {
            None => return None,
            Some(i) => i,
        };
        match self.nodes[i].data.get("conversation_parent") {
            Some(p) => {
                return match p.as_str() {
                    Some(s) => Some(s.to_owned()),
                    None => None,
                };
            },
            None => {},
        }
        let mut k: usize = i;
        while k > 0
            invariant
                k <= i < self.nodes@.len(),
                node_index(self.nodes@, id@) == Some(i as int),
                json_get(self.nodes@[i as int].data, "conversation_parent"@) is None,
                last_turn(self.nodes@.take(i as int)) == last_turn(self.nodes@.take(k as int)),
            decreases k,
        {
            proof {
                assert(self.nodes@.take(k as int).drop_last() =~= self.nodes@.take(k - 1));
                assert(self.nodes@.take(k as int).last() == self.nodes@[k - 1]);
            }
            if self.nodes[k - 1].kind == Kind::Turn {
                return Some(self.nodes[k - 1].id.clone());
            }
            k = k - 1;
        }
        None
    }
}

/// The run a node belongs to: a turn or subagent starts its own run, as does
/// any node recorded outside one; other nodes join their recorder's run.
pub open spec fn run_of(kind: Kind, run_id: Seq<char>, id: Seq<char>) -> Seq<char> {
    if kind == Kind::Turn || kind == Kind::Subagent || run_id.len() == 0 { id } else { run_id }
}

pub fn run_id_for(kind: Kind, run_id: &str, id: &str) -> (r: String)
    ensures
        r@ == run_of(kind, run_id@, id@),
{
    if kind == Kind::Turn || kind == Kind::Subagent || run_id.is_empty() {
        id.to_owned()
    } else {
        run_id.to_owned()
    }
}

/// A failure that the user's refusal caused is recorded as a rejection.
pub open spec fn final_status_of(status: Status, data: JsonValue) -> Status {
    if status == Status::Failed && (json_get(data, "permission"@) matches Some(JsonValue::Str(p)) && p@ == "rejected"@) {
        Status::Rejected
    } else {
        status
    }
}

pub fn final_status(status: Status, data: &JsonValue) -> (r: Status)
    ensures
        r == final_status_of(status, *data),
{
    if status == Status::Failed {
        match data.get("permission") {
            Some(JsonValue::Str(p)) => {
                if str_eq(p.as_str(), "rejected") {
                    return Status::Rejected;
                }
            },
            _ => {},
        }
    }
    status
}

/// A recorded node keeps its id: applying it again replaces it and never
/// adds a second node with that id, so a node's latest state is found by its
/// id.
pub proof fn law_apply_keeps_one_node_per_id(nodes: Seq<Node>, node: Node)
    requires
        node_index(nodes, node.id@) is Some,
    ensures
        node_index(nodes.update(node_index(nodes, node.id@).unwrap(), node), node.id@) == node_index(nodes, node.id@),
        nodes.update(node_index(nodes, node.id@).unwrap(), node).len() == nodes.len(),
{
    let i = node_index(nodes, node.id@).unwrap();
    let after = nodes.update(i, node);
    lemma_node_index(nodes, node.id@);
    lemma_node_index(after, node.id@);
    match node_index(after, node.id@) {
        Some(k) => {
            if k < i {
                assert(after[k] == nodes[k]);
            } else if k > i {
                assert(after[i].id@ == node.id@);
            }
        },
        None => {
            assert(after[i].id@ == node.id@);
        },
    }
}

} // verus!
