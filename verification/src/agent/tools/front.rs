//! The argument checks and answers of the built-in tools whose work is a single
//! step: remembering, loading a skill, writing the todo list, and starting a
//! task in the background.
use vstd::prelude::*;
use crate::agent::plan::{TodoItem, TodoList};
use crate::agent::skills::{Skill, Skills};
use crate::agent::tools::ToolResult;
use crate::json::{JsonValue, get_str, str_member};
use crate::text::{chars_of, trim, trim_bounds, digits, push_str, push_decimal};

verus! {

/// Whether a text is blank: nothing but white space.
pub open spec fn blank(s: Seq<char>) -> bool {
    trim(s).len() == 0
}

fn is_blank(s: &str) -> (r: bool)
    ensures
        r == blank(s@),
{
    let cs = chars_of(s);
    let (a, b) = trim_bounds(cs.as_slice());
    a == b
}

/// The text to remember, or the answer refusing it.
pub fn remember_text<'a>(args: &'a JsonValue) -> (r: Result<&'a str, ToolResult>)
    ensures
        match get_str(*args, "text"@) {
            None => r matches Err(e) && e.is_error && e.content@ == "text must be a string"@,
            Some(t) => if blank(t) {
                r matches Err(e) && e.is_error && e.content@ == "text must not be empty"@
            } else {
                r matches Ok(x) && x@ == t
            },
        },
{
    match str_member(args, "text") {
        None => Err(ToolResult::err("text must be a string")),
        Some(t) => if is_blank(t) {
            Err(ToolResult::err("text must not be empty"))
        } else {
            Ok(t)
        },
    }
}

/// What remembering answers, given whether writing the memory file worked.
pub fn remember_answer(written: Result<(), String>) -> (r: ToolResult)
    ensures
        match written {
            Ok(_) => !r.is_error && r.content@ == "remembered"@,
            Err(e) => r.is_error && r.content@ == "remember failed: "@ + e@,
        },
{
    match written {
        Ok(()) => ToolResult::ok("remembered"),
        Err(e) => {
            let mut m = "remember failed: ".to_owned();
            push_str(&mut m, e.as_str());
            ToolResult::err(m.as_str())
        },
    }
}

/// The first skill of a name, at position `k`.
pub open spec fn first_named(list: Seq<Skill>, name: Seq<char>, k: int) -> bool {
    0 <= k < list.len() && list[k].name@ == name && forall|m: int| 0 <= m < k ==> (#[trigger] list[m]).name@ != name
}

/// Whether some skill has this name.
pub open spec fn has_skill(list: Seq<Skill>, name: Seq<char>) -> bool {
    exists|k: int| 0 <= k < list.len() && (#[trigger] list[k]).name@ == name
}

/// The answer that loads the first skill of a name: its file, then its body.
pub open spec fn skill_content(list: Seq<Skill>, name: Seq<char>, content: Seq<char>) -> bool {
    exists|k: int| first_named(list, name, k)
        && content == "Skill file: "@ + list[k].path@ + "\n\n"@ + list[k].body@
}

/// Loading a skill: its file and body, or an error naming the unknown skill.
pub fn skill_answer(skills: &Skills, args: &JsonValue) -> (r: ToolResult)
    ensures
        match get_str(*args, "name"@) {
            None => r.is_error && r.content@ == "name must be a string"@,
            Some(n) => if has_skill(skills.list@, n) {
                !r.is_error && skill_content(skills.list@, n, r.content@)
            } else {
                r.is_error && r.content@ == "unknown skill: "@ + n
            },
        },
{
    match str_member(args, "name") {
        None => ToolResult::err("name must be a string"),
        Some(name) => match skills.get(name) {
            Some(skill) => {
                let mut m = "Skill file: ".to_owned();
                push_str(&mut m, skill.path.as_str());
                push_str(&mut m, "\n\n");
                push_str(&mut m, skill.body.as_str());
                proof {
                    let k = choose|k: int| 0 <= k < skills.list@.len() && skills.list@[k] == *skill && skill.name@ == name@
                        && forall|m: int| 0 <= m < k ==> (#[trigger] skills.list@[m]).name@ != name@;
                    assert(first_named(skills.list@, name@, k));
                    assert(skills.list@[k].name@ == name@);
                    assert(has_skill(skills.list@, name@));
                    assert(skill_content(skills.list@, name@, m@));
                }
                ToolResult::ok(m.as_str())
            },
            None => {
                let mut m = "unknown skill: ".to_owned();
                push_str(&mut m, name);
                proof {
                    assert(!has_skill(skills.list@, name@));
                }
                ToolResult::err(m.as_str())
            },
        },
    }
}

/// Whether some item of a todo list has blank content.
pub open spec fn any_blank(items: Seq<TodoItem>) -> bool {
    exists|i: int| 0 <= i < items.len() && blank(#[trigger] items[i].content@)
}

/// Replaces the todo list, unless an item has blank content.
pub fn todo_write(list: &mut TodoList, todos: Vec<TodoItem>) -> (r: ToolResult)
    ensures
        any_blank(todos@) ==> r.is_error && r.content@ == "todo content must not be empty"@
            && final(list).items@ == old(list).items@,
        !any_blank(todos@) ==> !r.is_error && final(list).items@ == todos@
            && r.content@ == "todo list updated ("@ + digits(todos@.len()) + " items)"@,
{
    let mut i: usize = 0;
    while i < todos.len()
        invariant
            i <= todos@.len(),
            forall|k: int| 0 <= k < i ==> !blank(#[trigger] todos@[k].content@),
        decreases todos@.len() - i,
    {
        if is_blank(todos[i].content.as_str()) {
            return ToolResult::err("todo content must not be empty");
        }
        i = i + 1;
    }
    let n = todos.len();
    list.replace(todos);
    let mut m = "todo list updated (".to_owned();
    push_decimal(&mut m, n as u64);
    push_str(&mut m, " items)");
    ToolResult::ok(m.as_str())
}

/// The answer when a command or task starts in the background.
pub fn started_answer(id: usize) -> (r: ToolResult)
    ensures
        !r.is_error,
        r.content@ == "background task #"@ + digits(id as nat) + " started"@,
{
    let mut m = "background task #".to_owned();
    push_decimal(&mut m, id as u64);
    push_str(&mut m, " started");
    ToolResult::ok(m.as_str())
}

} // verus!
