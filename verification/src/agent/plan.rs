use vstd::prelude::*;
use crate::text::{digits, push_decimal, push_str, seq_join};

verus! {

#[derive(Debug, Clone, Copy, PartialEq, Eq, Structural)]
pub enum TodoStatus {
    Pending,
    InProgress,
    Done,
}

#[derive(Debug, Clone, PartialEq, Eq)]
pub struct TodoItem {
    pub content: String,
    pub status: TodoStatus,
}

#[derive(Debug, Default)]
pub struct TodoList {
    pub items: Vec<TodoItem>,
}

pub open spec fn status_mark(s: TodoStatus) -> Seq<char> {
    match s {
        TodoStatus::Done => "[x]"@,
        TodoStatus::InProgress => "[~]"@,
        TodoStatus::Pending => "[ ]"@,
    }
}

/// `N. [mark] content`, numbered from 1.
pub open spec fn todo_line(index: nat, item: TodoItem) -> Seq<char> {
    digits(index + 1) + ". "@ + status_mark(item.status) + " "@ + item.content@
}

pub open spec fn todo_lines(items: Seq<TodoItem>) -> Seq<Seq<char>> {
    Seq::new(items.len(), |i: int| todo_line(i as nat, items[i]))
}

impl TodoList {
    pub fn replace(&mut self, items: Vec<TodoItem>)
        ensures
            final(self).items@ == items@,
    {
        self.items = items;
    }

    pub fn is_empty(&self) -> (r: bool)
        ensures
            r == (self.items@.len() == 0),
    {
        self.items.len() == 0
    }

    /// Compact text form for the system prompt: one numbered line per item.
    pub fn render_prompt(&self) -> (r: String)
        ensures
            r@ == seq_join(todo_lines(self.items@), "\n"@),
    {
        let mut out = String::new();
        let mut i: usize = 0;
        while i < self.items.len()
            invariant
                i <= self.items@.len(),
                out@ == seq_join(todo_lines(self.items@.take(i as int)), "\n"@),
            decreases self.items@.len() - i,
        {
            let ghost prev = todo_lines(self.items@.take(i as int));
            proof {
                assert(todo_lines(self.items@.take(i as int + 1)) =~= prev.push(todo_line(i as nat, self.items@[i as int])));
                assert(todo_lines(self.items@.take(i as int + 1)).drop_last() =~= prev);
            }
            if i > 0 {
                push_str(&mut out, "\n");
            }
            let item = &self.items[i];
            push_decimal(&mut out, (i as u64) + 1);
            push_str(&mut out, ". ");
            let mark = match item.status {
                TodoStatus::Done => "[x]",
                TodoStatus::InProgress => "[~]",
                TodoStatus::Pending => "[ ]",
            };
            push_str(&mut out, mark);
            push_str(&mut out, " ");
            push_str(&mut out, item.content.as_str());
            proof {
                assert(out@ =~= seq_join(todo_lines(self.items@.take(i as int + 1)), "\n"@));
            }
            i = i + 1;
        }
        proof {
            assert(self.items@.take(self.items@.len() as int) =~= self.items@);
        }
        out
    }
}

} // verus!
