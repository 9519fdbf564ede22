//! The record store the request handlers consume: an in-memory list of
//! keyed records behind the persistence trait. Durable
//! storage of the list is the embedding program's concern; it loads and
//! saves through `from_records` and `get_all_todos`.
use vstd::prelude::*;

verus! {

/// One stored record.
pub struct Todo {
    pub id: u32,
    pub title: Vec<u8>,
    pub completed: bool,
}

/// Mathematical content of a record.
#[verifier::ext_equal]
pub struct TodoView {
    pub id: u32,
    pub title: Seq<u8>,
    pub completed: bool,
}

impl View for Todo {
    type V = TodoView;

    open spec fn view(&self) -> TodoView {
        TodoView { id: self.id, title: self.title@, completed: self.completed }
    }
}

impl Clone for Todo {
    /// A clone keeps the record's content.
    fn clone(&self) -> (r: Self)
        ensures
            r@ == self@,
    {
        let r = Todo { id: self.id, title: crate::bytes::sub_vec(self.title.as_slice(), 0, self.title.len()), completed: self.completed };
        proof {
            assert(r.title@ =~= self.title@);
        }
        r
    }
}

/// The views of a record list.
pub open spec fn todos_view(ts: Seq<Todo>) -> Seq<TodoView> {
    ts.map_values(|t: Todo| t@)
}

/// Index of the first record at or after `i` keyed `id`.
pub open spec fn find_todo_from(ts: Seq<TodoView>, id: u32, i: int) -> Option<int>
    decreases ts.len() - i,
{
    if i < 0 || i >= ts.len() {
        None
    } else if ts[i].id == id {
        Some(i)
    } else {
        find_todo_from(ts, id, i + 1)
    }
}

/// Index of the first record keyed `id`, if one is stored.
pub open spec fn find_todo(ts: Seq<TodoView>, id: u32) -> Option<int> {
    find_todo_from(ts, id, 0)
}

/// The record store.
pub struct Todos {
    pub todos: Vec<Todo>,
}

impl View for Todos {
    type V = Seq<TodoView>;

    open spec fn view(&self) -> Seq<TodoView> {
        todos_view(self.todos@)
    }
}

impl Todos {
    /// An empty store.
    pub fn new() -> (r: Todos)
        ensures
            r@ == Seq::<TodoView>::empty(),
    {
        let r = Todos { todos: Vec::new() };
        proof {
            assert(r@ =~= Seq::<TodoView>::empty());
        }
        r
    }

    /// A store holding exactly the given records; this is how a loaded
    /// snapshot enters the core.
    pub fn from_records(records: Vec<Todo>) -> (r: Todos)
        ensures
            r@ == todos_view(records@),
    {
        Todos { todos: records }
    }
}

/// The collaborator interface the handlers consume: list, find, add,
/// update, delete and clear over a record list.
pub trait PersistTodos: Sized {
    /// The records the store holds, in order.
    spec fn records(&self) -> Seq<TodoView>;

    /// Every stored record, in order.
    fn get_all_todos(&self) -> (r: Vec<Todo>)
        ensures
            todos_view(r@) == self.records(),
    ;

    /// The first record keyed `id`, if one is stored.
    fn get_todo_by_id(&self, id: u32) -> (r: Option<Todo>)
        ensures
            match find_todo(self.records(), id) {
                Some(i) => r matches Some(t) && t@ == self.records()[i],
                None => r is None,
            },
    ;

    /// Appends a record to the end of the list.
    fn add_todo(&mut self, todo: Todo)
        ensures
            final(self).records() == old(self).records().push(todo@),
    ;

    /// Replaces the first record keyed `id`, reporting whether one existed.
    fn update_todo(&mut self, id: u32, todo: Todo) -> (r: bool)
        ensures
            match find_todo(old(self).records(), id) {
                Some(i) => r && final(self).records() == old(self).records().update(i, todo@),
                None => !r && final(self).records() == old(self).records(),
            },
    ;

    /// Removes the first record keyed `id`, reporting whether one existed.
    fn delete_todo(&mut self, id: u32) -> (r: bool)
        ensures
            match find_todo(old(self).records(), id) {
                Some(i) => r && final(self).records() == old(self).records().remove(i),
                None => !r && final(self).records() == old(self).records(),
            },
    ;

    /// Removes every record.
    fn clear_todos(&mut self)
        ensures
            final(self).records() == Seq::<TodoView>::empty(),
    ;
}

/// Index of the first stored record keyed `id`, if any.
fn position_of(todos: &Vec<Todo>, id: u32) -> (r: Option<usize>)
    ensures
        match r {
            Some(i) => i < todos@.len() && find_todo(todos_view(todos@), id) == Some(i as int),
            None => find_todo(todos_view(todos@), id) is None,
        },
{
    let ghost tv = todos_view(todos@);
    let mut i: usize = 0;
    while i < todos.len()
        invariant
            i <= todos@.len(),
            tv == todos_view(todos@),
            find_todo(tv, id) == find_todo_from(tv, id, i as int),
        decreases todos@.len() - i,
    {
        proof {
            assert(tv[i as int] == todos@[i as int]@);
        }
        if todos[i].id == id {
            return Some(i);
        }
        i = i + 1;
    }
    None
}

impl PersistTodos for Todos {
    open spec fn records(&self) -> Seq<TodoView> {
        self@
    }

    fn get_all_todos(&self) -> (r: Vec<Todo>)
        ensures
            todos_view(r@) == self.records(),
    {
        let mut r: Vec<Todo> = Vec::new();
        let mut i: usize = 0;
        proof {
            assert(todos_view(r@) =~= self@.subrange(0, 0));
        }
        while i < self.todos.len()
            invariant
                i <= self.todos@.len(),
                r@.len() == i,
                todos_view(r@) == self@.subrange(0, i as int),
            decreases self.todos@.len() - i,
        {
            let ghost r_before = r@;
            let c = self.todos[i].clone();
            proof {
                assert(c@ == self.todos@[i as int]@);
            }
            r.push(c);
            proof {
                assert(r@ == r_before.push(c));
                assert(r_before.len() == i);
                assert(self@.len() == self.todos@.len());
                assert(todos_view(r@).len() == i + 1);
                assert(todos_view(r@)[i as int] == c@);
                assert(self@.subrange(0, i + 1)[i as int] == self.todos@[i as int]@);
                assert forall|j: int| 0 <= j < i implies #[trigger] todos_view(r@)[j]
                    == self@.subrange(0, i + 1)[j] by {
                    assert(todos_view(r_before)[j] == self@.subrange(0, i as int)[j]);
                    assert(r@[j] == r_before[j]);
                    assert(todos_view(r@)[j] == r@[j]@);
                }
                assert(todos_view(r@) =~= self@.subrange(0, i + 1));
            }
            i = i + 1;
        }
        proof {
            assert(self@.subrange(0, i as int) =~= self@);
        }
        r
    }

    fn get_todo_by_id(&self, id: u32) -> (r: Option<Todo>)
        ensures
            match find_todo(self.records(), id) {
                Some(i) => r matches Some(t) && t@ == self.records()[i],
                None => r is None,
            },
    {
        match position_of(&self.todos, id) {
            Some(i) => {
                proof {
                    assert(todos_view(self.todos@)[i as int] == self.todos@[i as int]@);
                }
                Some(self.todos[i].clone())
            },
            None => None,
        }
    }

    fn add_todo(&mut self, todo: Todo)
        ensures
            final(self).records() == old(self).records().push(todo@),
    {
        self.todos.push(todo);
        proof {
            assert(todos_view(self.todos@) =~= todos_view(old(self).todos@).push(
                self.todos@.last()@,
            ));
        }
    }

    fn update_todo(&mut self, id: u32, todo: Todo) -> (r: bool)
        ensures
            match find_todo(old(self).records(), id) {
                Some(i) => r && final(self).records() == old(self).records().update(i, todo@),
                None => !r && final(self).records() == old(self).records(),
            },
    {
        match position_of(&self.todos, id) {
            Some(i) => {
                self.todos.remove(i);
                self.todos.insert(i, todo);
                proof {
                    assert(todos_view(self.todos@) =~= todos_view(old(self).todos@).update(
                        i as int,
                        self.todos@[i as int]@,
                    ));
                }
                true
            },
            None => false,
        }
    }

    fn delete_todo(&mut self, id: u32) -> (r: bool)
        ensures
            match find_todo(old(self).records(), id) {
                Some(i) => r && final(self).records() == old(self).records().remove(i),
                None => !r && final(self).records() == old(self).records(),
            },
    {
        match position_of(&self.todos, id) {
            Some(i) => {
                self.todos.remove(i);
                proof {
                    assert(todos_view(self.todos@) =~= todos_view(old(self).todos@).remove(
                        i as int,
                    ));
                }
                true
            },
            None => false,
        }
    }

    fn clear_todos(&mut self)
        ensures
            final(self).records() == Seq::<TodoView>::empty(),
    {
        self.todos.clear();
        proof {
            assert(todos_view(self.todos@) =~= Seq::<TodoView>::empty());
        }
    }
}

} // verus!
