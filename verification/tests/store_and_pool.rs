use server::pool::ThreadPool;
use server::todo::{PersistTodos, Todo, Todos};

fn record(id: u32, title: &str, completed: bool) -> Todo {
    Todo { id, title: title.as_bytes().to_vec(), completed }
}

#[test]
fn store_add_and_list_keep_order() {
    let mut store = Todos::new();
    store.add_todo(record(1, "one", false));
    store.add_todo(record(2, "two", true));
    let all = store.get_all_todos();
    assert_eq!(all.len(), 2);
    assert_eq!(all[0].title, b"one".to_vec());
    assert_eq!(all[1].title, b"two".to_vec());
    assert!(all[1].completed);
}

#[test]
fn store_finds_the_first_record_with_an_id() {
    let mut store = Todos::new();
    store.add_todo(record(1, "first", false));
    store.add_todo(record(1, "shadowed", true));
    let found = store.get_todo_by_id(1).expect("id 1 exists");
    assert_eq!(found.title, b"first".to_vec());
    assert!(store.get_todo_by_id(9).is_none());
}

#[test]
fn store_update_replaces_only_a_present_record() {
    let mut store = Todos::new();
    store.add_todo(record(1, "old", false));
    assert!(store.update_todo(1, record(1, "new", true)));
    let found = store.get_todo_by_id(1).unwrap();
    assert_eq!(found.title, b"new".to_vec());
    assert!(found.completed);
    assert!(!store.update_todo(5, record(5, "ghost", false)));
    assert_eq!(store.get_all_todos().len(), 1);
}

#[test]
fn store_delete_removes_only_a_present_record() {
    let mut store = Todos::new();
    store.add_todo(record(1, "one", false));
    store.add_todo(record(2, "two", false));
    assert!(store.delete_todo(1));
    assert!(!store.delete_todo(1));
    let all = store.get_all_todos();
    assert_eq!(all.len(), 1);
    assert_eq!(all[0].id, 2);
}

#[test]
fn store_clear_empties_everything() {
    let mut store = Todos::new();
    store.add_todo(record(1, "one", false));
    store.clear_todos();
    assert_eq!(store.get_all_todos().len(), 0);
}

#[test]
fn store_loads_a_snapshot() {
    let store = Todos::from_records(vec![record(3, "three", true)]);
    let found = store.get_todo_by_id(3).unwrap();
    assert_eq!(found.title, b"three".to_vec());
    assert!(found.completed);
}

#[test]
fn pool_completes_every_submitted_task() {
    let mut pool = ThreadPool::new(4);
    for _ in 0..10 {
        pool.execute();
    }
    assert_eq!(pool.queued, 10);
    pool.run_to_completion();
    assert_eq!(pool.completed, 10);
    assert_eq!(pool.queued, 0);
    assert_eq!(pool.running, 0);
}

#[test]
fn pool_never_runs_more_than_its_size() {
    let mut pool = ThreadPool::new(2);
    pool.execute();
    pool.execute();
    pool.execute();
    pool.start_task();
    pool.start_task();
    assert_eq!(pool.running, 2);
    // the third task must wait for a worker to come free
    pool.finish_task();
    pool.start_task();
    assert_eq!(pool.running, 2);
    assert!(pool.running <= pool.size);
    pool.run_to_completion();
    assert_eq!(pool.completed, 3);
}
