use chat_archive::registry::route_event;
use chat_archive::registry::AccountSession;
use chat_archive::registry::RouteDecision;
use chat_archive::registry::SessionRegistry;
use chat_archive::sync::fetch_page;
use chat_archive::sync::initial_cursor;
use chat_archive::sync::run_sync;
use chat_archive::sync::sync_step;
use chat_archive::sync::SyncCursor;
use chat_archive::sync::SyncStep;

#[test]
fn run_sync_fetches_ceil_pages_plus_one() {
    let history = vec![70, 60, 50, 40, 30, 20, 10];
    let (fetches, processed) = run_sync(&history, 3);
    assert_eq!(fetches, 4); // ceil(7 / 3) + 1
    assert_eq!(processed, history);
}

#[test]
fn run_sync_exact_multiple_of_page_size() {
    let history = vec![60, 50, 40, 30, 20, 10];
    let (fetches, processed) = run_sync(&history, 3);
    assert_eq!(fetches, 3); // ceil(6 / 3) + 1
    assert_eq!(processed, history);
}

#[test]
fn run_sync_empty_history_fetches_once() {
    let history: Vec<i64> = Vec::new();
    let (fetches, processed) = run_sync(&history, 5);
    assert_eq!(fetches, 1);
    assert!(processed.is_empty());
}

#[test]
fn run_sync_single_page() {
    let history = vec![5, 4, 3, 2, 1];
    let (fetches, processed) = run_sync(&history, 100);
    assert_eq!(fetches, 2);
    assert_eq!(processed, history);
}

#[test]
fn fetch_page_from_most_recent() {
    let history = vec![50, 40, 30];
    assert_eq!(fetch_page(&history, 0, 2), vec![50, 40]);
    assert_eq!(fetch_page(&history, 40, 2), vec![30]);
    assert_eq!(fetch_page(&history, 10, 2), Vec::<i64>::new());
}

#[test]
fn sync_step_cases() {
    let start = initial_cursor();
    assert_eq!(start, SyncCursor { from_message_id: 0, processed: 0 });
    let empty: Vec<i64> = Vec::new();
    assert_eq!(sync_step(start, &empty), SyncStep::Done { total: 0 });
    let page = vec![50, 40, 30];
    assert_eq!(
        sync_step(start, &page),
        SyncStep::Continue { cursor: SyncCursor { from_message_id: 30, processed: 3 } }
    );
}

fn registry_of(sessions: Vec<AccountSession>) -> SessionRegistry {
    let mut reg = SessionRegistry::new();
    for s in sessions {
        reg.insert(s);
    }
    reg
}

fn session(client_id: i32, chat_id: i64, path: &str) -> AccountSession {
    AccountSession {
        client_id,
        chat_id,
        file_path: String::from(path),
        media_dir: String::from("media"),
    }
}

#[test]
fn registry_finds_registered_sessions() {
    let reg = registry_of(vec![session(1, 100, "a.md"), session(2, 200, "b.md")]);
    let found = reg.find(2).unwrap();
    assert_eq!(found.chat_id, 200);
    assert_eq!(found.file_path, "b.md");
    assert!(reg.find(3).is_none());
}

#[test]
fn event_for_unknown_session_is_dropped() {
    let reg = registry_of(vec![session(1, 100, "a.md")]);
    assert_eq!(route_event(&reg, 99, 100), RouteDecision::UnknownSession);
}

#[test]
fn event_for_wrong_chat_is_dropped() {
    let reg = registry_of(vec![session(1, 100, "a.md")]);
    assert_eq!(route_event(&reg, 1, 101), RouteDecision::WrongChat);
}

#[test]
fn event_for_target_chat_is_delivered() {
    let reg = registry_of(vec![session(1, 100, "a.md"), session(2, 200, "b.md")]);
    assert_eq!(route_event(&reg, 2, 200), RouteDecision::Deliver);
}
