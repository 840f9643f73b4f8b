use chatbot::cache::{ClientUnit, Clients, HISTORY_LIMIT, SYSTEM_PROMPT};
use chatbot::cache::ContentUnit;

#[test]
fn client_unit_migrate_content_test() {
    let mut cu = ClientUnit::new("".to_string());
    cu.add_content(&("1".to_string()), ContentUnit::user("hihihi".to_string()));
    cu.add_content(&("1".to_string()), ContentUnit::assistant("hi".to_string()));
    assert_eq!(cu.migrate_content(&("1".to_string())), vec![
        ContentUnit::user("hihihi".to_string()),
        ContentUnit::assistant("hi".to_string())
    ]);
}

#[test]
fn add_content_max_test() {
    let mut cu = ClientUnit::new("".to_string());
    let room_id = "1".to_string();
    for _i in 0..30 {
        cu.add_content(&room_id, ContentUnit::user("hihihi".to_string()));
    }
    assert!(
        cu.migrate_content(&room_id).len()<10
    );
}

fn user(s: &str) -> ContentUnit {
    ContentUnit::user(s.to_string())
}

#[test]
fn migrate_opens_room_with_system_prompt() {
    let mut cu = ClientUnit::new("peer".to_string());
    let room = "7".to_string();
    let first = cu.migrate_content(&room);
    assert_eq!(first, vec![ContentUnit::system(SYSTEM_PROMPT.to_string())]);
    assert_eq!(cu.rooms(), vec!["7".to_string()]);
    // a second read gives the same history and opens nothing more
    assert_eq!(cu.migrate_content(&room), first);
    assert_eq!(cu.rooms(), vec!["7".to_string()]);
}

#[test]
fn trimming_keeps_first_and_newest() {
    let mut cu = ClientUnit::new("peer".to_string());
    let room = "r".to_string();
    for i in 0..9 {
        cu.add_content(&room, user(&i.to_string()));
    }
    assert_eq!(cu.migrate_content(&room).len(), 9);
    // the tenth message makes ten: the six after the first are dropped
    cu.add_content(&room, user("9"));
    let h = cu.migrate_content(&room);
    assert_eq!(h, vec![user("0"), user("7"), user("8"), user("9")]);
    assert!(h.len() < HISTORY_LIMIT);
}

#[test]
fn system_prompt_survives_trimming() {
    let mut cu = ClientUnit::new("peer".to_string());
    let room = "r".to_string();
    cu.migrate_content(&room);
    for i in 0..40 {
        cu.add_content(&room, user(&i.to_string()));
        let h = cu.migrate_content(&room);
        assert!(h.len() >= 1 && h.len() < HISTORY_LIMIT);
        assert_eq!(h[0], ContentUnit::system(SYSTEM_PROMPT.to_string()));
        assert_eq!(h[h.len() - 1], user(&i.to_string()));
    }
}

#[test]
fn clear_content_forgets_only_that_room() {
    let mut cu = ClientUnit::new("peer".to_string());
    let a = "a".to_string();
    let b = "b".to_string();
    cu.add_content(&a, user("x"));
    cu.add_content(&b, user("y"));
    assert_eq!(cu.rooms(), vec!["a".to_string(), "b".to_string()]);
    cu.clear_content(&a);
    assert_eq!(cu.rooms(), vec!["b".to_string()]);
    assert_eq!(cu.migrate_content(&b), vec![user("y")]);
    assert_eq!(cu.migrate_content(&a), vec![ContentUnit::system(SYSTEM_PROMPT.to_string())]);
    assert_eq!(cu.rooms(), vec!["b".to_string(), "a".to_string()]);
    // clearing a room that has no history changes nothing
    cu.clear_content(&"zz".to_string());
    assert_eq!(cu.rooms(), vec!["b".to_string(), "a".to_string()]);
}

#[test]
fn clients_register_once_and_forget() {
    let mut clients = Clients::new();
    assert!(clients.get_client("1.2.3.4:5".to_string()).is_none());
    clients.add_client("1.2.3.4:5".to_string());
    clients
        .get_client("1.2.3.4:5".to_string())
        .unwrap()
        .add_content(&"r".to_string(), user("hello"));
    // a second registration keeps the client as it was
    clients.add_client("1.2.3.4:5".to_string());
    let c = clients.get_client("1.2.3.4:5".to_string()).unwrap();
    assert_eq!(c.migrate_content(&"r".to_string()), vec![user("hello")]);
    clients.remove_client("1.2.3.4:5".to_string());
    assert!(clients.get_client("1.2.3.4:5".to_string()).is_none());
    // removing an unknown client is harmless
    clients.remove_client("nobody".to_string());
}

#[test]
fn a_run_of_additions_keeps_first_and_newest() {
    for k in 1..60usize {
        let mut cu = ClientUnit::new("peer".to_string());
        let room = "r".to_string();
        for i in 0..k {
            cu.add_content(&room, user(&i.to_string()));
        }
        let kept = if k < 10 { k } else { 4 + (k - 10) % 6 };
        let mut want = vec![user("0")];
        for i in (k - (kept - 1))..k {
            want.push(user(&i.to_string()));
        }
        assert_eq!(cu.migrate_content(&room), want, "k = {k}");
    }
}
