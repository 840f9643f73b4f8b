use chatbot::cache::{Clients, SYSTEM_PROMPT};
use chatbot::content::ContentUnit;
use chatbot::session::{finish_turn, start_turn, TurnStart};

fn s(x: &str) -> String {
    x.to_string()
}

#[test]
fn a_turn_asks_with_the_history_and_records_the_answer() {
    let mut clients = Clients::new();
    let addr = s("10.0.0.1:4000");
    let room = s("2");
    match start_turn(&mut clients, &addr, &room, &s("hello\n")) {
        TurnStart::Ask(h) => assert_eq!(h, vec![ContentUnit::user(s("hello\n"))]),
        _ => panic!("expected a question"),
    }
    let framed = finish_turn(&mut clients, &addr, &room, s("hi!"));
    assert_eq!(framed, "AI > hi!\nHuman > \u{4}");
    match start_turn(&mut clients, &addr, &room, &s("and?")) {
        TurnStart::Ask(h) => assert_eq!(
            h,
            vec![ContentUnit::user(s("hello\n")), ContentUnit::assistant(s("hi!")), ContentUnit::user(s("and?"))]
        ),
        _ => panic!("expected a question"),
    }
}

#[test]
fn a_command_turn_is_answered_at_once() {
    let mut clients = Clients::new();
    let addr = s("peer");
    match start_turn(&mut clients, &addr, &s("room9"), &s("/rooms")) {
        TurnStart::Reply(m) => assert_eq!(m, "room9--$$__no rooms\n\u{4}"),
        _ => panic!("expected a reply"),
    }
    match start_turn(&mut clients, &addr, &s("1"), &s("/room_content x")) {
        TurnStart::Reply(m) => assert_eq!(m, "AI > \n\n\nHuman > \u{4}"),
        _ => panic!("expected a reply"),
    }
    let c = clients.get_client(addr.clone()).unwrap();
    assert_eq!(c.migrate_content(&s("x")), vec![ContentUnit::system(s(SYSTEM_PROMPT))]);
    match start_turn(&mut clients, &addr, &s("1"), &s("/image 256x256 sea")) {
        TurnStart::Draw(req) => assert_eq!((req.n, req.size.as_str(), req.prompt.as_str()), (1, "256x256", "sea")),
        _ => panic!("expected a drawing"),
    }
}
