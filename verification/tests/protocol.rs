use chatbot::command::{is_fatal_command, parse_command, parse_image_args, run_command, Command, CommandOutcome};
use chatbot::cache::{ClientUnit, SYSTEM_PROMPT};
use chatbot::content::ContentUnit;
use chatbot::console::{display_lines, frame_request};
use chatbot::message::{
    failure_action, frame_answer, frame_command_reply, parse_message, read_step, FailureAction, ReadEvent, ReadFailure,
    ReadStep, READ_CHUNK,
};
use chatbot::reply::{answer_text, check_image_size, join_lines};
use chatbot::text::{chars_of, parse_i32_chars};

fn s(x: &str) -> String {
    x.to_string()
}

fn int_of(x: &str) -> Option<i32> {
    let cs = chars_of(x);
    parse_i32_chars(&cs, 0, cs.len())
}

#[test]
fn integers_read_like_from_str() {
    for x in ["0", "12", "+7", "-7", "-0", "2147483647", "-2147483648", "007", "", "+", "-", "1a", " 1",
              "2147483648", "-2147483649", "99999999999999999999", "١٢"] {
        assert_eq!(int_of(x), x.parse::<i32>().ok(), "{x}");
    }
}

#[test]
fn commands_are_recognised_after_trimming() {
    assert!(matches!(parse_command(&s("/new")), Command::New));
    assert!(matches!(parse_command(&s("  /new\n")), Command::New));
    assert!(matches!(parse_command(&s("\t/rooms \u{3000}")), Command::Rooms));
    assert!(matches!(parse_command(&s("/newer")), Command::NotACommand));
    assert!(matches!(parse_command(&s("/new x")), Command::NotACommand));
    assert!(matches!(parse_command(&s("hello there")), Command::NotACommand));
    match parse_command(&s("/room_content my room\n")) {
        Command::RoomContent(r) => assert_eq!(r, "my room"),
        _ => panic!("not a room read"),
    }
    match parse_command(&s("/image 2 256x256 a red fox")) {
        Command::Image(a) => assert_eq!(a, "2 256x256 a red fox"),
        _ => panic!("not an image request"),
    }
}

#[test]
fn image_arguments_are_read_like_the_server() {
    let r = parse_image_args(&s("a cat"));
    assert_eq!((r.n, r.size.as_str(), r.prompt.as_str()), (1, "512x512", "a cat"));
    let r = parse_image_args(&s("cat"));
    assert_eq!((r.n, r.size.as_str(), r.prompt.as_str()), (1, "512x512", "cat"));
    let r = parse_image_args(&s("256x256 cat"));
    assert_eq!((r.n, r.size.as_str(), r.prompt.as_str()), (1, "256x256", "cat"));
    let r = parse_image_args(&s("3 cat"));
    assert_eq!((r.n, r.size.as_str(), r.prompt.as_str()), (3, "512x512", "cat"));
    let r = parse_image_args(&s("9 cat"));
    assert_eq!((r.n, r.size.as_str(), r.prompt.as_str()), (9, "512x512", "cat"));
    let r = parse_image_args(&s("9 1024x1024 a big cat"));
    assert_eq!((r.n, r.size.as_str(), r.prompt.as_str()), (4, "1024x1024", "a big cat"));
    let r = parse_image_args(&s("-2 64x64 cat"));
    assert_eq!((r.n, r.size.as_str(), r.prompt.as_str()), (-2, "64x64", "cat"));
    assert!(is_fatal_command(&s("/image big fat cat")));
    assert!(!is_fatal_command(&s("/image 2 big cat")));
    assert!(!is_fatal_command(&s("/image big cat")));
    assert!(!is_fatal_command(&s("big fat cat now")));
}

#[test]
fn run_command_answers_and_changes_the_client() {
    let mut c = ClientUnit::new(s("peer"));
    let room = s("5");
    match run_command(&mut c, &room, &s("/rooms\n")) {
        CommandOutcome::Reply(m) => assert_eq!(m, "no rooms"),
        _ => panic!(),
    }
    c.add_content(&room, ContentUnit::user(s("hi")));
    c.add_content(&room, ContentUnit::assistant(s("hello")));
    c.add_content(&room, ContentUnit::user(s("how are you")));
    c.add_content(&s("6"), ContentUnit::user(s("x")));
    match run_command(&mut c, &room, &s("/rooms")) {
        CommandOutcome::Reply(m) => assert_eq!(m, "5, 6, "),
        _ => panic!(),
    }
    match run_command(&mut c, &room, &s("/room_content 5")) {
        CommandOutcome::Reply(m) => assert_eq!(m, "hihow are you\n"),
        _ => panic!(),
    }
    match run_command(&mut c, &room, &s("/room_content 9")) {
        CommandOutcome::Reply(m) => assert_eq!(m, "\n"),
        _ => panic!(),
    }
    assert_eq!(c.rooms(), vec![s("5"), s("6"), s("9")]);
    match run_command(&mut c, &room, &s("/new")) {
        CommandOutcome::Reply(m) => assert_eq!(m, "history cleared"),
        _ => panic!(),
    }
    assert_eq!(c.rooms(), vec![s("6"), s("9")]);
    match run_command(&mut c, &room, &s("/image 2 cat")) {
        CommandOutcome::Draw(req) => assert_eq!((req.n, req.prompt.as_str()), (2, "cat")),
        _ => panic!(),
    }
    assert!(matches!(run_command(&mut c, &room, &s("tell me a joke")), CommandOutcome::NotACommand));
    assert_eq!(c.migrate_content(&s("9")), vec![ContentUnit::system(s(SYSTEM_PROMPT))]);
}

#[test]
fn messages_are_split_into_room_and_text() {
    let (room, text) = parse_message(b"abc--$$__hello\n\x04".to_vec()).ok().unwrap();
    assert_eq!((room.as_str(), text.as_str()), ("abc", "hello\n"));
    let (room, text) = parse_message(b"2--$$__a--$$__b\x04".to_vec()).ok().unwrap();
    assert_eq!((room.as_str(), text.as_str()), ("2", "a--$$__b"));
    // without separator the message is for room 1 and is kept whole
    let (room, text) = parse_message(b"hi there\n".to_vec()).ok().unwrap();
    assert_eq!((room.as_str(), text.as_str()), ("1", "hi there\n"));
    let (room, text) = parse_message(b"hi\x04".to_vec()).ok().unwrap();
    assert_eq!((room.as_str(), text.as_str()), ("1", "hi\x04"));
    // the end-of-message mark inside the separator does not hide it
    let (room, text) = parse_message(b"r--$\x04$__t".to_vec()).ok().unwrap();
    assert_eq!((room.as_str(), text.as_str()), ("r", "t"));
    assert!(matches!(parse_message(b"\n\n".to_vec()), Err(ReadFailure::NoContent)));
    assert!(matches!(parse_message(b"".to_vec()), Err(ReadFailure::NoContent)));
    assert!(matches!(parse_message(b"3--$$__\n\x04".to_vec()), Err(ReadFailure::NoContent)));
    assert!(matches!(parse_message(vec![0xff, 0xfe]), Err(ReadFailure::NotText)));
    let (_, text) = parse_message("2--$$__héllo".as_bytes().to_vec()).ok().unwrap();
    assert_eq!(text, "héllo");
}

#[test]
fn failed_reads_drop_the_client_unless_empty() {
    assert!(matches!(failure_action(&ReadFailure::NoContent), FailureAction::KeepWaiting));
    assert!(matches!(failure_action(&ReadFailure::ConnectionAborted), FailureAction::DropClient));
    assert!(matches!(failure_action(&ReadFailure::NotText), FailureAction::DropClient));
    assert!(matches!(failure_action(&ReadFailure::Io), FailureAction::DropClient));
}

#[test]
fn answers_are_framed_per_room() {
    assert_eq!(frame_command_reply(&s("abc"), &s("done")), "abc--$$__done\n\u{4}");
    assert_eq!(frame_command_reply(&s("1"), &s("done")), "AI > done\n\nHuman > \u{4}");
    assert_eq!(frame_command_reply(&s("2"), &s("")), "AI > \n\nHuman > \u{4}");
    assert_eq!(frame_answer(&s("abc"), &s("yes")), "abc--$$__yes\n\u{4}");
    assert_eq!(frame_answer(&s("2"), &s("yes")), "AI > yes\nHuman > \u{4}");
}

#[test]
fn assistant_choices_become_answers() {
    assert_eq!(answer_text(&ContentUnit::assistant(s("ok"))), "ok");
    assert_eq!(answer_text(&ContentUnit::user(s("ok"))), "Human: ok");
    assert_eq!(answer_text(&ContentUnit::system(s("ok"))), "System: ok");
}

#[test]
fn image_sizes_and_addresses() {
    assert!(check_image_size(&s("1024x1024")).is_none());
    assert!(check_image_size(&s("512x512")).is_none());
    assert!(check_image_size(&s("256x256")).is_none());
    assert_eq!(check_image_size(&s("64x64")).unwrap(), "size only support: 1024x1024, 512x512, 256x256");
    assert_eq!(join_lines(&vec![]), "");
    assert_eq!(join_lines(&vec![s("a")]), "a");
    assert_eq!(join_lines(&vec![s("a"), s("b"), s("c")]), "a\nb\nc");
}

#[test]
fn console_client_frames_and_prints() {
    assert_eq!(frame_request(&s("hello\n")), "2--$$__hello\n\u{4}");
    assert_eq!(display_lines(&s("AI > hi\nHuman > \u{4}")), vec![s("AI: AI > hi"), s("Human > ")]);
    assert_eq!(display_lines(&s("")), vec![s("AI: ")]);
    assert_eq!(display_lines(&s("a\n\nb\n")), vec![s("AI: a"), s(""), s("b"), s("")]);
    let (room, text) = parse_message(frame_request(&s("what now?\n")).into_bytes()).ok().unwrap();
    assert_eq!((room.as_str(), text.as_str()), ("2", "what now?\n"));
}

#[test]
fn reads_accumulate_until_a_short_one() {
    let mut buf: Vec<u8> = Vec::new();
    assert!(matches!(read_step(&mut buf, ReadEvent::Bytes(vec![1u8; READ_CHUNK])), ReadStep::Continue));
    assert!(matches!(read_step(&mut buf, ReadEvent::WouldBlock), ReadStep::Continue));
    assert!(matches!(read_step(&mut buf, ReadEvent::Bytes(vec![2u8; 3])), ReadStep::Complete));
    assert_eq!(buf.len(), READ_CHUNK + 3);
    assert_eq!(&buf[READ_CHUNK..], &[2u8, 2, 2]);
    assert!(matches!(read_step(&mut buf, ReadEvent::Bytes(vec![])), ReadStep::Stop(ReadFailure::ConnectionAborted)));
    assert!(matches!(read_step(&mut buf, ReadEvent::Failed), ReadStep::Stop(ReadFailure::Io)));
    assert_eq!(buf.len(), READ_CHUNK + 3);
}

#[test]
fn framed_messages_read_back_for_any_room() {
    for (room, text) in [("abc", "hello"), ("a-", "x"), ("--$$_", "y\n"), ("", "z"), ("房间", "你好--$$__")] {
        let framed = format!("{room}--$$__{text}\u{4}");
        let (r, t) = parse_message(framed.into_bytes()).ok().unwrap();
        assert_eq!((r.as_str(), t.as_str()), (room, text));
    }
}
