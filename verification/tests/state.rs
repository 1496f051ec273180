//! Tests of conversation state, event transitions, cancellation and the
//! stream decoder.

use oma::app_state::{App, SCROLL_FOLLOW};
use oma::cancel::CancelFlag;
use oma::config::Config;
use oma::events::{advance_frame, apply_event, clamp_scroll, commit_input, handle_key, KeyAction, KeyInput, UiEvent};
use oma::stream::{chat_messages, decode_chunk, endpoint_of};

#[test]
fn new_app_is_idle() {
    let app = App::new();
    assert_eq!(app.input, "");
    assert!(app.messages.is_empty());
    assert!(!app.loading);
    assert_eq!(app.scroll, 0);
}

#[test]
fn add_message_pins_scroll_to_follow() {
    let mut app = App::new();
    app.scroll = 3;
    app.add_message("you: hi".to_string());
    assert_eq!(app.messages, vec!["you: hi".to_string()]);
    assert_eq!(app.scroll, SCROLL_FOLLOW);
}

#[test]
fn scroll_up_from_follow_does_not_jump() {
    // One scroll-up from auto-follow: the draw clamp first converts the
    // sentinel to the current maximum, then the step moves one line up.
    let mut app = App::new();
    app.scroll = clamp_scroll(SCROLL_FOLLOW, 50, 10);
    assert_eq!(app.scroll, 40);
    app.scroll_up();
    assert_eq!(app.scroll, 39);
}

#[test]
fn scroll_bounds() {
    let mut app = App::new();
    app.scroll_up();
    assert_eq!(app.scroll, 0);
    app.scroll_down();
    assert_eq!(app.scroll, 1);
    app.scroll = SCROLL_FOLLOW;
    app.scroll_up();
    assert_eq!(app.scroll, SCROLL_FOLLOW);
    app.scroll_down();
    assert_eq!(app.scroll, SCROLL_FOLLOW);
}

#[test]
fn scroll_down_saturates_below_the_sentinel() {
    let mut app = App::new();
    app.scroll = SCROLL_FOLLOW - 2;
    app.scroll_down();
    assert_eq!(app.scroll, SCROLL_FOLLOW - 1);
    app.scroll_down();
    assert_eq!(app.scroll, SCROLL_FOLLOW - 1);
}

#[test]
fn clamp_scroll_caps_offsets() {
    assert_eq!(clamp_scroll(SCROLL_FOLLOW, 50, 10), 40);
    assert_eq!(clamp_scroll(45, 50, 10), 40);
    assert_eq!(clamp_scroll(7, 50, 10), 7);
    assert_eq!(clamp_scroll(3, 5, 10), 0);
    assert_eq!(clamp_scroll(SCROLL_FOLLOW, 5, 10), 0);
}

#[test]
fn delta_appends_to_open_response() {
    let prefix = "bot:".to_string();
    let mut app = App::new();
    app.add_message("you: hi".to_string());
    apply_event(&mut app, &prefix, UiEvent::Response("Hel".to_string()));
    assert_eq!(app.messages.last().unwrap(), "bot: Hel");
    assert_eq!(app.scroll, SCROLL_FOLLOW);
    apply_event(&mut app, &prefix, UiEvent::Response("lo".to_string()));
    assert_eq!(app.messages.last().unwrap(), "bot: Hello");
    assert_eq!(app.messages.len(), 2);
}

#[test]
fn done_clears_loading_and_keeps_content() {
    let prefix = "bot:".to_string();
    let mut app = App::new();
    app.loading = true;
    apply_event(&mut app, &prefix, UiEvent::Response("partial".to_string()));
    apply_event(&mut app, &prefix, UiEvent::Done);
    assert!(!app.loading);
    assert_eq!(app.messages, vec!["bot: partial".to_string()]);
}

#[test]
fn commit_input_logs_and_loads() {
    let mut app = App::new();
    app.input = "hi there".to_string();
    let prompt = commit_input(&mut app, &"you:".to_string());
    assert_eq!(prompt, "hi there");
    assert_eq!(app.input, "");
    assert_eq!(app.messages, vec!["you: hi there".to_string()]);
    assert!(app.loading);
    assert_eq!(app.scroll, SCROLL_FOLLOW);
}

#[test]
fn keystrokes_edit_input() {
    let you = "you:".to_string();
    let mut app = App::new();
    assert!(matches!(handle_key(&mut app, &you, KeyInput::Char('h')), KeyAction::Stay));
    assert!(matches!(handle_key(&mut app, &you, KeyInput::Char('i')), KeyAction::Stay));
    assert_eq!(app.input, "hi");
    assert!(matches!(handle_key(&mut app, &you, KeyInput::Backspace), KeyAction::Stay));
    assert_eq!(app.input, "h");
    match handle_key(&mut app, &you, KeyInput::Enter) {
        KeyAction::Submit(p) => assert_eq!(p, "h"),
        _ => panic!("Enter must submit"),
    }
    assert_eq!(app.messages, vec!["you: h".to_string()]);
    assert!(matches!(handle_key(&mut app, &you, KeyInput::Quit), KeyAction::Quit));
}

#[test]
fn enter_while_loading_is_ignored() {
    // Only one response may be in flight: Enter during loading neither
    // commits nor submits, so no second consumer is ever spawned.
    let you = "you:".to_string();
    let mut app = App::new();
    app.input = "queued".to_string();
    app.loading = true;
    assert!(matches!(handle_key(&mut app, &you, KeyInput::Enter), KeyAction::Stay));
    assert_eq!(app.input, "queued");
    assert!(app.messages.is_empty());
}

#[test]
fn page_keys_move_five_steps() {
    let you = "you:".to_string();
    let mut app = App::new();
    app.scroll = 7;
    handle_key(&mut app, &you, KeyInput::PageUp);
    assert_eq!(app.scroll, 2);
    handle_key(&mut app, &you, KeyInput::PageUp);
    assert_eq!(app.scroll, 0);
    handle_key(&mut app, &you, KeyInput::PageDown);
    assert_eq!(app.scroll, 5);
    handle_key(&mut app, &you, KeyInput::Up);
    assert_eq!(app.scroll, 4);
    handle_key(&mut app, &you, KeyInput::Down);
    assert_eq!(app.scroll, 5);
}

#[test]
fn cancellation_is_terminal() {
    let mut flag = CancelFlag::new();
    assert!(!flag.is_cancelled());
    flag.set();
    assert!(flag.is_cancelled());
    flag.set();
    assert!(flag.is_cancelled());
    // A task that observed cancellation still delivers Done, and the
    // loop still returns to idle.
    let mut app = App::new();
    app.loading = true;
    apply_event(&mut app, &"bot:".to_string(), UiEvent::Done);
    assert!(!app.loading);
}

#[test]
fn spinner_wraps_around() {
    assert_eq!(advance_frame(0, 10), 1);
    assert_eq!(advance_frame(8, 10), 9);
    assert_eq!(advance_frame(9, 10), 0);
}

#[test]
fn decode_chunk_reads_records() {
    let (deltas, done) = decode_chunk(&"{\"message\":{\"content\":\"Hel\"}}\n".to_string());
    assert_eq!(deltas, vec!["Hel".to_string()]);
    assert!(!done);
    let (deltas, done) = decode_chunk(&"{\"message\":{\"content\":\"lo\"},\"done\":true}\n".to_string());
    assert_eq!(deltas, vec!["lo".to_string()]);
    assert!(done);
}

#[test]
fn decode_chunk_skips_malformed_and_blank() {
    let chunk = "not json\n\n{\"message\":{\"content\":\"x\"}}\n{\"other\":1}\n".to_string();
    let (deltas, done) = decode_chunk(&chunk);
    assert_eq!(deltas, vec!["x".to_string()]);
    assert!(!done);
    let (deltas, done) = decode_chunk(&"\n  \n".to_string());
    assert!(deltas.is_empty());
    assert!(!done);
}

#[test]
fn decode_chunk_types_the_done_flag() {
    // A null or absent done means "not done"; a done that is neither a
    // boolean nor null makes the whole record malformed, so it is skipped.
    let (deltas, done) = decode_chunk(&"{\"message\":{\"content\":\"x\"},\"done\":null}\n".to_string());
    assert_eq!(deltas, vec!["x".to_string()]);
    assert!(!done);
    let (deltas, done) = decode_chunk(&"{\"message\":{\"content\":\"x\"},\"done\":1}\n".to_string());
    assert!(deltas.is_empty());
    assert!(!done);
}

#[test]
fn decode_chunk_stops_at_done() {
    let chunk = "{\"message\":{\"content\":\"a\"},\"done\":true}\n{\"message\":{\"content\":\"b\"}}\n"
        .to_string();
    let (deltas, done) = decode_chunk(&chunk);
    assert_eq!(deltas, vec!["a".to_string()]);
    assert!(done);
}

#[test]
fn streaming_scenario_ends_idle() {
    // Two chunks against a fresh awaiting state: exactly one response
    // message grows to "Hello", and the loop ends idle.
    let you = "you:".to_string();
    let bot = "bot:".to_string();
    let mut app = App::new();
    app.input = "hi".to_string();
    let _prompt = commit_input(&mut app, &you);
    assert!(app.loading);

    let mut saw_done = false;
    for chunk in [
        "{\"message\":{\"content\":\"Hel\"}}\n",
        "{\"message\":{\"content\":\"lo\"},\"done\":true}\n",
    ] {
        let (deltas, done) = decode_chunk(&chunk.to_string());
        for d in deltas {
            apply_event(&mut app, &bot, UiEvent::Response(d));
        }
        if done {
            saw_done = true;
        }
    }
    assert!(saw_done);
    apply_event(&mut app, &bot, UiEvent::Done);
    assert_eq!(
        app.messages,
        vec!["you: hi".to_string(), "bot: Hello".to_string()]
    );
    assert!(!app.loading);
    assert_eq!(app.scroll, SCROLL_FOLLOW);
}

#[test]
fn aside_across_delta_boundary() {
    // The closing marker arrives in a later chunk; each render re-scans
    // the accumulated message, so the aside is whole after both.
    let bot = "bot:".to_string();
    let mut app = App::new();
    apply_event(&mut app, &bot, UiEvent::Response("<thi".to_string()));
    apply_event(&mut app, &bot, UiEvent::Response("nk>x</think>".to_string()));
    assert_eq!(app.messages, vec!["bot: <think>x</think>".to_string()]);
    let merged: Vec<char> = "<think>x</think>".chars().collect();
    let spans = oma::aside::split_think(&merged);
    assert_eq!(spans.len(), 1);
    assert!(spans[0].is_aside);
    assert_eq!(spans[0].content, vec!['x']);
}

#[test]
fn default_config_values() {
    let cfg = Config::default();
    assert_eq!(cfg.model, "deepseek-r1:1.5b");
    assert_eq!(cfg.uri, "http://localhost:11434");
    assert!(cfg.system.is_none());
}

#[test]
fn request_building() {
    let msgs = chat_messages(&Some("be terse".to_string()), "hi".to_string());
    assert_eq!(msgs.len(), 2);
    assert_eq!(msgs[0].role, "system");
    assert_eq!(msgs[0].content, "be terse");
    assert_eq!(msgs[1].role, "user");
    assert_eq!(msgs[1].content, "hi");
    let msgs = chat_messages(&None, "hi".to_string());
    assert_eq!(msgs.len(), 1);
    assert_eq!(msgs[0].role, "user");
    assert_eq!(endpoint_of(&"http://localhost:11434".to_string()), "http://localhost:11434/api/chat");
}
