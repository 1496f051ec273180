//! The event-loop transitions: applying stream notifications to the
//! conversation state, handling keystrokes, committing a prompt, and the
//! scroll clamp the draw step applies each frame.

use vstd::prelude::*;
use vstd::string::StringExecFns;
use crate::app_state::{App, SCROLL_FOLLOW};
use crate::text::{chars_of, is_prefix, msgs_view, pop_char, push_char, starts_with_chars};

verus! {

/// One notification from the stream consumer to the loop: a content
/// delta, or the terminal completion notice.
pub enum UiEvent {
    Response(String),
    Done,
}

/// One keystroke, as the loop understands it.
pub enum KeyInput {
    Up,
    Down,
    PageUp,
    PageDown,
    Char(char),
    Backspace,
    Enter,
    Quit,
}

/// What a keystroke asks of the caller: nothing beyond the state change,
/// leaving the loop, or submitting the committed prompt.
pub enum KeyAction {
    Stay,
    Quit,
    Submit(String),
}

/// How a content delta lands in the message log: it extends the last
/// message when that is the in-progress response (it carries the
/// responder's prefix), and otherwise starts a new response message.
pub open spec fn append_chunk_spec(
    msgs: Seq<Seq<char>>,
    prefix: Seq<char>,
    chunk: Seq<char>,
) -> Seq<Seq<char>> {
    if msgs.len() > 0 && is_prefix(prefix, msgs.last()) {
        msgs.update(msgs.len() - 1, msgs.last() + chunk)
    } else {
        msgs.push(prefix + seq![' '] + chunk)
    }
}

/// Applies one stream notification. A delta goes into the log as
/// `append_chunk_spec` says and pins the scroll back to auto-follow; the
/// completion notice only clears the loading flag — content already
/// delivered stays in the log.
pub fn apply_event(app: &mut App, other_prefix: &String, evt: UiEvent)
    ensures
        match evt {
            UiEvent::Response(chunk) => msgs_view(final(app).messages@) == append_chunk_spec(
                msgs_view(old(app).messages@),
                other_prefix@,
                chunk@,
            ) && final(app).scroll == SCROLL_FOLLOW && final(app).loading == old(app).loading
                && final(app).input@ == old(app).input@,
            UiEvent::Done => final(app).loading == false && final(app).messages@ == old(
                app,
            ).messages@ && final(app).scroll == old(app).scroll && final(app).input@ == old(
                app,
            ).input@,
        },
{
    match evt {
        UiEvent::Response(chunk) => {
            let n = app.messages.len();
            let mut appended: bool = false;
            if n > 0 {
                let lv = chars_of(app.messages[n - 1].as_str());
                let pv = chars_of(other_prefix.as_str());
                if starts_with_chars(&lv, &pv) {
                    let mut m = app.messages.pop().unwrap();
                    m.append(chunk.as_str());
                    app.messages.push(m);
                    appended = true;
                    proof {
                        assert(msgs_view(app.messages@) =~= append_chunk_spec(
                            msgs_view(old(app).messages@),
                            other_prefix@,
                            chunk@,
                        ));
                    }
                }
            }
            if !appended {
                let mut m = other_prefix.clone();
                m.append(" ");
                m.append(chunk.as_str());
                app.messages.push(m);
                proof {
                    reveal_strlit(" ");
                    assert(" "@ =~= seq![' ']);
                    assert(msgs_view(app.messages@) =~= append_chunk_spec(
                        msgs_view(old(app).messages@),
                        other_prefix@,
                        chunk@,
                    ));
                }
            }
            app.scroll = SCROLL_FOLLOW;
        },
        UiEvent::Done => {
            app.loading = false;
        },
    }
}

/// Commits the typed input: logs it as a new message under the user's
/// prefix, clears the buffer, raises the loading flag, pins the scroll
/// to auto-follow, and hands the raw prompt back for submission.
pub fn commit_input(app: &mut App, you_prefix: &String) -> (prompt: String)
    ensures
        prompt@ == old(app).input@,
        final(app).input@ == Seq::<char>::empty(),
        msgs_view(final(app).messages@) == msgs_view(old(app).messages@).push(
            you_prefix@ + seq![' '] + old(app).input@,
        ),
        final(app).loading,
        final(app).scroll == SCROLL_FOLLOW,
{
    let prompt = app.input.clone();
    app.input = String::new();
    let mut m = you_prefix.clone();
    m.append(" ");
    m.append(prompt.as_str());
    app.add_message(m);
    app.loading = true;
    let ghost entry = you_prefix@ + seq![' '] + old(app).input@;
    proof {
        reveal_strlit(" ");
        assert(" "@ =~= seq![' ']);
        assert(msgs_view(app.messages@) =~= msgs_view(old(app).messages@).push(entry));
    }
    prompt
}

/// Applies one keystroke to the state. Character and backspace edits
/// touch only the input buffer; the arrow and page keys move the scroll
/// as `App::scroll_up` / `App::scroll_down` do, five steps for a page;
/// Enter commits the input and asks for submission — unless a response
/// is already in flight, when it does nothing, so a second consumer is
/// never spawned against the same channel; quit asks the caller to
/// leave the loop.
pub fn handle_key(app: &mut App, you_prefix: &String, key: KeyInput) -> (act: KeyAction)
    ensures
        match key {
            KeyInput::Quit => act is Quit && *final(app) == *old(app),
            KeyInput::Char(c) => act is Stay && final(app).input@ == old(app).input@.push(c)
                && final(app).messages@ == old(app).messages@ && final(app).scroll == old(
                app,
            ).scroll && final(app).loading == old(app).loading,
            KeyInput::Backspace => act is Stay && final(app).input@ == (if old(app).input@.len()
                > 0 {
                old(app).input@.take(old(app).input@.len() - 1)
            } else {
                old(app).input@
            }) && final(app).messages@ == old(app).messages@ && final(app).scroll == old(
                app,
            ).scroll && final(app).loading == old(app).loading,
            KeyInput::Up => act is Stay && final(app).scroll as int == (if old(app).scroll
                != SCROLL_FOLLOW && old(app).scroll > 0 {
                old(app).scroll - 1
            } else {
                old(app).scroll as int
            }) && final(app).messages@ == old(app).messages@ && final(app).input@ == old(
                app,
            ).input@ && final(app).loading == old(app).loading,
            KeyInput::Down => act is Stay && final(app).scroll as int == (if old(app).scroll
                == SCROLL_FOLLOW {
                SCROLL_FOLLOW as int
            } else if old(app).scroll as int + 1 < SCROLL_FOLLOW as int {
                old(app).scroll as int + 1
            } else {
                SCROLL_FOLLOW as int - 1
            }) && final(app).messages@ == old(app).messages@ && final(app).input@ == old(
                app,
            ).input@ && final(app).loading == old(app).loading,
            KeyInput::PageUp => act is Stay && final(app).scroll as int == (if old(app).scroll
                == SCROLL_FOLLOW {
                SCROLL_FOLLOW as int
            } else if old(app).scroll >= 5 {
                old(app).scroll - 5
            } else {
                0int
            }) && final(app).messages@ == old(app).messages@ && final(app).input@ == old(
                app,
            ).input@ && final(app).loading == old(app).loading,
            KeyInput::PageDown => act is Stay && final(app).scroll as int == (if old(app).scroll
                == SCROLL_FOLLOW {
                SCROLL_FOLLOW as int
            } else if old(app).scroll as int + 5 < SCROLL_FOLLOW as int {
                old(app).scroll as int + 5
            } else {
                SCROLL_FOLLOW as int - 1
            }) && final(app).messages@ == old(app).messages@ && final(app).input@ == old(
                app,
            ).input@ && final(app).loading == old(app).loading,
            KeyInput::Enter => if old(app).loading {
                act is Stay && *final(app) == *old(app)
            } else {
                &&& act matches KeyAction::Submit(p) && p@ == old(app).input@
                &&& final(app).input@ == Seq::<char>::empty()
                &&& msgs_view(final(app).messages@) == msgs_view(old(app).messages@).push(
                    you_prefix@ + seq![' '] + old(app).input@,
                )
                &&& final(app).loading
                &&& final(app).scroll == SCROLL_FOLLOW
            },
        },
{
    match key {
        KeyInput::Quit => KeyAction::Quit,
        KeyInput::Char(c) => {
            push_char(&mut app.input, c);
            KeyAction::Stay
        },
        KeyInput::Backspace => {
            let _ = pop_char(&mut app.input);
            KeyAction::Stay
        },
        KeyInput::Up => {
            app.scroll_up();
            KeyAction::Stay
        },
        KeyInput::Down => {
            app.scroll_down();
            KeyAction::Stay
        },
        KeyInput::PageUp => {
            let mut k: usize = 0;
            while k < 5
                invariant
                    k <= 5,
                    app.messages@ == old(app).messages@,
                    app.input@ == old(app).input@,
                    app.loading == old(app).loading,
                    old(app).scroll == SCROLL_FOLLOW ==> app.scroll == SCROLL_FOLLOW,
                    old(app).scroll != SCROLL_FOLLOW ==> app.scroll as int == (if old(
                        app,
                    ).scroll >= k {
                        old(app).scroll - k
                    } else {
                        0int
                    }),
                decreases 5 - k,
            {
                app.scroll_up();
                k = k + 1;
            }
            KeyAction::Stay
        },
        KeyInput::PageDown => {
            let mut k: usize = 0;
            while k < 5
                invariant
                    k <= 5,
                    app.messages@ == old(app).messages@,
                    app.input@ == old(app).input@,
                    app.loading == old(app).loading,
                    old(app).scroll == SCROLL_FOLLOW ==> app.scroll == SCROLL_FOLLOW,
                    old(app).scroll != SCROLL_FOLLOW ==> app.scroll as int == (if old(
                        app,
                    ).scroll as int + k < SCROLL_FOLLOW as int {
                        old(app).scroll as int + k
                    } else {
                        SCROLL_FOLLOW as int - 1
                    }),
                decreases 5 - k,
            {
                app.scroll_down();
                k = k + 1;
            }
            KeyAction::Stay
        },
        KeyInput::Enter => {
            if app.loading {
                KeyAction::Stay
            } else {
                let prompt = commit_input(app, you_prefix);
                KeyAction::Submit(prompt)
            }
        },
    }
}

/// The scroll clamp the draw step applies: the auto-follow sentinel pins
/// to the maximum scroll, a concrete offset is capped by it.
pub fn clamp_scroll(scroll: u16, total: u16, visible: u16) -> (r: u16)
    ensures
        r as int == (if scroll == SCROLL_FOLLOW {
            if total >= visible {
                total - visible
            } else {
                0int
            }
        } else if total >= visible && scroll as int > total - visible {
            total - visible
        } else if total < visible {
            0int
        } else {
            scroll as int
        }),
{
    let max_scroll: u16 = if total >= visible {
        total - visible
    } else {
        0
    };
    if scroll == SCROLL_FOLLOW {
        max_scroll
    } else if scroll > max_scroll {
        max_scroll
    } else {
        scroll
    }
}

/// One animation tick: the next spinner frame index, wrapping around.
pub fn advance_frame(idx: usize, frames: usize) -> (r: usize)
    requires
        idx < frames,
    ensures
        r as int == (idx as int + 1) % (frames as int),
        r < frames,
{
    if idx + 1 < frames {
        proof {
            assert((idx as int + 1) % (frames as int) == idx as int + 1) by (nonlinear_arith)
                requires
                    0 <= idx as int + 1 < frames as int,
            ;
        }
        idx + 1
    } else {
        proof {
            assert((frames as int) % (frames as int) == 0) by (nonlinear_arith)
                requires
                    frames as int > 0,
            ;
        }
        0
    }
}

} // verus!
