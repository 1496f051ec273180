//! The conversation state: message log, input buffer, loading flag and
//! scroll position with an auto-follow sentinel.

use vstd::prelude::*;

verus! {

/// The scroll value that means "auto-follow the bottom": the largest
/// `u16`, never a meaningful concrete offset.
pub const SCROLL_FOLLOW: u16 = u16::MAX;

/// The whole mutable state of one conversation: the ordered message log,
/// the input buffer being typed, whether a response is in flight, and the
/// scroll position (`SCROLL_FOLLOW` means "pinned to the newest content").
pub struct App {
    pub input: String,
    pub messages: Vec<String>,
    pub loading: bool,
    pub scroll: u16,
}

impl App {
    /// A fresh conversation: nothing typed, nothing logged, not loading,
    /// following the bottom of an (empty) log.
    pub fn new() -> (app: App)
        ensures
            app.input@ == Seq::<char>::empty(),
            app.messages@ == Seq::<String>::empty(),
            !app.loading,
            app.scroll == 0,
    {
        App { input: String::new(), messages: Vec::new(), loading: false, scroll: 0 }
    }

    /// Appends one message to the log and resets the scroll to the
    /// auto-follow sentinel, so the newest content is shown.
    pub fn add_message(&mut self, msg: String)
        ensures
            final(self).messages@ == old(self).messages@.push(msg),
            final(self).scroll == SCROLL_FOLLOW,
            final(self).input@ == old(self).input@,
            final(self).loading == old(self).loading,
    {
        self.messages.push(msg);
        self.scroll = SCROLL_FOLLOW;
    }

    /// One scroll-up step: a concrete offset decreases by one, zero and
    /// the auto-follow sentinel are left alone (the event loop converts
    /// the sentinel to the current maximum before a step can move it).
    pub fn scroll_up(&mut self)
        ensures
            old(self).scroll != SCROLL_FOLLOW && old(self).scroll > 0 ==> final(self).scroll
                == old(self).scroll - 1,
            !(old(self).scroll != SCROLL_FOLLOW && old(self).scroll > 0) ==> final(self).scroll
                == old(self).scroll,
            final(self).input@ == old(self).input@,
            final(self).messages@ == old(self).messages@,
            final(self).loading == old(self).loading,
    {
        if self.scroll != SCROLL_FOLLOW && self.scroll > 0 {
            self.scroll = self.scroll - 1;
        }
    }

    /// One scroll-down step: a concrete offset grows by one, saturating
    /// below the sentinel; the sentinel itself is left alone.
    pub fn scroll_down(&mut self)
        ensures
            old(self).scroll != SCROLL_FOLLOW ==> final(self).scroll as int == if old(
                self,
            ).scroll as int + 1 < SCROLL_FOLLOW as int {
                old(self).scroll as int + 1
            } else {
                SCROLL_FOLLOW as int - 1
            },
            old(self).scroll == SCROLL_FOLLOW ==> final(self).scroll == SCROLL_FOLLOW,
            final(self).input@ == old(self).input@,
            final(self).messages@ == old(self).messages@,
            final(self).loading == old(self).loading,
    {
        if self.scroll != SCROLL_FOLLOW {
            if self.scroll < SCROLL_FOLLOW - 1 {
                self.scroll = self.scroll + 1;
            } else {
                self.scroll = SCROLL_FOLLOW - 1;
            }
        }
    }
}

} // verus!
