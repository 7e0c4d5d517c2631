//! Render-loop state: the record currently displayed, refreshed once per
//! frame from the result channel, never by waiting on the network.

use crate::channel::{receive_model, ResultChannel};
use crate::record::ResponseRecord;
use vstd::prelude::*;

verus! {

/// The render loop's own state: the record currently on screen.
pub struct AppState {
    incoming: ResponseRecord,
}

impl AppState {
    /// The record currently displayed.
    pub closed spec fn displayed(&self) -> ResponseRecord {
        self.incoming
    }

    /// Well-formed: the displayed record is.
    pub open spec fn wf(&self) -> bool {
        self.displayed().wf()
    }

    /// Before any response arrives, the empty record is displayed.
    pub fn new() -> (r: Self)
        ensures
            r.wf(),
            r.displayed().headers_map() == Map::<Seq<char>, Seq<char>>::empty(),
            r.displayed().headers_seq().len() == 0,
            r.displayed().body_view() == Seq::<char>::empty(),
    {
        AppState { incoming: ResponseRecord::default() }
    }

    /// One frame of the render loop: poll the channel once and, when a
    /// record has arrived, replace the displayed one with it, discarding
    /// the old one. Returns whether the button was activated this frame,
    /// so that the caller spawns exactly one request task per activation.
    pub fn frame(&mut self, channel: &mut ResultChannel, clicked: bool) -> (spawn: bool)
        requires
            old(self).wf(),
            old(channel).wf(),
        ensures
            final(self).wf(),
            final(channel).wf(),
            spawn == clicked,
            final(channel)@ == receive_model(old(channel)@).1,
            final(self).displayed() == match receive_model(old(channel)@).0 {
                Some(r) => r,
                None => old(self).displayed(),
            },
    {
        match channel.try_receive() {
            Some(record) => {
                self.incoming = record;
            },
            None => {},
        }
        clicked
    }

    /// The displayed record, for rendering.
    pub fn displayed_record(&self) -> (r: &ResponseRecord)
        ensures
            *r == self.displayed(),
    {
        &self.incoming
    }
}

impl Default for AppState {
    /// The state a fresh window starts from: nothing received yet.
    fn default() -> (r: Self)
        ensures
            r.wf(),
            r.displayed().headers_map() == Map::<Seq<char>, Seq<char>>::empty(),
            r.displayed().headers_seq().len() == 0,
            r.displayed().body_view() == Seq::<char>::empty(),
    {
        AppState { incoming: ResponseRecord::default() }
    }
}

} // verus!
