//! The compute part of one request task: decode the completed response and
//! hand the record off. The caller performs the HTTP I/O before this call
//! and requests a redraw after it, so the new record appears promptly.

use crate::channel::ResultChannel;
use crate::record::{body_model, response_headers_model, ResponseRecord};
use vstd::prelude::*;

verus! {

/// Finish one request task: build the display record from the raw headers
/// and the body text (if it could be read) and send it on the channel.
/// Every record that was pending stays pending, in order, ahead of the new
/// one.
pub fn complete_request(
    channel: &mut ResultChannel,
    headers: &Vec<(String, Vec<u8>)>,
    body: Option<String>,
)
    requires
        old(channel).wf(),
    ensures
        final(channel).wf(),
        final(channel)@.len() == old(channel)@.len() + 1,
        final(channel)@.drop_last() == old(channel)@,
        final(channel)@.last().wf(),
        final(channel)@.last().headers_map() == response_headers_model(headers@),
        final(channel)@.last().body_view() == body_model(body),
{
    let record = ResponseRecord::from_response(headers, body);
    channel.send(record);
    proof {
        assert(channel@.drop_last() =~= old(channel)@);
    }
}

} // verus!
