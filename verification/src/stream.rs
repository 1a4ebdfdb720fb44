//! The stream adapter: presents one subscriber's queue as a sequence of
//! wire frames for a long-lived outbound connection, with periodic
//! keep-alive signalling and clean teardown.
//!
//! Each real event is wrapped in a minimal markup unit and framed as
//! `data:` fields followed by a blank line; a line break inside the payload
//! starts a fresh `data: ` field, so the peer reassembles the full payload.
//! A keep-alive is a comment frame (leading `:`), which a peer never takes
//! for a real event.

use vstd::prelude::*;
use vstd::string::StrSliceExecFns;
use vstd::string::StringExecFns;

verus! {

/// A line terminator on the wire: either one ends a `data:` field.
pub open spec fn is_line_break(c: char) -> bool {
    c == '\n' || c == '\r'
}

/// Whether `s` holds a line break anywhere.
pub open spec fn has_line_break(s: Seq<char>) -> bool {
    exists|i: int| 0 <= i < s.len() && is_line_break(s[i])
}

/// The event payload embedded verbatim in its presentation wrapper.
pub open spec fn div_wrapped(msg: Seq<char>) -> Seq<char> {
    "<div>"@ + msg + "</div>"@
}

/// The payload's characters with a fresh `data: ` field prefix inserted
/// after every line break, so that each payload line travels in a `data:`
/// field of its own and the peer reassembles the full payload.
pub open spec fn sse_data_encoded(payload: Seq<char>) -> Seq<char>
    decreases payload.len(),
{
    if payload.len() == 0 {
        Seq::<char>::empty()
    } else {
        sse_data_encoded(payload.drop_last()) + (if is_line_break(payload.last()) {
            seq![payload.last()] + "data: "@
        } else {
            seq![payload.last()]
        })
    }
}

/// A data frame on the wire: a `data: ` field holding the payload — broken
/// across further `data: ` fields at each line break — then the blank line
/// that ends the event.
pub open spec fn sse_data_frame(payload: Seq<char>) -> Seq<char> {
    "data: "@ + sse_data_encoded(payload) + "\n\n"@
}

/// A comment frame on the wire: one `: ` line, then the blank line that
/// ends the event. It carries no data field, only connection liveness, and
/// is a single well-formed comment line exactly when the sentinel text is
/// free of line breaks.
pub open spec fn sse_comment_frame(text: Seq<char>) -> Seq<char> {
    ": "@ + text + "\n\n"@
}

/// A keep-alive (comment) frame is never equal to any data frame: the two
/// begin with different characters, so the peer cannot take one for a real
/// event.
pub proof fn lemma_keep_alive_distinct(payload: Seq<char>, text: Seq<char>)
    ensures
        sse_data_frame(payload) != sse_comment_frame(text),
{
    reveal_strlit("data: ");
    reveal_strlit(": ");
    assert(sse_data_frame(payload)[0] == 'd');
    assert(sse_comment_frame(text)[0] == ':');
}

/// Relies on String::push: appends exactly the one character.
#[verifier::external_body]
fn push_char(s: &mut String, c: char)
    ensures
        final(s)@ == old(s)@ + seq![c],
{
    s.push(c);
}

/// Frame a payload as one data frame, breaking it across `data: ` fields
/// at every line break.
fn frame_data(payload: &str) -> (r: String)
    ensures
        r@ == sse_data_frame(payload@),
{
    let n = payload.unicode_len();
    let mut out = String::from_str("data: ");
    proof {
        assert(payload@.take(0) =~= Seq::<char>::empty());
        assert(out@ =~= "data: "@ + sse_data_encoded(payload@.take(0)));
    }
    let mut i: usize = 0;
    while i < n
        invariant
            n == payload@.len(),
            i <= n,
            out@ == "data: "@ + sse_data_encoded(payload@.take(i as int)),
        decreases n - i,
    {
        let c = payload.get_char(i);
        push_char(&mut out, c);
        if c == '\n' || c == '\r' {
            out.append("data: ");
        }
        proof {
            assert(payload@.take(i + 1).drop_last() =~= payload@.take(i as int));
            assert(payload@.take(i + 1).last() == payload@[i as int]);
            assert(out@ =~= "data: "@ + sse_data_encoded(payload@.take(i + 1)));
        }
        i = i + 1;
    }
    out.append("\n\n");
    proof {
        assert(payload@.take(n as int) =~= payload@);
        assert(out@ =~= sse_data_frame(payload@));
    }
    out
}

/// The wire frame of one real event: its payload wrapped, then framed with
/// a fresh `data: ` field at every line break of the wrapped payload.
pub fn frame_event(msg: &str) -> (r: String)
    ensures
        r@ == sse_data_frame(div_wrapped(msg@)),
{
    let mut wrapped = String::from_str("<div>");
    wrapped.append(msg);
    wrapped.append("</div>");
    proof {
        assert(wrapped@ =~= div_wrapped(msg@));
    }
    frame_data(wrapped.as_str())
}

/// The wire frame of one keep-alive signal carrying `text` as its sentinel.
/// The sentinel must be a single line: a line break inside it would spill
/// out of the comment framing.
pub fn frame_keep_alive(text: &str) -> (r: String)
    requires
        !has_line_break(text@),
    ensures
        r@ == sse_comment_frame(text@),
{
    let mut s = String::from_str(": ");
    s.append(text);
    s.append("\n\n");
    proof {
        reveal_strlit(": ");
        reveal_strlit("\n\n");
        assert(s@ =~= sse_comment_frame(text@));
    }
    s
}

/// What the adapter saw since it last produced a frame.
pub enum StreamInput {
    /// The hub handed the subscriber its next pending event.
    Delivered(String),
    /// No event was pending; this many seconds have passed since the last
    /// frame went out.
    Idle(u64),
    /// The connection was closed, by the peer or by the server, or the
    /// subscriber's queue was reported gone.
    Closed,
}

/// What the driver of the connection must do next.
pub enum StreamAction {
    /// Write this frame onto the connection.
    Emit(String),
    /// Nothing to send yet; wait for the next event or tick.
    Wait,
    /// The sequence is over: stop the connection and unsubscribe.
    End,
}

/// The per-connection adapter state: its keep-alive configuration and
/// whether the sequence has ended. Once ended it stays ended and only ever
/// answers `End`, so the driver unsubscribes exactly once.
pub struct StreamAdapter {
    pub keep_alive_secs: u64,
    pub keep_alive_text: String,
    pub ended: bool,
}

impl StreamAdapter {
    /// Well-formed adapter: its sentinel is a single line, as comment
    /// framing requires.
    pub open spec fn wf(&self) -> bool {
        !has_line_break(self.keep_alive_text@)
    }

    /// A live adapter that emits a keep-alive after `keep_alive_secs`
    /// seconds without a real event, carrying `keep_alive_text` — which
    /// must be a single line.
    pub fn new(keep_alive_secs: u64, keep_alive_text: String) -> (a: StreamAdapter)
        requires
            !has_line_break(keep_alive_text@),
        ensures
            a.wf(),
            a.keep_alive_secs == keep_alive_secs,
            a.keep_alive_text == keep_alive_text,
            !a.ended,
    {
        StreamAdapter { keep_alive_secs, keep_alive_text, ended: false }
    }

    /// One step of the adapter: turn what was seen into the next action.
    /// A delivered event is emitted as its data frame; idleness at or past
    /// the keep-alive interval yields a keep-alive frame and the connection
    /// stays open; a close ends the sequence, cleanly and permanently.
    pub fn step(&mut self, input: StreamInput) -> (a: StreamAction)
        requires
            old(self).wf(),
        ensures
            final(self).wf(),
            final(self).keep_alive_secs == old(self).keep_alive_secs,
            final(self).keep_alive_text == old(self).keep_alive_text,
            old(self).ended ==> a is End && final(self).ended,
            !old(self).ended ==> match input {
                StreamInput::Delivered(msg) => a matches StreamAction::Emit(f) && f@
                    == sse_data_frame(div_wrapped(msg@)) && !final(self).ended,
                StreamInput::Idle(secs) => !final(self).ended && if secs
                    >= old(self).keep_alive_secs {
                    a matches StreamAction::Emit(f) && f@ == sse_comment_frame(
                        old(self).keep_alive_text@,
                    )
                } else {
                    a is Wait
                },
                StreamInput::Closed => a is End && final(self).ended,
            },
    {
        if self.ended {
            return StreamAction::End;
        }
        match input {
            StreamInput::Delivered(msg) => StreamAction::Emit(frame_event(msg.as_str())),
            StreamInput::Idle(secs) => {
                if secs >= self.keep_alive_secs {
                    StreamAction::Emit(frame_keep_alive(self.keep_alive_text.as_str()))
                } else {
                    StreamAction::Wait
                }
            },
            StreamInput::Closed => {
                self.ended = true;
                StreamAction::End
            },
        }
    }
}

/// The default keep-alive sentinel text: a single line.
pub fn default_keep_alive_text() -> (r: String)
    ensures
        r@ == "keep-alive-text"@,
        !has_line_break(r@),
{
    let r = String::from_str("keep-alive-text");
    proof {
        reveal_strlit("keep-alive-text");
        assert forall|i: int| 0 <= i < r@.len() implies !is_line_break(r@[i]) by {
            assert(r@.len() == 15);
        }
    }
    r
}

} // verus!
