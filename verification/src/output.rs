//! Where the interpreter's text goes: to the process's standard streams, or,
//! while capturing, into a pair of buffers (standard output, standard error).

use vstd::prelude::*;

use crate::text::push_bytes;

verus! {

/// The capture state: `None` when text goes to the process's streams.
pub struct Capture {
    buffers: Option<(Vec<u8>, Vec<u8>)>,
}

impl Capture {
    /// The captured text so far, if capturing.
    pub closed spec fn view(&self) -> Option<(Seq<u8>, Seq<u8>)> {
        match self.buffers {
            Some((o, e)) => Some((o@, e@)),
            None => None,
        }
    }

    /// Not capturing.
    pub fn new() -> (capture: Capture)
        ensures
            capture.view() is None,
    {
        Capture { buffers: None }
    }
}

/// The capture state after writing `text` to one stream (`to_err` picks the
/// error stream): appended while capturing, unchanged otherwise.
pub open spec fn after_write(
    c: Option<(Seq<u8>, Seq<u8>)>,
    to_err: bool,
    text: Seq<u8>,
) -> Option<(Seq<u8>, Seq<u8>)> {
    match c {
        Some((o, e)) => if to_err {
            Some((o, e + text))
        } else {
            Some((o + text, e))
        },
        None => None,
    }
}

/// The capture state after a series of writes, in order.
pub open spec fn after_writes(
    c: Option<(Seq<u8>, Seq<u8>)>,
    writes: Seq<(bool, Seq<u8>)>,
) -> Option<(Seq<u8>, Seq<u8>)>
    decreases writes.len(),
{
    if writes.len() == 0 {
        c
    } else {
        after_write(after_writes(c, writes.drop_last()), writes.last().0, writes.last().1)
    }
}

/// The text of the writes to one stream, joined in order.
pub open spec fn stream_text(writes: Seq<(bool, Seq<u8>)>, to_err: bool) -> Seq<u8>
    decreases writes.len(),
{
    if writes.len() == 0 {
        Seq::empty()
    } else if writes.last().0 == to_err {
        stream_text(writes.drop_last(), to_err) + writes.last().1
    } else {
        stream_text(writes.drop_last(), to_err)
    }
}

/// What `take_capture` hands back for a capture state.
pub open spec fn taken(c: Option<(Seq<u8>, Seq<u8>)>) -> (Seq<u8>, Seq<u8>) {
    match c {
        Some(buffers) => buffers,
        None => (Seq::empty(), Seq::empty()),
    }
}

/// Text written after `start_capture` comes back from `take_capture`, each
/// stream holding its writes in the order they were made; text written while
/// not capturing is never captured.
pub proof fn law_capture_gives_back_writes(writes: Seq<(bool, Seq<u8>)>)
    ensures
        after_writes(Some((Seq::empty(), Seq::empty())), writes) == Some(
            (stream_text(writes, false), stream_text(writes, true)),
        ),
        taken(after_writes(Some((Seq::empty(), Seq::empty())), writes)) == (
            stream_text(writes, false),
            stream_text(writes, true),
        ),
        after_writes(None, writes) is None,
    decreases writes.len(),
{
    if writes.len() > 0 {
        law_capture_gives_back_writes(writes.drop_last());
    }
}

/// Starts capturing, with empty buffers.
pub fn start_capture(capture: &mut Capture)
    ensures
        final(capture).view() == Some((Seq::<u8>::empty(), Seq::<u8>::empty())),
{
    capture.buffers = Some((Vec::new(), Vec::new()));
}

/// Stops capturing and gives the captured text (empty if none was captured).
pub fn take_capture(capture: &mut Capture) -> (text: (Vec<u8>, Vec<u8>))
    ensures
        final(capture).view() is None,
        (text.0@, text.1@) == taken(old(capture).view()),
{
    match capture.buffers.take() {
        Some(buffers) => buffers,
        None => (Vec::new(), Vec::new()),
    }
}

/// Routes standard-output text: captured while capturing (returns true);
/// otherwise the caller writes it to the process's standard output.
pub fn out(capture: &mut Capture, text: &[u8]) -> (captured: bool)
    ensures
        captured == old(capture).view() is Some,
        final(capture).view() == after_write(old(capture).view(), false, text@),
{
    match capture.buffers.take() {
        Some((mut o, e)) => {
            push_bytes(&mut o, text);
            capture.buffers = Some((o, e));
            true
        },
        None => false,
    }
}

/// Routes standard-error text, as `out` does.
pub fn err(capture: &mut Capture, text: &[u8]) -> (captured: bool)
    ensures
        captured == old(capture).view() is Some,
        final(capture).view() == after_write(old(capture).view(), true, text@),
{
    match capture.buffers.take() {
        Some((o, mut e)) => {
            push_bytes(&mut e, text);
            capture.buffers = Some((o, e));
            true
        },
        None => false,
    }
}

} // verus!
