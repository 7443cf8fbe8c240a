//! The per-thread buffer of collector log lines.
use vstd::prelude::*;

verus! {

/// Log text buffered on a thread until it is written out.
pub struct LogBuffer {
    buf: Vec<u8>,
}

impl View for LogBuffer {
    type V = Seq<u8>;

    closed spec fn view(&self) -> Seq<u8> {
        self.buf@
    }
}

/// The text a log line adds: its prefix, its message and, if asked, a newline.
pub open spec fn log_line(prefix: Seq<u8>, message: Seq<u8>, new_line: bool) -> Seq<u8> {
    prefix + message + if new_line {
        seq![10u8]
    } else {
        Seq::empty()
    }
}

/// A line must be written out at once unless it may be cached, and only a
/// collector worker thread caches its lines.
pub fn needs_immediate_flush(cached: bool, on_gc_worker: bool) -> (r: bool)
    ensures
        r == (!cached || !on_gc_worker),
{
    !cached || !on_gc_worker
}

impl LogBuffer {
    /// An empty buffer.
    pub fn new() -> (r: Self)
        ensures
            r@ == Seq::<u8>::empty(),
    {
        LogBuffer { buf: Vec::new() }
    }

    /// Appends a line: `prefix`, then `message`, then a newline if `new_line`.
    pub fn append(&mut self, prefix: &[u8], message: &[u8], new_line: bool)
        ensures
            final(self)@ == old(self)@ + log_line(prefix@, message@, new_line),
    {
        self.buf.extend_from_slice(prefix);
        self.buf.extend_from_slice(message);
        if new_line {
            self.buf.push(10u8);
        }
        assert(self.buf@ =~= old(self)@ + log_line(prefix@, message@, new_line));
    }

    /// Whether nothing is buffered.
    pub fn is_empty(&self) -> (r: bool)
        ensures
            r == (self@.len() == 0),
    {
        self.buf.len() == 0
    }

    /// The buffered text to write out, if there is any; the buffer is left empty.
    pub fn take_pending(&mut self) -> (r: Option<Vec<u8>>)
        ensures
            old(self)@.len() == 0 ==> r.is_none(),
            old(self)@.len() > 0 ==> r.is_some() && r.unwrap()@ == old(self)@,
            final(self)@ == Seq::<u8>::empty(),
    {
        if self.buf.len() == 0 {
            None
        } else {
            let mut out: Vec<u8> = Vec::new();
            std::mem::swap(&mut out, &mut self.buf);
            Some(out)
        }
    }
}

} // verus!
