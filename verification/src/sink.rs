//! Where rendered bytes go.

use vstd::prelude::*;

verus! {

/// `now` is `before` followed by a leading part of `text`: what a sink holds
/// when a write of `text` stopped somewhere along the way.
pub open spec fn truncated(before: Seq<u8>, now: Seq<u8>, text: Seq<u8>) -> bool {
    before.is_prefix_of(now) && now.is_prefix_of(before + text)
}

/// What a write of `text` does to a sink, which was `before` and is `now`,
/// when it ends in `r`: on success all of `text` is appended; on failure a
/// leading part of it, and the error in `r` is the one the sink keeps as its
/// failure; and a sink that cannot fail has not failed.
pub open spec fn wrote<W: Sink>(before: W, now: W, text: Seq<u8>, r: Result<(), W::Error>) -> bool {
    &&& r is Ok ==> now.written() =~= before.written() + text
    &&& r is Err ==> truncated(before.written(), now.written(), text)
    &&& r matches Err(error) ==> now.failure() == Some(error)
    &&& W::infallible() ==> r is Ok
}

/// Where `done` and then `piece` start `whole`, a write of `piece` that fails
/// after `done` was written leaves a sink truncated within `whole`, whatever
/// the sink then holds.
pub proof fn lemma_truncated_within(
    before: Seq<u8>,
    done: Seq<u8>,
    piece: Seq<u8>,
    whole: Seq<u8>,
)
    requires
        (done + piece).is_prefix_of(whole),
    ensures
        forall|now: Seq<u8>| #[trigger]
            truncated(before + done, now, piece) ==> truncated(before, now, whole),
{
    assert(before.is_prefix_of(before + done));
    assert(before + done + piece == before + (done + piece));
    assert((before + (done + piece)).is_prefix_of(before + whole));
}

/// A destination for rendered bytes.
pub trait Sink: Sized {
    /// What a failed write reports.
    type Error;

    /// Every byte the sink has taken so far, in order.
    spec fn written(&self) -> Seq<u8>;

    /// The error of the last write that failed, where one has.
    spec fn failure(&self) -> Option<Self::Error>;

    /// Whether writes to sinks of this type always succeed.
    spec fn infallible() -> bool;

    /// Appends all of `bytes`. A write that fails may still have appended a
    /// leading part of them.
    fn write_all(&mut self, bytes: &[u8]) -> (r: Result<(), Self::Error>)
        ensures
            r is Ok ==> final(self).written() =~= old(self).written() + bytes@,
            r is Err ==> truncated(old(self).written(), final(self).written(), bytes@),
            r matches Err(error) ==> final(self).failure() == Some(error),
            Self::infallible() ==> r is Ok,
    ;
}

/// A byte buffer takes every write.
impl Sink for Vec<u8> {
    type Error = core::convert::Infallible;

    open spec fn written(&self) -> Seq<u8> {
        self@
    }

    open spec fn failure(&self) -> Option<Self::Error> {
        None
    }

    open spec fn infallible() -> bool {
        true
    }

    fn write_all(&mut self, bytes: &[u8]) -> (r: Result<(), Self::Error>) {
        self.extend_from_slice(bytes);
        Ok(())
    }
}

/// A writer as the outside world has them: it takes bytes or fails, and
/// promises nothing more.
pub trait Write {
    /// What a failed write reports.
    type Error;

    /// Tries to write all of `bytes`.
    fn write_all(&mut self, bytes: &[u8]) -> Result<(), Self::Error>;
}

/// A writer together with a record of what it has taken, which makes it a
/// sink.
///
/// The record holds the bytes of the writes that succeeded. What the writer
/// kept of a write that failed is not known, and the record counts it as
/// nothing.
pub struct Recorder<W: Write> {
    writer: W,
    taken: Ghost<Seq<u8>>,
    failed: Ghost<Option<W::Error>>,
}

impl<W: Write> Recorder<W> {
    /// The writer that this sink writes to.
    pub closed spec fn inner(self) -> W {
        self.writer
    }

    /// A sink that writes to `writer`, with an empty record.
    pub fn new(writer: W) -> (sink: Self)
        ensures
            sink.inner() == writer,
            sink.written() == Seq::<u8>::empty(),
            sink.failure() is None,
    {
        Recorder { writer, taken: Ghost(Seq::empty()), failed: Ghost(None) }
    }

    /// Gives the writer back.
    pub fn into_inner(self) -> (writer: W)
        ensures
            writer == self.inner(),
    {
        self.writer
    }
}

impl<W: Write> Sink for Recorder<W> {
    type Error = W::Error;

    closed spec fn written(&self) -> Seq<u8> {
        self.taken@
    }

    closed spec fn failure(&self) -> Option<Self::Error> {
        self.failed@
    }

    open spec fn infallible() -> bool {
        false
    }

    fn write_all(&mut self, bytes: &[u8]) -> (r: Result<(), Self::Error>) {
        let r = self.writer.write_all(bytes);
        proof {
            if r is Ok {
                self.taken@ = self.taken@ + bytes@;
            } else {
                self.failed@ = Some(r->Err_0);
            }
        }
        r
    }
}

} // verus!
