//! The parts of a codec registry entry: recognising packets, and decoding
//! them one at a time.

use vstd::prelude::*;
use vstd::slice::slice_subrange;
use crate::decoder::{self, CinepakDecoder, DecoderState};
use crate::error::{other, CinepakError, ErrorView, Result};
use crate::header::{self, FrameHeader, RawStripHeader, FRAME_HEADER_SIZE, STRIP_HEADER_SIZE};
use crate::image::{self, CinepakFrame, FrameView};

verus! {

/// Largest width and height of a recognised frame.
pub const PROBE_SIZE_LIMIT: u16 = 4096;

/// Whether a packet begins with a frame header, without unknown flags and of
/// no unusual size, and the header of a strip that lies within the frame.
pub open spec fn recognised(b: Seq<u8>) -> bool {
    let h = header::frame_header(b);
    let s = header::strip_header(b.subrange(FRAME_HEADER_SIZE as int, b.len() as int));
    &&& b.len() >= FRAME_HEADER_SIZE + STRIP_HEADER_SIZE
    &&& h is Ok
    &&& h->Ok_0.flags <= 1
    &&& h->Ok_0.frame_length >= FRAME_HEADER_SIZE + STRIP_HEADER_SIZE
    &&& h->Ok_0.width <= PROBE_SIZE_LIMIT
    &&& h->Ok_0.height <= PROBE_SIZE_LIMIT
    &&& s is Ok
    &&& FRAME_HEADER_SIZE + s->Ok_0.strip_size <= h->Ok_0.frame_length
}

/// How confident one can be that a stream is Cinepak, in percent: wholly or
/// not at all going by its first packet, by half without one.
pub fn probe_cvid(packet: Option<&[u8]>) -> (r: u8)
    ensures
        r == match packet {
            None => 50u8,
            Some(b) => if recognised(b@) {
                100
            } else {
                0
            },
        },
{
    let b = match packet {
        None => return 50,
        Some(b) => b,
    };
    if b.len() < FRAME_HEADER_SIZE + STRIP_HEADER_SIZE {
        return 0;
    }
    let h = match FrameHeader::parse(b) {
        Ok(h) => h,
        Err(_) => return 0,
    };
    let s = match RawStripHeader::parse(slice_subrange(b, FRAME_HEADER_SIZE, b.len())) {
        Ok(s) => s,
        Err(_) => return 0,
    };
    if h.flags > 1 || (h.frame_length as usize) < FRAME_HEADER_SIZE + STRIP_HEADER_SIZE {
        return 0;
    }
    if h.width > PROBE_SIZE_LIMIT || h.height > PROBE_SIZE_LIMIT {
        return 0;
    }
    if FRAME_HEADER_SIZE + s.strip_size as usize > h.frame_length as usize {
        return 0;
    }
    100
}

/// A packet that waits to be decoded.
pub struct PendingPacket {
    pub data: Vec<u8>,
    pub pts: Option<i64>,
}

/// What a request for a frame is answered.
pub enum Reply {
    Frame(CinepakFrame),
    /// There is no packet yet.
    NeedMore,
    /// There will be no more packets.
    Eof,
    Failed(CinepakError),
}

/// What a request for a frame is answered.
pub enum ReplyView {
    Frame(FrameView),
    NeedMore,
    Eof,
    Failed(ErrorView),
}

impl View for Reply {
    type V = ReplyView;

    open spec fn view(&self) -> ReplyView {
        match self {
            Reply::Frame(f) => ReplyView::Frame(f@),
            Reply::NeedMore => ReplyView::NeedMore,
            Reply::Eof => ReplyView::Eof,
            Reply::Failed(e) => ReplyView::Failed(e@),
        }
    }
}

/// The state of a handle.
pub struct HandleState {
    pub decoder: DecoderState,
    pub pending: Option<(Seq<u8>, Option<i64>)>,
    pub eof: bool,
}

/// A handle that has been given nothing.
pub open spec fn fresh_handle() -> HandleState {
    HandleState { decoder: decoder::fresh_decoder(), pending: None, eof: false }
}

/// What is done with a packet: it waits, unless another one does.
pub open spec fn packet_sent(st: HandleState, data: Seq<u8>, pts: Option<i64>) -> (
    HandleState,
    core::result::Result<(), ErrorView>,
) {
    match st.pending {
        Some(_) => (
            st,
            Err(
                ErrorView::Other(
                    "Cinepak decoder: receive_frame must be called before sending another packet"@,
                ),
            ),
        ),
        None => (HandleState { pending: Some((data, pts)), ..st }, Ok(())),
    }
}

/// What is done on a request for a frame: the packet that waits is decoded,
/// and waits no longer whatever comes of it.
pub open spec fn frame_requested(st: HandleState) -> (HandleState, ReplyView) {
    match st.pending {
        None => (
            st,
            if st.eof {
                ReplyView::Eof
            } else {
                ReplyView::NeedMore
            },
        ),
        Some((data, pts)) => {
            let t = decoder::decoded(st.decoder, data, pts, None);
            (
                HandleState { decoder: t.0, pending: None, ..st },
                match t.1 {
                    Ok(f) => ReplyView::Frame(f),
                    Err(e) => ReplyView::Failed(e),
                },
            )
        },
    }
}

/// A decoder that takes packets and gives frames.
pub struct CinepakDecoderHandle {
    pub inner: CinepakDecoder,
    pub pending: Option<PendingPacket>,
    pub eof: bool,
}

impl View for CinepakDecoderHandle {
    type V = HandleState;

    open spec fn view(&self) -> HandleState {
        HandleState {
            decoder: self.inner@,
            pending: match self.pending {
                Some(p) => Some((p.data@, p.pts)),
                None => None,
            },
            eof: self.eof,
        }
    }
}

impl CinepakDecoderHandle {
    /// The frame kept is a packed picture.
    pub open spec fn wf(self) -> bool {
        self.inner.wf()
    }

    /// A handle that has been given nothing.
    pub fn new() -> (r: Self)
        ensures
            r.wf(),
            r@ == fresh_handle(),
    {
        CinepakDecoderHandle { inner: CinepakDecoder::new(), pending: None, eof: false }
    }

    /// Gives the handle a packet.
    pub fn send_packet(&mut self, data: Vec<u8>, pts: Option<i64>) -> (r: Result<()>)
        ensures
            match r {
                Ok(_) => packet_sent(old(self)@, data@, pts) == (
                    final(self)@,
                    Ok::<(), ErrorView>(()),
                ),
                Err(e) => packet_sent(old(self)@, data@, pts) == (
                    final(self)@,
                    Err::<(), ErrorView>(e@),
                ),
            },
            old(self).wf() ==> final(self).wf(),
    {
        if self.pending.is_some() {
            return Err(
                other(
                    "Cinepak decoder: receive_frame must be called before sending another packet",
                ),
            );
        }
        self.pending = Some(PendingPacket { data, pts });
        Ok(())
    }

    /// Asks the handle for a frame.
    pub fn receive_frame(&mut self) -> (r: Reply)
        requires
            old(self).wf(),
        ensures
            frame_requested(old(self)@) == (final(self)@, r@),
            final(self).wf(),
            r matches Reply::Frame(f) ==> image::packed(f@),
    {
        match self.pending.take() {
            None => if self.eof {
                Reply::Eof
            } else {
                Reply::NeedMore
            },
            Some(p) => match self.inner.decode_frame(p.data.as_slice(), p.pts) {
                Ok(f) => Reply::Frame(f),
                Err(e) => Reply::Failed(e),
            },
        }
    }

    /// Says that there will be no more packets.
    pub fn flush(&mut self)
        ensures
            final(self)@ == (HandleState { eof: true, ..old(self)@ }),
            old(self).wf() ==> final(self).wf(),
    {
        self.eof = true;
    }

    /// Forgets everything.
    pub fn reset(&mut self)
        ensures
            final(self)@ == fresh_handle(),
            final(self).wf(),
    {
        self.inner.reset();
        self.pending = None;
        self.eof = false;
    }
}

/// A packet given to a handle that holds none is what the next request
/// decodes.
pub proof fn sent_packet_is_decoded(st: HandleState, data: Seq<u8>, pts: Option<i64>)
    requires
        st.pending is None,
    ensures
        packet_sent(st, data, pts).1 is Ok,
        ({
            let t = frame_requested(packet_sent(st, data, pts).0);
            let d = decoder::decoded(st.decoder, data, pts, None);
            &&& t.0.pending is None
            &&& t.0.decoder == d.0
            &&& d.1 matches Ok(f) ==> t.1 == ReplyView::Frame(f)
            &&& d.1 matches Err(e) ==> t.1 == ReplyView::Failed(e)
        }),
{
}

} // verus!
