use vstd::prelude::*;
use crate::command::{parsed, ClientWSCommand};

verus! {

broadcast use vstd::seq_lib::group_seq_properties;

/// A message as the transport delivers it from a peer.
pub enum Frame {
    Text(String),
    Binary(Vec<u8>),
    Ping(Vec<u8>),
    Pong(Vec<u8>),
    Close,
}

/// What the inbound reader does with one frame.
pub enum ReaderAction {
    /// Leave the read loop: the connection is done. Its registry entry is left for the
    /// next heartbeat cycle to evict, so that only the heartbeat removes entries.
    Stop,
    /// Discard the frame and read on.
    Drop,
    /// The frame was appended to the connection's inbound buffer.
    Buffered,
    /// Hand this log line to the log sink.
    Log(String),
}

/// Log line stored when a client sends a log command without text.
pub open spec fn default_log_body() -> Seq<char> {
    "-- no log body sent --"@
}

/// A close frame ends the connection; so does a binary frame, which the protocol does not
/// carry.
pub open spec fn stops(f: Frame) -> bool {
    f is Close || f is Binary
}

/// The log line a frame carries, if it is a well-formed log command.
pub open spec fn log_line(f: Frame) -> Option<Seq<char>> {
    match f {
        Frame::Text(t) => match parsed(t@) {
            Some((verb, payload)) => if verb == "Log"@ {
                match payload {
                    Some(p) => Some(p),
                    None => Some(default_log_body()),
                }
            } else {
                None
            },
            None => None,
        },
        _ => None,
    }
}

/// Frames kept for the heartbeat: liveness replies, and well-formed commands other than log
/// commands.
pub open spec fn is_buffered(f: Frame) -> bool {
    match f {
        Frame::Pong(_) => true,
        Frame::Text(t) => parsed(t@) is Some && log_line(f) is None,
        _ => false,
    }
}

/// A liveness reply.
pub open spec fn is_reply(f: Frame) -> bool {
    f is Pong
}

pub open spec fn not_reply() -> spec_fn(Frame) -> bool {
    |f: Frame| !is_reply(f)
}

pub open spec fn buffered() -> spec_fn(Frame) -> bool {
    |f: Frame| is_buffered(f)
}

/// Whether a buffer holds a liveness reply.
pub open spec fn has_reply(s: Seq<Frame>) -> bool {
    exists|i: int| 0 <= i < s.len() && is_reply(#[trigger] s[i])
}

/// The buffer after the reader has handled `frames` one by one, starting from `buf`.
pub open spec fn buffer_after(buf: Seq<Frame>, frames: Seq<Frame>) -> Seq<Frame>
    decreases frames.len(),
{
    if frames.len() == 0 {
        buf
    } else {
        let before = buffer_after(buf, frames.drop_last());
        if is_buffered(frames.last()) {
            before.push(frames.last())
        } else {
            before
        }
    }
}

/// Handles one inbound frame of a connection: decides what the reader does with it, and
/// appends it to the connection's buffer when the heartbeat is to see it.
/// A malformed command is dropped; it never ends the connection.
pub fn on_frame(buffer: &mut Vec<Frame>, frame: Frame) -> (r: ReaderAction)
    ensures
        final(buffer)@ == buffer_after(old(buffer)@, seq![frame]),
        stops(frame) <==> r is Stop,
        is_buffered(frame) <==> r is Buffered,
        log_line(frame) is Some <==> r is Log,
        r is Log ==> r->Log_0@ == log_line(frame)->0,
{
    proof {
        assert(seq![frame].drop_last() =~= Seq::<Frame>::empty());
        assert(buffer_after(buffer@, Seq::<Frame>::empty()) == buffer@);
        reveal_strlit("Log");
        reveal_strlit("Response");
        reveal_strlit("Discord");
        assert("Response"@.len() != "Log"@.len());
        assert("Discord"@.len() != "Log"@.len());
    }
    match frame {
        Frame::Text(t) => {
            let cmd = ClientWSCommand::new(t.as_str());
            match cmd {
                Ok(ClientWSCommand::Log(payload)) => {
                    let line = match payload {
                        Some(p) => p,
                        None => "-- no log body sent --".to_owned(),
                    };
                    ReaderAction::Log(line)
                },
                Ok(ClientWSCommand::Response(_)) | Ok(ClientWSCommand::Discord(_)) => {
                    buffer.push(Frame::Text(t));
                    ReaderAction::Buffered
                },
                Err(_) => ReaderAction::Drop,
            }
        },
        Frame::Pong(p) => {
            buffer.push(Frame::Pong(p));
            ReaderAction::Buffered
        },
        Frame::Ping(_) => ReaderAction::Drop,
        Frame::Binary(_) => ReaderAction::Stop,
        Frame::Close => ReaderAction::Stop,
    }
}

/// Scans a connection's buffer for liveness replies: says whether there was one, takes the
/// replies out, and puts every other frame back in its order.
pub fn take_reply(buffer: &mut Vec<Frame>) -> (r: bool)
    ensures
        r == has_reply(old(buffer)@),
        final(buffer)@ == old(buffer)@.filter(not_reply()),
{
    let ghost orig = buffer@;
    let mut rest: Vec<Frame> = Vec::new();
    std::mem::swap(buffer, &mut rest);
    let mut found = false;
    let ghost k: int = 0;
    proof {
        reveal(Seq::filter);
        assert(orig.take(0).filter(not_reply()) =~= Seq::<Frame>::empty());
        assert(orig.skip(0) =~= orig);
    }
    while rest.len() > 0
        invariant
            0 <= k <= orig.len(),
            rest@ == orig.skip(k),
            buffer@ == orig.take(k).filter(not_reply()),
            found == has_reply(orig.take(k)),
        decreases rest@.len(),
    {
        let f = rest.remove(0);
        proof {
            assert(f == orig[k]);
            assert(orig.take(k + 1) =~= orig.take(k).push(f));
            orig.take(k).lemma_filter_push(f, not_reply());
            assert(orig.skip(k + 1) =~= rest@);
        }
        let is_pong = match f {
            Frame::Pong(_) => true,
            _ => false,
        };
        if is_pong {
            found = true;
        } else {
            buffer.push(f);
        }
        proof {
            k = k + 1;
            if found {
                if !has_reply(orig.take(k - 1)) {
                    assert(is_reply(orig.take(k)[k - 1]));
                }
            } else {
                assert forall|i: int| 0 <= i < orig.take(k).len() implies !is_reply(
                    #[trigger] orig.take(k)[i],
                ) by {
                    if i < k - 1 {
                        assert(orig.take(k)[i] == orig.take(k - 1)[i]);
                    }
                };
            }
        }
    }
    proof {
        assert(orig.take(k) =~= orig);
    }
    found
}

/// Frames reach a connection's buffer in the order in which the peer sent them: handling a
/// run of frames one by one appends exactly the buffered ones, in their order.
pub proof fn lemma_buffer_keeps_order(buf: Seq<Frame>, frames: Seq<Frame>)
    ensures
        buffer_after(buf, frames) == buf + frames.filter(buffered()),
    decreases frames.len(),
{
    reveal(Seq::filter);
    if frames.len() > 0 {
        lemma_buffer_keeps_order(buf, frames.drop_last());
        assert(frames.drop_last().push(frames.last()) =~= frames);
        frames.drop_last().lemma_filter_push(frames.last(), buffered());
        assert((buf + frames.drop_last().filter(buffered())).push(frames.last()) =~= buf + frames.drop_last().filter(buffered()).push(frames.last()));
    } else {
        assert(buf + frames.filter(buffered()) =~= buf);
    }
}

/// Order preservation over a run of calls: when the frames of a run are handed to `on_frame`
/// one after another (`buffers[i + 1]` is the buffer after the call on `frames[i]`, as
/// `on_frame` ensures), the last buffer is the first one followed by exactly the buffered
/// frames of the run, in the order in which they were sent.
pub proof fn lemma_run_keeps_order(buffers: Seq<Seq<Frame>>, frames: Seq<Frame>)
    requires
        buffers.len() == frames.len() + 1,
        forall|i: int|
            0 <= i < frames.len() ==> #[trigger] buffers[i + 1] == buffer_after(
                buffers[i],
                seq![frames[i]],
            ),
    ensures
        buffers.last() == buffers[0] + frames.filter(buffered()),
    decreases frames.len(),
{
    let n = frames.len() as int;
    if n == 0 {
        lemma_buffer_keeps_order(buffers[0], frames);
    } else {
        let bs = buffers.drop_last();
        let fs = frames.drop_last();
        assert forall|i: int| 0 <= i < fs.len() implies #[trigger] bs[i + 1] == buffer_after(
            bs[i],
            seq![fs[i]],
        ) by {
            assert(buffers[i + 1] == buffer_after(buffers[i], seq![frames[i]]));
        };
        lemma_run_keeps_order(bs, fs);
        assert(buffers[n] == buffer_after(buffers[n - 1], seq![frames[n - 1]]));
        assert(seq![frames[n - 1]].drop_last() =~= Seq::<Frame>::empty());
        assert(frames =~= fs.push(frames[n - 1]));
        fs.lemma_filter_push(frames[n - 1], buffered());
        let prev = buffers[n - 1];
        assert(bs.last() == prev);
        assert(buffer_after(prev, Seq::<Frame>::empty()) == prev);
        if is_buffered(frames[n - 1]) {
            assert(buffers.last() == prev.push(frames[n - 1]));
            assert(buffers.last() =~= buffers[0] + frames.filter(buffered()));
        } else {
            assert(buffers.last() == prev);
        }
    }
}

} // verus!
