//! The transport itself: a `Server` reads framed requests off its input
//! stream, and its shared `ServerOutput` channel writes sequenced, framed
//! messages to the output sink under a lock.

use vstd::prelude::*;
use vstd::rwlock::RwLock;
use vstd::rwlock::RwLockPredicate;

use crate::codec::decode_message;
use crate::codec::decode_ok;
use crate::codec::encode_envelope;
use crate::codec::envelope_model;
use crate::codec::req_matches;
use crate::json::json_bytes;
use crate::json::json_parsed;
use crate::frame::FrameParse;
use crate::frame::HeaderLine;
use crate::frame::classify_header_line;
use crate::frame::encode_frame;
use crate::frame::frame_bytes;
use crate::frame::frames_bytes;
use crate::frame::lemma_frames_bytes_push;
use crate::frame::lemma_frames_round_trip;
use crate::frame::lemma_take_line_split;
use crate::frame::lemma_take_line_whole;
use crate::frame::parse_frame_at;
use crate::frame::parse_frames;
use crate::frame::LF;
use crate::io::Sink;
use crate::io::flush_bytes;
use crate::io::read_exact_bytes;
use crate::io::read_line_bytes;
use crate::io::sink_new;
use crate::io::write_all_bytes;
use crate::json::utf8_str;
use crate::messages::DeserializationError;
use crate::messages::Event;
use crate::messages::Request;
use crate::messages::Response;
use crate::messages::ReverseRequest;
use crate::messages::Sendable;
use crate::messages::ServerError;

verus! {

/// One successful send: the sequence number this side assigned and the
/// serialized body bytes that went out inside the frame.
pub struct SentRecord {
    pub seq: i64,
    pub body: Seq<u8>,
}

/// Handles emission of messages through the connection: owns the sink and
/// the sequence counter, and records, as a ghost transcript, every byte the
/// sink accepted.
#[verifier::reject_recursive_types(W)]
pub struct ServerOutput<W> {
    sink: Sink<W>,
    sequence_number: i64,
    sent: Ghost<Seq<SentRecord>>,
    history: Ghost<Seq<u8>>,
    clean: Ghost<bool>,
}

impl<W> ServerOutput<W> {
    /// The records of every successful send, oldest first.
    pub closed spec fn sent(self) -> Seq<SentRecord> {
        self.sent@
    }

    /// Every byte the sink has accepted, in order.
    pub closed spec fn history(self) -> Seq<u8> {
        self.history@
    }

    /// Whether every write so far completed; after a failed write the exact
    /// contents of the sink are no longer known.
    pub closed spec fn is_clean(self) -> bool {
        self.clean@
    }

    /// The sequence number of the most recent successful send; zero at the
    /// start.
    pub closed spec fn seq_no(self) -> i64 {
        self.sequence_number
    }

    /// The serialized bodies sent so far, oldest first.
    pub open spec fn bodies(self) -> Seq<Seq<u8>> {
        self.sent().map(|i: int, r: SentRecord| r.body)
    }

    /// The channel invariant: the counter counts the sends, the i-th send
    /// carried sequence number i + 1, and — as long as no write has failed —
    /// the sink holds exactly the frames of the sent bodies, one after
    /// another.
    pub closed spec fn wf(self) -> bool {
        &&& 0 <= self.sequence_number
        &&& self.sent@.len() == self.sequence_number as int
        &&& (forall|i: int| 0 <= i < self.sent@.len() ==> (#[trigger] self.sent@[i]).seq == i + 1)
        &&& (forall|i: int|
            0 <= i < self.sent@.len() ==> (#[trigger] self.sent@[i]).body.len() <= usize::MAX)
        &&& (self.clean@ ==> self.history@ == frames_bytes(self.bodies()))
    }

    /// What one send call did: on success the counter moved by one, the new
    /// record carries it and holds exactly the serialized envelope of the
    /// payload, and the sink accepted exactly that record's frame. Only a
    /// stream failure can make a send fail — serializing an envelope cannot
    /// — and then nothing was recorded and the channel is no longer clean.
    pub open spec fn send_outcome(
        pre: Self,
        post: Self,
        payload: Sendable,
        r: Result<(), ServerError>,
    ) -> bool {
        match r {
            Ok(()) => {
                &&& post.seq_no() == pre.seq_no() + 1
                &&& post.is_clean() == pre.is_clean()
                &&& post.sent().len() == pre.sent().len() + 1
                &&& post.sent().drop_last() == pre.sent()
                &&& post.sent().last().seq == pre.seq_no() + 1
                &&& post.sent().last().body == json_bytes(
                    envelope_model((pre.seq_no() + 1) as i64, payload),
                )
                &&& post.history() == pre.history() + frame_bytes(post.sent().last().body)
                &&& json_parsed(vstd::utf8::decode_utf8(post.sent().last().body)) == Some(
                    envelope_model((pre.seq_no() + 1) as i64, payload),
                )
            },
            Err(ServerError::IoError) => {
                &&& post.sent() == pre.sent()
                &&& post.seq_no() == pre.seq_no()
                &&& post.history() == pre.history()
                &&& !post.is_clean()
            },
            Err(_) => false,
        }
    }

}

impl<W: std::io::Write> ServerOutput<W> {
    /// A fresh channel over the sink `out`: clean, with sequence number
    /// zero and nothing sent.
    pub fn new(out: W) -> (s: Self)
        ensures
            s.wf(),
            s.seq_no() == 0,
            s.sent() == Seq::<SentRecord>::empty(),
            s.history() == Seq::<u8>::empty(),
            s.is_clean(),
    {
        let s = ServerOutput {
            sink: sink_new(out),
            sequence_number: 0,
            sent: Ghost(Seq::empty()),
            history: Ghost(Seq::empty()),
            clean: Ghost(true),
        };
        proof {
            assert(s.bodies() =~= Seq::<Seq<u8>>::empty());
        }
        s
    }

    /// Sends one payload: assigns the next sequence number, serializes the
    /// envelope, writes it as one complete frame, and flushes. The frame of
    /// a successful send reaches the sink whole.
    pub fn send(&mut self, body: Sendable) -> (r: Result<(), ServerError>)
        requires
            old(self).wf(),
            old(self).seq_no() < i64::MAX,
        ensures
            final(self).wf(),
            Self::send_outcome(*old(self), *final(self), body, r),
    {
        let next = self.sequence_number + 1;
        let body_bytes = encode_envelope(next, &body);
        let frame = encode_frame(body_bytes.as_slice());
        match write_all_bytes(&mut self.sink, frame.as_slice()) {
            Ok(()) => {},
            Err(()) => {
                self.clean = Ghost(false);
                return Err(ServerError::IoError);
            },
        }
        match flush_bytes(&mut self.sink) {
            Ok(()) => {},
            Err(()) => {
                self.clean = Ghost(false);
                return Err(ServerError::IoError);
            },
        }
        self.sequence_number = next;
        self.history = Ghost(self.history@ + frame@);
        let ghost rec = SentRecord { seq: next, body: body_bytes@ };
        self.sent = Ghost(self.sent@.push(rec));
        proof {
            assert(body_bytes@.len() <= usize::MAX) by {
                assert(body_bytes.len() == body_bytes@.len());
            }
            assert(self.sent@.drop_last() =~= old(self).sent@);
            assert(forall|i: int|
                0 <= i < old(self).sent@.len() ==> #[trigger] self.sent@[i] == old(self).sent@[i]);
            if self.clean@ {
                lemma_frames_bytes_push(old(self).bodies(), body_bytes@);
                assert(self.bodies() =~= old(self).bodies().push(body_bytes@));
            }
        }
        Ok(())
    }

    /// Sends a response; the same as wrapping it and calling `send`.
    pub fn respond(&mut self, response: Response) -> (r: Result<(), ServerError>)
        requires
            old(self).wf(),
            old(self).seq_no() < i64::MAX,
        ensures
            final(self).wf(),
            Self::send_outcome(*old(self), *final(self), Sendable::Response(response), r),
    {
        self.send(Sendable::Response(response))
    }

    /// Sends an event; the same as wrapping it and calling `send`.
    pub fn send_event(&mut self, event: Event) -> (r: Result<(), ServerError>)
        requires
            old(self).wf(),
            old(self).seq_no() < i64::MAX,
        ensures
            final(self).wf(),
            Self::send_outcome(*old(self), *final(self), Sendable::Event(event), r),
    {
        self.send(Sendable::Event(event))
    }

    /// Sends a reverse request; the same as wrapping it and calling `send`.
    pub fn send_reverse_request(&mut self, request: ReverseRequest) -> (r: Result<(), ServerError>)
        requires
            old(self).wf(),
            old(self).seq_no() < i64::MAX,
        ensures
            final(self).wf(),
            Self::send_outcome(*old(self), *final(self), Sendable::ReverseRequest(request), r),
    {
        self.send(Sendable::ReverseRequest(request))
    }
}

/// Sequence monotonicity: on a well-formed channel the recorded sends carry
/// exactly the numbers 1, 2, ... in send order — no gap, no reuse, whatever
/// the payload kind and whoever sent each one.
pub proof fn lemma_sequence_numbers_exact<W>(out: ServerOutput<W>, i: int)
    requires
        out.wf(),
        0 <= i < out.sent().len(),
    ensures
        out.sent()[i].seq == i + 1,
{
}

/// Mutual exclusion at the byte level: the bytes a clean channel has written
/// split, strictly by their declared `Content-Length` values, into exactly
/// the bodies that were sent — no byte of one frame sits inside another.
pub proof fn lemma_history_splits_into_frames<W>(out: ServerOutput<W>)
    requires
        out.wf(),
        out.is_clean(),
    ensures
        parse_frames(out.history(), out.sent().len()) == Some(out.bodies()),
{
    assert(forall|i: int|
        0 <= i < out.bodies().len() ==> #[trigger] out.bodies()[i].len() <= usize::MAX);
    lemma_frames_round_trip(out.bodies());
    assert(out.bodies().len() == out.sent().len());
}

/// Round trip at the transport level: the bytes one successful send
/// appended to a clean channel read back as exactly one frame, and decoding
/// that frame's body recovers exactly the envelope of the payload that was
/// sent — the payload's fields unchanged, with the assigned sequence number
/// injected.
pub proof fn lemma_send_reads_back<W>(
    pre: ServerOutput<W>,
    post: ServerOutput<W>,
    payload: Sendable,
    r: Result<(), ServerError>,
)
    requires
        post.wf(),
        pre.is_clean(),
        r is Ok,
        ServerOutput::send_outcome(pre, post, payload, r),
    ensures
        parse_frame_at(post.history().skip(pre.history().len() as int), 0)
            == FrameParse::Frame(post.sent().last().body, Seq::<u8>::empty()),
        json_parsed(vstd::utf8::decode_utf8(post.sent().last().body)) == Some(
            envelope_model((pre.seq_no() + 1) as i64, payload),
        ),
{
    let body = post.sent().last().body;
    assert(post.history().skip(pre.history().len() as int) =~= frame_bytes(body));
    assert(frame_bytes(body) + Seq::<u8>::empty() =~= frame_bytes(body));
    assert(post.sent().len() > 0);
    assert(post.sent()[post.sent().len() - 1].body.len() <= usize::MAX);
    crate::frame::lemma_frame_round_trip(body, Seq::<u8>::empty());
}

/// The lock invariant of the shared output channel: well-formedness.
pub struct OutputInv;

impl<W> RwLockPredicate<ServerOutput<W>> for OutputInv {
    open spec fn inv(self, v: ServerOutput<W>) -> bool {
        v.wf()
    }
}


/// What one poll call did, in terms of the bytes it consumed: a complete
/// frame yields a request (or a decode error that says why), a clean end of
/// stream yields nothing, and each header error names the line or key that
/// caused it. A transport failure promises nothing.
pub open spec fn poll_outcome(ext: Seq<u8>, r: Result<Option<Request>, ServerError>) -> bool {
    match r {
        Ok(Some(req)) => parse_frame_at(ext, 0) matches FrameParse::Frame(body, rest)
            && rest.len() == 0 && vstd::utf8::valid_utf8(body) && (json_parsed(
            vstd::utf8::decode_utf8(body),
        ) matches Some(m) && decode_ok(m) && req_matches(m, req)),
        Ok(None) => parse_frame_at(ext, 0) == FrameParse::NoFrame,
        Err(ServerError::UnknownHeader { header }) => parse_frame_at(ext, 0)
            == FrameParse::UnknownHeader(header@),
        Err(ServerError::HeaderParseError { line }) => parse_frame_at(ext, 0)
            == FrameParse::BadHeader(line@),
        Err(ServerError::IoError) => true,
        Err(ServerError::ParseError(DeserializationError::DecodingError)) => parse_frame_at(ext, 0)
            matches FrameParse::Frame(body, rest) && rest.len() == 0 && !vstd::utf8::valid_utf8(
            body,
        ),
        Err(ServerError::ParseError(DeserializationError::SerdeError)) => parse_frame_at(ext, 0)
            matches FrameParse::Frame(body, rest) && rest.len() == 0 && vstd::utf8::valid_utf8(
            body,
        ) && !(json_parsed(vstd::utf8::decode_utf8(body)) matches Some(m) && decode_ok(m)),
        Err(_) => false,
    }
}

/// Handles message encoding and decoding for one connection: reads framed
/// requests off the input stream and owns the shared output channel.
#[verifier::reject_recursive_types(R)]
#[verifier::reject_recursive_types(W)]
pub struct Server<R, W> {
    input: std::io::BufReader<R>,
    consumed: Ghost<Seq<u8>>,
    /// The shared output channel, for sending messages and events from
    /// other threads while this server blocks in `poll_request`.
    pub output: std::sync::Arc<RwLock<ServerOutput<W>, OutputInv>>,
}

impl<R: std::io::Read, W: std::io::Write> Server<R, W> {
    /// The bytes this server has read off its input stream and accounted
    /// for, in order.
    pub closed spec fn consumed(self) -> Seq<u8> {
        self.consumed@
    }

    /// The shared output channel, as a value, for saying it is untouched.
    pub closed spec fn channel(self) -> std::sync::Arc<RwLock<ServerOutput<W>, OutputInv>> {
        self.output
    }

    /// Builds a server over the given input stream and output sink. The
    /// channel starts clean, with sequence number zero and nothing sent.
    pub fn new(input: std::io::BufReader<R>, output: W) -> (s: Self)
        ensures
            s.consumed() == Seq::<u8>::empty(),
    {
        let server_output = ServerOutput::new(output);
        Server {
            input,
            consumed: Ghost(Seq::empty()),
            output: std::sync::Arc::new(RwLock::new(server_output, Ghost(OutputInv))),
        }
    }

    /// Sends one payload through the shared channel: takes the lock, lets
    /// the channel assign the next sequence number and write one frame, and
    /// releases. The lock serializes concurrent senders, so the bytes of two
    /// frames never interleave.
    pub fn send(&mut self, body: Sendable) -> (r: Result<(), ServerError>)
        ensures
            final(self).channel() == old(self).channel(),
            final(self).consumed() == old(self).consumed(),
            r matches Err(e) ==> (e is IoError || e is SequenceExhausted),
    {
        let (mut out, handle) = self.output.acquire_write();
        if out.sequence_number == i64::MAX {
            handle.release_write(out);
            return Err(ServerError::SequenceExhausted);
        }
        let r = out.send(body);
        handle.release_write(out);
        r
    }

    /// Sends a response; the same as wrapping it and calling `send`.
    pub fn respond(&mut self, response: Response) -> (r: Result<(), ServerError>)
        ensures
            final(self).channel() == old(self).channel(),
            final(self).consumed() == old(self).consumed(),
            r matches Err(e) ==> (e is IoError || e is SequenceExhausted),
    {
        self.send(Sendable::Response(response))
    }

    /// Sends an event; the same as wrapping it and calling `send`.
    pub fn send_event(&mut self, event: Event) -> (r: Result<(), ServerError>)
        ensures
            final(self).channel() == old(self).channel(),
            final(self).consumed() == old(self).consumed(),
            r matches Err(e) ==> (e is IoError || e is SequenceExhausted),
    {
        self.send(Sendable::Event(event))
    }

    /// Sends a reverse request; the same as wrapping it and calling `send`.
    pub fn send_reverse_request(&mut self, request: ReverseRequest) -> (r: Result<
        (),
        ServerError,
    >)
        ensures
            final(self).channel() == old(self).channel(),
            final(self).consumed() == old(self).consumed(),
            r matches Err(e) ==> (e is IoError || e is SequenceExhausted),
    {
        self.send(Sendable::ReverseRequest(request))
    }
}


impl<R: std::io::Read, W: std::io::Write> Server<R, W> {
    /// Waits for one request from the peer: reads header lines until the
    /// blank line, reads exactly the declared number of body bytes, and
    /// decodes them as a UTF-8 JSON request. A stream that ends cleanly at a
    /// line boundary yields `Ok(None)`; every failure is surfaced as its own
    /// error kind, and `poll_outcome` ties each to the bytes consumed.
    #[verifier::rlimit(100)]
    pub fn poll_request(&mut self) -> (r: Result<Option<Request>, ServerError>)
        ensures
            final(self).channel() == old(self).channel(),
            exists|ext: Seq<u8>|
                final(self).consumed() == old(self).consumed() + ext && #[trigger] poll_outcome(
                    ext,
                    r,
                ),
    {
        let ghost start = self.consumed@;
        let mut cl: usize = 0;
        let ghost mut ext = Seq::<u8>::empty();
        // The header block of one frame is short; this bound can never be
        // reached, but it makes every poll provably finite.
        let mut budget: usize = usize::MAX;
        proof {
            assert(start + ext =~= start);
        }
        loop
            invariant
                self.consumed@ == start + ext,
                start == old(self).consumed@,
                self.output == old(self).output,
                forall|cont: Seq<u8>| #[trigger] parse_frame_at(ext + cont, 0) == parse_frame_at(
                    cont,
                    cl as usize,
                ),
            decreases budget,
        {
            if budget == 0 {
                proof {
                    assert(poll_outcome(ext, Err::<Option<Request>, ServerError>(
                        ServerError::IoError,
                    )));
                }
                return Err(ServerError::IoError);
            }
            budget = budget - 1;
            let line = match read_line_bytes(&mut self.input) {
                Ok(l) => l,
                Err(()) => {
                    proof {
                        assert(poll_outcome(ext, Err::<Option<Request>, ServerError>(
                            ServerError::IoError,
                        )));
                    }
                    return Err(ServerError::IoError);
                },
            };
            if line.len() == 0 {
                proof {
                    assert(ext + Seq::<u8>::empty() =~= ext);
                    assert(parse_frame_at(ext + Seq::<u8>::empty(), 0) == parse_frame_at(
                        Seq::<u8>::empty(),
                        cl as usize,
                    ));
                    assert(poll_outcome(ext, Ok::<Option<Request>, ServerError>(None)));
                }
                return Ok(None);
            }
            let ghost l = line@;
            self.consumed = Ghost(self.consumed@ + l);
            let tidy = line[line.len() - 1] == LF;
            match classify_header_line(line.as_slice()) {
                HeaderLine::Blank => {
                    if !tidy && cl > 0 {
                        proof {
                            ext = ext + l;
                            assert(poll_outcome(ext, Err::<Option<Request>, ServerError>(
                                ServerError::IoError,
                            )));
                        }
                        return Err(ServerError::IoError);
                    }
                    let body = match read_exact_bytes(&mut self.input, cl) {
                        Ok(b) => b,
                        Err(()) => {
                            proof {
                                ext = ext + l;
                                assert(poll_outcome(ext, Err::<Option<Request>, ServerError>(
                                    ServerError::IoError,
                                )));
                            }
                            return Err(ServerError::IoError);
                        },
                    };
                    self.consumed = Ghost(self.consumed@ + body@);
                    proof {
                        let ext0 = ext;
                        assert(ext0 + (l + body@) =~= (ext0 + l) + body@);
                        assert(parse_frame_at(ext0 + (l + body@), 0) == parse_frame_at(
                            l + body@,
                            cl as usize,
                        ));
                        if tidy {
                            lemma_take_line_split(l, body@);
                        } else {
                            assert(body@.len() == 0);
                            assert(l + body@ =~= l);
                            lemma_take_line_whole(l);
                        }
                        assert(body@.take(cl as int) =~= body@);
                        assert(body@.skip(cl as int) =~= Seq::<u8>::empty());
                        ext = (ext0 + l) + body@;
                        assert(parse_frame_at(ext, 0) == FrameParse::Frame(
                            body@,
                            Seq::<u8>::empty(),
                        ));
                    }
                    let text = match utf8_str(body.as_slice()) {
                        Ok(t) => {
                            proof {
                                vstd::utf8::encode_utf8_decode_utf8(t@);
                            }
                            t
                        },
                        Err(()) => {
                            proof {
                                assert(poll_outcome(ext, Err::<Option<Request>, ServerError>(
                                    ServerError::ParseError(DeserializationError::DecodingError),
                                )));
                            }
                            return Err(ServerError::ParseError(
                                DeserializationError::DecodingError,
                            ));
                        },
                    };
                    match decode_message(text) {
                        Ok(req) => {
                            proof {
                                assert(poll_outcome(ext, Ok::<Option<Request>, ServerError>(
                                    Some(req),
                                )));
                            }
                            return Ok(Some(req));
                        },
                        Err(_) => {
                            proof {
                                assert(poll_outcome(ext, Err::<Option<Request>, ServerError>(
                                    ServerError::ParseError(DeserializationError::SerdeError),
                                )));
                            }
                            return Err(ServerError::ParseError(DeserializationError::SerdeError));
                        },
                    }
                },
                HeaderLine::ContentLength(n) => {
                    if tidy {
                        proof {
                            let ext2 = ext + l;
                            assert forall|cont: Seq<u8>| #[trigger] parse_frame_at(ext2 + cont, 0)
                                == parse_frame_at(cont, n as usize) by {
                                assert(ext + (l + cont) =~= ext2 + cont);
                                assert(parse_frame_at(ext + (l + cont), 0) == parse_frame_at(
                                    l + cont,
                                    cl as usize,
                                ));
                                lemma_take_line_split(l, cont);
                            }
                            ext = ext2;
                            assert(self.consumed@ =~= start + ext);
                        }
                        cl = n;
                    } else {
                        // The stream handed out a header line without its
                        // terminator: it has ended; confirm and report.
                        let after = match read_line_bytes(&mut self.input) {
                            Ok(x) => x,
                            Err(()) => {
                                proof {
                                    ext = ext + l;
                                    assert(poll_outcome(ext, Err::<Option<Request>, ServerError>(
                                        ServerError::IoError,
                                    )));
                                }
                                return Err(ServerError::IoError);
                            },
                        };
                        if after.len() == 0 {
                            proof {
                                assert(parse_frame_at(ext + l, 0) == parse_frame_at(
                                    l,
                                    cl as usize,
                                ));
                                lemma_take_line_whole(l);
                                assert(parse_frame_at(Seq::<u8>::empty(), n as usize)
                                    == FrameParse::NoFrame);
                                ext = ext + l;
                                assert(poll_outcome(ext, Ok::<Option<Request>, ServerError>(
                                    None,
                                )));
                            }
                            return Ok(None);
                        }
                        self.consumed = Ghost(self.consumed@ + after@);
                        proof {
                            ext = (ext + l) + after@;
                            assert(poll_outcome(ext, Err::<Option<Request>, ServerError>(
                                ServerError::IoError,
                            )));
                        }
                        return Err(ServerError::IoError);
                    }
                },
                HeaderLine::Unknown(key) => {
                    proof {
                        assert(parse_frame_at(ext + l, 0) == parse_frame_at(l, cl as usize));
                        lemma_take_line_whole(l);
                        ext = ext + l;
                        assert(poll_outcome(ext, Err::<Option<Request>, ServerError>(
                            ServerError::UnknownHeader { header: key },
                        )));
                    }
                    return Err(ServerError::UnknownHeader { header: key });
                },
                HeaderLine::NoColon => {
                    proof {
                        assert(parse_frame_at(ext + l, 0) == parse_frame_at(l, cl as usize));
                        lemma_take_line_whole(l);
                        ext = ext + l;
                        assert(poll_outcome(ext, Err::<Option<Request>, ServerError>(
                            ServerError::HeaderParseError { line: line },
                        )));
                    }
                    return Err(ServerError::HeaderParseError { line });
                },
                HeaderLine::BadValue => {
                    proof {
                        assert(parse_frame_at(ext + l, 0) == parse_frame_at(l, cl as usize));
                        lemma_take_line_whole(l);
                        ext = ext + l;
                        assert(poll_outcome(ext, Err::<Option<Request>, ServerError>(
                            ServerError::HeaderParseError { line: line },
                        )));
                    }
                    return Err(ServerError::HeaderParseError { line });
                },
            }
        }
    }
}

} // verus!

