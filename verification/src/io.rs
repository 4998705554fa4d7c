//! Trusted boundary to `std::io`: the buffered byte-stream transport the
//! frames travel over. Each function makes one `std::io` call and converts
//! its result; the errors are collapsed, since the transport only needs to
//! know that the stream failed.

use vstd::prelude::*;

use std::io::BufRead;
use std::io::Write;

use crate::frame::LF;

verus! {

/// Declares `std::io::BufReader`, the buffered input stream the frame
/// reader pulls lines and bodies from, so it can stand in signatures.
#[verifier::external_type_specification]
#[verifier::external_body]
#[verifier::reject_recursive_types(R)]
pub struct ExBufReader<R: ?Sized>(std::io::BufReader<R>);

/// The output sink, opaque to verification: a writable stream held in a
/// hidden field, reachable only through the write and flush calls below.
/// Every send writes one complete frame and flushes at once, so no extra
/// buffering layer is needed here.
#[verifier::external_body]
#[verifier::reject_recursive_types(W)]
pub struct Sink<W> {
    inner: W,
}

/// Wraps the raw writable stream as the transport's sink; a `Sink` can only
/// be built here, since its field is hidden.
#[verifier::external_body]
pub(crate) fn sink_new<W: std::io::Write>(out: W) -> Sink<W> {
    Sink { inner: out }
}

/// Relies on `std::io::BufRead::read_until` with a line-feed delimiter: the
/// returned bytes run up to and including the first line feed, or to the end
/// of the stream, so no byte before the last is a line feed. An empty result
/// means the stream has ended.
#[verifier::external_body]
pub(crate) fn read_line_bytes<R: std::io::Read>(src: &mut std::io::BufReader<R>) -> (r: Result<
    Vec<u8>,
    (),
>)
    ensures
        r matches Ok(line) ==> forall|i: int|
            0 <= i < line@.len() - 1 ==> line@[i] != LF,
{
    let mut line = Vec::new();
    match src.read_until(LF, &mut line) {
        Ok(_) => Ok(line),
        Err(_) => Err(()),
    }
}

/// Relies on `std::io::Read::read_exact`: on success the buffer was filled
/// completely, so exactly `n` bytes were consumed.
#[verifier::external_body]
pub(crate) fn read_exact_bytes<R: std::io::Read>(src: &mut std::io::BufReader<R>, n: usize) -> (r:
    Result<Vec<u8>, ()>)
    ensures
        r matches Ok(body) ==> body@.len() == n,
{
    let mut body = vec![0u8; n];
    match std::io::Read::read_exact(src, &mut body) {
        Ok(()) => Ok(body),
        Err(_) => Err(()),
    }
}

/// Relies on `std::io::Write::write_all` on the buffered writer: on success
/// every byte of `bytes` was accepted by the sink, in order; on failure some
/// prefix may have been.
#[verifier::external_body]
pub(crate) fn write_all_bytes<W: std::io::Write>(sink: &mut Sink<W>, bytes: &[u8]) -> Result<
    (),
    (),
> {
    sink.inner.write_all(bytes).map_err(|_| ())
}

/// Relies on `std::io::Write::flush`: pushes everything buffered so far down
/// to the underlying sink.
#[verifier::external_body]
pub(crate) fn flush_bytes<W: std::io::Write>(sink: &mut Sink<W>) -> Result<(), ()> {
    sink.inner.flush().map_err(|_| ())
}

} // verus!
