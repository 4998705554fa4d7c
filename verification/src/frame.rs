//! Wire framing: one frame is a `Content-Length: <n>` header line, an empty
//! line, and exactly `n` body bytes, with `\r\n` line endings. Header lines
//! are handled as raw bytes — UTF-8 plays no part in framing, only in the
//! body — so a malformed header is classified by its bytes instead of being
//! turned away as unreadable.

use vstd::prelude::*;

verus! {

/// Carriage return.
pub const CR: u8 = 13;

/// Line feed.
pub const LF: u8 = 10;

/// Decimal representation of `n`, most significant digit first.
pub open spec fn dec_rep(n: nat) -> Seq<u8>
    decreases n,
{
    if n < 10 {
        seq![(48 + n) as u8]
    } else {
        dec_rep(n / 10).push((48 + n % 10) as u8)
    }
}

/// The bytes of `"Content-Length"`.
pub open spec fn content_length_key() -> Seq<u8> {
    seq!['C' as u8, 'o' as u8, 'n' as u8, 't' as u8, 'e' as u8, 'n' as u8, 't' as u8, '-' as u8, 'L' as u8, 'e' as u8, 'n' as u8, 'g' as u8, 't' as u8, 'h' as u8]
}

/// The bytes of `"Content-Length: "`.
pub open spec fn header_prefix() -> Seq<u8> {
    content_length_key() + seq![':' as u8, ' ' as u8]
}

/// The full header block announcing a body of `n` bytes.
pub open spec fn header_bytes(n: nat) -> Seq<u8> {
    header_prefix() + dec_rep(n) + seq![CR, LF, CR, LF]
}

/// The wire encoding of one complete frame.
pub open spec fn frame_bytes(body: Seq<u8>) -> Seq<u8> {
    header_bytes(body.len()) + body
}

/// The decimal digits of `n`, most significant first.
pub fn dec_digits(n: usize) -> (r: Vec<u8>)
    ensures
        r@ == dec_rep(n as nat),
    decreases n,
{
    if n < 10 {
        let mut v: Vec<u8> = Vec::new();
        v.push(48 + (n as u8));
        assert(v@ =~= dec_rep(n as nat));
        v
    } else {
        let mut v = dec_digits(n / 10);
        v.push(48 + ((n % 10) as u8));
        assert(v@ =~= dec_rep(n as nat));
        v
    }
}

/// Builds the complete frame for `body`: header block, blank line, body.
pub fn encode_frame(body: &[u8]) -> (r: Vec<u8>)
    ensures
        r@ == frame_bytes(body@),
{
    let mut out: Vec<u8> = Vec::new();
    out.push('C' as u8);
    out.push('o' as u8);
    out.push('n' as u8);
    out.push('t' as u8);
    out.push('e' as u8);
    out.push('n' as u8);
    out.push('t' as u8);
    out.push('-' as u8);
    out.push('L' as u8);
    out.push('e' as u8);
    out.push('n' as u8);
    out.push('g' as u8);
    out.push('t' as u8);
    out.push('h' as u8);
    out.push(':' as u8);
    out.push(' ' as u8);
    assert(out@ =~= header_prefix());
    let mut digits = dec_digits(body.len());
    out.append(&mut digits);
    out.push(CR);
    out.push(LF);
    out.push(CR);
    out.push(LF);
    assert(out@ =~= header_bytes(body@.len()));
    let mut i: usize = 0;
    while i < body.len()
        invariant
            i <= body@.len(),
            out@ == header_bytes(body@.len()) + body@.subrange(0, i as int),
        decreases body@.len() - i,
    {
        out.push(body[i]);
        i = i + 1;
        assert(out@ =~= header_bytes(body@.len()) + body@.subrange(0, i as int));
    }
    assert(out@ =~= frame_bytes(body@));
    out
}


/// ASCII colon.
pub const COLON: u8 = 58;

/// Bytes that count as trailing or leading whitespace in a header line.
/// Header syntax is ASCII, so only the ASCII whitespace bytes are trimmed;
/// a header line padded with exotic Unicode whitespace is rejected rather
/// than trimmed.
pub open spec fn is_ws(b: u8) -> bool {
    b == 9 || b == LF || b == 11 || b == 12 || b == CR || b == 32
}

/// `s` without its trailing whitespace.
pub open spec fn trim_end_spec(s: Seq<u8>) -> Seq<u8>
    decreases s.len(),
{
    if s.len() > 0 && is_ws(s.last()) {
        trim_end_spec(s.drop_last())
    } else {
        s
    }
}

/// `s` without its leading whitespace.
pub open spec fn trim_start_spec(s: Seq<u8>) -> Seq<u8>
    decreases s.len(),
{
    if s.len() > 0 && is_ws(s.first()) {
        trim_start_spec(s.skip(1))
    } else {
        s
    }
}

/// `s` without leading or trailing whitespace.
pub open spec fn trim_spec(s: Seq<u8>) -> Seq<u8> {
    trim_end_spec(trim_start_spec(s))
}

/// Index of the first occurrence of `b` in `s`.
pub open spec fn find_byte(s: Seq<u8>, b: u8) -> Option<int>
    decreases s.len(),
{
    if s.len() == 0 {
        None
    } else if s.first() == b {
        Some(0)
    } else {
        match find_byte(s.skip(1), b) {
            Some(i) => Some(i + 1),
            None => None,
        }
    }
}

/// The numeric value of an ASCII digit; zero for any other byte.
pub open spec fn digit_val(b: u8) -> nat {
    if '0' as u8 <= b <= '9' as u8 {
        (b - '0' as u8) as nat
    } else {
        0
    }
}

/// Every byte of `s` is an ASCII digit.
pub open spec fn all_digits(s: Seq<u8>) -> bool {
    forall|i: int| 0 <= i < s.len() ==> '0' as u8 <= #[trigger] s[i] <= '9' as u8
}

/// The value of `s` read as a decimal numeral, most significant digit first.
pub open spec fn dec_val(s: Seq<u8>) -> nat
    decreases s.len(),
{
    if s.len() == 0 {
        0
    } else {
        dec_val(s.drop_last()) * 10 + digit_val(s.last())
    }
}

/// `s` with one leading `+` sign removed, as `usize::from_str` allows.
pub open spec fn digits_of(s: Seq<u8>) -> Seq<u8> {
    if s.len() > 0 && s.first() == '+' as u8 {
        s.skip(1)
    } else {
        s
    }
}

/// What `usize` parsing accepts of a `Content-Length` value: the bytes are
/// trimmed, an optional `+` sign is dropped, and the digits must fit in
/// `usize`.
pub open spec fn parse_content_length(s: Seq<u8>) -> Option<usize> {
    let d = digits_of(trim_spec(s));
    if d.len() > 0 && all_digits(d) && dec_val(d) <= usize::MAX {
        Some(dec_val(d) as usize)
    } else {
        None
    }
}

/// Specification-level classification of one header line.
pub enum LineClass {
    /// Only whitespace: the header block is over.
    Blank,
    /// A well-formed `Content-Length` header with its value.
    ContentLength(usize),
    /// A header whose key is not `Content-Length`; carries the key.
    Unknown(Seq<u8>),
    /// A non-blank line without a colon.
    NoColon,
    /// A `Content-Length` header whose value does not parse.
    BadValue,
}

/// How one raw header line (as read, terminator included) is interpreted.
pub open spec fn classify_spec(line: Seq<u8>) -> LineClass {
    let t = trim_end_spec(line);
    if t.len() == 0 {
        LineClass::Blank
    } else {
        match find_byte(t, COLON) {
            None => LineClass::NoColon,
            Some(i) => if t.take(i) == content_length_key() {
                match parse_content_length(t.skip(i + 1)) {
                    Some(n) => LineClass::ContentLength(n),
                    None => LineClass::BadValue,
                }
            } else {
                LineClass::Unknown(t.take(i))
            },
        }
    }
}


/// Splits off the first line: everything up to and including the first line
/// feed, or all of `s` when no line feed is left.
pub open spec fn take_line(s: Seq<u8>) -> (Seq<u8>, Seq<u8>) {
    match find_byte(s, LF) {
        Some(i) => (s.take(i + 1), s.skip(i + 1)),
        None => (s, Seq::empty()),
    }
}

/// The outcome of reading one frame from the start of a byte stream.
pub enum FrameParse {
    /// The stream ended cleanly at a line boundary before the header block
    /// was complete.
    NoFrame,
    /// A complete frame: its body, and the bytes that follow it.
    Frame(Seq<u8>, Seq<u8>),
    /// The stream ended before the declared body length was reached.
    Truncated,
    /// A header key other than `Content-Length`; carries the key.
    UnknownHeader(Seq<u8>),
    /// A line without a colon, or a `Content-Length` value that does not
    /// parse; carries the raw line.
    BadHeader(Seq<u8>),
}

/// Reads one frame from the start of `s`, with `cl` the `Content-Length`
/// seen so far (zero at the start of a frame). Mirrors, line by line, what
/// the frame reader does with the bytes it consumes.
pub open spec fn parse_frame_at(s: Seq<u8>, cl: usize) -> FrameParse
    decreases s.len(),
    via parse_frame_at_decreases
{
    if s.len() == 0 {
        FrameParse::NoFrame
    } else {
        let (line, rest) = take_line(s);
        match classify_spec(line) {
            LineClass::Blank => if cl <= rest.len() {
                FrameParse::Frame(rest.take(cl as int), rest.skip(cl as int))
            } else {
                FrameParse::Truncated
            },
            LineClass::ContentLength(n) => parse_frame_at(rest, n),
            LineClass::Unknown(key) => FrameParse::UnknownHeader(key),
            LineClass::NoColon => FrameParse::BadHeader(line),
            LineClass::BadValue => FrameParse::BadHeader(line),
        }
    }
}

#[via_fn]
proof fn parse_frame_at_decreases(s: Seq<u8>, cl: usize) {
    lemma_find_byte(s, LF);
}

/// Where `find_byte` points: at the first occurrence, if any.
pub proof fn lemma_find_byte(s: Seq<u8>, b: u8)
    ensures
        match find_byte(s, b) {
            Some(i) => 0 <= i < s.len() && s[i] == b && (forall|j: int| 0 <= j < i ==> s[j] != b),
            None => forall|j: int| 0 <= j < s.len() ==> s[j] != b,
        },
    decreases s.len(),
{
    if s.len() > 0 && s.first() != b {
        lemma_find_byte(s.skip(1), b);
        assert(forall|j: int| 1 <= j < s.len() ==> #[trigger] s[j] == s.skip(1)[j - 1]);
    }
}

/// `find_byte` returns exactly the position of the first occurrence.
pub proof fn lemma_find_byte_at(s: Seq<u8>, b: u8, i: int)
    requires
        0 <= i < s.len(),
        s[i] == b,
        forall|j: int| 0 <= j < i ==> s[j] != b,
    ensures
        find_byte(s, b) == Some(i),
{
    lemma_find_byte(s, b);
    match find_byte(s, b) {
        Some(k) => {
            if k < i {
            } else if i < k {
            }
        },
        None => {},
    }
}


/// A decimal representation is at least one byte, all of them digits.
pub proof fn lemma_dec_rep_digits(n: nat)
    ensures
        dec_rep(n).len() >= 1,
        all_digits(dec_rep(n)),
    decreases n,
{
    if n >= 10 {
        lemma_dec_rep_digits(n / 10);
        assert(forall|i: int| 0 <= i < dec_rep(n / 10).len()
            ==> dec_rep(n)[i] == #[trigger] dec_rep(n / 10)[i]);
    }
}

/// Reading the decimal representation of `n` back gives `n`.
pub proof fn lemma_dec_rep_val(n: nat)
    ensures
        dec_val(dec_rep(n)) == n,
    decreases n,
{
    if n < 10 {
        let d = (48 + n) as u8;
        assert(d == 48 + n);
        assert(digit_val(d) == n);
        assert(dec_rep(n) == seq![d]);
        assert(dec_rep(n).last() == d);
        assert(dec_rep(n).drop_last() =~= Seq::<u8>::empty());
        assert(dec_val(dec_rep(n).drop_last()) == 0);
    } else {
        lemma_dec_rep_val(n / 10);
        let d = (48 + n % 10) as u8;
        assert(dec_rep(n) == dec_rep(n / 10).push(d));
        assert(dec_rep(n).drop_last() =~= dec_rep(n / 10));
        assert(dec_rep(n).last() == d);
        assert(digit_val(d) == n % 10);
        assert(n / 10 * 10 + n % 10 == n) by (nonlinear_arith);
    }
}

/// Trailing whitespace is what end-trimming removes.
pub proof fn lemma_trim_end_ws_suffix(s: Seq<u8>, w: Seq<u8>)
    requires
        forall|i: int| 0 <= i < w.len() ==> is_ws(#[trigger] w[i]),
    ensures
        trim_end_spec(s + w) == trim_end_spec(s),
    decreases w.len(),
{
    if w.len() == 0 {
        assert(s + w =~= s);
    } else {
        assert((s + w).last() == w.last());
        assert((s + w).drop_last() =~= s + w.drop_last());
        assert(forall|i: int| 0 <= i < w.drop_last().len()
            ==> is_ws(#[trigger] w.drop_last()[i]));
        lemma_trim_end_ws_suffix(s, w.drop_last());
    }
}

/// The header line built for a body length `n` classifies as that
/// `Content-Length`.
#[verifier::rlimit(60)]
pub proof fn lemma_header_line_class(n: nat)
    requires
        n <= usize::MAX,
    ensures
        classify_spec(header_prefix() + dec_rep(n) + seq![CR, LF])
            == LineClass::ContentLength(n as usize),
{
    let dec = dec_rep(n);
    lemma_dec_rep_digits(n);
    lemma_dec_rep_val(n);
    let t = header_prefix() + dec;
    let line = t + seq![CR, LF];
    assert(header_prefix() + dec + seq![CR, LF] =~= line);
    lemma_trim_end_ws_suffix(t, seq![CR, LF]);
    assert(!is_ws(t.last()));
    assert(trim_end_spec(line) == t);
    assert(t[14] == COLON);
    assert(forall|j: int| 0 <= j < 14 ==> t[j] == #[trigger] content_length_key()[j]);
    assert(forall|j: int| 0 <= j < 14 ==> t[j] != COLON);
    lemma_find_byte_at(t, COLON, 14);
    assert(t.take(14) =~= content_length_key());
    let v = t.skip(15);
    assert(v =~= seq![' ' as u8] + dec);
    assert(is_ws(v.first()));
    assert(v.skip(1) =~= dec);
    assert(!is_ws(dec.first()));
    assert(trim_start_spec(dec) == dec);
    assert(trim_start_spec(v) == trim_start_spec(v.skip(1)));
    assert(trim_start_spec(v) == dec);
    assert(!is_ws(dec.last()));
    assert(trim_spec(v) == dec);
    assert(dec.first() != '+' as u8);
    assert(digits_of(dec) == dec);
    assert(parse_content_length(v) == Some(n as usize));
}

/// The line `\r\n` alone is blank.
pub proof fn lemma_blank_line_class()
    ensures
        classify_spec(seq![CR, LF]) == LineClass::Blank,
{
    lemma_trim_end_ws_suffix(Seq::empty(), seq![CR, LF]);
    assert(Seq::<u8>::empty() + seq![CR, LF] =~= seq![CR, LF]);
    assert(trim_end_spec(seq![CR, LF]).len() == 0);
}

/// No byte of the header block before its first `\n` is a line feed.
#[verifier::rlimit(60)]
proof fn lemma_header_first_lf(n: nat)
    ensures
        ({
            let line = header_prefix() + dec_rep(n) + seq![CR, LF];
            forall|j: int| 0 <= j < line.len() - 1 ==> #[trigger] line[j] != LF
        }),
{
    let dec = dec_rep(n);
    lemma_dec_rep_digits(n);
    let line = header_prefix() + dec + seq![CR, LF];
    assert forall|j: int| 0 <= j < line.len() - 1 implies #[trigger] line[j] != LF by {
        if j < 16 {
            assert(line[j] == header_prefix()[j]);
        } else if j < 16 + dec.len() {
            assert(line[j] == dec[j - 16]);
        } else {
            assert(line[j] == CR);
        }
    }
}

/// Exact framing, read side: a frame built for `body` parses back to exactly
/// `body`, consuming nothing of what follows.
#[verifier::rlimit(60)]
pub proof fn lemma_frame_round_trip(body: Seq<u8>, rest: Seq<u8>)
    requires
        body.len() <= usize::MAX,
    ensures
        parse_frame_at(frame_bytes(body) + rest, 0) == FrameParse::Frame(body, rest),
{
    let n = body.len();
    let dec = dec_rep(n);
    lemma_dec_rep_digits(n);
    let s = frame_bytes(body) + rest;
    let line1 = header_prefix() + dec + seq![CR, LF];
    let s2 = seq![CR, LF] + body + rest;
    assert(s =~= line1 + s2);
    // The first line feed of `s` ends the header line.
    let p = line1.len() - 1;
    assert(s[p] == LF);
    lemma_header_first_lf(n);
    assert(forall|j: int| 0 <= j < p ==> #[trigger] s[j] == line1[j]);
    lemma_find_byte_at(s, LF, p);
    assert(s.take(p + 1) =~= line1);
    assert(s.skip(p + 1) =~= s2);
    lemma_header_line_class(n);
    assert(parse_frame_at(s, 0) == parse_frame_at(s2, n as usize));
    // The blank line ends the header block.
    assert(s2[1] == LF && s2[0] != LF);
    lemma_find_byte_at(s2, LF, 1);
    assert(s2.take(2) =~= seq![CR, LF]);
    let rest2 = s2.skip(2);
    assert(rest2 =~= body + rest);
    lemma_blank_line_class();
    // Exactly `n` body bytes are taken.
    assert(rest2.take(n as int) =~= body);
    assert(rest2.skip(n as int) =~= rest);
    assert(parse_frame_at(s2, n as usize) == FrameParse::Frame(body, rest));
}


/// The concatenation of the frames for `bodies`, in order.
pub open spec fn frames_bytes(bodies: Seq<Seq<u8>>) -> Seq<u8>
    decreases bodies.len(),
{
    if bodies.len() == 0 {
        Seq::empty()
    } else {
        frame_bytes(bodies.first()) + frames_bytes(bodies.skip(1))
    }
}

/// Splits `s` into exactly `n` frames by their declared lengths, demanding
/// that nothing is left over.
pub open spec fn parse_frames(s: Seq<u8>, n: nat) -> Option<Seq<Seq<u8>>>
    decreases n,
{
    if n == 0 {
        if s.len() == 0 {
            Some(Seq::empty())
        } else {
            None
        }
    } else {
        match parse_frame_at(s, 0) {
            FrameParse::Frame(b, rest) => match parse_frames(rest, (n - 1) as nat) {
                Some(bs) => Some(seq![b] + bs),
                None => None,
            },
            _ => None,
        }
    }
}

/// Mutual exclusion, wire level: a stream that is a concatenation of whole
/// frames splits by the declared `Content-Length` values into exactly those
/// bodies — no byte of one frame ends up in another.
pub proof fn lemma_frames_round_trip(bodies: Seq<Seq<u8>>)
    requires
        forall|i: int| 0 <= i < bodies.len() ==> #[trigger] bodies[i].len() <= usize::MAX,
    ensures
        parse_frames(frames_bytes(bodies), bodies.len()) == Some(bodies),
    decreases bodies.len(),
{
    if bodies.len() > 0 {
        lemma_frame_round_trip(bodies.first(), frames_bytes(bodies.skip(1)));
        assert(forall|i: int| 0 <= i < bodies.skip(1).len()
            ==> #[trigger] bodies.skip(1)[i].len() == bodies[i + 1].len());
        lemma_frames_round_trip(bodies.skip(1));
        assert(seq![bodies.first()] + bodies.skip(1) =~= bodies);
    }
}


/// Executable mirror of `classify_spec`; `Unknown` carries the offending key.
pub enum HeaderLine {
    /// Only whitespace: the header block is over.
    Blank,
    /// A well-formed `Content-Length` header with its value.
    ContentLength(usize),
    /// A header whose key is not `Content-Length`; carries the key.
    Unknown(Vec<u8>),
    /// A non-blank line without a colon.
    NoColon,
    /// A `Content-Length` header whose value does not parse.
    BadValue,
}

/// Whether `b` counts as header-line whitespace.
fn is_ws_byte(b: u8) -> (r: bool)
    ensures
        r == is_ws(b),
{
    b == 9 || b == 10 || b == 11 || b == 12 || b == 13 || b == 32
}

/// A numeral prefix never exceeds the value of the whole numeral.
proof fn lemma_dec_val_prefix_le(s: Seq<u8>, k: int)
    requires
        0 <= k <= s.len(),
    ensures
        dec_val(s.take(k)) <= dec_val(s),
    decreases s.len() - k,
{
    if k == s.len() {
        assert(s.take(k) =~= s);
    } else {
        assert(s.take(k + 1).drop_last() =~= s.take(k));
        assert(dec_val(s.take(k + 1)) == dec_val(s.take(k)) * 10 + digit_val(s.take(k + 1).last()));
        lemma_dec_val_prefix_le(s, k + 1);
    }
}

/// Parses a `Content-Length` value exactly as `usize::from_str` would after
/// trimming: optional `+`, decimal digits, value within `usize`.
pub fn parse_content_length_bytes(v: &[u8]) -> (r: Option<usize>)
    ensures
        r == parse_content_length(v@),
{
    let mut a: usize = 0;
    proof {
        assert(v@.skip(0) =~= v@);
    }
    while a < v.len() && is_ws_byte(v[a])
        invariant
            a <= v@.len(),
            trim_start_spec(v@) == trim_start_spec(v@.skip(a as int)),
        decreases v@.len() - a,
    {
        proof {
            assert(v@.skip(a as int).first() == v@[a as int]);
            assert(v@.skip(a as int).skip(1) =~= v@.skip(a as int + 1));
        }
        a = a + 1;
    }
    proof {
        if a < v@.len() {
            assert(v@.skip(a as int).first() == v@[a as int]);
        } else {
            assert(v@.skip(a as int).len() == 0);
        }
        assert(trim_start_spec(v@) == v@.skip(a as int));
    }
    let mut b: usize = v.len();
    proof {
        assert(v@.skip(a as int) =~= v@.subrange(a as int, b as int));
    }
    while b > a && is_ws_byte(v[b - 1])
        invariant
            a <= b <= v@.len(),
            trim_start_spec(v@) == v@.skip(a as int),
            trim_end_spec(v@.skip(a as int)) == trim_end_spec(v@.subrange(a as int, b as int)),
        decreases b,
    {
        proof {
            let cur = v@.subrange(a as int, b as int);
            assert(cur.last() == v@[b - 1]);
            assert(cur.drop_last() =~= v@.subrange(a as int, b as int - 1));
        }
        b = b - 1;
    }
    let ghost t = v@.subrange(a as int, b as int);
    proof {
        if b > a {
            assert(t.last() == v@[b - 1]);
        }
        assert(trim_spec(v@) == t);
    }
    let mut c: usize = a;
    if c < b && v[c] == '+' as u8 {
        c = c + 1;
    }
    let ghost d = v@.subrange(c as int, b as int);
    proof {
        if a < b && v@[a as int] == '+' as u8 {
            assert(t.first() == v@[a as int]);
            assert(t.skip(1) =~= d);
        } else {
            assert(t =~= d);
        }
        assert(digits_of(t) == d);
    }
    if c == b {
        return None;
    }
    let mut n: usize = 0;
    let mut j: usize = c;
    while j < b
        invariant
            c <= j <= b <= v@.len(),
            c < b,
            d == v@.subrange(c as int, b as int),
            digits_of(trim_spec(v@)) == d,
            all_digits(d.take(j - c)),
            n as nat == dec_val(d.take(j - c)),
        decreases b - j,
    {
        let ch = v[j];
        proof {
            assert(d[j - c] == ch);
            assert(d.take(j - c + 1).drop_last() =~= d.take(j - c));
            assert(d.take(j - c + 1).last() == ch);
        }
        if ch < '0' as u8 || ch > '9' as u8 {
            proof {
                assert(!all_digits(d));
            }
            return None;
        }
        let digit = (ch - '0' as u8) as usize;
        if n > usize::MAX / 10 || (n == usize::MAX / 10 && digit > usize::MAX % 10) {
            proof {
                assert(dec_val(d.take(j - c + 1)) == n * 10 + digit);
                assert(n * 10 + digit > usize::MAX) by (nonlinear_arith)
                    requires
                        n > usize::MAX / 10 || (n == usize::MAX / 10 && digit > usize::MAX % 10),
                        digit >= 0,
                ;
                lemma_dec_val_prefix_le(d, j - c + 1);
            }
            return None;
        }
        proof {
            assert(n * 10 + digit <= usize::MAX) by (nonlinear_arith)
                requires
                    n <= usize::MAX / 10,
                    !(n == usize::MAX / 10 && digit > usize::MAX % 10),
                    digit <= 9,
            ;
        }
        n = n * 10 + digit;
        j = j + 1;
    }
    proof {
        assert(d.take(b - c) =~= d);
    }
    Some(n)
}


/// Classifies one raw header line, as read from the stream with its
/// terminator, the way `classify_spec` says.
pub fn classify_header_line(line: &[u8]) -> (r: HeaderLine)
    ensures
        ({
            let c = classify_spec(line@);
            match r {
                HeaderLine::Blank => c == LineClass::Blank,
                HeaderLine::ContentLength(n) => c == LineClass::ContentLength(n),
                HeaderLine::Unknown(key) => c == LineClass::Unknown(key@),
                HeaderLine::NoColon => c == LineClass::NoColon,
                HeaderLine::BadValue => c == LineClass::BadValue,
            }
        }),
{
    let mut end: usize = line.len();
    proof {
        assert(line@.take(line@.len() as int) =~= line@);
    }
    while end > 0 && is_ws_byte(line[end - 1])
        invariant
            end <= line@.len(),
            trim_end_spec(line@) == trim_end_spec(line@.take(end as int)),
        decreases end,
    {
        proof {
            let cur = line@.take(end as int);
            assert(cur.last() == line@[end - 1]);
            assert(cur.drop_last() =~= line@.take(end as int - 1));
        }
        end = end - 1;
    }
    let ghost t = line@.take(end as int);
    proof {
        if end > 0 {
            assert(t.last() == line@[end - 1]);
        }
        assert(trim_end_spec(line@) == t);
    }
    if end == 0 {
        return HeaderLine::Blank;
    }
    let mut c: usize = 0;
    while c < end && line[c] != COLON
        invariant
            c <= end <= line@.len(),
            t == line@.take(end as int),
            trim_end_spec(line@) == t,
            0 < end,
            forall|j: int| 0 <= j < c ==> #[trigger] t[j] != COLON,
        decreases end - c,
    {
        proof {
            assert(t[c as int] == line@[c as int]);
        }
        c = c + 1;
    }
    if c == end {
        proof {
            lemma_find_byte(t, COLON);
        }
        return HeaderLine::NoColon;
    }
    proof {
        assert(t[c as int] == line@[c as int]);
        lemma_find_byte_at(t, COLON, c as int);
    }
    let is_key = c == 14 && line[0] == 'C' as u8 && line[1] == 'o' as u8 && line[2] == 'n' as u8
        && line[3] == 't' as u8 && line[4] == 'e' as u8 && line[5] == 'n' as u8
        && line[6] == 't' as u8 && line[7] == '-' as u8 && line[8] == 'L' as u8
        && line[9] == 'e' as u8 && line[10] == 'n' as u8 && line[11] == 'g' as u8
        && line[12] == 't' as u8 && line[13] == 'h' as u8;
    proof {
        assert(forall|j: int| 0 <= j < c ==> #[trigger] t[j] == line@[j]);
        if is_key {
            assert(t.take(c as int) =~= content_length_key());
        } else if c == 14 && t.take(c as int) == content_length_key() {
            assert(forall|j: int| 0 <= j < 14
                ==> #[trigger] line@[j] == t.take(c as int)[j]);
            assert(line@[0] == 'C' as u8 && line@[1] == 'o' as u8 && line@[2] == 'n' as u8
                && line@[3] == 't' as u8 && line@[4] == 'e' as u8 && line@[5] == 'n' as u8
                && line@[6] == 't' as u8 && line@[7] == '-' as u8 && line@[8] == 'L' as u8
                && line@[9] == 'e' as u8 && line@[10] == 'n' as u8 && line@[11] == 'g' as u8
                && line@[12] == 't' as u8 && line@[13] == 'h' as u8);
            assert(false);
        }
    }
    if is_key {
        let mut vv: Vec<u8> = Vec::new();
        let mut k: usize = c + 1;
        while k < end
            invariant
                c + 1 <= k <= end <= line@.len(),
                vv@ == line@.subrange(c as int + 1, k as int),
            decreases end - k,
        {
            vv.push(line[k]);
            proof {
                assert(vv@ =~= line@.subrange(c as int + 1, k as int + 1));
            }
            k = k + 1;
        }
        proof {
            assert(t.skip(c as int + 1) =~= line@.subrange(c as int + 1, end as int));
        }
        match parse_content_length_bytes(vv.as_slice()) {
            Some(n) => HeaderLine::ContentLength(n),
            None => HeaderLine::BadValue,
        }
    } else {
        let mut key: Vec<u8> = Vec::new();
        let mut k: usize = 0;
        while k < c
            invariant
                k <= c <= end <= line@.len(),
                key@ == line@.subrange(0, k as int),
            decreases c - k,
        {
            key.push(line[k]);
            proof {
                assert(key@ =~= line@.subrange(0, k as int + 1));
            }
            k = k + 1;
        }
        proof {
            assert(key@ =~= t.take(c as int));
        }
        HeaderLine::Unknown(key)
    }
}


/// A chunk with no interior line feed is one whole line when nothing
/// follows it.
pub proof fn lemma_take_line_whole(l: Seq<u8>)
    requires
        l.len() > 0,
        forall|i: int| 0 <= i < l.len() - 1 ==> l[i] != LF,
    ensures
        take_line(l) == (l, Seq::<u8>::empty()),
{
    if l.last() == LF {
        lemma_find_byte_at(l, LF, l.len() - 1);
        assert(l.take(l.len() as int) =~= l);
        assert(l.skip(l.len() as int) =~= Seq::<u8>::empty());
    } else {
        lemma_find_byte(l, LF);
        match find_byte(l, LF) {
            Some(i) => {
                assert(l[i] == LF);
                assert(false);
            },
            None => {},
        }
    }
}

/// A line-feed-terminated chunk with no interior line feed splits off the
/// front of any stream as one line.
pub proof fn lemma_take_line_split(l: Seq<u8>, cont: Seq<u8>)
    requires
        l.len() > 0,
        l.last() == LF,
        forall|i: int| 0 <= i < l.len() - 1 ==> l[i] != LF,
    ensures
        take_line(l + cont) == (l, cont),
{
    let s = l + cont;
    assert(s[l.len() - 1] == LF);
    assert(forall|j: int| 0 <= j < l.len() - 1 ==> #[trigger] s[j] == l[j]);
    lemma_find_byte_at(s, LF, l.len() - 1);
    assert(s.take(l.len() as int) =~= l);
    assert(s.skip(l.len() as int) =~= cont);
}

/// Appending one more frame to a stream of frames appends its bytes.
pub proof fn lemma_frames_bytes_push(bodies: Seq<Seq<u8>>, b: Seq<u8>)
    ensures
        frames_bytes(bodies.push(b)) == frames_bytes(bodies) + frame_bytes(b),
    decreases bodies.len(),
{
    if bodies.len() == 0 {
        assert(bodies.push(b).skip(1) =~= Seq::<Seq<u8>>::empty());
        assert(bodies.push(b).first() == b);
        assert(frame_bytes(b) + frames_bytes(Seq::<Seq<u8>>::empty()) =~= frame_bytes(b));
        assert(frames_bytes(bodies) + frame_bytes(b) =~= frame_bytes(b));
    } else {
        assert(bodies.push(b).first() == bodies.first());
        assert(bodies.push(b).skip(1) =~= bodies.skip(1).push(b));
        lemma_frames_bytes_push(bodies.skip(1), b);
        assert(frame_bytes(bodies.first()) + (frames_bytes(bodies.skip(1)) + frame_bytes(b)) =~= (
        frame_bytes(bodies.first()) + frames_bytes(bodies.skip(1))) + frame_bytes(b));
    }
}

} // verus!
