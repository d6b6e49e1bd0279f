use vstd::prelude::*;
use vstd::utf8::{
    decode_utf8, encode_utf8, encode_utf8_decode_utf8, encode_utf8_valid_utf8, is_ascii_chars,
    is_ascii_chars_encode_utf8, valid_utf8,
};
use crate::types::GpsError;

verus! {

/// The longest sentence line the buffer holds; a longer line is dropped.
pub const LINE_CAPACITY: usize = 128;

pub const CR: u8 = 0x0d;
pub const LF: u8 = 0x0a;

/// Bytes of the sentence line being received.
pub struct LineBuffer {
    line: Vec<u8>,
}

/// What one received byte completes: nothing, or the bytes of a non-empty line.
pub open spec fn feed_spec(line: Seq<u8>, byte: u8) -> (Seq<u8>, Option<Seq<u8>>) {
    if byte == CR {
        (line, None)
    } else if byte == LF {
        if line.len() == 0 {
            (line, None)
        } else {
            (Seq::empty(), Some(line))
        }
    } else if line.len() < LINE_CAPACITY {
        (line.push(byte), None)
    } else {
        (Seq::empty(), None)
    }
}

/// What `consume_byte` returns for what the byte completed.
pub open spec fn sentence_of<E>(done: Option<Seq<u8>>, r: Result<Option<String>, GpsError<E>>) -> bool {
    match done {
        None => r is Ok && r->Ok_0 is None,
        Some(bytes) => if valid_utf8(bytes) {
            r is Ok && r->Ok_0 is Some && r->Ok_0->Some_0@ == decode_utf8(bytes)
        } else {
            r is Err && r->Err_0 is Utf8
        },
    }
}

/// The text of a byte string, if it is valid UTF-8: std's `String::from_utf8`,
/// claimed to succeed exactly on the byte strings that vstd's `valid_utf8`
/// accepts and then to hold the characters that `decode_utf8` reads.
#[verifier::external_body]
fn utf8_string(bytes: Vec<u8>) -> (s: Option<String>)
    ensures
        s is Some <==> valid_utf8(bytes@),
        s matches Some(t) ==> t@ == decode_utf8(bytes@),
{
    String::from_utf8(bytes).ok()
}

impl View for LineBuffer {
    type V = Seq<u8>;

    closed spec fn view(&self) -> Seq<u8> {
        self.line@
    }
}

impl LineBuffer {
    #[verifier::type_invariant]
    spec fn inv(self) -> bool {
        self.line.len() <= LINE_CAPACITY
    }

    /// Number of bytes of the partial line.
    pub fn len(&self) -> (n: usize)
        ensures
            n == self@.len(),
            n <= LINE_CAPACITY,
    {
        proof { use_type_invariant(self); }
        self.line.len()
    }

    /// An empty buffer.
    pub fn new() -> (b: LineBuffer)
        ensures
            b@ == Seq::<u8>::empty(),
    {
        LineBuffer { line: Vec::new() }
    }

    /// Drops the partial line.
    pub fn clear(&mut self)
        ensures
            final(self)@ == Seq::<u8>::empty(),
    {
        self.line = Vec::new();
    }

    /// Finalizes the current line: the bytes received since the last line
    /// end, or nothing if there are none.
    pub fn finish_line(&mut self) -> (done: Option<Vec<u8>>)
        ensures
            old(self)@.len() == 0 ==> done is None && final(self)@ == old(self)@,
            old(self)@.len() > 0 ==> done is Some && done->Some_0@ == old(self)@
                && final(self)@ == Seq::<u8>::empty(),
    {
        if self.line.len() == 0 {
            return None;
        }
        let mut line: Vec<u8> = Vec::new();
        std::mem::swap(&mut line, &mut self.line);
        Some(line)
    }

    /// Feeds one received byte into the line: a carriage return is skipped,
    /// a line feed ends a non-empty line and hands out its bytes, and any
    /// other byte is appended, or drops the whole line when it is full.
    pub fn push_byte(&mut self, byte: u8) -> (done: Option<Vec<u8>>)
        ensures
            old(self)@.len() <= LINE_CAPACITY,
            final(self)@ == feed_spec(old(self)@, byte).0,
            feed_spec(old(self)@, byte).1 == (match done {
                Some(v) => Some(v@),
                None => None::<Seq<u8>>,
            }),
    {
        proof { use_type_invariant(&*self); }
        if byte == CR {
            None
        } else if byte == LF {
            self.finish_line()
        } else if self.line.len() < LINE_CAPACITY {
            let mut line: Vec<u8> = Vec::new();
            std::mem::swap(&mut line, &mut self.line);
            line.push(byte);
            self.line = line;
            None
        } else {
            self.line = Vec::new();
            None
        }
    }

    /// Feeds one UART byte into line buffering and hands out the text of
    /// each completed line; a completed line that is not UTF-8 is an error.
    pub fn consume_byte<E>(&mut self, byte: u8) -> (r: Result<Option<String>, GpsError<E>>)
        ensures
            final(self)@ == feed_spec(old(self)@, byte).0,
            sentence_of(feed_spec(old(self)@, byte).1, r),
    {
        match self.push_byte(byte) {
            None => Ok(None),
            Some(bytes) => match utf8_string(bytes) {
                Some(s) => Ok(Some(s)),
                None => Err(GpsError::Utf8),
            },
        }
    }
}

/// The sentence lines of one received chunk.
pub struct ChunkLines {
    /// Texts of the completed lines, in order.
    pub lines: Vec<String>,
    /// A completed line was not UTF-8; the bytes after it were not read.
    pub utf8_error: bool,
}

/// Feeds a chunk byte by byte until a completed line is not UTF-8: the
/// partial line left over, the completed valid lines in order, and whether
/// a line failed (the bytes after that line are not consumed).
pub open spec fn chunk_spec(line: Seq<u8>, bytes: Seq<u8>) -> (Seq<u8>, Seq<Seq<u8>>, bool)
    decreases bytes.len(),
{
    if bytes.len() == 0 {
        (line, Seq::empty(), false)
    } else {
        let p = chunk_spec(line, bytes.drop_last());
        if p.2 {
            p
        } else {
            let st = feed_spec(p.0, bytes.last());
            match st.1 {
                None => (st.0, p.1, false),
                Some(l) => if valid_utf8(l) {
                    (st.0, p.1.push(l), false)
                } else {
                    (st.0, p.1, true)
                },
            }
        }
    }
}

/// Once a line of a chunk has failed, the rest of the chunk changes nothing.
proof fn lemma_chunk_stops(line: Seq<u8>, bytes: Seq<u8>, k: int, n: int)
    requires
        0 <= k <= n <= bytes.len(),
        chunk_spec(line, bytes.take(k)).2,
    ensures
        chunk_spec(line, bytes.take(n)) == chunk_spec(line, bytes.take(k)),
    decreases n - k,
{
    if n > k {
        lemma_chunk_stops(line, bytes, k, n - 1);
        assert(bytes.take(n).drop_last() =~= bytes.take(n - 1));
    }
}

impl LineBuffer {
    /// Feeds a received chunk into the line, as `consume_byte` does for each
    /// byte, and stops at the first completed line that is not UTF-8.
    pub fn frame_chunk(&mut self, bytes: &[u8]) -> (r: ChunkLines)
        ensures
            final(self)@ == chunk_spec(old(self)@, bytes@).0,
            r.utf8_error == chunk_spec(old(self)@, bytes@).2,
            r.lines@.len() == chunk_spec(old(self)@, bytes@).1.len(),
            forall|i: int| 0 <= i < r.lines@.len() ==> #[trigger] r.lines@[i]@
                == decode_utf8(chunk_spec(old(self)@, bytes@).1[i]),
    {
        let ghost start = self@;
        let mut lines: Vec<String> = Vec::new();
        let mut i: usize = 0;
        assert(bytes@.take(0) =~= Seq::<u8>::empty());
        while i < bytes.len()
            invariant
                i <= bytes@.len(),
                start == old(self)@,
                self@ == chunk_spec(start, bytes@.take(i as int)).0,
                !chunk_spec(start, bytes@.take(i as int)).2,
                lines@.len() == chunk_spec(start, bytes@.take(i as int)).1.len(),
                forall|j: int| 0 <= j < lines@.len() ==> #[trigger] lines@[j]@
                    == decode_utf8(chunk_spec(start, bytes@.take(i as int)).1[j]),
            decreases bytes@.len() - i,
        {
            let ghost before = self@;
            let b = bytes[i];
            assert(bytes@.take(i + 1).drop_last() =~= bytes@.take(i as int));
            assert(bytes@.take(i + 1).last() == b);
            match self.consume_byte::<()>(b) {
                Ok(None) => {},
                Ok(Some(text)) => {
                    lines.push(text);
                },
                Err(_) => {
                    proof {
                        let p = chunk_spec(start, bytes@.take(i as int));
                        assert(chunk_spec(start, bytes@.take(i + 1)) == (feed_spec(p.0, b).0, p.1, true));
                        lemma_chunk_stops(start, bytes@, i + 1, bytes@.len() as int);
                        assert(bytes@.take(bytes@.len() as int) =~= bytes@);
                    }
                    return ChunkLines { lines, utf8_error: true };
                },
            }
            i = i + 1;
        }
        assert(bytes@.take(bytes@.len() as int) =~= bytes@);
        ChunkLines { lines, utf8_error: false }
    }
}

/// Feeds a run of bytes one at a time: the partial line left over and the
/// lines completed, in order.
pub open spec fn feed_all(line: Seq<u8>, bytes: Seq<u8>) -> (Seq<u8>, Seq<Seq<u8>>)
    decreases bytes.len(),
{
    if bytes.len() == 0 {
        (line, Seq::empty())
    } else {
        let prev = feed_all(line, bytes.drop_last());
        let step = feed_spec(prev.0, bytes.last());
        (step.0, match step.1 {
            Some(done) => prev.1.push(done),
            None => prev.1,
        })
    }
}

/// Feeding more bytes only adds completed lines after those already
/// completed.
proof fn lemma_feed_all_extends(line: Seq<u8>, bytes: Seq<u8>, k: int)
    requires
        0 <= k <= bytes.len(),
    ensures
        feed_all(line, bytes.take(k)).1.len() <= feed_all(line, bytes).1.len(),
        feed_all(line, bytes).1.take(feed_all(line, bytes.take(k)).1.len() as int)
            == feed_all(line, bytes.take(k)).1,
    decreases bytes.len() - k,
{
    if k == bytes.len() {
        assert(bytes.take(k) =~= bytes);
        assert(feed_all(line, bytes).1.take(feed_all(line, bytes).1.len() as int) =~= feed_all(line, bytes).1);
    } else {
        lemma_feed_all_extends(line, bytes.drop_last(), k);
        assert(bytes.drop_last().take(k) =~= bytes.take(k));
        let a = feed_all(line, bytes.take(k)).1;
        let b = feed_all(line, bytes.drop_last()).1;
        let c = feed_all(line, bytes).1;
        assert(c == b || c == b.push(feed_spec(feed_all(line, bytes.drop_last()).0, bytes.last()).1.unwrap()));
        assert(c.take(a.len() as int) =~= b.take(a.len() as int));
    }
}

/// Framing a chunk is feeding its bytes one at a time until a completed
/// line is not UTF-8: when every line the bytes complete is UTF-8, the
/// chunk gives exactly the lines and the partial line that feeding all
/// bytes gives, and reports no error; otherwise it reports the error and
/// gives the lines before the first line that is not UTF-8.
pub proof fn lemma_chunk_is_feed_until_bad_line(line: Seq<u8>, bytes: Seq<u8>)
    ensures
        ({
            let c = chunk_spec(line, bytes);
            let f = feed_all(line, bytes);
            &&& !c.2 <==> (forall|j: int| 0 <= j < f.1.len() ==> valid_utf8(#[trigger] f.1[j]))
            &&& !c.2 ==> c.0 == f.0 && c.1 == f.1
            &&& c.2 ==> c.1.len() < f.1.len() && c.1 == f.1.take(c.1.len() as int)
                && !valid_utf8(f.1[c.1.len() as int])
        }),
    decreases bytes.len(),
{
    if bytes.len() > 0 {
        let pre = bytes.drop_last();
        lemma_chunk_is_feed_until_bad_line(line, pre);
        let p = chunk_spec(line, pre);
        let fp = feed_all(line, pre);
        let f = feed_all(line, bytes);
        assert(bytes.take(bytes.len() - 1) =~= pre);
        lemma_feed_all_extends(line, bytes, bytes.len() - 1);
        if p.2 {
            assert(fp.1.take(p.1.len() as int) == p.1);
            assert(f.1.take(fp.1.len() as int) == fp.1);
            assert(f.1.take(p.1.len() as int) =~= p.1);
            assert(f.1[p.1.len() as int] == fp.1[p.1.len() as int]);
        } else {
            let st = feed_spec(fp.0, bytes.last());
            match st.1 {
                None => {
                    assert(f.1 == fp.1);
                },
                Some(l) => {
                    assert(f.1 == fp.1.push(l));
                    if valid_utf8(l) {
                        assert forall|j: int| 0 <= j < f.1.len() implies valid_utf8(#[trigger] f.1[j]) by {
                            if j < fp.1.len() {
                                assert(f.1[j] == fp.1[j]);
                            }
                        }
                    } else {
                        assert(fp.1 =~= f.1.take(fp.1.len() as int));
                        assert(!valid_utf8(f.1[fp.1.len() as int]));
                    }
                },
            }
        }
    }
}

/// Bytes that neither end nor break a line.
pub open spec fn is_line_content(w: Seq<u8>) -> bool {
    forall|i: int| 0 <= i < w.len() ==> w[i] != CR && w[i] != LF
}

/// Line content fed into an empty buffer completes no line; what stays
/// buffered is the part received since the line last overflowed, which
/// happens on every 129th byte.
#[verifier::spinoff_prover]
#[verifier::rlimit(40)]
pub proof fn lemma_feed_content(w: Seq<u8>)
    requires
        is_line_content(w),
    ensures
        feed_all(Seq::empty(), w) == (
            w.subrange(w.len() - w.len() % 129, w.len() as int),
            Seq::<Seq<u8>>::empty(),
        ),
    decreases w.len(),
{
    if w.len() > 0 {
        let m = w.len() - 1;
        let u = w.drop_last();
        assert(is_line_content(u));
        lemma_feed_content(u);
        assert(u.subrange(m - m % 129, m) =~= w.subrange(m - m % 129, m));
        if m % 129 < 128 {
            assert(w.len() % 129 == m % 129 + 1);
            assert(w.subrange(m - m % 129, m).push(w.last()) =~= w.subrange(
                w.len() - w.len() % 129,
                w.len() as int,
            ));
        } else {
            assert(w.len() % 129 == 0);
            assert(w.subrange(w.len() as int, w.len() as int) =~= Seq::<u8>::empty());
        }
    } else {
        assert(w.subrange(0, 0) =~= Seq::<u8>::empty());
    }
}

/// A sentence line of 1 to 128 bytes, ended by a line feed, with or without
/// a carriage return before it, comes out whole, and the buffer is empty
/// afterwards.
pub proof fn lemma_line_round_trip(w: Seq<u8>)
    requires
        is_line_content(w),
        1 <= w.len() <= LINE_CAPACITY,
    ensures
        feed_all(Seq::empty(), w.push(LF)) == (Seq::<u8>::empty(), seq![w]),
        feed_all(Seq::empty(), w.push(CR).push(LF)) == (Seq::<u8>::empty(), seq![w]),
{
    lemma_feed_content(w);
    assert(w.len() % 129 == w.len());
    assert(w.subrange(0, w.len() as int) =~= w);
    assert(w.push(LF).drop_last() =~= w);
    assert(w.push(CR).drop_last() =~= w);
    assert(w.push(CR).push(LF).drop_last() =~= w.push(CR));
    assert(feed_all(Seq::empty(), w.push(CR)) == (w, Seq::<Seq<u8>>::empty()));
    assert(Seq::<Seq<u8>>::empty().push(w) =~= seq![w]);
}

/// A line of exactly 129 bytes overflows the buffer and is never handed
/// out: the line feed that ends it completes nothing.
pub proof fn lemma_overlong_line_dropped(w: Seq<u8>)
    requires
        is_line_content(w),
        w.len() == LINE_CAPACITY + 1,
    ensures
        feed_all(Seq::empty(), w.push(LF)) == (Seq::<u8>::empty(), Seq::<Seq<u8>>::empty()),
{
    lemma_feed_content(w);
    assert(w.push(LF).drop_last() =~= w);
    assert(w.subrange(w.len() as int, w.len() as int) =~= Seq::<u8>::empty());
}

/// The characters of ASCII bytes, one per byte.
pub open spec fn ascii_chars(bytes: Seq<u8>) -> Seq<char> {
    Seq::new(bytes.len(), |i: int| bytes[i] as char)
}

/// A line of ASCII bytes, such as every NMEA sentence, is valid UTF-8 and
/// its text is its bytes read one character each: `consume_byte` hands the
/// sentence out as it was received.
pub proof fn lemma_ascii_line_text(bytes: Seq<u8>)
    requires
        forall|i: int| 0 <= i < bytes.len() ==> bytes[i] < 0x80,
    ensures
        valid_utf8(bytes),
        decode_utf8(bytes) == ascii_chars(bytes),
{
    let chars = ascii_chars(bytes);
    assert forall|i: int| 0 <= i < chars.len() implies '\0' <= #[trigger] chars[i] <= '\u{7f}' by {
        let b = bytes[i];
        assert(b < 0x80);
    }
    assert(is_ascii_chars(chars));
    is_ascii_chars_encode_utf8(chars);
    assert forall|i: int| 0 <= i < bytes.len() implies #[trigger] encode_utf8(chars)[i] == bytes[i] by {
        let b = bytes[i];
        assert(chars[i] as u8 == encode_utf8(chars)[i]);
        assert((b as char) as u8 == b);
    }
    assert(encode_utf8(chars) =~= bytes);
    encode_utf8_valid_utf8(chars);
    encode_utf8_decode_utf8(chars);
}

} // verus!
