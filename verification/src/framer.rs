//! The request framer: from the bytes of a connection to the lines of one
//! request's head.
//!
//! A line ends with a carriage return and a line feed. The head ends with an
//! empty line. The framer takes one byte at a time, so that its caller reads
//! no further than the end of the head.

use crate::text::{find, lemma_find_from, occurs_at, string_views};
use vstd::prelude::*;
use vstd::string::*;
use vstd::utf8::{
    decode_utf8, encode_utf8, encode_utf8_decode_utf8, encode_utf8_valid_utf8, is_ascii_chars,
    is_ascii_chars_encode_utf8, valid_utf8,
};

verus! {

/// Carriage return.
pub const CR: u8 = 0x0d;

/// Line feed.
pub const LF: u8 = 0x0a;

/// The two bytes that end a line.
pub open spec fn line_end() -> Seq<u8> {
    seq![CR, LF]
}

/// The state of a framer.
pub struct FramerView {
    /// The lines that are complete, without their line ends.
    pub lines: Seq<Seq<u8>>,
    /// The bytes of the line that is not complete yet.
    pub pending: Seq<u8>,
    /// Whether the empty line has been read.
    pub finished: bool,
}

/// The state of a framer that has taken no byte.
pub open spec fn initial() -> FramerView {
    FramerView { lines: Seq::empty(), pending: Seq::empty(), finished: false }
}

/// Whether the last two of `bytes` are a line end.
pub open spec fn ends_line(bytes: Seq<u8>) -> bool {
    bytes.len() >= 2 && bytes[bytes.len() - 2] == CR && bytes[bytes.len() - 1] == LF
}

/// The state after one more byte. The byte joins the pending line. If that
/// line now ends with a line end, it is complete: if it holds nothing else the
/// head is finished, otherwise the line, without its line end, joins the lines.
/// A finished framer takes no more bytes.
pub open spec fn step(state: FramerView, byte: u8) -> FramerView {
    if state.finished {
        state
    } else {
        let pending = state.pending.push(byte);
        if !ends_line(pending) {
            FramerView { lines: state.lines, pending: pending, finished: false }
        } else if pending.len() == 2 {
            FramerView { lines: state.lines, pending: Seq::empty(), finished: true }
        } else {
            FramerView {
                lines: state.lines.push(pending.take(pending.len() - 2)),
                pending: Seq::empty(),
                finished: false,
            }
        }
    }
}

/// The state after each of `bytes` in turn.
pub open spec fn run(state: FramerView, bytes: Seq<u8>) -> FramerView
    decreases bytes.len(),
{
    if bytes.len() == 0 {
        state
    } else {
        run(step(state, bytes[0]), bytes.drop_first())
    }
}

/// The lines of the head with which `bytes` begin, as bytes; `None` where
/// `bytes` end before the empty line.
pub open spec fn framed(bytes: Seq<u8>) -> Option<Seq<Seq<u8>>> {
    let state = run(initial(), bytes);
    if state.finished {
        Some(state.lines)
    } else {
        None
    }
}

/// The text that `String::from_utf8_lossy` makes of a sequence of bytes.
pub uninterp spec fn lossy_text(bytes: Seq<u8>) -> Seq<char>;

/// The text of a line: what its bytes encode where they are valid UTF-8, and
/// else what `String::from_utf8_lossy` makes of them.
pub open spec fn line_text(line: Seq<u8>) -> Seq<char> {
    if valid_utf8(line) {
        decode_utf8(line)
    } else {
        lossy_text(line)
    }
}

/// The text of each of the given lines.
pub open spec fn decoded(lines: Seq<Seq<u8>>) -> Seq<Seq<char>> {
    lines.map_values(|line: Seq<u8>| line_text(line))
}

/// The lines of the head with which `bytes` begin, as text.
pub open spec fn framed_text(bytes: Seq<u8>) -> Option<Seq<Seq<char>>> {
    match framed(bytes) {
        Some(lines) => Some(decoded(lines)),
        None => None,
    }
}

/// The byte sequences held by a vector of byte vectors.
pub open spec fn byte_views(lines: Seq<Vec<u8>>) -> Seq<Seq<u8>> {
    lines.map_values(|line: Vec<u8>| line@)
}

/// `String::from_utf8_lossy` decodes bytes to text and puts U+FFFD in place of
/// what is not valid UTF-8; bytes that are valid UTF-8 give the text that they
/// encode.
#[verifier::external_body]
fn decode_lossy(bytes: &[u8]) -> (text: String)
    ensures
        text@ == lossy_text(bytes@),
        valid_utf8(bytes@) ==> text@ == decode_utf8(bytes@),
{
    String::from_utf8_lossy(bytes).to_string()
}

/// The text of each of the given lines, in their order. A line that is valid
/// UTF-8 gives the text that it encodes.
pub fn decode_lines(lines: &Vec<Vec<u8>>) -> (texts: Vec<String>)
    ensures
        string_views(texts@) == decoded(byte_views(lines@)),
        texts@.len() == lines@.len(),
        forall|i: int|
            0 <= i < lines@.len() && valid_utf8(lines@[i]@) ==> (#[trigger] texts@[i])@
                == decode_utf8(lines@[i]@),
{
    let mut texts: Vec<String> = Vec::new();
    let mut i: usize = 0;
    while i < lines.len()
        invariant
            i <= lines.len(),
            texts@.len() == i,
            string_views(texts@) == decoded(byte_views(lines@).take(i as int)),
            forall|k: int|
                0 <= k < i && valid_utf8(lines@[k]@) ==> (#[trigger] texts@[k])@ == decode_utf8(
                    lines@[k]@,
                ),
        decreases lines.len() - i,
    {
        let ghost before = string_views(texts@);
        let text = decode_lossy(lines[i].as_slice());
        texts.push(text);
        assert(string_views(texts@) =~= before.push(line_text(lines@[i as int]@)));
        assert(decoded(byte_views(lines@).take(i + 1)) =~= before.push(
            line_text(lines@[i as int]@),
        ));
        i += 1;
    }
    assert(byte_views(lines@).take(lines@.len() as int) =~= byte_views(lines@));
    texts
}

/// A framer: the lines read so far and the bytes of the line being read.
pub struct Framer {
    packet: Vec<Vec<u8>>,
    line_buff: Vec<u8>,
    finished: bool,
}

impl View for Framer {
    type V = FramerView;

    closed spec fn view(&self) -> FramerView {
        FramerView {
            lines: byte_views(self.packet@),
            pending: self.line_buff@,
            finished: self.finished,
        }
    }
}

impl Framer {
    /// A framer that has taken no byte.
    pub fn new() -> (framer: Framer)
        ensures
            framer@ == initial(),
    {
        let framer = Framer { packet: Vec::new(), line_buff: Vec::new(), finished: false };
        assert(framer@.lines =~= Seq::empty());
        framer
    }

    /// Takes the next byte of the connection, and says whether the head is
    /// finished.
    pub fn push(&mut self, byte: u8) -> (finished: bool)
        ensures
            final(self)@ == step(old(self)@, byte),
            finished == final(self)@.finished,
    {
        if self.finished {
            return true;
        }
        self.line_buff.push(byte);
        let n = self.line_buff.len();
        if n >= 2 && self.line_buff[n - 2] == CR && self.line_buff[n - 1] == LF {
            let ghost pending = self.line_buff@;
            let ghost before = byte_views(self.packet@);
            let mut line: Vec<u8> = Vec::new();
            std::mem::swap(&mut self.line_buff, &mut line);
            if n == 2 {
                self.finished = true;
            } else {
                line.truncate(n - 2);
                assert(line@ =~= pending.take(n - 2));
                self.packet.push(line);
                assert(byte_views(self.packet@) =~= before.push(pending.take(n - 2)));
            }
        }
        self.finished
    }

    /// Whether the head is finished.
    pub fn is_finished(&self) -> (finished: bool)
        ensures
            finished == self@.finished,
    {
        self.finished
    }

    /// The lines of the head as text, once it is finished; `None` before
    /// that. A line that is valid UTF-8 gives the text that it encodes; in any
    /// other line the bytes that are not valid are replaced, not refused.
    pub fn into_lines(self) -> (r: Option<Vec<String>>)
        ensures
            match r {
                Some(lines) => {
                    &&& self@.finished
                    &&& string_views(lines@) == decoded(self@.lines)
                    &&& lines@.len() == self@.lines.len()
                    &&& forall|i: int|
                        0 <= i < lines@.len() && valid_utf8(self@.lines[i]) ==> (
                        #[trigger] lines@[i])@ == decode_utf8(self@.lines[i])
                },
                None => !self@.finished,
            },
    {
        if self.finished {
            let lines = decode_lines(&self.packet);
            assert forall|i: int|
                0 <= i < lines@.len() && valid_utf8(self@.lines[i]) implies (
            #[trigger] lines@[i])@ == decode_utf8(self@.lines[i]) by {
                assert(self@.lines[i] == self.packet@[i]@);
            }
            Some(lines)
        } else {
            None
        }
    }
}

/// The lines of the head with which `stream` begins, as text; `None` where
/// the stream ends before the empty line. A line that is valid UTF-8 gives
/// the text that it encodes.
pub fn read_stream(stream: &[u8]) -> (r: Option<Vec<String>>)
    ensures
        match r {
            Some(lines) => {
                &&& framed_text(stream@) == Some(string_views(lines@))
                &&& framed(stream@) matches Some(raw) && lines@.len() == raw.len()
                &&& forall|i: int|
                    0 <= i < lines@.len() && valid_utf8(framed(stream@)->0[i]) ==> (
                    #[trigger] lines@[i])@ == decode_utf8(framed(stream@)->0[i])
            },
            None => framed_text(stream@) is None,
        },
{
    let mut framer = Framer::new();
    let mut i: usize = 0;
    assert(stream@.skip(0) =~= stream@);
    while i < stream.len()
        invariant
            i <= stream.len(),
            run(initial(), stream@) == run(framer@, stream@.skip(i as int)),
        decreases stream.len() - i,
    {
        assert(stream@.skip(i as int)[0] == stream@[i as int]);
        assert(stream@.skip(i as int).drop_first() =~= stream@.skip(i + 1));
        let finished = framer.push(stream[i]);
        i += 1;
        if finished {
            proof {
                lemma_finished_stays(framer@, stream@.skip(i as int));
            }
            return framer.into_lines();
        }
    }
    framer.into_lines()
}

/// A finished framer stays as it is, whatever bytes follow.
pub proof fn lemma_finished_stays(state: FramerView, bytes: Seq<u8>)
    requires
        state.finished,
    ensures
        run(state, bytes) == state,
    decreases bytes.len(),
{
    if bytes.len() > 0 {
        lemma_finished_stays(state, bytes.drop_first());
    }
}

/// The bytes of the given lines, each followed by a line end.
pub open spec fn joined(lines: Seq<Seq<u8>>) -> Seq<u8>
    decreases lines.len(),
{
    if lines.len() == 0 {
        Seq::empty()
    } else {
        lines[0] + line_end() + joined(lines.drop_first())
    }
}

/// A framer that is `k` bytes into a line without a line end inside takes the
/// rest of the line and its line end, and has then one more line.
proof fn lemma_line_read(state: FramerView, line: Seq<u8>, k: int, tail: Seq<u8>)
    requires
        !state.finished,
        0 <= k <= line.len(),
        line.len() > 0,
        state.pending == line.take(k),
        find(line, line_end()) is None,
    ensures
        run(state, line.skip(k) + line_end() + tail) == run(
            FramerView {
                lines: state.lines.push(line),
                pending: Seq::empty(),
                finished: false,
            },
            tail,
        ),
    decreases line.len() - k,
{
    let bytes = line.skip(k) + line_end() + tail;
    if k < line.len() {
        assert(state.pending.push(line[k]) =~= line.take(k + 1));
        if ends_line(line.take(k + 1)) {
            lemma_find_from(line, line_end(), 0);
            assert(line.subrange(k - 1, k - 1 + 2) =~= line_end());
            assert(occurs_at(line, line_end(), k - 1));
        }
        assert(bytes[0] == line[k]);
        assert(bytes.drop_first() =~= line.skip(k + 1) + line_end() + tail);
        lemma_line_read(step(state, line[k]), line, k + 1, tail);
    } else {
        assert(line.take(k) =~= line);
        let after_cr = step(state, CR);
        let after_lf = step(after_cr, LF);
        let pending = line.push(CR).push(LF);
        assert(bytes[0] == CR);
        assert(bytes.drop_first()[0] == LF);
        assert(bytes.drop_first().drop_first() =~= tail);
        assert(!ends_line(line.push(CR)));
        assert(ends_line(pending));
        assert(pending.take(pending.len() - 2) =~= line);
        assert(run(state, bytes) == run(after_cr, bytes.drop_first()));
        assert(run(after_cr, bytes.drop_first()) == run(after_lf, tail));
    }
}

/// A framer at the start of a line takes the given lines and the empty line,
/// and is then finished, whatever follows.
proof fn lemma_lines_read(state: FramerView, lines: Seq<Seq<u8>>, rest: Seq<u8>)
    requires
        !state.finished,
        state.pending == Seq::<u8>::empty(),
        forall|i: int|
            0 <= i < lines.len() ==> (#[trigger] lines[i]).len() > 0 && find(
                lines[i],
                line_end(),
            ) is None,
    ensures
        run(state, joined(lines) + line_end() + rest) == (FramerView {
            lines: state.lines + lines,
            pending: Seq::empty(),
            finished: true,
        }),
    decreases lines.len(),
{
    let bytes = joined(lines) + line_end() + rest;
    if lines.len() == 0 {
        let after_cr = step(state, CR);
        let after_lf = step(after_cr, LF);
        assert(bytes[0] == CR);
        assert(bytes.drop_first()[0] == LF);
        assert(state.pending.push(CR).push(LF) =~= line_end());
        assert(run(state, bytes) == run(after_cr, bytes.drop_first()));
        assert(run(after_cr, bytes.drop_first()) == run(
            after_lf,
            bytes.drop_first().drop_first(),
        ));
        lemma_finished_stays(after_lf, bytes.drop_first().drop_first());
        assert(state.lines + lines =~= state.lines);
    } else {
        let line = lines[0];
        let tail = joined(lines.drop_first()) + line_end() + rest;
        let next = FramerView {
            lines: state.lines.push(line),
            pending: Seq::empty(),
            finished: false,
        };
        assert(line.take(0) =~= Seq::<u8>::empty());
        assert(line.skip(0) =~= line);
        assert(bytes =~= line.skip(0) + line_end() + tail);
        lemma_line_read(state, line, 0, tail);
        assert forall|i: int| 0 <= i < lines.drop_first().len() implies (
        #[trigger] lines.drop_first()[i]).len() > 0 && find(
            lines.drop_first()[i],
            line_end(),
        ) is None by {
            assert(lines.drop_first()[i] == lines[i + 1]);
        }
        lemma_lines_read(next, lines.drop_first(), rest);
        assert(next.lines + lines.drop_first() =~= state.lines + lines);
    }
}

/// Where a stream begins with lines that are not empty and have no line end
/// inside, each followed by a line end, and then an empty line, the framer
/// gives exactly those lines, without their line ends and in their order,
/// whatever follows the empty line.
pub proof fn lemma_framed_head(lines: Seq<Seq<u8>>, rest: Seq<u8>)
    requires
        forall|i: int|
            0 <= i < lines.len() ==> (#[trigger] lines[i]).len() > 0 && find(
                lines[i],
                line_end(),
            ) is None,
    ensures
        framed(joined(lines) + line_end() + rest) == Some(lines),
        framed_text(joined(lines) + line_end() + rest) == Some(decoded(lines)),
{
    lemma_lines_read(initial(), lines, rest);
    assert(initial().lines + lines =~= lines);
}

/// A line that is the UTF-8 of a text gives that text.
pub proof fn lemma_encoded_line_text(text: Seq<char>)
    ensures
        valid_utf8(encode_utf8(text)),
        line_text(encode_utf8(text)) == text,
{
    encode_utf8_valid_utf8(text);
    encode_utf8_decode_utf8(text);
}

/// A line of ASCII bytes gives the characters that the bytes stand for, one
/// for each byte.
pub proof fn lemma_ascii_line_text(line: Seq<u8>)
    requires
        forall|i: int| 0 <= i < line.len() ==> line[i] < 128,
    ensures
        valid_utf8(line),
        line_text(line) == Seq::new(line.len(), |i: int| line[i] as char),
{
    let text = Seq::new(line.len(), |i: int| line[i] as char);
    assert(is_ascii_chars(text)) by {
        assert forall|i: int| 0 <= i < text.len() implies '\0' <= #[trigger] text[i]
            <= '\u{7f}' by {
            assert(line[i] < 128);
        }
    }
    is_ascii_chars_encode_utf8(text);
    assert(encode_utf8(text) =~= line) by {
        assert forall|i: int| 0 <= i < line.len() implies encode_utf8(text)[i] == line[i] by {
            assert(text[i] as u8 == encode_utf8(text)[i]);
            assert((line[i] as char) as u8 == line[i]);
        }
    }
    lemma_encoded_line_text(text);
}

} // verus!
