//! The logging port and its in-memory implementations.
//!
//! The engine reports progress through the [`Logger`] trait, one fully
//! formatted line per event. [`MemoryLogger`] records those lines directly;
//! [`MemoryWriter`] buffers raw bytes written by a surrounding logging
//! subsystem and splits them back into displayable lines.

use vstd::prelude::*;

verus! {

/// The logging port: a sink for single-line human-readable status messages.
/// An implementation is abstracted by the sequence of lines logged so far.
pub trait Logger {
    /// The lines logged so far, oldest first. An implementation outside the
    /// library may leave this at its default; the engine's contracts about
    /// the log then say nothing of such a sink.
    open spec fn lines(&self) -> Seq<Seq<char>> {
        Seq::empty()
    }

    /// Appends one fully formatted line to the log. Must not fail.
    fn log(&mut self, message: &str)
        ensures
            final(self).lines() == old(self).lines().push(message@);
}

/// A logging port that records every line in memory, so that tests and a
/// session display can read the log back.
pub struct MemoryLogger {
    pub messages: Vec<String>,
}

impl MemoryLogger {
    /// A logger with an empty log.
    pub fn new() -> (r: MemoryLogger)
        ensures
            r.lines() == Seq::<Seq<char>>::empty(),
    {
        let logger = MemoryLogger { messages: Vec::new() };
        proof {
            assert(logger.messages.deep_view() =~= Seq::<Seq<char>>::empty());
        }
        logger
    }
}

impl Logger for MemoryLogger {
    open spec fn lines(&self) -> Seq<Seq<char>> {
        self.messages.deep_view()
    }

    fn log(&mut self, message: &str) {
        self.messages.push(message.to_owned());
        proof {
            assert(self.messages.deep_view() =~= old(self).messages.deep_view().push(message@));
        }
    }
}

/// What `String::from_utf8_lossy` decodes a byte sequence to.
pub uninterp spec fn lossy_of(bytes: Seq<u8>) -> Seq<char>;

/// Relies on `String::from_utf8_lossy`: the result depends on the bytes
/// alone.
#[verifier::external_body]
fn lossy_string(bytes: &[u8]) -> (r: String)
    ensures
        r@ == lossy_of(bytes@),
{
    String::from_utf8_lossy(bytes).into_owned()
}

/// A line with one trailing carriage return removed, as a text line ends
/// under the `\r\n` convention.
pub open spec fn strip_cr(line: Seq<u8>) -> Seq<u8> {
    if line.len() > 0 && line.last() == 13u8 {
        line.drop_last()
    } else {
        line
    }
}

/// The displayable text of one raw line.
pub open spec fn line_text(line: Seq<u8>) -> Seq<char> {
    lossy_of(strip_cr(line))
}

/// All newline-separated segments of `bytes`, including the (possibly
/// empty) final segment after the last newline; never empty as a sequence.
pub open spec fn segments_of(bytes: Seq<u8>) -> Seq<Seq<u8>>
    decreases bytes.len(),
{
    if bytes.len() == 0 {
        seq![Seq::<u8>::empty()]
    } else if bytes.last() == 10u8 {
        segments_of(bytes.drop_last()).push(Seq::<u8>::empty())
    } else {
        let prev = segments_of(bytes.drop_last());
        prev.update(prev.len() - 1, prev.last().push(bytes.last()))
    }
}

/// The lines a byte buffer displays as: its newline-separated segments,
/// without a trailing empty segment, each stripped of one trailing carriage
/// return and decoded.
pub open spec fn logs_of(bytes: Seq<u8>) -> Seq<Seq<char>> {
    let all = segments_of(bytes);
    let kept = if all.last().len() == 0 {
        all.drop_last()
    } else {
        all
    };
    kept.map_values(|line: Seq<u8>| line_text(line))
}

proof fn lemma_segments_of_nonempty(bytes: Seq<u8>)
    ensures
        segments_of(bytes).len() >= 1,
    decreases bytes.len(),
{
    if bytes.len() > 0 {
        lemma_segments_of_nonempty(bytes.drop_last());
    }
}

proof fn lemma_segments_of_push(bytes: Seq<u8>, b: u8)
    ensures
        b == 10u8 ==> segments_of(bytes.push(b)) == segments_of(bytes).push(Seq::<u8>::empty()),
        b != 10u8 ==> segments_of(bytes.push(b)) == segments_of(bytes).update(
            segments_of(bytes).len() - 1,
            segments_of(bytes).last().push(b),
        ),
{
    assert(bytes.push(b).drop_last() =~= bytes);
    assert(bytes.push(b).last() == b);
    assert(bytes.push(b).len() == bytes.len() + 1);
}

/// A byte buffer that collects the raw output of a logging subsystem so the
/// collected lines can be read back.
pub struct MemoryWriter {
    pub buffer: Vec<u8>,
}

impl MemoryWriter {
    /// An empty buffer.
    pub fn new() -> (r: MemoryWriter)
        ensures
            r.buffer@ == Seq::<u8>::empty(),
    {
        MemoryWriter { buffer: Vec::new() }
    }

    /// Appends raw bytes to the buffer.
    pub fn write_bytes(&mut self, data: &[u8])
        ensures
            final(self).buffer@ == old(self).buffer@ + data@,
    {
        let mut i: usize = 0;
        proof {
            assert(old(self).buffer@ + data@.take(0) =~= old(self).buffer@);
        }
        while i < data.len()
            invariant
                i <= data@.len(),
                self.buffer@ == old(self).buffer@ + data@.take(i as int),
            decreases data@.len() - i,
        {
            let b: u8 = data[i];
            self.buffer.push(b);
            proof {
                assert(old(self).buffer@ + data@.take(i + 1) =~= (old(self).buffer@
                    + data@.take(i as int)).push(data@[i as int]));
            }
            i += 1;
        }
        proof {
            assert(data@.take(data@.len() as int) =~= data@);
        }
    }

    /// The buffered bytes split into displayable lines: one line per
    /// newline-separated segment, without a trailing empty segment, each
    /// stripped of one trailing carriage return.
    pub fn logs(&self) -> (r: Vec<String>)
        ensures
            r.deep_view() == logs_of(self.buffer@),
    {
        let ghost all_bytes = self.buffer@;
        let mut out: Vec<String> = Vec::new();
        let mut cur: Vec<u8> = Vec::new();
        let mut i: usize = 0;
        proof {
            assert(all_bytes.take(0) =~= Seq::<u8>::empty());
            assert(out.deep_view() =~= segments_of(all_bytes.take(0)).drop_last().map_values(
                |line: Seq<u8>| line_text(line),
            ));
        }
        while i < self.buffer.len()
            invariant
                i <= all_bytes.len(),
                all_bytes == self.buffer@,
                cur@ == segments_of(all_bytes.take(i as int)).last(),
                out.deep_view() == segments_of(all_bytes.take(i as int)).drop_last().map_values(
                    |line: Seq<u8>| line_text(line),
                ),
            decreases all_bytes.len() - i,
        {
            let ghost segs = segments_of(all_bytes.take(i as int));
            proof {
                lemma_segments_of_nonempty(all_bytes.take(i as int));
                lemma_segments_of_push(all_bytes.take(i as int), all_bytes[i as int]);
                assert(all_bytes.take(i as int).push(all_bytes[i as int]) =~= all_bytes.take(
                    i + 1,
                ));
            }
            let b: u8 = self.buffer[i];
            if b == 10 {
                let line = finish_line(&mut cur);
                out.push(line);
                cur.clear();
                proof {
                    assert(segments_of(all_bytes.take(i + 1)).drop_last() =~= segs);
                    assert(out.deep_view() =~= segs.drop_last().map_values(
                        |line: Seq<u8>| line_text(line),
                    ).push(line_text(segs.last())));
                    assert(segs =~= segs.drop_last().push(segs.last()));
                    assert(segs.drop_last().map_values(|line: Seq<u8>| line_text(line)).push(
                        line_text(segs.last()),
                    ) =~= segs.map_values(|line: Seq<u8>| line_text(line)));
                }
            } else {
                cur.push(b);
                proof {
                    let segs2 = segments_of(all_bytes.take(i + 1));
                    assert(segs2 == segs.update(segs.len() - 1, segs.last().push(
                        all_bytes[i as int],
                    )));
                    assert(segs2.drop_last() =~= segs.drop_last());
                    assert(segs2.last() == segs.last().push(all_bytes[i as int]));
                }
            }
            i += 1;
        }
        proof {
            assert(all_bytes.take(all_bytes.len() as int) =~= all_bytes);
            lemma_segments_of_nonempty(all_bytes);
        }
        if cur.len() > 0 {
            let ghost segs = segments_of(all_bytes);
            let line = finish_line(&mut cur);
            out.push(line);
            proof {
                assert(segs =~= segs.drop_last().push(segs.last()));
                assert(out.deep_view() =~= segs.drop_last().map_values(
                    |line: Seq<u8>| line_text(line),
                ).push(line_text(segs.last())));
                assert(segs.drop_last().map_values(|line: Seq<u8>| line_text(line)).push(
                    line_text(segs.last()),
                ) =~= segs.map_values(|line: Seq<u8>| line_text(line)));
            }
        }
        out
    }
}

impl core::default::Default for MemoryWriter {
    /// An empty buffer.
    fn default() -> (r: MemoryWriter)
        ensures
            r.buffer@ == Seq::<u8>::empty(),
    {
        MemoryWriter::new()
    }
}

/// Finishes the raw line collected so far: strips one trailing carriage
/// return and decodes the bytes, emptying no byte beyond that.
fn finish_line(line: &mut Vec<u8>) -> (r: String)
    ensures
        r@ == line_text(old(line)@),
{
    if line.len() > 0 {
        let last_index: usize = line.len() - 1;
        if line[last_index] == 13 {
            line.pop();
        }
    }
    lossy_string(line.as_slice())
}

} // verus!
