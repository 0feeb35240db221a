//! Incremental decoder for a newline-delimited JSON record stream.
//!
//! Bytes arrive in arbitrary chunks whose boundaries never align with
//! record boundaries. The decoder buffers the unterminated tail, and for
//! every substring that ends at a newline it emits the record that the
//! line carries, if any; a line that carries none is dropped and decoding
//! continues with the next line.

use vstd::prelude::*;

use crate::record::{record_of, RecordModel, StreamRecord};
use vstd::slice::slice_subrange;

verus! {

/// ASCII whitespace, as trimmed from both ends of a line before parsing.
pub open spec fn is_ws(b: u8) -> bool {
    b == 32 || (9 <= b && b <= 13)
}

/// `s` without its leading whitespace.
pub open spec fn trim_front(s: Seq<u8>) -> Seq<u8>
    decreases s.len(),
{
    if s.len() > 0 && is_ws(s[0]) {
        trim_front(s.drop_first())
    } else {
        s
    }
}

/// `s` without its trailing whitespace.
pub open spec fn trim_back(s: Seq<u8>) -> Seq<u8>
    decreases s.len(),
{
    if s.len() > 0 && is_ws(s.last()) {
        trim_back(s.drop_last())
    } else {
        s
    }
}

/// `s` without surrounding whitespace.
pub open spec fn trimmed(s: Seq<u8>) -> Seq<u8> {
    trim_back(trim_front(s))
}

/// The record one line yields: its trimmed bytes parsed as a record,
/// where a line that is pure whitespace yields none.
pub open spec fn line_record(line: Seq<u8>) -> Option<RecordModel> {
    if trimmed(line).len() > 0 {
        record_of(trimmed(line))
    } else {
        None
    }
}

/// What one completed line contributes to the decoded output.
pub open spec fn line_emit(line: Seq<u8>) -> Seq<RecordModel> {
    match line_record(line) {
        Option::Some(r) => seq![r],
        Option::None => Seq::empty(),
    }
}

/// The decoder's transition function: starting from buffered bytes `buf`
/// and consuming input `s` byte by byte, the records emitted and the
/// bytes left buffered.
pub open spec fn run(buf: Seq<u8>, s: Seq<u8>) -> (Seq<RecordModel>, Seq<u8>)
    decreases s.len(),
{
    if s.len() == 0 {
        (Seq::empty(), buf)
    } else if s[0] == 10 {
        let rest = run(Seq::empty(), s.drop_first());
        (line_emit(buf) + rest.0, rest.1)
    } else {
        run(buf.push(s[0]), s.drop_first())
    }
}

/// The models of a sequence of emitted records.
pub open spec fn models_of(records: Seq<StreamRecord>) -> Seq<RecordModel> {
    records.map_values(|r: StreamRecord| r@)
}

/// Incremental line-oriented record decoder over an arbitrarily chunked
/// byte stream. One instance decodes one stream and is not restartable.
pub struct StreamDecoder {
    buf: Vec<u8>,
}

impl View for StreamDecoder {
    type V = Seq<u8>;

    closed spec fn view(&self) -> Seq<u8> {
        self.buf@
    }
}

/// Returns `v` without surrounding ASCII whitespace.
fn trimmed_slice(v: &[u8]) -> (r: &[u8])
    ensures
        r@ == trimmed(v@),
{
    let n = v.len();
    let mut start: usize = 0;
    proof {
        assert(v@.skip(0) =~= v@);
    }
    while start < n && (v[start] == 32 || (9 <= v[start] && v[start] <= 13))
        invariant
            n == v@.len(),
            start <= n,
            trim_front(v@) == trim_front(v@.skip(start as int)),
        decreases n - start,
    {
        proof {
            assert(v@.skip(start as int).len() > 0);
            assert(v@.skip(start as int)[0] == v@[start as int]);
            assert(v@.skip(start as int).drop_first() =~= v@.skip(start as int + 1));
        }
        start = start + 1;
    }
    proof {
        if start < n {
            assert(v@.skip(start as int)[0] == v@[start as int]);
            assert(!is_ws(v@.skip(start as int)[0]));
        }
        assert(trim_front(v@.skip(start as int)) == v@.skip(start as int));
    }
    let mut end: usize = n;
    while end > start && (v[end - 1] == 32 || (9 <= v[end - 1] && v[end - 1] <= 13))
        invariant
            n == v@.len(),
            start <= end <= n,
            trim_back(v@.skip(start as int)) == trim_back(v@.subrange(start as int, end as int)),
        decreases end,
    {
        proof {
            let sub = v@.subrange(start as int, end as int);
            assert(sub.len() > 0);
            assert(sub.last() == v@[end - 1]);
            assert(sub.drop_last() =~= v@.subrange(start as int, end as int - 1));
        }
        end = end - 1;
    }
    proof {
        let sub = v@.subrange(start as int, end as int);
        if end > start {
            assert(sub.last() == v@[end - 1]);
            assert(!is_ws(sub.last()));
        }
        assert(trim_back(sub) == sub);
        assert(v@.skip(start as int) =~= v@.subrange(start as int, n as int));
    }
    slice_subrange(v, start, end)
}

impl StreamDecoder {
    /// A fresh decoder with an empty buffer.
    pub fn new() -> (d: StreamDecoder)
        ensures
            d@ == Seq::<u8>::empty(),
    {
        StreamDecoder { buf: Vec::new() }
    }

    /// Feeds one chunk of response bytes and returns every record that a
    /// line completed by this chunk carries, in arrival order; the
    /// unterminated tail stays buffered.
    pub fn feed(&mut self, chunk: &[u8]) -> (out: Vec<StreamRecord>)
        ensures
            models_of(out@) == run(old(self)@, chunk@).0,
            final(self)@ == run(old(self)@, chunk@).1,
    {
        let ghost buf0 = self.buf@;
        let mut out: Vec<StreamRecord> = Vec::new();
        let n = chunk.len();
        let mut i: usize = 0;
        while i < n
            invariant
                n == chunk@.len(),
                i <= n,
                models_of(out@) == run(buf0, chunk@.take(i as int)).0,
                self.buf@ == run(buf0, chunk@.take(i as int)).1,
            decreases n - i,
        {
            let b = chunk[i];
            let ghost prev = run(buf0, chunk@.take(i as int));
            let ghost target = run(buf0, chunk@.take(i as int + 1));
            proof {
                lemma_run_append(buf0, chunk@.take(i as int), seq![b]);
                lemma_run_one(prev.1, b);
                assert(chunk@.take(i as int) + seq![b] =~= chunk@.take(i as int + 1));
                if b == 10 {
                    assert(target.0 == prev.0 + line_emit(prev.1));
                    assert(target.1 =~= Seq::<u8>::empty());
                } else {
                    assert(target.0 =~= prev.0 + Seq::<RecordModel>::empty());
                    assert(target.0 =~= prev.0);
                    assert(target.1 == prev.1.push(b));
                }
            }
            if b == 10 {
                let ghost bufn = self.buf@;
                let line = trimmed_slice(self.buf.as_slice());
                if line.len() > 0 {
                    match crate::record::parse_record_line(line) {
                        Option::Some(rec) => {
                            proof {
                                assert(line_record(bufn) is Some);
                                assert(rec@ == line_record(bufn)->Some_0);
                                assert(models_of(out@.push(rec)) =~= models_of(out@).push(rec@));
                                assert(models_of(out@).push(rec@) =~= models_of(out@) + seq![rec@]);
                                assert(target.0 =~= models_of(out@) + seq![rec@]);
                            }
                            out.push(rec);
                        },
                        Option::None => {
                            proof {
                                assert(line_record(bufn) is None);
                                assert(line_emit(bufn) =~= Seq::<RecordModel>::empty());
                                assert(target.0 =~= models_of(out@));
                            }
                        },
                    }
                } else {
                    proof {
                        assert(line_record(bufn) is None);
                        assert(line_emit(bufn) =~= Seq::<RecordModel>::empty());
                        assert(target.0 =~= models_of(out@));
                    }
                }
                self.buf.clear();
            } else {
                self.buf.push(b);
            }
            i = i + 1;
        }
        proof {
            assert(chunk@.take(n as int) =~= chunk@);
        }
        out
    }

    /// Ends the stream: if the remaining buffered tail carries a record,
    /// it is returned; otherwise the tail is discarded.
    pub fn finish(self) -> (r: Option<StreamRecord>)
        ensures
            r is Some <==> line_record(self@) is Some,
            r matches Some(rec) ==> rec@ == line_record(self@)->Some_0,
    {
        let line = trimmed_slice(self.buf.as_slice());
        if line.len() > 0 {
            crate::record::parse_record_line(line)
        } else {
            Option::None
        }
    }
}

/// One byte either completes the buffered line or extends it.
pub proof fn lemma_run_one(buf: Seq<u8>, b: u8)
    ensures
        b == 10 ==> run(buf, seq![b]) == (line_emit(buf), Seq::<u8>::empty()),
        b != 10 ==> run(buf, seq![b]) == (Seq::<RecordModel>::empty(), buf.push(b)),
{
    reveal_with_fuel(run, 3);
    assert(seq![b].drop_first() =~= Seq::<u8>::empty());
    if b == 10 {
        assert(run(Seq::<u8>::empty(), Seq::<u8>::empty()) == (
            Seq::<RecordModel>::empty(),
            Seq::<u8>::empty(),
        ));
        assert(line_emit(buf) + Seq::<RecordModel>::empty() =~= line_emit(buf));
    } else {
        assert(run(buf.push(b), Seq::<u8>::empty()) == (Seq::<RecordModel>::empty(), buf.push(b)));
    }
}

/// Running the decoder over `s + t` is running it over `s` and then,
/// from the buffer that leaves, over `t`.
pub proof fn lemma_run_append(buf: Seq<u8>, s: Seq<u8>, t: Seq<u8>)
    ensures
        run(buf, s + t) == (
            run(buf, s).0 + run(run(buf, s).1, t).0,
            run(run(buf, s).1, t).1,
        ),
    decreases s.len(),
{
    if s.len() == 0 {
        assert(s + t =~= t);
        assert(run(buf, s).0 + run(buf, t).0 =~= run(buf, t).0);
    } else {
        assert((s + t).len() > 0);
        assert((s + t)[0] == s[0]);
        assert((s + t).drop_first() =~= s.drop_first() + t);
        if s[0] == 10 {
            lemma_run_append(Seq::empty(), s.drop_first(), t);
            assert(line_emit(buf) + (run(Seq::empty(), s.drop_first()).0 + run(
                run(Seq::empty(), s.drop_first()).1,
                t,
            ).0) =~= (line_emit(buf) + run(Seq::empty(), s.drop_first()).0) + run(
                run(Seq::empty(), s.drop_first()).1,
                t,
            ).0);
        } else {
            lemma_run_append(buf.push(s[0]), s.drop_first(), t);
        }
    }
}

/// Holds when `s` contains no newline byte.
pub open spec fn no_nl(s: Seq<u8>) -> bool {
    forall|i: int| 0 <= i < s.len() ==> s[i] != 10
}

/// The concatenation of a sequence of chunks.
pub open spec fn concat_chunks(chunks: Seq<Seq<u8>>) -> Seq<u8>
    decreases chunks.len(),
{
    if chunks.len() == 0 {
        Seq::empty()
    } else {
        chunks.first() + concat_chunks(chunks.drop_first())
    }
}

/// The records emitted, and the bytes left buffered, after feeding the
/// chunks one after the other, starting from buffered bytes `buf`.
pub open spec fn feed_all(buf: Seq<u8>, chunks: Seq<Seq<u8>>) -> (Seq<RecordModel>, Seq<u8>)
    decreases chunks.len(),
{
    if chunks.len() == 0 {
        (Seq::empty(), buf)
    } else {
        let first = run(buf, chunks.first());
        let rest = feed_all(first.1, chunks.drop_first());
        (first.0 + rest.0, rest.1)
    }
}

/// The given lines laid out as newline-delimited text, each line
/// terminated by a newline byte.
pub open spec fn join_lines(lines: Seq<Seq<u8>>) -> Seq<u8>
    decreases lines.len(),
{
    if lines.len() == 0 {
        Seq::empty()
    } else {
        lines.first() + seq![10u8] + join_lines(lines.drop_first())
    }
}

/// What a sequence of completed lines contributes to the decoded output.
pub open spec fn emitted_lines(lines: Seq<Seq<u8>>) -> Seq<RecordModel>
    decreases lines.len(),
{
    if lines.len() == 0 {
        Seq::empty()
    } else {
        line_emit(lines.first()) + emitted_lines(lines.drop_first())
    }
}

/// Feeding chunks one after the other decodes exactly as feeding their
/// concatenation at once would.
pub proof fn lemma_feed_all(buf: Seq<u8>, chunks: Seq<Seq<u8>>)
    ensures
        feed_all(buf, chunks) == run(buf, concat_chunks(chunks)),
    decreases chunks.len(),
{
    if chunks.len() == 0 {
        assert(run(buf, concat_chunks(chunks)) == (Seq::<RecordModel>::empty(), buf));
    } else {
        let first = run(buf, chunks.first());
        lemma_feed_all(first.1, chunks.drop_first());
        lemma_run_append(buf, chunks.first(), concat_chunks(chunks.drop_first()));
    }
}

/// Input without a newline is buffered whole and emits nothing.
proof fn lemma_run_no_nl(buf: Seq<u8>, s: Seq<u8>)
    requires
        no_nl(s),
    ensures
        run(buf, s) == (Seq::<RecordModel>::empty(), buf + s),
    decreases s.len(),
{
    if s.len() == 0 {
        assert(buf + s =~= buf);
    } else {
        assert(s[0] != 10);
        lemma_run_no_nl(buf.push(s[0]), s.drop_first());
        assert(buf.push(s[0]) + s.drop_first() =~= buf + s);
    }
}

/// A newline-free line followed by a newline emits exactly what the line
/// carries and leaves the buffer empty.
proof fn lemma_run_line(buf: Seq<u8>, l: Seq<u8>)
    requires
        no_nl(l),
    ensures
        run(buf, l + seq![10u8]) == (line_emit(buf + l), Seq::<u8>::empty()),
{
    lemma_run_append(buf, l, seq![10u8]);
    lemma_run_no_nl(buf, l);
    lemma_run_one(buf + l, 10u8);
    assert(Seq::<RecordModel>::empty() + line_emit(buf + l) =~= line_emit(buf + l));
}

/// Decoding newline-delimited lines from an empty buffer emits exactly
/// what the lines carry, in order, and buffers nothing.
pub proof fn lemma_run_join(lines: Seq<Seq<u8>>)
    requires
        forall|i: int| 0 <= i < lines.len() ==> no_nl(#[trigger] lines[i]),
    ensures
        run(Seq::empty(), join_lines(lines)) == (emitted_lines(lines), Seq::<u8>::empty()),
    decreases lines.len(),
{
    if lines.len() == 0 {
        assert(run(Seq::<u8>::empty(), Seq::<u8>::empty()) == (
            Seq::<RecordModel>::empty(),
            Seq::<u8>::empty(),
        ));
    } else {
        assert(lines.first() == lines[0]);
        assert(forall|i: int|
            0 <= i < lines.drop_first().len() ==> #[trigger] lines.drop_first()[i] == lines[i
            + 1]);
        assert(lines.first() + seq![10u8] + join_lines(lines.drop_first()) =~= (lines.first()
            + seq![10u8]) + join_lines(lines.drop_first()));
        lemma_run_append(Seq::empty(), lines.first() + seq![10u8], join_lines(lines.drop_first()));
        lemma_run_line(Seq::empty(), lines.first());
        assert(Seq::<u8>::empty() + lines.first() =~= lines.first());
        lemma_run_join(lines.drop_first());
    }
}

/// When every line carries a record, the emitted records are exactly
/// those of the lines, in order.
proof fn lemma_emitted_all_some(lines: Seq<Seq<u8>>)
    requires
        forall|i: int| 0 <= i < lines.len() ==> (#[trigger] line_record(lines[i])) is Some,
    ensures
        emitted_lines(lines) == Seq::new(lines.len(), |i: int| line_record(lines[i])->Some_0),
    decreases lines.len(),
{
    if lines.len() == 0 {
        assert(emitted_lines(lines) =~= Seq::new(lines.len(), |i: int|
            line_record(lines[i])->Some_0));
    } else {
        assert(forall|i: int|
            0 <= i < lines.drop_first().len() ==> #[trigger] lines.drop_first()[i] == lines[i
            + 1]);
        lemma_emitted_all_some(lines.drop_first());
        assert(line_record(lines.first()) is Some);
        assert(line_emit(lines.first()) == seq![line_record(lines[0])->Some_0]);
        assert(emitted_lines(lines) =~= Seq::new(lines.len(), |i: int|
            line_record(lines[i])->Some_0));
    }
}

/// Decoder completeness: however a newline-terminated sequence of lines
/// that each carry a record is cut into chunks — including cuts in the
/// middle of a line — feeding the chunks in order yields exactly those
/// records, in order, with nothing left buffered.
pub proof fn lemma_decoder_completeness(lines: Seq<Seq<u8>>, chunks: Seq<Seq<u8>>)
    requires
        forall|i: int| 0 <= i < lines.len() ==> no_nl(#[trigger] lines[i]),
        forall|i: int| 0 <= i < lines.len() ==> (#[trigger] line_record(lines[i])) is Some,
        concat_chunks(chunks) == join_lines(lines),
    ensures
        feed_all(Seq::empty(), chunks).0 == Seq::new(
            lines.len(),
            |i: int| line_record(lines[i])->Some_0,
        ),
        feed_all(Seq::empty(), chunks).1 == Seq::<u8>::empty(),
{
    lemma_feed_all(Seq::empty(), chunks);
    lemma_run_join(lines);
    lemma_emitted_all_some(lines);
}

/// Decoder resilience: a line that carries no record, embedded between
/// two lines that do, is dropped, and both neighbours are still decoded,
/// in order, however the text is cut into chunks.
pub proof fn lemma_decoder_resilience(
    good_a: Seq<u8>,
    bad: Seq<u8>,
    good_b: Seq<u8>,
    chunks: Seq<Seq<u8>>,
)
    requires
        no_nl(good_a) && no_nl(bad) && no_nl(good_b),
        line_record(good_a) is Some,
        line_record(bad) is None,
        line_record(good_b) is Some,
        concat_chunks(chunks) == join_lines(seq![good_a, bad, good_b]),
    ensures
        feed_all(Seq::empty(), chunks).0 == seq![
            line_record(good_a)->Some_0,
            line_record(good_b)->Some_0,
        ],
        feed_all(Seq::empty(), chunks).1 == Seq::<u8>::empty(),
{
    let lines = seq![good_a, bad, good_b];
    assert(forall|i: int| 0 <= i < lines.len() ==> no_nl(#[trigger] lines[i])) by {
        assert(lines[0] == good_a);
        assert(lines[1] == bad);
        assert(lines[2] == good_b);
    }
    lemma_feed_all(Seq::empty(), chunks);
    lemma_run_join(lines);
    reveal_with_fuel(emitted_lines, 5);
    assert(lines.drop_first() =~= seq![bad, good_b]);
    assert(seq![bad, good_b].drop_first() =~= seq![good_b]);
    assert(seq![good_b].drop_first() =~= Seq::<Seq<u8>>::empty());
    assert(emitted_lines(lines) =~= seq![line_record(good_a)->Some_0, line_record(good_b)->Some_0]);
}

} // verus!
