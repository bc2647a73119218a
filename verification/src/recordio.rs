//! Incremental decoder for the RecordIO framing: each record travels as its
//! length in ASCII decimal, one space, and exactly that many payload bytes.

use vstd::prelude::*;

verus! {

/// Why a byte stream stopped being a valid sequence of records.
#[derive(Clone, Copy, Debug, PartialEq, Eq, Structural)]
pub enum FrameError {
    /// A byte of a length token was neither an ASCII digit nor the space.
    InvalidLengthByte,
    /// A length token does not fit in 64 bits.
    LengthOverflow,
}

/// What the decoder is waiting for.
pub enum Phase {
    /// Collecting the digits of the next length token.
    Length { digits: Seq<u8> },
    /// Collecting `target` payload bytes, of which `payload` have arrived.
    Payload { target: nat, payload: Seq<u8> },
    /// The stream was malformed; nothing more is decoded.
    Failed { error: FrameError },
}

/// The mathematical state of a decoder: its phase and the records that it has
/// completed and not yet handed out.
pub struct Decoding {
    pub phase: Phase,
    pub records: Seq<Seq<u8>>,
}

pub open spec fn is_digit(b: u8) -> bool {
    0x30 <= b <= 0x39
}

pub open spec fn all_digits(s: Seq<u8>) -> bool {
    forall|i: int| 0 <= i < s.len() ==> is_digit(#[trigger] s[i])
}

/// The number that a string of ASCII digits writes in base ten.
pub open spec fn decimal_value(digits: Seq<u8>) -> nat
    decreases digits.len(),
{
    if digits.len() == 0 {
        0
    } else {
        decimal_value(digits.drop_last()) * 10 + (digits.last() - 0x30) as nat
    }
}

/// The state of a decoder that has seen no byte.
pub open spec fn fresh() -> Decoding {
    Decoding { phase: Phase::Length { digits: Seq::empty() }, records: Seq::empty() }
}

/// The state after a length token of value `target` ended: an empty record is
/// complete at once, any other waits for its payload.
pub open spec fn begin_payload(d: Decoding, target: nat) -> Decoding {
    if target == 0 {
        Decoding {
            phase: Phase::Length { digits: Seq::empty() },
            records: d.records.push(Seq::empty()),
        }
    } else {
        Decoding { phase: Phase::Payload { target, payload: Seq::empty() }, records: d.records }
    }
}

/// One byte of the stream.
pub open spec fn step(d: Decoding, b: u8) -> Decoding {
    match d.phase {
        Phase::Failed { .. } => d,
        Phase::Length { digits } => {
            if b == 0x20 {
                if digits.len() == 0 {
                    d
                } else if decimal_value(digits) > u64::MAX {
                    Decoding {
                        phase: Phase::Failed { error: FrameError::LengthOverflow },
                        records: d.records,
                    }
                } else {
                    begin_payload(d, decimal_value(digits))
                }
            } else if is_digit(b) {
                Decoding { phase: Phase::Length { digits: digits.push(b) }, records: d.records }
            } else {
                Decoding {
                    phase: Phase::Failed { error: FrameError::InvalidLengthByte },
                    records: d.records,
                }
            }
        },
        Phase::Payload { target, payload } => {
            if payload.len() + 1 == target {
                Decoding {
                    phase: Phase::Length { digits: Seq::empty() },
                    records: d.records.push(payload.push(b)),
                }
            } else {
                Decoding {
                    phase: Phase::Payload { target, payload: payload.push(b) },
                    records: d.records,
                }
            }
        },
    }
}

/// A run of bytes, taken one at a time from the left.
pub open spec fn run(d: Decoding, bytes: Seq<u8>) -> Decoding
    decreases bytes.len(),
{
    if bytes.len() == 0 {
        d
    } else {
        step(run(d, bytes.drop_last()), bytes.last())
    }
}

/// A stream delivered in chunks, each chunk decoded where the last one stopped.
pub open spec fn run_chunks(d: Decoding, chunks: Seq<Seq<u8>>) -> Decoding
    decreases chunks.len(),
{
    if chunks.len() == 0 {
        d
    } else {
        run(run_chunks(d, chunks.drop_last()), chunks.last())
    }
}

/// The chunks of a stream laid end to end.
pub open spec fn concat_all(chunks: Seq<Seq<u8>>) -> Seq<u8>
    decreases chunks.len(),
{
    if chunks.len() == 0 {
        Seq::empty()
    } else {
        concat_all(chunks.drop_last()) + chunks.last()
    }
}

/// The shortest string of ASCII digits that writes `n`.
pub open spec fn decimal_digits(n: nat) -> Seq<u8>
    decreases n,
{
    if n < 10 {
        seq![(0x30 + n) as u8]
    } else {
        decimal_digits(n / 10).push((0x30 + n % 10) as u8)
    }
}

/// One record on the wire.
pub open spec fn framed(record: Seq<u8>) -> Seq<u8> {
    decimal_digits(record.len()) + seq![0x20u8] + record
}

/// A sequence of records on the wire, with nothing between them.
pub open spec fn framed_stream(records: Seq<Seq<u8>>) -> Seq<u8>
    decreases records.len(),
{
    if records.len() == 0 {
        Seq::empty()
    } else {
        framed_stream(records.drop_last()) + framed(records.last())
    }
}


/// Decoding a stream in two parts is decoding it whole.
pub proof fn lemma_run_concat(d: Decoding, a: Seq<u8>, b: Seq<u8>)
    ensures
        run(d, a + b) == run(run(d, a), b),
    decreases b.len(),
{
    if b.len() == 0 {
        assert(a + b =~= a);
    } else {
        lemma_run_concat(d, a, b.drop_last());
        assert((a + b).drop_last() =~= a + b.drop_last());
    }
}

/// After a malformed byte nothing is decoded any more: the decoder does not
/// look for the next record.
pub proof fn lemma_failure_is_final(d: Decoding, bytes: Seq<u8>)
    requires
        d.phase is Failed,
    ensures
        run(d, bytes) == d,
    decreases bytes.len(),
{
    if bytes.len() > 0 {
        lemma_failure_is_final(d, bytes.drop_last());
    }
}

proof fn lemma_run_one(d: Decoding, b: u8)
    ensures
        run(d, seq![b]) == step(d, b),
{
    assert(seq![b].drop_last() =~= Seq::<u8>::empty());
    assert(run(d, Seq::<u8>::empty()) == d);
}

proof fn lemma_value_grows(digits: Seq<u8>, b: u8)
    requires
        is_digit(b),
    ensures
        decimal_value(digits.push(b)) == decimal_value(digits) * 10 + (b - 0x30),
        decimal_value(digits.push(b)) >= decimal_value(digits),
{
    assert(digits.push(b).drop_last() =~= digits);
}

/// Reads a length token: the value of a string of ASCII digits. An empty
/// string reads as zero.
pub fn parse(bytes: Vec<u8>) -> (res: Result<u64, FrameError>)
    ensures
        match res {
            Ok(v) => all_digits(bytes@) && decimal_value(bytes@) == v,
            Err(FrameError::InvalidLengthByte) => !all_digits(bytes@),
            Err(FrameError::LengthOverflow) => all_digits(bytes@) && decimal_value(bytes@)
                > u64::MAX,
        },
{
    let mut sum: u64 = 0;
    let mut overflow = false;
    let mut i: usize = 0;
    while i < bytes.len()
        invariant
            i <= bytes.len(),
            all_digits(bytes@.subrange(0, i as int)),
            !overflow ==> sum == decimal_value(bytes@.subrange(0, i as int)),
            overflow ==> decimal_value(bytes@.subrange(0, i as int)) > u64::MAX,
        decreases bytes.len() - i,
    {
        let byte = bytes[i];
        let ghost prefix = bytes@.subrange(0, i as int);
        assert(bytes@.subrange(0, i + 1) =~= prefix.push(byte));
        if byte < 0x30 || byte > 0x39 {
            assert(!is_digit(bytes@[i as int]));
            return Err(FrameError::InvalidLengthByte);
        }
        proof {
            lemma_value_grows(prefix, byte);
        }
        let digit: u64 = (byte - 0x30) as u64;
        if !overflow {
            if sum > (u64::MAX - digit) / 10 {
                overflow = true;
            } else {
                sum = sum * 10 + digit;
            }
        }
        i += 1;
    }
    assert(bytes@.subrange(0, i as int) =~= bytes@);
    if overflow {
        Err(FrameError::LengthOverflow)
    } else {
        Ok(sum)
    }
}

/// The records of a vector of byte vectors.
pub open spec fn records_of(v: Seq<Vec<u8>>) -> Seq<Seq<u8>> {
    Seq::new(v.len(), |i: int| v[i]@)
}

/// The decoder: fed the bytes of a stream as they arrive, in pieces of any
/// size, it collects the records that have become complete.
pub struct RecordIOCodec {
    len_buf: Vec<u8>,
    buf: Vec<u8>,
    target: u64,
    failed: Option<FrameError>,
    records: Vec<Vec<u8>>,
}

impl View for RecordIOCodec {
    type V = Decoding;

    closed spec fn view(&self) -> Decoding {
        Decoding {
            phase: match self.failed {
                Some(error) => Phase::Failed { error },
                None => if self.target > 0 {
                    Phase::Payload { target: self.target as nat, payload: self.buf@ }
                } else {
                    Phase::Length { digits: self.len_buf@ }
                },
            },
            records: records_of(self.records@),
        }
    }
}

impl RecordIOCodec {
    /// What holds of every decoder between calls: a length token under way
    /// has digits only, and a payload under way is shorter than its target.
    pub closed spec fn wf(&self) -> bool {
        &&& all_digits(self.len_buf@)
        &&& self.buf@.len() < self.target || (self.target == 0 && self.buf@.len() == 0)
        &&& self.target > 0 ==> self.len_buf@.len() == 0
    }

    /// A decoder for a new stream. It knows nothing of any earlier stream.
    pub fn new() -> (codec: RecordIOCodec)
        ensures
            codec.wf(),
            codec@ == fresh(),
    {
        let codec = RecordIOCodec {
            len_buf: Vec::new(),
            buf: Vec::new(),
            target: 0,
            failed: None,
            records: Vec::new(),
        };
        assert(records_of(codec.records@) =~= Seq::<Seq<u8>>::empty());
        codec
    }

    fn emit(&mut self, record: Vec<u8>)
        requires
            old(self).wf(),
        ensures
            final(self).wf(),
            final(self)@.phase == old(self)@.phase,
            final(self)@.records == old(self)@.records.push(record@),
    {
        self.records.push(record);
        assert(records_of(self.records@) =~= records_of(old(self).records@).push(record@));
    }

    fn write_byte(&mut self, byte: u8)
        requires
            old(self).wf(),
        ensures
            final(self).wf(),
            final(self)@ == step(old(self)@, byte),
    {
        if self.failed.is_some() {
            return ;
        }
        assert(self.target == 0 ==> self.buf@ =~= Seq::<u8>::empty());
        assert(self.target > 0 ==> self.len_buf@ =~= Seq::<u8>::empty());
        if self.target == 0 {
            if byte == 0x20 {
                if self.len_buf.len() == 0 {
                    return ;
                }
                let mut digits: Vec<u8> = Vec::new();
                core::mem::swap(&mut digits, &mut self.len_buf);
                match parse(digits) {
                    Ok(len) => {
                        if len == 0 {
                            self.emit(Vec::new());
                        } else {
                            self.target = len;
                        }
                    },
                    Err(e) => {
                        self.failed = Some(e);
                    },
                }
            } else if byte < 0x30 || byte > 0x39 {
                self.failed = Some(FrameError::InvalidLengthByte);
            } else {
                self.len_buf.push(byte);
            }
        } else {
            self.buf.push(byte);
            if self.buf.len() as u64 == self.target {
                let mut record: Vec<u8> = Vec::new();
                core::mem::swap(&mut record, &mut self.buf);
                self.target = 0;
                self.emit(record);
            }
        }
    }

    /// Decodes the next bytes of the stream. The result is `Ok` with the
    /// number of bytes given, or the error that ended the stream, now or in
    /// an earlier call.
    pub fn write(&mut self, input: &[u8]) -> (res: Result<usize, FrameError>)
        requires
            old(self).wf(),
        ensures
            final(self).wf(),
            final(self)@ == run(old(self)@, input@),
            match res {
                Ok(n) => n == input@.len() && !(final(self)@.phase is Failed),
                Err(error) => final(self)@.phase == (Phase::Failed { error }),
            },
    {
        let mut i: usize = 0;
        assert(input@.subrange(0, 0) =~= Seq::<u8>::empty());
        while i < input.len() && self.failed.is_none()
            invariant
                i <= input.len(),
                self.wf(),
                self@ == run(old(self)@, input@.subrange(0, i as int)),
            decreases input.len() - i,
        {
            assert(input@.subrange(0, i + 1).drop_last() =~= input@.subrange(0, i as int));
            self.write_byte(input[i]);
            i += 1;
        }
        proof {
            let done = input@.subrange(0, i as int);
            let rest = input@.subrange(i as int, input@.len() as int);
            assert(done + rest =~= input@);
            lemma_run_concat(old(self)@, done, rest);
            if self.failed.is_some() {
                lemma_failure_is_final(self@, rest);
            } else {
                assert(rest =~= Seq::<u8>::empty());
            }
        }
        match self.failed {
            Some(error) => Err(error),
            None => Ok(input.len()),
        }
    }

    /// The error that ended the stream, if one did.
    pub fn failure(&self) -> (error: Option<FrameError>)
        ensures
            match error {
                Some(error) => self@.phase == (Phase::Failed { error }),
                None => !(self@.phase is Failed),
            },
    {
        self.failed
    }

    /// How many bytes of an unfinished record the decoder holds: the digits
    /// of a length under way, or the part of a payload that has arrived.
    pub fn buffered(&self) -> (held: usize)
        requires
            self.wf(),
        ensures
            held == match self@.phase {
                Phase::Length { digits } => digits.len(),
                Phase::Payload { payload, .. } => payload.len(),
                Phase::Failed { .. } => 0,
            },
    {
        if self.failed.is_some() {
            0
        } else if self.target > 0 {
            self.buf.len()
        } else {
            self.len_buf.len()
        }
    }

    /// Nothing is buffered: `write` keeps no bytes back.
    pub fn flush(&mut self) -> (res: Result<(), FrameError>)
        ensures
            *final(self) == *old(self),
            res is Ok,
    {
        Ok(())
    }

    /// Hands out the records completed so far, oldest first, and forgets
    /// them. An unfinished record stays with the decoder.
    pub fn take_records(&mut self) -> (out: Vec<Vec<u8>>)
        requires
            old(self).wf(),
        ensures
            final(self).wf(),
            records_of(out@) == old(self)@.records,
            final(self)@ == (Decoding { phase: old(self)@.phase, records: Seq::empty() }),
    {
        let mut out: Vec<Vec<u8>> = Vec::new();
        core::mem::swap(&mut out, &mut self.records);
        assert(records_of(self.records@) =~= Seq::<Seq<u8>>::empty());
        out
    }
}

/// However a stream is cut into chunks, the decoder ends where it would have
/// ended on the whole stream.
pub proof fn lemma_chunks_do_not_matter(d: Decoding, chunks: Seq<Seq<u8>>)
    ensures
        run_chunks(d, chunks) == run(d, concat_all(chunks)),
    decreases chunks.len(),
{
    if chunks.len() > 0 {
        lemma_chunks_do_not_matter(d, chunks.drop_last());
        lemma_run_concat(d, concat_all(chunks.drop_last()), chunks.last());
    }
}

proof fn lemma_digits_accumulate(d: Decoding, digits: Seq<u8>)
    requires
        d.phase is Length,
        all_digits(digits),
    ensures
        run(d, digits) == (Decoding {
            phase: Phase::Length { digits: d.phase->Length_digits + digits },
            records: d.records,
        }),
    decreases digits.len(),
{
    if digits.len() == 0 {
        assert(d.phase->Length_digits + digits =~= d.phase->Length_digits);
    } else {
        let front = digits.drop_last();
        lemma_digits_accumulate(d, front);
        assert(is_digit(digits[digits.len() - 1]));
        assert((d.phase->Length_digits + front).push(digits.last()) =~= d.phase->Length_digits
            + digits);
    }
}

proof fn lemma_payload_accumulates(d: Decoding, bytes: Seq<u8>)
    requires
        d.phase is Payload,
        d.phase->target > 0,
        d.phase->payload.len() + bytes.len() <= d.phase->target,
        d.phase->payload.len() < d.phase->target,
    ensures
        d.phase->payload.len() + bytes.len() < d.phase->target ==> run(d, bytes) == (Decoding {
            phase: Phase::Payload { target: d.phase->target, payload: d.phase->payload + bytes },
            records: d.records,
        }),
        d.phase->payload.len() + bytes.len() == d.phase->target ==> run(d, bytes) == (Decoding {
            phase: Phase::Length { digits: Seq::empty() },
            records: d.records.push(d.phase->payload + bytes),
        }),
    decreases bytes.len(),
{
    if bytes.len() == 0 {
        assert(d.phase->payload + bytes =~= d.phase->payload);
    } else {
        let front = bytes.drop_last();
        lemma_payload_accumulates(d, front);
        assert((d.phase->payload + front).push(bytes.last()) =~= d.phase->payload + bytes);
    }
}

/// The digits that write a number read back as that number.
pub proof fn lemma_decimal_digits(n: nat)
    ensures
        decimal_digits(n).len() > 0,
        all_digits(decimal_digits(n)),
        decimal_value(decimal_digits(n)) == n,
    decreases n,
{
    if n < 10 {
        let s = seq![(0x30 + n) as u8];
        assert(s.drop_last() =~= Seq::<u8>::empty());
        assert(decimal_value(s.drop_last()) == 0);
    } else {
        lemma_decimal_digits(n / 10);
        let last = (0x30 + n % 10) as u8;
        lemma_value_grows(decimal_digits(n / 10), last);
    }
}

proof fn lemma_after_length(d: Decoding, digits: Seq<u8>)
    requires
        d.phase == (Phase::Length { digits: Seq::empty() }),
        all_digits(digits),
        digits.len() > 0,
        decimal_value(digits) <= u64::MAX,
    ensures
        run(d, digits + seq![0x20u8]) == begin_payload(d, decimal_value(digits)),
{
    lemma_digits_accumulate(d, digits);
    lemma_run_concat(d, digits, seq![0x20u8]);
    lemma_run_one(run(d, digits), 0x20u8);
    assert(Seq::<u8>::empty() + digits =~= digits);
}

/// A record that has arrived whole is handed on as it was sent, and the
/// decoder then waits for the next length.
pub proof fn lemma_whole_record_is_emitted(d: Decoding, digits: Seq<u8>, payload: Seq<u8>)
    requires
        d.phase == (Phase::Length { digits: Seq::empty() }),
        all_digits(digits),
        digits.len() > 0,
        decimal_value(digits) <= u64::MAX,
        payload.len() == decimal_value(digits),
    ensures
        run(d, digits + seq![0x20u8] + payload) == (Decoding {
            phase: Phase::Length { digits: Seq::empty() },
            records: d.records.push(payload),
        }),
{
    lemma_after_length(d, digits);
    lemma_run_concat(d, digits + seq![0x20u8], payload);
    let mid = begin_payload(d, decimal_value(digits));
    if payload.len() == 0 {
        assert(payload =~= Seq::<u8>::empty());
    } else {
        lemma_payload_accumulates(mid, payload);
        assert(Seq::<u8>::empty() + payload =~= payload);
    }
}

/// A stream that ends in the middle of a payload gives no record for it: the
/// bytes that came stay with the decoder.
pub proof fn lemma_truncated_record_is_withheld(d: Decoding, digits: Seq<u8>, partial: Seq<u8>)
    requires
        d.phase == (Phase::Length { digits: Seq::empty() }),
        all_digits(digits),
        digits.len() > 0,
        decimal_value(digits) <= u64::MAX,
        partial.len() < decimal_value(digits),
    ensures
        run(d, digits + seq![0x20u8] + partial) == (Decoding {
            phase: Phase::Payload { target: decimal_value(digits), payload: partial },
            records: d.records,
        }),
{
    lemma_after_length(d, digits);
    lemma_run_concat(d, digits + seq![0x20u8], partial);
    lemma_payload_accumulates(begin_payload(d, decimal_value(digits)), partial);
    assert(Seq::<u8>::empty() + partial =~= partial);
}

/// A space with no digit before it is skipped: no record, no error.
pub proof fn lemma_bare_space_is_skipped(d: Decoding)
    requires
        d.phase == (Phase::Length { digits: Seq::empty() }),
    ensures
        run(d, seq![0x20u8]) == d,
{
    lemma_run_one(d, 0x20u8);
}

/// A byte in a length token that is neither a digit nor the space ends the
/// stream at that byte: whatever follows, payload or not, is not decoded, and
/// no record is added.
pub proof fn lemma_bad_length_byte_is_fatal(d: Decoding, digits: Seq<u8>, b: u8, rest: Seq<u8>)
    requires
        d.phase is Length,
        all_digits(digits),
        !is_digit(b),
        b != 0x20,
    ensures
        run(d, digits + seq![b] + rest) == (Decoding {
            phase: Phase::Failed { error: FrameError::InvalidLengthByte },
            records: d.records,
        }),
{
    lemma_digits_accumulate(d, digits);
    lemma_run_concat(d, digits, seq![b]);
    lemma_run_one(run(d, digits), b);
    lemma_run_concat(d, digits + seq![b], rest);
    lemma_failure_is_final(run(d, digits + seq![b]), rest);
}

proof fn lemma_stream_is_decoded(d: Decoding, records: Seq<Seq<u8>>)
    requires
        d.phase == (Phase::Length { digits: Seq::empty() }),
        forall|i: int| 0 <= i < records.len() ==> (#[trigger] records[i]).len() <= u64::MAX,
    ensures
        run(d, framed_stream(records)) == (Decoding {
            phase: Phase::Length { digits: Seq::empty() },
            records: d.records + records,
        }),
    decreases records.len(),
{
    if records.len() == 0 {
        assert(d.records + records =~= d.records);
    } else {
        let front = records.drop_last();
        let last = records.last();
        lemma_stream_is_decoded(d, front);
        lemma_run_concat(d, framed_stream(front), framed(last));
        assert(last == records[records.len() - 1]);
        lemma_decimal_digits(last.len());
        lemma_whole_record_is_emitted(
            run(d, framed_stream(front)),
            decimal_digits(last.len()),
            last,
        );
        assert((d.records + front).push(last) =~= d.records + records);
    }
}

/// Records written one after the other and delivered in chunks of any sizes,
/// single bytes included, come out of a new decoder as they went in: the same
/// records, in the same order, and nothing left over.
pub proof fn lemma_framing_round_trip(records: Seq<Seq<u8>>, chunks: Seq<Seq<u8>>)
    requires
        forall|i: int| 0 <= i < records.len() ==> (#[trigger] records[i]).len() <= u64::MAX,
        concat_all(chunks) == framed_stream(records),
    ensures
        run_chunks(fresh(), chunks) == (Decoding {
            phase: Phase::Length { digits: Seq::empty() },
            records,
        }),
{
    lemma_chunks_do_not_matter(fresh(), chunks);
    lemma_stream_is_decoded(fresh(), records);
    assert(Seq::<Seq<u8>>::empty() + records =~= records);
}

} // verus!
