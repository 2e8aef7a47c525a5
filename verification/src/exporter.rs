//! The exporter: destination configuration and the batch export session.
//!
//! The exporter owns the destination of the virtual-socket transport (a
//! context identifier and a port) and fixes, through [`BatchSession`], which
//! bytes an export puts on the wire and in what order. The transport itself
//! is driven by the embedding program: it holds the connection behind a
//! mutual-exclusion lock, asks the session for the next record's bytes,
//! writes them, and confirms the write, so that the session's ghost record
//! of the wire is exactly what a correctly driven transport carries.

use vstd::prelude::*;

use crate::codec::{batch_enc, encode_record, span_enc, lemma_batch_enc_step};
use crate::errors::Error;
use crate::record::{batch_view, SpanModel, SpanRecord};

verus! {

/// Default context identifier: the value reserved for the host.
pub const DEFAULT_CID: u32 = 2;

/// Default well-known port of the collector.
pub const DEFAULT_PORT: u32 = 10240;

/// The reserved context identifier that means "any peer". It names no
/// concrete peer: it only changes the label under which the destination is
/// reported.
pub const CID_ANY: u32 = 0xFFFF_FFFF;

/// The decimal digits of `n`, as ASCII bytes, most significant first.
pub open spec fn dec_digits(n: nat) -> Seq<u8>
    decreases n,
{
    if n < 10 {
        seq![(48 + n) as u8]
    } else {
        dec_digits(n / 10) + seq![(48 + (n % 10)) as u8]
    }
}

/// The label under which a context identifier is reported: `"any"` for the
/// reserved wildcard value, its decimal digits otherwise.
pub open spec fn cid_label_spec(cid: u32) -> Seq<u8> {
    if cid == CID_ANY {
        seq![97u8, 110u8, 121u8]
    } else {
        dec_digits(cid as nat)
    }
}

fn push_dec_digits(out: &mut Vec<u8>, n: u32)
    ensures
        final(out)@ == old(out)@ + dec_digits(n as nat),
    decreases n,
{
    if n < 10 {
        out.push((48 + n) as u8);
        assert(out@ =~= old(out)@ + dec_digits(n as nat));
    } else {
        push_dec_digits(out, n / 10);
        out.push((48 + (n % 10)) as u8);
        assert(out@ =~= old(out)@ + dec_digits(n as nat));
    }
}

/// One step of an export: either the bytes of the next record, to be written
/// to the transport, or the word that the whole batch has been delivered.
pub enum ExportStep {
    Send(Vec<u8>),
    Done,
}

/// The export of one batch, record by record.
///
/// The session walks the batch in order. [`BatchSession::next_step`] encodes
/// the next record and hands its bytes out (or fails fast), the driver
/// writes them to the transport, and [`BatchSession::confirm_sent`] moves
/// past the record. `sent()` is the session's record of the wire: the bytes
/// a driver that writes every payload it is handed, in order and in full,
/// has put on the transport.
pub struct BatchSession {
    pub batch: Vec<SpanRecord>,
    pub next: usize,
    pub failed: bool,
    pub written: Ghost<Seq<u8>>,
}

impl BatchSession {
    /// The models of the records of the batch, in order.
    pub open spec fn models(&self) -> Seq<SpanModel> {
        batch_view(self.batch@)
    }

    /// The bytes the wire carries so far.
    pub open spec fn sent(&self) -> Seq<u8> {
        self.written@
    }

    /// How many records have been fully delivered.
    pub open spec fn progress(&self) -> int {
        self.next as int
    }

    /// Whether the session has failed; a failed session hands out nothing
    /// further.
    pub open spec fn is_failed(&self) -> bool {
        self.failed
    }

    /// The session invariant: the wire carries exactly the encodings of the
    /// delivered records, concatenated in batch order — never a byte of a
    /// record that was not reached.
    pub open spec fn inv(&self) -> bool {
        &&& self.next <= self.batch@.len()
        &&& self.written@ == batch_enc(self.models().take(self.next as int))
    }

    /// Whether every record of the batch has been delivered.
    pub open spec fn complete(&self) -> bool {
        !self.is_failed() && self.progress() == self.models().len()
    }

    /// Start the export of a batch: nothing delivered, nothing on the wire.
    pub fn new(batch: Vec<SpanRecord>) -> (s: BatchSession)
        ensures
            s.inv(),
            !s.is_failed(),
            s.progress() == 0,
            s.models() == batch_view(batch@),
            s.sent() == Seq::<u8>::empty(),
    {
        let s = BatchSession { batch, next: 0, failed: false, written: Ghost(Seq::empty()) };
        proof {
            assert(s.models().take(0) =~= Seq::<SpanModel>::empty());
        }
        s
    }

    /// The next thing the driver must do.
    ///
    /// Fail-fast: if the record now reached cannot be encoded, the call
    /// returns `SerialisationError`, the wire still carries exactly the
    /// records before it, and the session is failed, so no later record of
    /// the batch is ever handed out.
    pub fn next_step(&mut self) -> (out: Result<ExportStep, Error>)
        requires
            old(self).inv(),
            !old(self).is_failed(),
        ensures
            final(self).inv(),
            final(self).models() == old(self).models(),
            final(self).progress() == old(self).progress(),
            final(self).sent() == old(self).sent(),
            match out {
                Ok(step) => !final(self).is_failed() && match step {
                    ExportStep::Done => old(self).progress() == old(self).models().len(),
                    ExportStep::Send(v) => old(self).progress() < old(self).models().len()
                        && old(self).models()[old(self).progress()].encodable()
                        && v@ == span_enc(old(self).models()[old(self).progress()]),
                },
                Err(e) => e is SerialisationError && final(self).is_failed()
                    && old(self).progress() < old(self).models().len()
                    && !old(self).models()[old(self).progress()].encodable(),
            },
    {
        if self.next == self.batch.len() {
            return Ok(ExportStep::Done);
        }
        let r = &self.batch[self.next];
        assert(r@ == self.models()[self.next as int]);
        match encode_record(r) {
            Ok(v) => Ok(ExportStep::Send(v)),
            Err(e) => {
                self.failed = true;
                Err(e)
            },
        }
    }

    /// Record that the payload handed out for the record now reached has
    /// been written to the transport, in full: the wire grows by exactly
    /// that record's encoding and the session moves to the next record.
    pub fn confirm_sent(&mut self)
        requires
            old(self).inv(),
            !old(self).is_failed(),
            old(self).progress() < old(self).models().len(),
        ensures
            final(self).inv(),
            !final(self).is_failed(),
            final(self).models() == old(self).models(),
            final(self).progress() == old(self).progress() + 1,
            final(self).sent() == old(self).sent() + span_enc(
                old(self).models()[old(self).progress()],
            ),
    {
        proof {
            lemma_batch_enc_step(self.models(), self.next as int);
        }
        let ghost m = self.models()[self.next as int];
        self.written = Ghost(self.written@ + span_enc(m));
        let len: usize = self.batch.len();
        assert(self.next < len);
        self.next = self.next + 1;
    }

    /// Record that a write to the transport failed: the batch is abandoned
    /// where it stands and the caller is handed `IOError` with the cause.
    /// Nothing more is counted as sent, and the failed session hands out no
    /// further record.
    pub fn fail_io(&mut self, cause: String) -> (e: Error)
        requires
            old(self).inv(),
        ensures
            final(self).inv(),
            final(self).is_failed(),
            final(self).models() == old(self).models(),
            final(self).progress() == old(self).progress(),
            final(self).sent() == old(self).sent(),
            e == Error::IOError(cause),
    {
        self.failed = true;
        Error::IOError(cause)
    }
}

/// Law (ordering): a session that delivered its whole batch has put on the
/// wire exactly the concatenation of each record's independent encoding, in
/// the batch's original order.
pub proof fn lemma_export_ordering(s: BatchSession)
    requires
        s.inv(),
        s.progress() == s.models().len(),
    ensures
        s.sent() == batch_enc(s.models()),
{
    assert(s.models().take(s.models().len() as int) =~= s.models());
}

/// Law (fail-fast prefix): at every point of an export — after a success, a
/// serialisation failure or a write failure alike — the wire carries exactly
/// the encodings of the records already delivered, in order: a prefix of the
/// batch's encoding, never a byte of a later record.
pub proof fn lemma_sent_prefix(s: BatchSession)
    requires
        s.inv(),
    ensures
        s.sent() == batch_enc(s.models().take(s.progress())),
{
}

/// Encode a whole batch into one buffer: the bytes a faithful driver of a
/// [`BatchSession`] puts on the wire. Succeeds exactly when every record of
/// the batch is encodable, and then yields the concatenation of each
/// record's independent encoding, in the batch's original order; otherwise
/// it fails fast with `SerialisationError` at the first record that does
/// not fit the wire format.
pub fn encode_batch(batch: Vec<SpanRecord>) -> (out: Result<Vec<u8>, Error>)
    ensures
        match out {
            Ok(v) => {
                &&& forall|i: int|
                    0 <= i < batch_view(batch@).len() ==> #[trigger] batch_view(
                        batch@,
                    )[i].encodable()
                &&& v@ == batch_enc(batch_view(batch@))
            },
            Err(e) => {
                &&& e is SerialisationError
                &&& exists|i: int|
                    0 <= i < batch_view(batch@).len() && !(#[trigger] batch_view(
                        batch@,
                    )[i].encodable())
            },
        },
{
    let mut session = BatchSession::new(batch);
    let mut wire: Vec<u8> = Vec::new();
    loop
        invariant
            session.inv(),
            !session.is_failed(),
            session.models() == batch_view(batch@),
            wire@ == session.sent(),
            forall|i: int|
                0 <= i < session.progress() ==> #[trigger] session.models()[i].encodable(),
        decreases session.models().len() - session.progress(),
    {
        match session.next_step() {
            Ok(ExportStep::Done) => {
                proof {
                    lemma_export_ordering(session);
                }
                return Ok(wire);
            },
            Ok(ExportStep::Send(bytes)) => {
                let mut payload = bytes;
                wire.append(&mut payload);
                session.confirm_sent();
            },
            Err(e) => {
                return Err(e);
            },
        }
    }
}

/// The destination descriptor and write-side state of the exporter. The
/// connection handle itself lives with the embedding program; the exporter
/// fixes where it points and whether its write side is still open.
pub struct Exporter {
    pub cid: u32,
    pub port: u32,
    pub write_open: bool,
}

impl Exporter {
    /// Create a new exporter builder.
    pub fn builder() -> (b: Builder)
        ensures
            b.cid == DEFAULT_CID,
            b.port == DEFAULT_PORT,
    {
        Builder::new()
    }

    /// Start exporting one batch. The driver walks the returned session to
    /// completion or first failure, holding the connection lock throughout,
    /// so that no two batches' bytes interleave on the wire.
    pub fn begin_export(&self, batch: Vec<SpanRecord>) -> (s: BatchSession)
        ensures
            s.inv(),
            !s.is_failed(),
            s.progress() == 0,
            s.models() == batch_view(batch@),
            s.sent() == Seq::<u8>::empty(),
    {
        BatchSession::new(batch)
    }

    /// The label under which this destination's context identifier is
    /// reported: `"any"` for the reserved wildcard value, decimal digits
    /// otherwise.
    pub fn cid_label(&self) -> (out: Vec<u8>)
        ensures
            out@ == cid_label_spec(self.cid),
    {
        let mut out: Vec<u8> = Vec::new();
        if self.cid == CID_ANY {
            out.push(97);
            out.push(110);
            out.push(121);
            assert(out@ =~= seq![97u8, 110u8, 121u8]);
        } else {
            push_dec_digits(&mut out, self.cid);
            assert(out@ =~= dec_digits(self.cid as nat));
        }
        out
    }

    /// Law (shutdown tolerance): note that no further exports will occur and
    /// the write side is to be half-closed. The call asks nothing of the
    /// exporter's state — calling it when the write side is already closed
    /// is allowed and leaves the same closed state — and it never panics.
    pub fn shutdown(&mut self)
        ensures
            final(self).cid == old(self).cid,
            final(self).port == old(self).port,
            !final(self).write_open,
    {
        self.write_open = false;
    }
}

/// Resolves the destination of the exporter: a context identifier and a
/// port, each with a fixed default, and builds the exporter.
pub struct Builder {
    pub cid: u32,
    pub port: u32,
}

impl Builder {
    /// A builder with the default destination.
    pub fn new() -> (b: Builder)
        ensures
            b.cid == DEFAULT_CID,
            b.port == DEFAULT_PORT,
    {
        Builder { cid: DEFAULT_CID, port: DEFAULT_PORT }
    }

    /// Replace the context identifier.
    pub fn with_cid(self, cid: u32) -> (b: Builder)
        ensures
            b.cid == cid,
            b.port == self.port,
    {
        Builder { cid, ..self }
    }

    /// Replace the port.
    pub fn with_port(self, port: u32) -> (b: Builder)
        ensures
            b.cid == self.cid,
            b.port == port,
    {
        Builder { port, ..self }
    }

    /// Build the exporter for the resolved destination, its write side open.
    /// Opening the connection itself is the embedding program's part: it
    /// connects to exactly this `(cid, port)` and fails fatally if it
    /// cannot, since the exporter is useless without a connection.
    pub fn init(self) -> (e: Exporter)
        ensures
            e.cid == self.cid,
            e.port == self.port,
            e.write_open,
    {
        Exporter { cid: self.cid, port: self.port, write_open: true }
    }
}

impl Default for Builder {
    /// The default builder: the reserved host context identifier and the
    /// well-known collector port.
    fn default() -> (b: Builder)
        ensures
            b.cid == DEFAULT_CID,
            b.port == DEFAULT_PORT,
    {
        Builder::new()
    }
}

} // verus!
