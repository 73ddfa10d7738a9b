//! Transport framing and chunking.
//!
//! The controller is addressed over a byte-oriented bus whose write primitive
//! accepts only bounded-size transfers. Every transfer starts with a control
//! byte: `0x00` announces a single command byte, `0x40` announces display
//! data. Data payloads are split into chunks of at most [`DATA_CHUNK`] bytes.
//!
//! A bus is modelled by the history of transfers it has received, each an
//! address paired with the raw bytes of one write. The [`BusWrite`] trait is
//! the bounded write primitive a platform supplies; the [`Write`] trait is the
//! framed interface the driver uses, provided for every bus by a blanket
//! implementation that performs the framing and chunking.

use vstd::prelude::*;

verus! {

/// One bus transfer: the target address and the raw bytes written.
pub type Transfer = (u8, Seq<u8>);

/// Largest data payload carried by a single transfer.
pub const DATA_CHUNK: usize = 16;

/// Largest raw transfer handed to the bus: a control byte plus one chunk.
pub const MAX_TRANSFER: usize = 17;

/// The bounded-size bus write primitive supplied by the platform.
///
/// A bus is specified by `history()`, the transfers it has received so far.
/// A failed write leaves the history unchanged; the layers above add no retry
/// and surface the error verbatim.
pub trait BusWrite: Sized {
    /// The error surfaced verbatim from a failed transfer.
    type Error;

    /// The transfers received so far, oldest first. The default leaves the
    /// history abstract, for impls outside the verified world; impls checked
    /// here give it a meaning.
    open spec fn history(&self) -> Seq<Transfer> {
        Seq::empty()
    }

    /// Perform one bounded-size write.
    fn write(&mut self, addr: u8, bytes: &[u8]) -> (r: Result<(), Self::Error>)
        requires
            bytes@.len() <= MAX_TRANSFER,
        ensures
            r is Ok ==> final(self).history() == old(self).history().push((addr, bytes@)),
            r is Err ==> final(self).history() == old(self).history(),
    ;
}

/// The framed transport interface the driver writes through.
///
/// `transfers()` is the history of raw transfers the underlying bus has
/// received. `write_cmd` frames one command byte; `write_data` frames and
/// chunks a data payload.
pub trait Write: Sized {
    /// The error surfaced verbatim from a failed transfer.
    type Error;

    /// The transfers received by the underlying bus, oldest first.
    spec fn transfers(&self) -> Seq<Transfer>;

    /// Send one command byte, framed as `[0x00, cmd]`.
    fn write_cmd(&mut self, addr: u8, cmd: u8) -> (r: Result<(), Self::Error>)
        ensures
            sent(
                old(self).transfers(),
                final(self).transfers(),
                seq![(addr, seq![0x00u8, cmd])],
                r is Ok,
            ),
    ;

    /// Send a data payload, split into chunks of at most [`DATA_CHUNK`] bytes,
    /// each framed as `[0x40, chunk...]`. An empty payload performs no
    /// transfer and succeeds trivially.
    fn write_data(&mut self, addr: u8, data: &[u8]) -> (r: Result<(), Self::Error>)
        ensures
            sent(
                old(self).transfers(),
                final(self).transfers(),
                data_transfers(addr, data@),
                r is Ok,
            ),
    ;
}

/// The transfers that frame each byte of `bytes` as a single command.
pub open spec fn cmd_transfers(addr: u8, bytes: Seq<u8>) -> Seq<Transfer> {
    bytes.map(|i: int, b: u8| (addr, seq![0x00u8, b]))
}

/// The transfers that carry `data` as display data: chunks of at most
/// [`DATA_CHUNK`] bytes, each prefixed with the control byte `0x40`.
pub open spec fn data_transfers(addr: u8, data: Seq<u8>) -> Seq<Transfer>
    decreases data.len(),
{
    if data.len() == 0 {
        Seq::empty()
    } else if data.len() <= DATA_CHUNK {
        seq![(addr, seq![0x40u8] + data)]
    } else {
        seq![(addr, seq![0x40u8] + data.take(DATA_CHUNK as int))]
            + data_transfers(addr, data.skip(DATA_CHUNK as int))
    }
}

/// How a sending operation relates the bus history before the call (`pre`),
/// the history after it (`post`), and the transfers the operation owes
/// (`expected`): the history grows by a prefix of `expected`, the whole of it
/// exactly when the operation succeeded. A failed transfer thus aborts the
/// operation at the failing point, with nothing sent beyond it.
pub open spec fn sent(
    pre: Seq<Transfer>,
    post: Seq<Transfer>,
    expected: Seq<Transfer>,
    ok: bool,
) -> bool {
    &&& pre.len() <= post.len() <= pre.len() + expected.len()
    &&& post == pre + expected.take(post.len() - pre.len())
    &&& (ok <==> post.len() == pre.len() + expected.len())
}

/// The chunking of a payload splits at every chunk boundary within it.
pub proof fn lemma_data_transfers_split(addr: u8, data: Seq<u8>, i: int)
    requires
        0 <= i <= data.len(),
        i % (DATA_CHUNK as int) == 0,
    ensures
        data_transfers(addr, data) == data_transfers(addr, data.take(i)) + data_transfers(
            addr,
            data.skip(i),
        ),
    decreases i,
{
    if i == 0 {
        assert(data.take(0) =~= Seq::<u8>::empty());
        assert(data.skip(0) =~= data);
        assert(data_transfers(addr, data.take(0)) + data_transfers(addr, data) =~~= data_transfers(
            addr,
            data,
        ));
    } else if data.len() <= DATA_CHUNK {
        assert(data.take(i) =~= data);
        assert(data.skip(i) =~= Seq::<u8>::empty());
        assert(data_transfers(addr, data.take(i)) + data_transfers(addr, data.skip(i))
            =~~= data_transfers(addr, data));
    } else {
        let c = DATA_CHUNK as int;
        let head = seq![(addr, seq![0x40u8] + data.take(c))];
        let rest = data.skip(c);
        lemma_data_transfers_split(addr, rest, i - c);
        assert(rest.skip(i - c) =~= data.skip(i));
        assert(rest.take(i - c) =~= data.take(i).skip(c));
        if i == c {
            assert(data_transfers(addr, rest.take(0)) =~~= Seq::<Transfer>::empty());
            assert(data.take(i) =~= data.take(c));
            assert(data_transfers(addr, data.take(i)) + data_transfers(addr, data.skip(i))
                =~~= head + data_transfers(addr, rest));
        } else {
            assert(data.take(i).take(c) =~= data.take(c));
            assert(data_transfers(addr, data.take(i)) == head + data_transfers(
                addr,
                rest.take(i - c),
            ));
            assert(data_transfers(addr, data.take(i)) + data_transfers(addr, data.skip(i))
                =~~= head + (data_transfers(addr, rest.take(i - c)) + data_transfers(
                addr,
                rest.skip(i - c),
            )));
        }
    }
}

/// Prepending an already-delivered stage: if the history first grew by the
/// whole of `done` and then behaved as `sent` for `rest`, it behaved as `sent`
/// for `done + rest`.
pub proof fn lemma_sent_extend(
    pre: Seq<Transfer>,
    post: Seq<Transfer>,
    done: Seq<Transfer>,
    rest: Seq<Transfer>,
    ok: bool,
)
    requires
        sent(pre + done, post, rest, ok),
    ensures
        sent(pre, post, done + rest, ok),
{
    let mid = pre + done;
    let d = post.len() - mid.len();
    assert((done + rest).take(done.len() + d) =~~= done + rest.take(d));
    assert(pre + (done + rest).take(done.len() + d) =~~= (pre + done) + rest.take(d));
}

/// Widening the owed stream of a failed operation: an operation that aborted
/// within `e1` also behaved as an aborted operation owing `e1 + e2`.
pub proof fn lemma_sent_abort(
    pre: Seq<Transfer>,
    post: Seq<Transfer>,
    e1: Seq<Transfer>,
    e2: Seq<Transfer>,
)
    requires
        sent(pre, post, e1, false),
    ensures
        sent(pre, post, e1 + e2, false),
{
    let d = post.len() - pre.len();
    assert((e1 + e2).take(d) =~~= e1.take(d));
}

impl<T: BusWrite> Write for T {
    type Error = <T as BusWrite>::Error;

    open spec fn transfers(&self) -> Seq<Transfer> {
        self.history()
    }

    fn write_cmd(&mut self, addr: u8, cmd: u8) -> (r: Result<(), Self::Error>) {
        let mut buf: Vec<u8> = Vec::new();
        buf.push(0x00);
        buf.push(cmd);
        let r = self.write(addr, buf.as_slice());
        proof {
            assert(buf@ =~= seq![0x00u8, cmd]);
            let t = (addr, seq![0x00u8, cmd]);
            if r is Ok {
                assert(self.history() =~~= old(self).history() + seq![t].take(1));
            } else {
                assert(self.history() =~~= old(self).history() + seq![t].take(0));
            }
        }
        r
    }

    #[verifier::loop_isolation(false)]
    fn write_data(&mut self, addr: u8, data: &[u8]) -> (r: Result<(), Self::Error>) {
        let ghost pre = self.history();
        let len = data.len();
        if len == 0 {
            proof {
                assert(pre + data_transfers(addr, data@).take(0) =~~= pre);
            }
            return Ok(());
        }
        let mut i: usize = 0;
        while i < len
            invariant
                i <= len,
                i % DATA_CHUNK == 0 || i == len,
                self.history() == pre + data_transfers(addr, data@.take(i as int)),
            decreases len - i,
        {
            let end = if len - i <= DATA_CHUNK {
                len
            } else {
                i + DATA_CHUNK
            };
            let mut chunk: Vec<u8> = Vec::new();
            chunk.push(0x40);
            proof {
                assert(chunk@ =~= seq![0x40u8] + data@.subrange(i as int, i as int));
            }
            let mut j = i;
            while j < end
                invariant
                    i <= j <= end,
                    chunk@ == seq![0x40u8] + data@.subrange(i as int, j as int),
                decreases end - j,
            {
                let b = data[j];
                chunk.push(b);
                proof {
                    assert(chunk@ =~= seq![0x40u8] + data@.subrange(i as int, j as int + 1));
                }
                j += 1;
            }
            let ghost piece = data@.subrange(i as int, end as int);
            match self.write(addr, chunk.as_slice()) {
                Ok(()) => {
                    proof {
                        lemma_data_transfers_split(addr, data@.take(end as int), i as int);
                        assert(data@.take(end as int).take(i as int) =~= data@.take(i as int));
                        assert(data@.take(end as int).skip(i as int) =~= piece);
                        assert(data_transfers(addr, piece) =~~= seq![(addr, seq![0x40u8] + piece)]);
                        assert(self.history() =~~= pre + data_transfers(
                            addr,
                            data@.take(end as int),
                        ));
                    }
                },
                Err(e) => {
                    proof {
                        lemma_data_transfers_split(addr, data@, i as int);
                        let done = data_transfers(addr, data@.take(i as int));
                        assert(data_transfers(addr, data@).take(done.len() as int) =~~= done);
                        assert(data_transfers(addr, data@.skip(i as int)).len() >= 1);
                    }
                    return Err(e);
                },
            }
            i = end;
        }
        proof {
            assert(data@.take(len as int) =~= data@);
            let full = data_transfers(addr, data@);
            assert(full.take(full.len() as int) =~= full);
        }
        Ok(())
    }
}

/// A fault reported by a bus whose failure budget is exhausted.
#[derive(Clone, Copy, Debug, PartialEq, Eq, Structural)]
pub struct BusFault;

/// An in-memory bus that records every transfer it receives, optionally
/// failing once a budget of successful writes is used up. It stands in for a
/// hardware bus when exercising the driver.
pub struct RecordingBus {
    writes: Vec<(u8, Vec<u8>)>,
    budget: Option<usize>,
}

impl RecordingBus {
    /// The number of successful writes still accepted, if bounded.
    pub closed spec fn spec_budget(&self) -> Option<usize> {
        self.budget
    }

    /// A reliable bus: every write succeeds.
    pub fn new() -> (r: RecordingBus)
        ensures
            r.history() == Seq::<Transfer>::empty(),
            r.spec_budget() is None,
    {
        let r = RecordingBus { writes: Vec::new(), budget: None };
        proof {
            assert(r.history() =~~= Seq::<Transfer>::empty());
        }
        r
    }

    /// A bus that accepts exactly `n` writes and fails every one after them.
    pub fn failing_after(n: usize) -> (r: RecordingBus)
        ensures
            r.history() == Seq::<Transfer>::empty(),
            r.spec_budget() == Some(n),
    {
        let r = RecordingBus { writes: Vec::new(), budget: Some(n) };
        proof {
            assert(r.history() =~~= Seq::<Transfer>::empty());
        }
        r
    }

    /// The recorded transfers, oldest first.
    pub fn writes(&self) -> (r: &Vec<(u8, Vec<u8>)>)
        ensures
            r@.len() == self.history().len(),
            forall|k: int|
                0 <= k < r@.len() ==> #[trigger] self.history()[k] == (r@[k].0, r@[k].1@),
    {
        &self.writes
    }
}

impl BusWrite for RecordingBus {
    type Error = BusFault;

    closed spec fn history(&self) -> Seq<Transfer> {
        self.writes@.map(|k: int, w: (u8, Vec<u8>)| (w.0, w.1@))
    }

    /// Records the transfer while the budget lasts; fails, recording nothing,
    /// once it is used up.
    fn write(&mut self, addr: u8, bytes: &[u8]) -> (r: Result<(), BusFault>)
        ensures
            r is Ok <==> old(self).spec_budget() != Some(0usize),
            final(self).spec_budget() == (match old(self).spec_budget() {
                Option::<usize>::None => Option::<usize>::None,
                Option::<usize>::Some(n) => if n == 0 {
                    Some(0usize)
                } else {
                    Some((n - 1) as usize)
                },
            }),
    {
        match self.budget {
            Some(n) => {
                if n == 0 {
                    return Err(BusFault);
                }
                self.budget = Some(n - 1);
            },
            None => {},
        }
        let owned = vstd::slice::slice_to_vec(bytes);
        self.writes.push((addr, owned));
        proof {
            assert(self.history() =~~= old(self).history().push((addr, bytes@)));
        }
        Ok(())
    }
}

} // verus!
