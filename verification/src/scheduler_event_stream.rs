//! The subscription engine: what to do when a connection is refused, when
//! bytes arrive, when the stream breaks, and how long to wait before the next
//! attempt.

use vstd::prelude::*;
use vstd::string::StringExecFns;
use crate::proto::{Call, CallBody, Event, FrameworkInfo};
use crate::recordio::{fresh, records_of, run, Decoding, FrameError, Phase, RecordIOCodec};
use crate::scheduler::SchedulerConf;
use crate::scheduler_client::{resumed, SchedulerClient};

verus! {

/// Why a connection epoch ended. The dispatcher treats all of them alike.
#[derive(Clone, Copy, Debug, PartialEq, Eq)]
pub enum StreamError {
    /// The connection could not be opened.
    ConnectionReset,
    /// Reading from the open connection failed.
    Transport,
    /// The bytes were not a sequence of records.
    Framing(FrameError),
    /// A record was not an event.
    InvalidRecord,
}

/// The wait after a first failure, in milliseconds.
pub const BACKOFF_BASE_MILLIS: u64 = 100;

/// The longest wait, in milliseconds.
pub const BACKOFF_CAP_MILLIS: u64 = 30000;

/// The longest wait after a number of failures in a row: none before the
/// first failure, then the base, doubled with every further failure up to the
/// cap.
pub open spec fn backoff_ceiling(failures: nat) -> nat
    decreases failures,
{
    if failures == 0 {
        0
    } else if failures == 1 {
        BACKOFF_BASE_MILLIS as nat
    } else {
        let doubled = 2 * backoff_ceiling((failures - 1) as nat);
        if doubled > BACKOFF_CAP_MILLIS {
            BACKOFF_CAP_MILLIS as nat
        } else {
            doubled
        }
    }
}

/// The wait after a number of failures: half the ceiling, and of the other
/// half as much as the jitter picks.
pub open spec fn backoff_delay(failures: nat, jitter: u64) -> nat {
    let half = backoff_ceiling(failures) / 2;
    half + (jitter as nat) % (half + 1)
}

/// The ceiling never passes the cap, and once at the cap it stays there.
pub proof fn lemma_backoff_is_bounded(failures: nat, later: nat)
    requires
        failures <= later,
    ensures
        backoff_ceiling(later) <= BACKOFF_CAP_MILLIS,
        backoff_ceiling(failures) <= backoff_ceiling(later),
        backoff_ceiling(failures) == BACKOFF_CAP_MILLIS ==> backoff_ceiling(later)
            == BACKOFF_CAP_MILLIS,
    decreases later,
{
    if later > failures {
        lemma_backoff_is_bounded(failures, (later - 1) as nat);
    }
    if later > 1 {
        lemma_backoff_is_bounded((later - 1) as nat, (later - 1) as nat);
    }
}

/// The wait before the next attempt.
pub fn backoff_millis(failures: u32, jitter: u64) -> (millis: u64)
    ensures
        millis == backoff_delay(failures as nat, jitter),
        backoff_ceiling(failures as nat) / 2 <= millis <= backoff_ceiling(failures as nat),
        millis <= BACKOFF_CAP_MILLIS,
{
    proof {
        lemma_backoff_is_bounded(failures as nat, failures as nat);
    }
    if failures == 0 {
        return 0;
    }
    let mut ceiling: u64 = BACKOFF_BASE_MILLIS;
    let mut n: u32 = 1;
    while n < failures && ceiling < BACKOFF_CAP_MILLIS
        invariant
            1 <= n <= failures,
            ceiling == backoff_ceiling(n as nat),
            ceiling <= BACKOFF_CAP_MILLIS,
        decreases failures - n,
    {
        let doubled: u64 = 2 * ceiling;
        ceiling = if doubled > BACKOFF_CAP_MILLIS {
            BACKOFF_CAP_MILLIS
        } else {
            doubled
        };
        n += 1;
    }
    proof {
        lemma_backoff_is_bounded(n as nat, failures as nat);
    }
    let half: u64 = ceiling / 2;
    half + jitter % (half + 1)
}

/// `rand::random::<u64>()`: a number from the generator of the calling
/// thread. Nothing is claimed of it.
#[verifier::external_body]
fn random_u64() -> (number: u64) {
    rand::random::<u64>()
}

/// The framework description that a configuration stands for, before any
/// session.
pub open spec fn framework_info_of(conf: SchedulerConf) -> FrameworkInfo {
    FrameworkInfo {
        user: conf.user,
        name: conf.name,
        failover_timeout: conf.framework_timeout,
        id: None,
    }
}

/// The client for a configuration: it posts to the scheduler endpoint of the
/// configured server, and starts with the configured session identity, if any.
pub fn client_for(conf: &SchedulerConf) -> (client: SchedulerClient)
    ensures
        client.url@ == conf.master_url@ + "/api/v1/scheduler"@,
        client.framework_id == conf.framework_id,
{
    let url = conf.master_url.clone().concat("/api/v1/scheduler");
    let framework_id = match &conf.framework_id {
        Some(id) => Some(id.clone()),
        None => None,
    };
    SchedulerClient::new(url, framework_id)
}

/// The Subscribe call of the next attempt. The first one of a new framework
/// names no session; every later one names the session that the client holds.
pub fn subscribe_call(client: &SchedulerClient, conf: &SchedulerConf) -> (call: Call)
    ensures
        call == client.stamped(
            CallBody::Subscribe {
                framework_info: resumed(framework_info_of(*conf), client.framework_id),
            },
        ),
{
    let framework_info = FrameworkInfo {
        user: conf.user.clone(),
        name: conf.name.clone(),
        failover_timeout: conf.framework_timeout,
        id: None,
    };
    client.subscribe(framework_info, None)
}

/// Whether every record was an event.
pub open spec fn all_decoded(decoded: Seq<Option<Event>>) -> bool {
    forall|i: int| 0 <= i < decoded.len() ==> (#[trigger] decoded[i]) is Some
}

/// What goes on the channel for a run of records: the events in their order,
/// up to the first record that was no event; for that one an error, and
/// nothing after it.
pub open spec fn forwarded(decoded: Seq<Option<Event>>) -> Seq<Result<Event, StreamError>>
    decreases decoded.len(),
{
    if decoded.len() == 0 {
        Seq::empty()
    } else if !all_decoded(decoded.drop_last()) {
        forwarded(decoded.drop_last())
    } else {
        match decoded.last() {
            Some(event) => forwarded(decoded.drop_last()).push(Ok(event)),
            None => forwarded(decoded.drop_last()).push(Err(StreamError::InvalidRecord)),
        }
    }
}

/// What one record puts on the channel.
pub open spec fn forwarded_one(record: Option<Event>) -> Result<Event, StreamError> {
    match record {
        Some(event) => Ok(event),
        None => Err(StreamError::InvalidRecord),
    }
}

/// Events go on the channel in the order of their records, none twice and
/// none left out, up to the first record that was no event; the error for
/// that record is the last thing forwarded.
pub proof fn lemma_forwarded_in_order(decoded: Seq<Option<Event>>)
    ensures
        forwarded(decoded).len() <= decoded.len(),
        forall|i: int|
            0 <= i < forwarded(decoded).len() ==> #[trigger] forwarded(decoded)[i]
                == forwarded_one(decoded[i]),
        forall|i: int| 0 <= i < forwarded(decoded).len() - 1 ==> (#[trigger] decoded[i]) is Some,
        all_decoded(decoded) ==> forwarded(decoded).len() == decoded.len(),
        !all_decoded(decoded) ==> forwarded(decoded).len() > 0 && decoded[forwarded(
            decoded,
        ).len() - 1] is None,
    decreases decoded.len(),
{
    if decoded.len() > 0 {
        let before = decoded.drop_last();
        lemma_forwarded_in_order(before);
        if all_decoded(before) {
            if decoded.last() is Some {
                assert forall|i: int| 0 <= i < decoded.len() implies (
                #[trigger] decoded[i]) is Some by {
                    if i < before.len() {
                        assert(before[i] is Some);
                    }
                }
            } else {
                assert(decoded[decoded.len() - 1] is None);
            }
        } else {
            let w = choose|w: int| 0 <= w < before.len() && !((#[trigger] before[w]) is Some);
            assert(decoded[w] == before[w]);
            assert(before[forwarded(before).len() - 1] == decoded[forwarded(before).len() - 1]);
        }
        assert forall|i: int| 0 <= i < forwarded(decoded).len() implies #[trigger] forwarded(
            decoded,
        )[i] == forwarded_one(decoded[i]) by {
            if i < forwarded(before).len() {
                assert(forwarded(before)[i] == forwarded_one(before[i]));
            }
        }
        assert forall|i: int| 0 <= i < forwarded(decoded).len() - 1 implies (
        #[trigger] decoded[i]) is Some by {
            assert(before[i] is Some);
        }
    }
}

/// The error, if any, that ends the epoch after a run of records: a record
/// that was no event, or else a malformed frame behind the last record.
pub open spec fn epoch_error(decoded: Seq<Option<Event>>, phase: Phase) -> Option<StreamError> {
    if !all_decoded(decoded) {
        Some(StreamError::InvalidRecord)
    } else {
        match phase {
            Phase::Failed { error } => Some(StreamError::Framing(error)),
            _ => None,
        }
    }
}

/// All that goes on the channel for a run of records and the state in which
/// the decoder stopped behind them.
pub open spec fn delivered(
    decoded: Seq<Option<Event>>,
    phase: Phase,
) -> Seq<Result<Event, StreamError>> {
    if all_decoded(decoded) && phase is Failed {
        forwarded(decoded).push(Err(StreamError::Framing(phase->error)))
    } else {
        forwarded(decoded)
    }
}

/// One more failure, counted up to the largest number that fits.
pub open spec fn one_more(failures: u32) -> u32 {
    if failures == u32::MAX {
        failures
    } else {
        (failures + 1) as u32
    }
}

/// The engine of one subscription: the decoder of the current connection,
/// whether that connection is still good, and how many attempts have failed
/// in a row.
pub struct Subscription {
    pub codec: RecordIOCodec,
    pub open: bool,
    pub failures: u32,
}

impl Subscription {
    /// Between calls the decoder holds no finished record back.
    pub open spec fn wf(&self) -> bool {
        self.codec.wf() && self.codec@.records.len() == 0
    }

    /// An engine that has not connected yet.
    pub fn new() -> (engine: Subscription)
        ensures
            engine.wf(),
            engine.codec@ == fresh(),
            !engine.open,
            engine.failures == 0,
    {
        Subscription { codec: RecordIOCodec::new(), open: false, failures: 0 }
    }

    fn fail(&mut self)
        ensures
            final(self).codec == old(self).codec,
            !final(self).open,
            final(self).failures == one_more(old(self).failures),
    {
        self.open = false;
        if self.failures < u32::MAX {
            self.failures += 1;
        }
    }

    /// The connection could not be opened: one error goes on the channel.
    pub fn refused(&mut self) -> (item: Result<Event, StreamError>)
        ensures
            item == Err::<Event, StreamError>(StreamError::ConnectionReset),
            final(self).codec == old(self).codec,
            !final(self).open,
            final(self).failures == one_more(old(self).failures),
    {
        self.fail();
        Err(StreamError::ConnectionReset)
    }

    /// A connection was opened: its bytes go through a new decoder, which
    /// knows nothing of the connection before.
    pub fn connected(&mut self)
        ensures
            final(self).wf(),
            final(self).codec@ == fresh(),
            final(self).open,
            final(self).failures == old(self).failures,
    {
        self.codec = RecordIOCodec::new();
        self.open = true;
    }

    /// Bytes arrived. The result holds the records that they completed, in
    /// their order; a record under way stays with the decoder. On a
    /// connection that is not good any more nothing is decoded.
    pub fn received(&mut self, chunk: &[u8]) -> (records: Vec<Vec<u8>>)
        requires
            old(self).wf(),
        ensures
            final(self).wf(),
            final(self).open == old(self).open,
            final(self).failures == old(self).failures,
            old(self).open ==> records_of(records@) == run(old(self).codec@, chunk@).records
                && final(self).codec@ == (Decoding {
                phase: run(old(self).codec@, chunk@).phase,
                records: Seq::empty(),
            }),
            !old(self).open ==> records@.len() == 0 && final(self).codec@ == old(self).codec@,
    {
        if !self.open {
            return Vec::new();
        }
        let _ = self.codec.write(chunk);
        self.codec.take_records()
    }

    /// The records of the last chunk have been read as events, `None` for a
    /// record that was no event. The result is what goes on the channel:
    /// the events, and after them the error that ended the epoch, if a record
    /// was no event or the bytes behind the records were malformed.
    pub fn deliver(
        &mut self,
        decoded: Vec<Option<Event>>,
    ) -> (items: Vec<Result<Event, StreamError>>)
        requires
            old(self).wf(),
        ensures
            final(self).wf(),
            final(self).codec == old(self).codec,
            !old(self).open ==> items@.len() == 0 && *final(self) == *old(self),
            old(self).open ==> {
                &&& items@ == delivered(decoded@, old(self).codec@.phase)
                &&& final(self).open == (epoch_error(decoded@, old(self).codec@.phase) is None)
                &&& final(self).failures == if epoch_error(decoded@, old(self).codec@.phase)
                    is Some {
                    one_more(old(self).failures)
                } else if decoded@.len() > 0 {
                    0
                } else {
                    old(self).failures
                }
            },
    {
        let mut items: Vec<Result<Event, StreamError>> = Vec::new();
        if !self.open {
            return items;
        }
        let ghost all = decoded@;
        let any = decoded.len() > 0;
        let mut broken = false;
        assert(all.subrange(0, 0) =~= Seq::<Option<Event>>::empty());
        for record in it: decoded
            invariant
                it.seq() == all,
                broken == !all_decoded(all.subrange(0, it.index() as int)),
                items@ == forwarded(all.subrange(0, it.index() as int)),
        {
            let ghost before = all.subrange(0, it.index() as int);
            let ghost now = all.subrange(0, it.index() + 1);
            proof {
                assert(now.drop_last() =~= before);
                assert(now.last() == record);
                if all_decoded(now) {
                    assert forall|i: int| 0 <= i < before.len() implies (
                    #[trigger] before[i]) is Some by {
                        assert(now[i] is Some);
                    }
                }
                if all_decoded(before) && record is Some {
                    assert forall|i: int| 0 <= i < now.len() implies (#[trigger] now[i]) is Some by {
                        if i < before.len() {
                            assert(before[i] is Some);
                        }
                    }
                }
                if record is None {
                    assert(now[now.len() - 1] is None);
                }
            }
            if !broken {
                match record {
                    Some(event) => {
                        items.push(Ok(event));
                    },
                    None => {
                        items.push(Err(StreamError::InvalidRecord));
                        broken = true;
                    },
                }
            }
        }
        assert(all.subrange(0, all.len() as int) =~= all);
        if broken {
            self.fail();
        } else {
            match self.codec.failure() {
                Some(error) => {
                    items.push(Err(StreamError::Framing(error)));
                    self.fail();
                },
                None => {
                    if any {
                        self.failures = 0;
                    }
                },
            }
        }
        items
    }

    /// Reading failed: one error goes on the channel, and what the decoder
    /// held of an unfinished record is never delivered.
    pub fn lost(&mut self) -> (item: Result<Event, StreamError>)
        ensures
            item == Err::<Event, StreamError>(StreamError::Transport),
            final(self).codec == old(self).codec,
            !final(self).open,
            final(self).failures == one_more(old(self).failures),
    {
        self.fail();
        Err(StreamError::Transport)
    }

    /// The server ended the stream: nothing goes on the channel, and what the
    /// decoder held of an unfinished record is never delivered.
    pub fn closed(&mut self)
        ensures
            final(self).codec == old(self).codec,
            !final(self).open,
            final(self).failures == one_more(old(self).failures),
    {
        self.fail();
    }

    /// How long to wait before the next attempt, in milliseconds: between
    /// half the ceiling for the failures so far and that ceiling, the place
    /// in between picked at random.
    pub fn next_delay(&self) -> (millis: u64)
        ensures
            exists|jitter: u64| millis == backoff_delay(self.failures as nat, jitter),
            backoff_ceiling(self.failures as nat) / 2 <= millis <= backoff_ceiling(
                self.failures as nat,
            ),
            millis <= BACKOFF_CAP_MILLIS,
    {
        let jitter = random_u64();
        backoff_millis(self.failures, jitter)
    }
}

} // verus!
