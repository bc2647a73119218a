//! The dispatcher: what each item of the subscription channel means for the
//! connection state, the session identity and the application.

use vstd::prelude::*;
use crate::proto::{
    AgentOwned, Call, CallBody, CallBodyView, CallView, Event, FrameworkID, FrameworkInfo,
    InverseOffer, Offer, Scalar, TaskStatus,
};
use crate::scheduler::{effects_of, Action, Effect, SchedulerConf};
use crate::scheduler_client::{resumed, SchedulerClient};
use crate::scheduler_event_stream::StreamError;

verus! {

/// The agents that own the items, each once, in the order in which they
/// first appear.
pub open spec fn first_seen<T: AgentOwned>(items: Seq<T>) -> Seq<Seq<char>>
    decreases items.len(),
{
    if items.len() == 0 {
        Seq::empty()
    } else {
        let before = first_seen(items.drop_last());
        if before.contains(items.last().owner()) {
            before
        } else {
            before.push(items.last().owner())
        }
    }
}

/// The items that one agent owns, in the order in which they came.
pub open spec fn owned_by<T: AgentOwned>(items: Seq<T>, agent: Seq<char>) -> Seq<T>
    decreases items.len(),
{
    if items.len() == 0 {
        Seq::empty()
    } else {
        let before = owned_by(items.drop_last(), agent);
        if items.last().owner() == agent {
            before.push(items.last())
        } else {
            before
        }
    }
}

/// The items split by owning agent: one group for each agent, the groups in
/// the order in which their agents first appear, each group in the order in
/// which its items came.
pub open spec fn grouped<T: AgentOwned>(items: Seq<T>) -> Seq<Seq<T>> {
    Seq::new(first_seen(items).len(), |i: int| owned_by(items, first_seen(items)[i]))
}

/// The contents of a vector of vectors.
pub open spec fn contents<T>(v: Seq<Vec<T>>) -> Seq<Seq<T>> {
    Seq::new(v.len(), |i: int| v[i]@)
}

/// No agent has two groups.
pub proof fn lemma_first_seen_distinct<T: AgentOwned>(items: Seq<T>)
    ensures
        forall|a: int, b: int|
            0 <= a < b < first_seen(items).len() ==> first_seen(items)[a] != first_seen(items)[b],
    decreases items.len(),
{
    if items.len() > 0 {
        lemma_first_seen_distinct(items.drop_last());
        let before = first_seen(items.drop_last());
        let keys = first_seen(items);
        assert forall|a: int, b: int| 0 <= a < b < keys.len() implies keys[a] != keys[b] by {
            if b >= before.len() {
                assert(!before.contains(items.last().owner()));
                assert(before[a] == keys[a]);
            }
        }
    }
}

/// Every owner of an item is among the agents seen.
proof fn lemma_owner_is_seen<T: AgentOwned>(items: Seq<T>, i: int)
    requires
        0 <= i < items.len(),
    ensures
        first_seen(items).contains(items[i].owner()),
    decreases items.len(),
{
    let before = first_seen(items.drop_last());
    if i < items.len() - 1 {
        lemma_owner_is_seen(items.drop_last(), i);
        let w = choose|w: int| 0 <= w < before.len() && before[w] == items[i].owner();
        assert(first_seen(items)[w] == items[i].owner());
    } else if before.contains(items.last().owner()) {
    } else {
        assert(first_seen(items)[before.len() as int] == items[i].owner());
    }
}

/// An agent that was not seen owns nothing.
proof fn lemma_owned_by_stranger<T: AgentOwned>(items: Seq<T>, agent: Seq<char>)
    requires
        !first_seen(items).contains(agent),
    ensures
        owned_by(items, agent) == Seq::<T>::empty(),
    decreases items.len(),
{
    if items.len() > 0 {
        lemma_owner_is_seen(items, items.len() - 1);
        let before = first_seen(items.drop_last());
        if before.contains(agent) {
            let w = choose|w: int| 0 <= w < before.len() && before[w] == agent;
            assert(first_seen(items)[w] == agent);
        }
        lemma_owned_by_stranger(items.drop_last(), agent);
    }
}

/// Splits offers by owning agent.
pub fn group_by_agent<T: AgentOwned>(items: Vec<T>) -> (groups: Vec<Vec<T>>)
    ensures
        contents(groups@) == grouped(items@),
{
    let mut groups: Vec<Vec<T>> = Vec::new();
    let ghost all = items@;
    for item in it: items
        invariant
            it.seq() == all,
            groups.len() == first_seen(all.subrange(0, it.index() as int)).len(),
            forall|j: int|
                0 <= j < groups.len() ==> {
                    &&& (#[trigger] groups[j])@ == owned_by(
                        all.subrange(0, it.index() as int),
                        first_seen(all.subrange(0, it.index() as int))[j],
                    )
                    &&& groups[j]@.len() > 0
                    &&& groups[j]@[0].owner() == first_seen(all.subrange(0, it.index() as int))[j]
                },
    {
        let ghost seen = all.subrange(0, it.index() as int);
        let ghost next = all.subrange(0, it.index() + 1);
        let ghost keys = first_seen(seen);
        proof {
            assert(next.drop_last() =~= seen);
            assert(next.last() == item);
            lemma_first_seen_distinct(seen);
        }
        let mut j: usize = 0;
        let mut found = false;
        while j < groups.len() && !found
            invariant
                j <= groups.len(),
                groups.len() == keys.len(),
                forall|k: int|
                    0 <= k < groups.len() ==> (#[trigger] groups[k])@.len() > 0
                        && groups[k]@[0].owner() == keys[k],
                forall|k: int| 0 <= k < j ==> keys[k] != item.owner(),
                found ==> j < groups.len() && keys[j as int] == item.owner(),
            decreases groups.len() - j + (if found { 0int } else { 1int }),
        {
            if groups[j][0].agent().value == item.agent().value {
                found = true;
            } else {
                j += 1;
            }
        }
        let ghost before = groups@;
        if found {
            groups[j].push(item);
            proof {
                assert(keys.contains(keys[j as int]));
                assert(first_seen(next) == keys);
                assert forall|k: int| 0 <= k < groups.len() implies {
                    &&& (#[trigger] groups[k])@ == owned_by(next, first_seen(next)[k])
                    &&& groups[k]@.len() > 0
                    &&& groups[k]@[0].owner() == first_seen(next)[k]
                } by {
                    assert(before[k]@ == owned_by(seen, keys[k]));
                    if k != j {
                        assert(groups[k] == before[k]);
                    }
                }
            }
        } else {
            let mut group: Vec<T> = Vec::new();
            group.push(item);
            groups.push(group);
            proof {
                assert(!keys.contains(item.owner())) by {
                    if keys.contains(item.owner()) {
                        let w = choose|w: int| 0 <= w < keys.len() && keys[w] == item.owner();
                        assert(false);
                    }
                }
                assert(first_seen(next) == keys.push(item.owner()));
                lemma_owned_by_stranger(seen, item.owner());
                assert forall|k: int| 0 <= k < groups.len() implies {
                    &&& (#[trigger] groups[k])@ == owned_by(next, first_seen(next)[k])
                    &&& groups[k]@.len() > 0
                    &&& groups[k]@[0].owner() == first_seen(next)[k]
                } by {
                    if k < before.len() {
                        assert(groups[k] == before[k]);
                        assert(before[k]@ == owned_by(seen, keys[k]));
                    } else {
                        assert(groups[k]@ =~= Seq::<T>::empty().push(item));
                    }
                }
            }
        }
    }
    proof {
        assert(all.subrange(0, all.len() as int) =~= all);
        assert(contents(groups@) =~= grouped(all));
    }
    groups
}

/// Whether the dispatcher believes the stream to be up.
#[derive(Clone, Copy, Debug, PartialEq, Eq, Structural)]
pub enum State {
    Connected,
    Disconnected,
}

impl State {
    pub fn is_connected(&self) -> (connected: bool)
        ensures
            connected == (*self == State::Connected),
    {
        match *self {
            State::Connected => true,
            _ => false,
        }
    }
}

/// One callback for each group of offers.
pub open spec fn offer_effects(offers: Seq<Offer>) -> Seq<Effect> {
    Seq::new(
        grouped(offers).len(),
        |i: int| Effect::Offers { offers: grouped(offers)[i] },
    )
}

/// One callback for each group of inverse offers.
pub open spec fn inverse_offer_effects(inverse_offers: Seq<InverseOffer>) -> Seq<Effect> {
    Seq::new(
        grouped(inverse_offers).len(),
        |i: int| Effect::InverseOffers { inverse_offers: grouped(inverse_offers)[i] },
    )
}

/// What one item of the channel brings about, given the state before it, the
/// session identity after it, and whether updates are acknowledged for the
/// application.
pub open spec fn effects(
    state: State,
    session: Option<FrameworkID>,
    implicit_acknowledgements: bool,
    item: Result<Event, StreamError>,
) -> Seq<Effect> {
    match item {
        Err(_) => if state == State::Connected {
            seq![Effect::Disconnected]
        } else {
            Seq::empty()
        },
        Ok(Event::Subscribed { framework_id, heartbeat_interval_seconds }) => seq![
            Effect::Subscribed { framework_id, heartbeat_interval_seconds },
        ],
        Ok(Event::Offers { offers, inverse_offers }) => offer_effects(offers@)
            + inverse_offer_effects(inverse_offers@),
        Ok(Event::Rescind { offer_id }) => seq![Effect::Rescind { offer_id }],
        Ok(Event::Update { status }) => if implicit_acknowledgements {
            seq![
                Effect::Update { status },
                Effect::Send {
                    call: CallView {
                        framework_id: session,
                        body: CallBodyView::Acknowledge {
                            agent_id: status.agent_id,
                            task_id: status.task_id,
                            uuid: status.uuid@,
                        },
                    },
                },
            ]
        } else {
            seq![Effect::Update { status }]
        },
        Ok(Event::Message { agent_id, executor_id, data }) => seq![
            Effect::Message { agent_id, executor_id, data: data@ },
        ],
        Ok(Event::Failure { agent_id, executor_id, status }) => seq![
            Effect::Failure { agent_id, executor_id, status },
        ],
        Ok(Event::Error { message }) => seq![Effect::Error { message }],
        Ok(Event::Heartbeat) => seq![Effect::Heartbeat],
    }
}

/// The state after an item: any event shows the stream to be up, any error
/// shows it to be down.
pub open spec fn next_state(item: Result<Event, StreamError>) -> State {
    if item is Ok {
        State::Connected
    } else {
        State::Disconnected
    }
}

/// The session identity after an item: a Subscribed event sets it, nothing
/// else touches it, a lost connection least of all.
pub open spec fn next_session(session: Option<FrameworkID>, item: Result<Event, StreamError>)
    -> Option<FrameworkID> {
    match item {
        Ok(Event::Subscribed { framework_id, .. }) => Some(framework_id),
        _ => session,
    }
}

/// The state after a run of items.
pub open spec fn state_after(state: State, items: Seq<Result<Event, StreamError>>) -> State {
    if items.len() == 0 {
        state
    } else {
        next_state(items.last())
    }
}

/// The session identity after a run of items.
pub open spec fn session_after(
    session: Option<FrameworkID>,
    items: Seq<Result<Event, StreamError>>,
) -> Option<FrameworkID>
    decreases items.len(),
{
    if items.len() == 0 {
        session
    } else {
        next_session(session_after(session, items.drop_last()), items.last())
    }
}

/// What a run of items brings about, item after item.
pub open spec fn trace(
    state: State,
    session: Option<FrameworkID>,
    implicit_acknowledgements: bool,
    items: Seq<Result<Event, StreamError>>,
) -> Seq<Effect>
    decreases items.len(),
{
    if items.len() == 0 {
        Seq::empty()
    } else {
        trace(state, session, implicit_acknowledgements, items.drop_last()) + effects(
            state_after(state, items.drop_last()),
            session_after(session, items),
            implicit_acknowledgements,
            items.last(),
        )
    }
}

/// The dispatcher.
#[derive(Clone, Debug, PartialEq, Eq)]
pub struct ProtobufCallbackRouter {
    pub conf: SchedulerConf,
    pub state: State,
}

impl ProtobufCallbackRouter {
    /// A dispatcher at the start of a run: the stream counts as up.
    pub fn new(conf: SchedulerConf) -> (router: ProtobufCallbackRouter)
        ensures
            router.conf == conf,
            router.state == State::Connected,
    {
        ProtobufCallbackRouter { conf, state: State::Connected }
    }

    /// Takes one item of the channel: updates the connection state and the
    /// session identity, and says which callbacks to make and which calls to
    /// send, in that order.
    pub fn route(
        &mut self,
        client: &mut SchedulerClient,
        item: Result<Event, StreamError>,
    ) -> (actions: Vec<Action>)
        ensures
            final(self).conf == old(self).conf,
            final(self).state == next_state(item),
            final(client).url == old(client).url,
            final(client).framework_id == next_session(old(client).framework_id, item),
            effects_of(actions@) == effects(
                old(self).state,
                final(client).framework_id,
                old(self).conf.implicit_acknowledgements,
                item,
            ),
    {
        let mut actions: Vec<Action> = Vec::new();
        let event = match item {
            Err(_) => {
                if self.state.is_connected() {
                    self.state = State::Disconnected;
                    actions.push(Action::Disconnected);
                }
                assert(effects_of(actions@) =~= effects(
                    old(self).state,
                    client.framework_id,
                    self.conf.implicit_acknowledgements,
                    item,
                ));
                return actions;
            },
            Ok(event) => event,
        };
        self.state = State::Connected;
        match event {
            Event::Subscribed { framework_id, heartbeat_interval_seconds } => {
                client.set_framework_id(framework_id.clone());
                actions.push(Action::Subscribed { framework_id, heartbeat_interval_seconds });
            },
            Event::Offers { offers, inverse_offers } => {
                let ghost offered = offers@;
                let ghost inverse = inverse_offers@;
                let mut groups = group_by_agent(offers);
                let mut k: usize = 0;
                while k < groups.len()
                    invariant
                        k <= groups.len(),
                        groups.len() == grouped(offered).len(),
                        actions.len() == k,
                        forall|i: int|
                            k <= i < groups.len() ==> (#[trigger] groups[i])@ == grouped(
                                offered,
                            )[i],
                        forall|i: int|
                            0 <= i < k ==> (#[trigger] actions[i])@ == offer_effects(offered)[i],
                    decreases groups.len() - k,
                {
                    let mut group: Vec<Offer> = Vec::new();
                    core::mem::swap(&mut group, &mut groups[k]);
                    actions.push(Action::Offers { offers: group });
                    k += 1;
                }
                let mut inverse_groups = group_by_agent(inverse_offers);
                let mut m: usize = 0;
                while m < inverse_groups.len()
                    invariant
                        m <= inverse_groups.len(),
                        inverse_groups.len() == grouped(inverse).len(),
                        actions.len() == grouped(offered).len() + m,
                        forall|i: int|
                            m <= i < inverse_groups.len() ==> (#[trigger] inverse_groups[i])@
                                == grouped(inverse)[i],
                        forall|i: int|
                            0 <= i < grouped(offered).len() ==> (#[trigger] actions[i])@
                                == offer_effects(offered)[i],
                        forall|i: int|
                            grouped(offered).len() <= i < actions.len() ==> (#[trigger] actions[i])@
                                == inverse_offer_effects(inverse)[i - grouped(offered).len()],
                    decreases inverse_groups.len() - m,
                {
                    let mut group: Vec<InverseOffer> = Vec::new();
                    core::mem::swap(&mut group, &mut inverse_groups[m]);
                    actions.push(Action::InverseOffers { inverse_offers: group });
                    m += 1;
                }
                assert(effects_of(actions@) =~= offer_effects(offered) + inverse_offer_effects(
                    inverse,
                ));
            },
            Event::Rescind { offer_id } => {
                actions.push(Action::Rescind { offer_id });
            },
            Event::Update { status } => {
                if self.conf.implicit_acknowledgements {
                    let call = client.acknowledge(
                        status.agent_id.clone(),
                        status.task_id.clone(),
                        status.uuid.clone(),
                    );
                    actions.push(Action::Update { status });
                    actions.push(Action::Send { call });
                } else {
                    actions.push(Action::Update { status });
                }
            },
            Event::Message { agent_id, executor_id, data } => {
                actions.push(Action::Message { agent_id, executor_id, data });
            },
            Event::Failure { agent_id, executor_id, status } => {
                actions.push(Action::Failure { agent_id, executor_id, status });
            },
            Event::Error { message } => {
                actions.push(Action::Error { message });
            },
            Event::Heartbeat => {
                actions.push(Action::Heartbeat);
            },
        }
        assert(effects_of(actions@) =~= effects(
            old(self).state,
            client.framework_id,
            self.conf.implicit_acknowledgements,
            item,
        ));
        actions
    }

    /// Takes a run of items of the channel, in their order.
    pub fn run(
        &mut self,
        client: &mut SchedulerClient,
        items: Vec<Result<Event, StreamError>>,
    ) -> (actions: Vec<Action>)
        ensures
            final(self).conf == old(self).conf,
            final(self).state == state_after(old(self).state, items@),
            final(client).url == old(client).url,
            final(client).framework_id == session_after(old(client).framework_id, items@),
            effects_of(actions@) == trace(
                old(self).state,
                old(client).framework_id,
                old(self).conf.implicit_acknowledgements,
                items@,
            ),
    {
        let mut actions: Vec<Action> = Vec::new();
        let ghost all = items@;
        assert(all.subrange(0, 0) =~= Seq::<Result<Event, StreamError>>::empty());
        assert(effects_of(actions@) =~= Seq::<Effect>::empty());
        for item in it: items
            invariant
                it.seq() == all,
                self.conf == old(self).conf,
                client.url == old(client).url,
                self.state == state_after(old(self).state, all.subrange(0, it.index() as int)),
                client.framework_id == session_after(
                    old(client).framework_id,
                    all.subrange(0, it.index() as int),
                ),
                effects_of(actions@) == trace(
                    old(self).state,
                    old(client).framework_id,
                    old(self).conf.implicit_acknowledgements,
                    all.subrange(0, it.index() as int),
                ),
        {
            let ghost done = actions@;
            assert(all.subrange(0, it.index() + 1).drop_last() =~= all.subrange(
                0,
                it.index() as int,
            ));
            let mut more = self.route(client, item);
            let ghost added = more@;
            actions.append(&mut more);
            assert(effects_of(actions@) =~= effects_of(done) + effects_of(added));
        }
        assert(all.subrange(0, all.len() as int) =~= all);
        actions
    }
}

/// The application hears of a lost connection when the stream goes from up
/// to down, and at no other time: an error while the stream is already down
/// brings about nothing, and no event brings about that callback.
pub proof fn lemma_disconnected_marks_a_transition(
    state: State,
    session: Option<FrameworkID>,
    implicit_acknowledgements: bool,
    item: Result<Event, StreamError>,
)
    ensures
        item is Err && state == State::Connected ==> effects(
            state,
            session,
            implicit_acknowledgements,
            item,
        ) == seq![Effect::Disconnected],
        item is Err && state == State::Disconnected ==> effects(
            state,
            session,
            implicit_acknowledgements,
            item,
        ) == Seq::<Effect>::empty(),
        item is Ok ==> !effects(state, session, implicit_acknowledgements, item).contains(
            Effect::Disconnected,
        ),
        item is Err ==> next_state(item) == State::Disconnected,
        item is Ok ==> next_state(item) == State::Connected,
{
}

/// Errors, then an event, then an error: the first error is reported, the
/// ones that follow it at once are not, the event is dispatched as if the
/// stream had been down, and the error after it is reported again.
pub proof fn lemma_repeated_errors_are_reported_once(
    session: Option<FrameworkID>,
    implicit_acknowledgements: bool,
    first: StreamError,
    second: StreamError,
    event: Event,
    third: StreamError,
)
    ensures
        trace(
            State::Connected,
            session,
            implicit_acknowledgements,
            seq![Err(first), Err(second), Ok(event), Err(third)],
        ) == seq![Effect::Disconnected] + effects(
            State::Disconnected,
            next_session(session, Ok(event)),
            implicit_acknowledgements,
            Ok(event),
        ) + seq![Effect::Disconnected],
{
    let items: Seq<Result<Event, StreamError>> = seq![
        Err(first),
        Err(second),
        Ok(event),
        Err(third),
    ];
    let three = items.drop_last();
    let two = three.drop_last();
    let one = two.drop_last();
    assert(one.drop_last() =~= Seq::<Result<Event, StreamError>>::empty());
    reveal_with_fuel(trace, 5);
    reveal_with_fuel(session_after, 5);
    assert(session_after(session, one) == session);
    assert(session_after(session, two) == session);
    assert(session_after(session, three) == next_session(session, Ok(event)));
    assert(trace(State::Connected, session, implicit_acknowledgements, one) =~= seq![
        Effect::Disconnected,
    ]);
    assert(trace(State::Connected, session, implicit_acknowledgements, two) =~= seq![
        Effect::Disconnected,
    ]);
}

/// Once a Subscribed event has been dispatched, every call that the client
/// builds, of whatever kind, carries the identity that the event brought; an
/// error on the channel leaves the identity as it was.
pub proof fn lemma_session_is_propagated(
    client: SchedulerClient,
    framework_id: FrameworkID,
    heartbeat_interval_seconds: Option<Scalar>,
    error: StreamError,
    body: CallBody,
)
    ensures
        (SchedulerClient {
            url: client.url,
            framework_id: next_session(
                client.framework_id,
                Ok(Event::Subscribed { framework_id, heartbeat_interval_seconds }),
            ),
        }).stamped(body) == (Call { framework_id: Some(framework_id), body }),
        next_session(client.framework_id, Err(error)) == client.framework_id,
{
}

/// A client that has no session identity builds a Subscribe call that names
/// none and carries the framework description as it was given.
pub proof fn lemma_first_subscribe_names_no_session(client: SchedulerClient, info: FrameworkInfo)
    requires
        client.framework_id is None,
    ensures
        client.stamped(
            CallBody::Subscribe { framework_info: resumed(info, client.framework_id) },
        ) == (Call { framework_id: None, body: CallBody::Subscribe { framework_info: info } }),
{
}

/// With implicit acknowledgement a status update brings about the callback
/// and then exactly one Acknowledge call, which carries the agent, the task
/// and the token of that status and the session identity; without it, the
/// callback alone.
pub proof fn lemma_updates_are_acknowledged(
    state: State,
    session: Option<FrameworkID>,
    status: TaskStatus,
)
    ensures
        effects(state, session, true, Ok(Event::Update { status })) == seq![
            Effect::Update { status },
            Effect::Send {
                call: CallView {
                    framework_id: session,
                    body: CallBodyView::Acknowledge {
                        agent_id: status.agent_id,
                        task_id: status.task_id,
                        uuid: status.uuid@,
                    },
                },
            },
        ],
        effects(state, session, false, Ok(Event::Update { status })) == seq![
            Effect::Update { status },
        ],
{
}

/// Every group of offers has at least one offer, all of one agent, and no
/// two groups are of the same agent.
pub proof fn lemma_groups_are_whole<T: AgentOwned>(items: Seq<T>)
    ensures
        forall|g: int|
            0 <= g < grouped(items).len() ==> (#[trigger] grouped(items)[g]).len() > 0,
        forall|g: int, i: int|
            0 <= g < grouped(items).len() && 0 <= i < grouped(items)[g].len() ==> (
            #[trigger] grouped(items)[g][i]).owner() == first_seen(items)[g],
        forall|a: int, b: int|
            0 <= a < b < first_seen(items).len() ==> first_seen(items)[a] != first_seen(items)[b],
{
    lemma_first_seen_distinct(items);
    assert forall|g: int| 0 <= g < grouped(items).len() implies (#[trigger] grouped(
        items,
    )[g]).len() > 0 by {
        lemma_seen_agent_owns(items, first_seen(items)[g]);
    }
    assert forall|g: int, i: int|
        0 <= g < grouped(items).len() && 0 <= i < grouped(items)[g].len() implies (
    #[trigger] grouped(items)[g][i]).owner() == first_seen(items)[g] by {
        lemma_owned_by_owner(items, first_seen(items)[g], i);
    }
}

/// No item is lost: each is in the group of its agent.
pub proof fn lemma_every_item_is_grouped<T: AgentOwned>(items: Seq<T>, i: int)
    requires
        0 <= i < items.len(),
    ensures
        exists|g: int|
            0 <= g < grouped(items).len() && first_seen(items)[g] == items[i].owner()
                && (#[trigger] grouped(items)[g]).contains(items[i]),
{
    lemma_owner_is_seen(items, i);
    let g = choose|g: int|
        0 <= g < first_seen(items).len() && first_seen(items)[g] == items[i].owner();
    lemma_owner_holds(items, i);
    assert(grouped(items)[g].contains(items[i]));
}

/// What an agent owns holds each of its items.
proof fn lemma_owner_holds<T: AgentOwned>(items: Seq<T>, i: int)
    requires
        0 <= i < items.len(),
    ensures
        owned_by(items, items[i].owner()).contains(items[i]),
    decreases items.len(),
{
    let agent = items[i].owner();
    let before = owned_by(items.drop_last(), agent);
    if i < items.len() - 1 {
        lemma_owner_holds(items.drop_last(), i);
        let w = choose|w: int| 0 <= w < before.len() && before[w] == items[i];
        assert(owned_by(items, agent)[w] == items[i]);
    } else {
        assert(owned_by(items, agent)[before.len() as int] == items[i]);
    }
}

/// An agent that was seen owns something.
proof fn lemma_seen_agent_owns<T: AgentOwned>(items: Seq<T>, agent: Seq<char>)
    requires
        first_seen(items).contains(agent),
    ensures
        owned_by(items, agent).len() > 0,
    decreases items.len(),
{
    if items.len() > 0 {
        if items.last().owner() != agent {
            let before = first_seen(items.drop_last());
            let w = choose|w: int| 0 <= w < first_seen(items).len() && first_seen(items)[w] == agent;
            assert(before[w] == agent);
            lemma_seen_agent_owns(items.drop_last(), agent);
        }
    }
}

/// What an agent owns is that agent's.
proof fn lemma_owned_by_owner<T: AgentOwned>(items: Seq<T>, agent: Seq<char>, i: int)
    requires
        0 <= i < owned_by(items, agent).len(),
    ensures
        owned_by(items, agent)[i].owner() == agent,
    decreases items.len(),
{
    if items.len() > 0 {
        if i < owned_by(items.drop_last(), agent).len() {
            lemma_owned_by_owner(items.drop_last(), agent, i);
        }
    }
}

} // verus!
