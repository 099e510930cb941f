//! The interactive session controller.  One session is one user-initiated
//! translation request awaiting its target-language choice: created by a
//! translate action, moved forward only by the arrival of a correlated
//! selection event, a timeout, or the gateway's answer, and always torn
//! down — whichever way the exchange ends.  The controller is a state
//! machine from session and event to next session and actions; the
//! surrounding event loop performs the actions (sending, editing and
//! deleting platform messages, calling the gateway) and feeds the
//! resulting events back in.

use vstd::prelude::*;
use crate::language_detection::{
    detect_language,
    restricted_detector_names,
    unrestricted_detector_names,
    unsupported_message,
};
use crate::types::{SubnetPost, SubnetPostV, TASK_TEXT_TO_TEXT};

verus! {

/// How long a session waits for a correlated selection event.
pub const SELECTION_TIMEOUT_SECS: u64 = 120;

/// The lifecycle states of a session.
#[derive(Clone, Copy, Debug, PartialEq, Eq, Structural)]
pub enum SessionState {
    /// Triggered, source language not yet identified.
    Created,
    /// Selection UI shown; waiting for a correlated selection or the timeout.
    AwaitingSelection,
    /// A selection arrived; the gateway call is in flight.
    Translating,
    /// Terminal: all ephemeral state torn down, the token never reused.
    Closed,
}

/// One in-flight translation request.
pub struct Session {
    /// Correlation token, unique per triggering event.
    pub token: u64,
    /// The user who triggered the request.
    pub initiator: u64,
    /// The channel the request came from.
    pub channel: u64,
    /// The text to translate.
    pub origin_text: String,
    /// When the session was created, in seconds.
    pub created_at: u64,
    /// When the selection wait expires.
    pub expiry: u64,
    /// The identified source language; empty until identification.
    pub detected_language: String,
    /// Lifecycle state.
    pub state: SessionState,
}

/// The mathematical content of a `Session`.
pub struct SessionV {
    pub token: u64,
    pub initiator: u64,
    pub channel: u64,
    pub origin_text: Seq<char>,
    pub created_at: u64,
    pub expiry: u64,
    pub detected_language: Seq<char>,
    pub state: SessionState,
}

impl View for Session {
    type V = SessionV;

    open spec fn view(&self) -> SessionV {
        SessionV {
            token: self.token,
            initiator: self.initiator,
            channel: self.channel,
            origin_text: self.origin_text@,
            created_at: self.created_at,
            expiry: self.expiry,
            detected_language: self.detected_language@,
            state: self.state,
        }
    }
}

/// A component interaction event carrying a user's target choice.
pub struct SelectionEvent {
    /// The correlation token embedded in the UI element's identifier.
    pub token: u64,
    /// The user who clicked.
    pub user: u64,
    /// The channel the interaction came from.
    pub channel: u64,
    /// The selected target language.
    pub value: String,
}

/// The mathematical content of a `SelectionEvent`.
pub struct SelectionEventV {
    pub token: u64,
    pub user: u64,
    pub channel: u64,
    pub value: Seq<char>,
}

impl View for SelectionEvent {
    type V = SelectionEventV;

    open spec fn view(&self) -> SelectionEventV {
        SelectionEventV {
            token: self.token,
            user: self.user,
            channel: self.channel,
            value: self.value@,
        }
    }
}

/// What can happen to a session while it waits.
pub enum SessionEvent {
    /// A component interaction arrived (not necessarily for this session).
    Selection(SelectionEvent),
    /// The selection wait expired.
    Timeout,
    /// The gateway answered with translated text.
    GatewayOk(String),
    /// The gateway call failed; the payload is the user-facing description.
    GatewayErr(String),
}

/// The mathematical content of a `SessionEvent`.
pub enum SessionEventV {
    Selection(SelectionEventV),
    Timeout,
    GatewayOk(Seq<char>),
    GatewayErr(Seq<char>),
}

impl View for SessionEvent {
    type V = SessionEventV;

    open spec fn view(&self) -> SessionEventV {
        match self {
            SessionEvent::Selection(sel) => SessionEventV::Selection(sel@),
            SessionEvent::Timeout => SessionEventV::Timeout,
            SessionEvent::GatewayOk(text) => SessionEventV::GatewayOk(text@),
            SessionEvent::GatewayErr(msg) => SessionEventV::GatewayErr(msg@),
        }
    }
}

/// What the event loop must do on the controller's behalf.
pub enum SessionAction {
    /// Present the selection UI, tagged with the session's token.
    ShowSelectionUi,
    /// Reply to the originating message with an error text.
    ReplyError(String),
    /// Acknowledge the selection interaction to suppress loading indicators.
    AckSelection,
    /// Update the ephemeral UI with a progress message.
    EditUiProgress(String),
    /// Send the request to the remote translation service.
    CallGateway(SubnetPost),
    /// Reply to the originating message with the translated text.
    ReplyTranslated(String),
    /// Delete the ephemeral UI element.
    DeleteUi,
}

/// The mathematical content of a `SessionAction`.
pub enum SessionActionV {
    ShowSelectionUi,
    ReplyError(Seq<char>),
    AckSelection,
    EditUiProgress(Seq<char>),
    CallGateway(SubnetPostV),
    ReplyTranslated(Seq<char>),
    DeleteUi,
}

impl View for SessionAction {
    type V = SessionActionV;

    open spec fn view(&self) -> SessionActionV {
        match self {
            SessionAction::ShowSelectionUi => SessionActionV::ShowSelectionUi,
            SessionAction::ReplyError(msg) => SessionActionV::ReplyError(msg@),
            SessionAction::AckSelection => SessionActionV::AckSelection,
            SessionAction::EditUiProgress(msg) => SessionActionV::EditUiProgress(msg@),
            SessionAction::CallGateway(post) => SessionActionV::CallGateway(post@),
            SessionAction::ReplyTranslated(text) => SessionActionV::ReplyTranslated(text@),
            SessionAction::DeleteUi => SessionActionV::DeleteUi,
        }
    }
}

/// The views of a sequence of actions.
pub open spec fn actions_view(v: Seq<SessionAction>) -> Seq<SessionActionV> {
    v.map_values(|a: SessionAction| a@)
}

/// True when a selection event correlates with this session: token, user
/// and channel all match.
pub open spec fn is_matching_selection(s: SessionV, e: SessionEventV) -> bool {
    match e {
        SessionEventV::Selection(sel) => sel.token == s.token && sel.user == s.initiator
            && sel.channel == s.channel,
        _ => false,
    }
}

/// The progress text shown in the ephemeral UI once a target is chosen.
pub open spec fn progress_message(from: Seq<char>, to: Seq<char>) -> Seq<char> {
    "Translation in progress: "@ + from + " to "@ + to + "..."@
}

/// Renders the progress text.
pub fn compose_progress_message(from: &String, to: &String) -> (r: String)
    ensures
        r@ == progress_message(from@, to@),
{
    let mut s = String::from_str("Translation in progress: ");
    s.append(from.as_str());
    s.append(" to ");
    s.append(to.as_str());
    s.append("...");
    proof {
        assert(s@ =~= progress_message(from@, to@));
    }
    s
}

/// The request a session sends once the target language is chosen.
pub open spec fn session_request(s: SessionV, target: Seq<char>) -> SubnetPostV {
    SubnetPostV {
        input: s.origin_text,
        source_language: s.detected_language,
        target_language: target,
        task_string: TASK_TEXT_TO_TEXT@,
    }
}

/// One transition of the session state machine.
pub open spec fn spec_step(s: SessionV, e: SessionEventV) -> (SessionV, Seq<SessionActionV>) {
    match s.state {
        SessionState::AwaitingSelection => match e {
            SessionEventV::Selection(sel) => if is_matching_selection(s, e) {
                (
                    SessionV { state: SessionState::Translating, ..s },
                    seq![
                        SessionActionV::AckSelection,
                        SessionActionV::EditUiProgress(
                            progress_message(s.detected_language, sel.value),
                        ),
                        SessionActionV::CallGateway(session_request(s, sel.value)),
                    ],
                )
            } else {
                (s, seq![])
            },
            SessionEventV::Timeout => (
                SessionV { state: SessionState::Closed, ..s },
                seq![SessionActionV::DeleteUi],
            ),
            _ => (s, seq![]),
        },
        SessionState::Translating => match e {
            SessionEventV::GatewayOk(text) => (
                SessionV { state: SessionState::Closed, ..s },
                seq![SessionActionV::ReplyTranslated(text), SessionActionV::DeleteUi],
            ),
            SessionEventV::GatewayErr(msg) => (
                SessionV { state: SessionState::Closed, ..s },
                seq![SessionActionV::ReplyError(msg), SessionActionV::DeleteUi],
            ),
            _ => (s, seq![]),
        },
        _ => (s, seq![]),
    }
}

impl Session {
    /// Opens a session for one triggering event.
    pub fn start(token: u64, initiator: u64, channel: u64, origin_text: String, now: u64) -> (s:
        Session)
        requires
            now + SELECTION_TIMEOUT_SECS <= u64::MAX,
        ensures
            s@.token == token,
            s@.initiator == initiator,
            s@.channel == channel,
            s@.origin_text == origin_text@,
            s@.created_at == now,
            s@.expiry == now + SELECTION_TIMEOUT_SECS,
            s@.detected_language.len() == 0,
            s@.state is Created,
    {
        Session {
            token,
            initiator,
            channel,
            origin_text,
            created_at: now,
            expiry: now + SELECTION_TIMEOUT_SECS,
            detected_language: String::new(),
            state: SessionState::Created,
        }
    }

    /// Runs language identification on the session's text.  On a supported
    /// pick the session starts waiting for a selection and the UI is shown;
    /// otherwise the diagnostic is sent and the session closes with no UI
    /// ever created.
    pub fn identify(self) -> (r: (Session, Vec<SessionAction>))
        requires
            self@.state is Created,
        ensures
            r.0@.token == self@.token,
            r.0@.initiator == self@.initiator,
            r.0@.channel == self@.channel,
            r.0@.origin_text == self@.origin_text,
            r.0@.created_at == self@.created_at,
            r.0@.expiry == self@.expiry,
            r.0@.state is AwaitingSelection || r.0@.state is Closed,
            r.0@.state is AwaitingSelection ==> {
                &&& restricted_detector_names().contains(r.0@.detected_language)
                &&& actions_view(r.1@) == seq![SessionActionV::ShowSelectionUi]
            },
            r.0@.state is Closed ==> {
                &&& r.0@.detected_language == self@.detected_language
                &&& exists|g: Seq<char>|
                    unrestricted_detector_names().contains(g) && actions_view(r.1@) == seq![
                        SessionActionV::ReplyError(unsupported_message(g)),
                    ]
            },
    {
        let mut actions: Vec<SessionAction> = Vec::new();
        match detect_language(&self.origin_text) {
            Ok(detected_language) => {
                actions.push(SessionAction::ShowSelectionUi);
                let next = Session {
                    detected_language,
                    state: SessionState::AwaitingSelection,
                    ..self
                };
                proof {
                    assert(actions_view(actions@) =~= seq![SessionActionV::ShowSelectionUi]);
                }
                (next, actions)
            },
            Err(error_message) => {
                let ghost message_view = error_message@;
                actions.push(SessionAction::ReplyError(error_message));
                let next = Session { state: SessionState::Closed, ..self };
                proof {
                    let g = choose|g: Seq<char>|
                        unrestricted_detector_names().contains(g) && message_view
                            == unsupported_message(g);
                    assert(actions_view(actions@) =~= seq![
                        SessionActionV::ReplyError(unsupported_message(g)),
                    ]);
                }
                (next, actions)
            },
        }
    }

    /// One transition: feeds an event to the session, yielding the next
    /// session and the actions the event loop must perform, exactly as
    /// `spec_step` says.
    pub fn step(self, event: SessionEvent) -> (r: (Session, Vec<SessionAction>))
        ensures
            r.0@ == spec_step(self@, event@).0,
            actions_view(r.1@) == spec_step(self@, event@).1,
    {
        let mut actions: Vec<SessionAction> = Vec::new();
        proof {
            assert(actions_view(actions@) =~= Seq::<SessionActionV>::empty());
        }
        match self.state {
            SessionState::AwaitingSelection => match event {
                SessionEvent::Selection(sel) => {
                    if sel.token == self.token && sel.user == self.initiator && sel.channel
                        == self.channel {
                        let progress = compose_progress_message(
                            &self.detected_language,
                            &sel.value,
                        );
                        let request = SubnetPost {
                            input: self.origin_text.clone(),
                            source_language: self.detected_language.clone(),
                            target_language: sel.value,
                            task_string: String::from_str(TASK_TEXT_TO_TEXT),
                        };
                        actions.push(SessionAction::AckSelection);
                        actions.push(SessionAction::EditUiProgress(progress));
                        actions.push(SessionAction::CallGateway(request));
                        let ghost expected = spec_step(self@, event@).1;
                        let next = Session { state: SessionState::Translating, ..self };
                        proof {
                            assert(actions_view(actions@) =~= expected);
                        }
                        (next, actions)
                    } else {
                        (self, actions)
                    }
                },
                SessionEvent::Timeout => {
                    actions.push(SessionAction::DeleteUi);
                    let ghost expected = spec_step(self@, event@).1;
                    let next = Session { state: SessionState::Closed, ..self };
                    proof {
                        assert(actions_view(actions@) =~= expected);
                    }
                    (next, actions)
                },
                _ => (self, actions),
            },
            SessionState::Translating => match event {
                SessionEvent::GatewayOk(text) => {
                    actions.push(SessionAction::ReplyTranslated(text));
                    actions.push(SessionAction::DeleteUi);
                    let ghost expected = spec_step(self@, event@).1;
                    let next = Session { state: SessionState::Closed, ..self };
                    proof {
                        assert(actions_view(actions@) =~= expected);
                    }
                    (next, actions)
                },
                SessionEvent::GatewayErr(msg) => {
                    actions.push(SessionAction::ReplyError(msg));
                    actions.push(SessionAction::DeleteUi);
                    let ghost expected = spec_step(self@, event@).1;
                    let next = Session { state: SessionState::Closed, ..self };
                    proof {
                        assert(actions_view(actions@) =~= expected);
                    }
                    (next, actions)
                },
                _ => (self, actions),
            },
            _ => (self, actions),
        }
    }
}

/// Folds a whole event sequence through the state machine, collecting
/// every action it emits.
pub open spec fn spec_run(s: SessionV, es: Seq<SessionEventV>) -> (SessionV, Seq<SessionActionV>)
    decreases es.len(),
{
    if es.len() == 0 {
        (s, seq![])
    } else {
        let first = spec_step(s, es[0]);
        let rest = spec_run(first.0, es.drop_first());
        (rest.0, first.1 + rest.1)
    }
}

/// How many gateway invocations a sequence of actions contains.
pub open spec fn gateway_calls(actions: Seq<SessionActionV>) -> nat
    decreases actions.len(),
{
    if actions.len() == 0 {
        0
    } else {
        (if actions[0] is CallGateway {
            1nat
        } else {
            0nat
        }) + gateway_calls(actions.drop_first())
    }
}

/// Gateway counting distributes over concatenation.
pub proof fn lemma_gateway_calls_concat(a: Seq<SessionActionV>, b: Seq<SessionActionV>)
    ensures
        gateway_calls(a + b) == gateway_calls(a) + gateway_calls(b),
    decreases a.len(),
{
    if a.len() == 0 {
        assert(a + b =~= b);
    } else {
        assert((a + b).drop_first() =~= a.drop_first() + b);
        lemma_gateway_calls_concat(a.drop_first(), b);
    }
}

/// A sequence without gateway actions counts zero.
pub proof fn lemma_no_gateway_count(actions: Seq<SessionActionV>)
    requires
        forall|k: int| 0 <= k < actions.len() ==> !(#[trigger] actions[k] is CallGateway),
    ensures
        gateway_calls(actions) == 0,
    decreases actions.len(),
{
    if actions.len() > 0 {
        lemma_no_gateway_count(actions.drop_first());
    }
}

/// A closed session is inert: no event moves it or makes it act.
pub proof fn lemma_closed_inert(s: SessionV, es: Seq<SessionEventV>)
    requires
        s.state is Closed,
    ensures
        spec_run(s, es).0 == s,
        spec_run(s, es).1 == Seq::<SessionActionV>::empty(),
    decreases es.len(),
{
    if es.len() > 0 {
        lemma_closed_inert(s, es.drop_first());
        assert(spec_run(s, es).1 =~= Seq::<SessionActionV>::empty());
    }
}

/// Once a session is past the selection wait, no further event makes it
/// call the gateway again, and every action it still emits is part of the
/// teardown (a reply or the UI deletion).
pub proof fn lemma_after_selection_no_gateway(s: SessionV, es: Seq<SessionEventV>)
    requires
        s.state is Translating || s.state is Closed,
    ensures
        forall|k: int|
            0 <= k < spec_run(s, es).1.len() ==> !(#[trigger] spec_run(s, es).1[k] is CallGateway),
        gateway_calls(spec_run(s, es).1) == 0,
    decreases es.len(),
{
    if es.len() > 0 {
        let first = spec_step(s, es[0]);
        lemma_after_selection_no_gateway(first.0, es.drop_first());
        assert forall|k: int| 0 <= k < spec_run(s, es).1.len() implies !(#[trigger] spec_run(
            s,
            es,
        ).1[k] is CallGateway) by {
            if k < first.1.len() {
                assert(spec_run(s, es).1[k] == first.1[k]);
            } else {
                assert(spec_run(s, es).1[k] == spec_run(first.0, es.drop_first()).1[k
                    - first.1.len()]);
            }
        }
    }
    lemma_no_gateway_count(spec_run(s, es).1);
}

/// A session that sees no correlated selection never invokes the gateway,
/// and the timeout closes it.
pub proof fn lemma_timeout_without_selection(s: SessionV, es: Seq<SessionEventV>)
    requires
        s.state is AwaitingSelection,
        forall|i: int| 0 <= i < es.len() ==> !is_matching_selection(s, #[trigger] es[i]),
    ensures
        gateway_calls(spec_run(s, es).1) == 0,
        (exists|i: int| 0 <= i < es.len() && #[trigger] es[i] is Timeout) ==> spec_run(
            s,
            es,
        ).0.state is Closed,
    decreases es.len(),
{
    if es.len() == 0 {
        return ;
    }
    let first = spec_step(s, es[0]);
    if es[0] is Timeout {
        assert(first.0.state is Closed);
        lemma_closed_inert(first.0, es.drop_first());
        assert(spec_run(s, es).1 =~= first.1);
        assert(first.1.drop_first() =~= Seq::<SessionActionV>::empty());
        assert(gateway_calls(first.1.drop_first()) == 0);
        assert(gateway_calls(first.1) == 0);
    } else {
        assert(first.0 == s && first.1 =~= Seq::<SessionActionV>::empty());
        assert forall|i: int|
            0 <= i < es.drop_first().len() implies !is_matching_selection(
            s,
            #[trigger] es.drop_first()[i],
        ) by {
            assert(es.drop_first()[i] == es[i + 1]);
        }
        lemma_timeout_without_selection(s, es.drop_first());
        assert(spec_run(s, es).1 =~= spec_run(s, es.drop_first()).1);
        if exists|i: int| 0 <= i < es.len() && #[trigger] es[i] is Timeout {
            let i = choose|i: int| 0 <= i < es.len() && #[trigger] es[i] is Timeout;
            assert(es.drop_first()[i - 1] == es[i]);
        }
    }
}

/// The first correlated selection wins: the gateway is invoked exactly
/// once, with the session's detected language as the source and the
/// selected value as the target, and no other request is ever sent for
/// this session.
pub proof fn lemma_first_selection_translates_once(s: SessionV, es: Seq<SessionEventV>, i: int)
    requires
        s.state is AwaitingSelection,
        0 <= i < es.len(),
        is_matching_selection(s, es[i]),
        forall|j: int|
            0 <= j < i ==> !is_matching_selection(s, #[trigger] es[j]) && !(es[j] is Timeout),
    ensures
        gateway_calls(spec_run(s, es).1) == 1,
        forall|k: int|
            0 <= k < spec_run(s, es).1.len() && (#[trigger] spec_run(s, es).1[k]) is CallGateway
                ==> spec_run(s, es).1[k]->CallGateway_0 == session_request(
                s,
                es[i]->Selection_0.value,
            ),
    decreases i,
{
    let first = spec_step(s, es[0]);
    let run = spec_run(s, es);
    if i == 0 {
        let sel = es[0]->Selection_0;
        assert(first.0.state is Translating);
        assert(gateway_calls(first.1) == 1) by {
            let a0 = first.1;
            let a1 = a0.drop_first();
            let a2 = a1.drop_first();
            let a3 = a2.drop_first();
            assert(a1 =~= seq![
                SessionActionV::EditUiProgress(progress_message(s.detected_language, sel.value)),
                SessionActionV::CallGateway(session_request(s, sel.value)),
            ]);
            assert(a2 =~= seq![SessionActionV::CallGateway(session_request(s, sel.value))]);
            assert(a3 =~= Seq::<SessionActionV>::empty());
            assert(gateway_calls(a3) == 0);
            assert(gateway_calls(a2) == 1);
            assert(gateway_calls(a1) == 1);
            assert(gateway_calls(a0) == 1);
        }
        lemma_after_selection_no_gateway(first.0, es.drop_first());
        lemma_gateway_calls_concat(first.1, spec_run(first.0, es.drop_first()).1);
        assert forall|k: int|
            0 <= k < run.1.len() && (#[trigger] run.1[k]) is CallGateway implies run.1[k]->CallGateway_0
            == session_request(s, es[i]->Selection_0.value) by {
            if k < first.1.len() {
                assert(run.1[k] == first.1[k]);
                assert(first.1[0] is AckSelection);
                assert(first.1[1] is EditUiProgress);
                assert(first.1[2] == SessionActionV::CallGateway(session_request(s, sel.value)));
            } else {
                assert(run.1[k] == spec_run(first.0, es.drop_first()).1[k - first.1.len()]);
            }
        }
    } else {
        assert(!is_matching_selection(s, es[0]) && !(es[0] is Timeout));
        assert(first.0 == s && first.1 =~= Seq::<SessionActionV>::empty());
        assert(es.drop_first()[i - 1] == es[i]);
        assert forall|j: int|
            0 <= j < i - 1 implies !is_matching_selection(s, #[trigger] es.drop_first()[j]) && !(
        es.drop_first()[j] is Timeout) by {
            assert(es.drop_first()[j] == es[j + 1]);
        }
        lemma_first_selection_translates_once(s, es.drop_first(), i - 1);
        assert(run.1 =~= spec_run(s, es.drop_first()).1);
    }
}

} // verus!
