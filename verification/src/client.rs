use vstd::prelude::*;
use crate::error::GliaError;
use crate::events::{DynamicTool, EventModel, GliaEvent, RunPayload, event_of, run_payload_wire};
use crate::protocol::frame::{FrameModel, PhoenixFrame};
use crate::json::JsonModel;
use crate::options::{GliaOptions, session_topic_text};
use crate::text::{decimal, decimal_text, lemma_decimal_injective};

verus! {

/// Seconds to wait for the gateway to acknowledge the channel join.
pub const JOIN_TIMEOUT_SECS: u64 = 10;

/// The state of a session with the Glia gateway: its options, its channel
/// topic, the next frame reference and whether the channel is joined.
///
/// The network side (the WebSocket and the waiting) is driven by the
/// caller, which hands every received frame to this state and sends the
/// frames it returns.
#[derive(Debug)]
pub struct GliaClient {
    options: GliaOptions,
    joined: bool,
    ref_counter: u64,
    topic: String,
}

/// What a frame received while joining the channel means.
#[derive(Debug, PartialEq, Eq)]
pub enum JoinStep {
    /// Not the join reply: keep waiting.
    Pending,
    /// The gateway accepted the join.
    Joined,
    /// The gateway refused the join with this status.
    Rejected { status: String },
}

/// What a frame received while a run streams means.
#[derive(Debug, PartialEq)]
pub enum RunStep {
    /// Not an event of this session: ignore it.
    Skip,
    /// An event to hand to the caller; the run goes on.
    Emit(GliaEvent),
    /// The final event of the run (`done` or `error`): hand it over and stop.
    Finish(GliaEvent),
}

/// The status of the join reply that a frame carries, if it is one: a
/// `phx_reply` on the session topic whose payload holds a text `status`.
pub open spec fn join_reply_status(topic: Seq<char>, f: FrameModel) -> Option<Seq<char>> {
    if f.topic == topic && f.event == "phx_reply"@ {
        f.payload.text_field("status"@)
    } else {
        None
    }
}

/// The counter value that follows `c`, wrapping around at the end.
pub open spec fn counter_after(c: u64) -> u64 {
    if c == u64::MAX {
        0
    } else {
        (c + 1) as u64
    }
}

/// The models of a list of events.
pub open spec fn event_models(events: Seq<GliaEvent>) -> Seq<EventModel> {
    events.map_values(|e: GliaEvent| e@)
}

/// The outcome of a run whose events came in this order: the text of the
/// first `done`, or the message of the first `error`, whichever comes
/// first; the empty text when there is neither.
pub open spec fn run_outcome_of(events: Seq<EventModel>) -> Result<Seq<char>, Seq<char>>
    decreases events.len(),
{
    if events.len() == 0 {
        Ok(Seq::empty())
    } else {
        match events[0] {
            EventModel::Done { text } => Ok(text),
            EventModel::Error { message } => Err(message),
            _ => run_outcome_of(events.drop_first()),
        }
    }
}

/// Two different counter values give two different frame references.
pub proof fn lemma_references_distinct(a: u64, b: u64)
    requires
        a != b,
    ensures
        decimal_text(a as nat) != decimal_text(b as nat),
{
    if decimal_text(a as nat) == decimal_text(b as nat) {
        lemma_decimal_injective(a as nat, b as nat);
    }
}

/// Two frames sent one after the other by a session carry different
/// references, also when the counter wraps around.
pub proof fn lemma_successive_references(c: u64)
    ensures
        decimal_text(c as nat) != decimal_text(counter_after(c) as nat),
{
    lemma_references_distinct(c, counter_after(c));
}

/// The counter value after `steps` frames have taken a reference from `c`.
pub open spec fn counter_after_steps(c: u64, steps: nat) -> u64
    decreases steps,
{
    if steps == 0 {
        c
    } else {
        counter_after(counter_after_steps(c, (steps - 1) as nat))
    }
}

/// A new session's frames carry the references "1", "2", "3", ... in the
/// order in which they are made: the frame made after `steps` others takes
/// the decimal text of `steps + 1`. Each step is one `join_frame`,
/// `begin_run` or `on_idle` heartbeat, which take the counter to
/// `counter_after` of itself.
pub proof fn lemma_reference_sequence(steps: nat)
    requires
        steps < u64::MAX,
    ensures
        counter_after_steps(1, steps) == steps + 1,
        decimal_text(counter_after_steps(1, steps) as nat) == decimal_text(steps + 1),
    decreases steps,
{
    if steps > 0 {
        lemma_reference_sequence((steps - 1) as nat);
    }
}

/// The references of two different frames of a new session differ, as
/// long as fewer than `u64::MAX` frames have been made.
pub proof fn lemma_references_pairwise_distinct(i: nat, j: nat)
    requires
        i < j < u64::MAX,
    ensures
        decimal_text(counter_after_steps(1, i) as nat) != decimal_text(
            counter_after_steps(1, j) as nat,
        ),
{
    lemma_reference_sequence(i);
    lemma_reference_sequence(j);
    lemma_references_distinct(counter_after_steps(1, i), counter_after_steps(1, j));
}

/// A run stream hands over events up to and including the first `done` or
/// `error`; the answer of such a stream is what that last event says.
pub proof fn lemma_outcome_of_stream(events: Seq<EventModel>)
    requires
        events.len() > 0,
        forall|i: int| 0 <= i < events.len() - 1 ==> !(#[trigger] events[i]).is_terminal(),
        events.last().is_terminal(),
    ensures
        run_outcome_of(events) == match events.last() {
            EventModel::Done { text } => Ok::<Seq<char>, Seq<char>>(text),
            EventModel::Error { message } => Err::<Seq<char>, Seq<char>>(message),
            _ => Ok::<Seq<char>, Seq<char>>(Seq::empty()),
        },
    decreases events.len(),
{
    if events.len() > 1 {
        assert(!events[0].is_terminal());
        let rest = events.drop_first();
        assert forall|i: int| 0 <= i < rest.len() - 1 implies !(#[trigger] rest[i]).is_terminal() by {
            assert(rest[i] == events[i + 1]);
        }
        assert(rest.last() == events.last());
        lemma_outcome_of_stream(rest);
    }
}

/// Taking a reference moves the counter up by one, and from the largest
/// value back to zero.
pub proof fn lemma_counter_step(c: u64)
    ensures
        c < u64::MAX ==> counter_after(c) == c + 1,
        c == u64::MAX ==> counter_after(c) == 0,
{
}

/// A frame is the join reply exactly when it is a `phx_reply` on the
/// session's topic whose payload holds a text under `status`; that text is
/// the reply's status.
pub proof fn lemma_join_reply(topic: Seq<char>, f: FrameModel)
    ensures
        join_reply_status(topic, f) == if f.topic == topic && f.event == "phx_reply"@ {
            match f.payload.field("status"@) {
                Some(JsonModel::Str(s)) => Some(s),
                _ => None,
            }
        } else {
            None::<Seq<char>>
        },
{
}

/// The answer of a run is decided by its first `done` or `error` event:
/// no events give the empty text, a `done` first gives its text, an
/// `error` first gives its message as the error, and any other event
/// first (a status, a thinking or message chunk, a tool call or result)
/// leaves the answer to the events after it.
pub proof fn lemma_outcome_of_first_event(e: EventModel, rest: Seq<EventModel>)
    ensures
        run_outcome_of(Seq::empty()) == Ok::<Seq<char>, Seq<char>>(Seq::empty()),
        e matches EventModel::Done { text } ==> run_outcome_of(seq![e] + rest) == Ok::<
            Seq<char>,
            Seq<char>,
        >(text),
        e matches EventModel::Error { message } ==> run_outcome_of(seq![e] + rest) == Err::<
            Seq<char>,
            Seq<char>,
        >(message),
        !(e is Done) && !(e is Error) ==> run_outcome_of(seq![e] + rest) == run_outcome_of(rest),
{
    assert((seq![e] + rest)[0] == e);
    assert((seq![e] + rest).drop_first() =~= rest);
}

/// A heartbeat is due exactly when the channel is joined, heartbeats are
/// on, and the idle time has reached the configured interval, whatever that
/// interval is: it is due at the interval and after, and not a second
/// before.
pub proof fn lemma_heartbeat_interval(c: GliaClient, idle: u64, later: u64)
    ensures
        c.heartbeat_due(idle) <==> (c.spec_joined() && c.spec_options().heartbeat_secs > 0 && idle
            >= c.spec_options().heartbeat_secs),
        c.spec_joined() && c.spec_options().heartbeat_secs > 0 ==> c.heartbeat_due(
            c.spec_options().heartbeat_secs,
        ),
        c.spec_options().heartbeat_secs > 0 ==> !c.heartbeat_due(
            (c.spec_options().heartbeat_secs - 1) as u64,
        ),
        c.heartbeat_due(idle) && idle <= later ==> c.heartbeat_due(later),
        !c.spec_joined() ==> !c.heartbeat_due(idle),
        c.spec_options().heartbeat_secs == 0 ==> !c.heartbeat_due(idle),
{
}

impl GliaClient {
    /// The options of the session.
    pub closed spec fn spec_options(&self) -> GliaOptions {
        self.options
    }

    /// The channel topic of the session.
    pub closed spec fn spec_topic(&self) -> Seq<char> {
        self.topic@
    }

    /// The counter from which the next frame reference is taken.
    pub closed spec fn spec_counter(&self) -> u64 {
        self.ref_counter
    }

    /// Whether the gateway has accepted the channel join.
    pub closed spec fn spec_joined(&self) -> bool {
        self.joined
    }

    /// A session for `options`, on the topic `session:<app_id>:<user_id>`,
    /// not joined, whose first frame reference is "1".
    pub fn new(options: GliaOptions) -> (c: GliaClient)
        ensures
            c.spec_topic() == session_topic_text(options.app_id@, options.user_id@),
            c.spec_options() == options,
            c.spec_counter() == 1,
            !c.spec_joined(),
    {
        let topic = options.session_topic();
        GliaClient { options, joined: false, ref_counter: 1, topic }
    }

    /// The options of the session.
    pub fn options(&self) -> (r: &GliaOptions)
        ensures
            *r == self.spec_options(),
    {
        &self.options
    }

    /// The channel topic of the session.
    pub fn topic(&self) -> (r: &str)
        ensures
            r@ == self.spec_topic(),
    {
        self.topic.as_str()
    }

    /// Whether the gateway has accepted the channel join.
    pub fn is_joined(&self) -> (r: bool)
        ensures
            r == self.spec_joined(),
    {
        self.joined
    }

    /// The next frame reference: the decimal text of the counter, which then
    /// moves on by one.
    fn next_ref(&mut self) -> (r: String)
        ensures
            r@ == decimal_text(old(self).spec_counter() as nat),
            final(self).spec_counter() == counter_after(old(self).spec_counter()),
            final(self).spec_topic() == old(self).spec_topic(),
            final(self).spec_options() == old(self).spec_options(),
            final(self).spec_joined() == old(self).spec_joined(),
    {
        let r = decimal(self.ref_counter);
        self.ref_counter = if self.ref_counter == u64::MAX {
            0
        } else {
            self.ref_counter + 1
        };
        r
    }

    /// The `phx_join` frame for the session topic, under the next reference.
    pub fn join_frame(&mut self) -> (f: PhoenixFrame)
        ensures
            f@ == (FrameModel {
                join_ref: Some(decimal_text(old(self).spec_counter() as nat)),
                reference: Some(decimal_text(old(self).spec_counter() as nat)),
                topic: old(self).spec_topic(),
                event: "phx_join"@,
                payload: JsonModel::Object(Map::empty()),
            }),
            final(self).spec_counter() == counter_after(old(self).spec_counter()),
            final(self).spec_topic() == old(self).spec_topic(),
            final(self).spec_options() == old(self).spec_options(),
            final(self).spec_joined() == old(self).spec_joined(),
    {
        let reference = self.next_ref();
        PhoenixFrame::join(self.topic.as_str(), reference.as_str())
    }

    /// Whether a heartbeat is due after `idle_secs` seconds without a frame
    /// sent: the channel is joined, heartbeats are on (a non-zero interval)
    /// and the interval has passed.
    pub open spec fn heartbeat_due(&self, idle_secs: u64) -> bool {
        &&& self.spec_joined()
        &&& self.spec_options().heartbeat_secs > 0
        &&& idle_secs >= self.spec_options().heartbeat_secs
    }

    /// What to send after `idle_secs` seconds without a frame sent: a
    /// `heartbeat` frame on the `phoenix` topic under the next reference when
    /// one is due, nothing otherwise.
    pub fn on_idle(&mut self, idle_secs: u64) -> (r: Option<PhoenixFrame>)
        ensures
            match r {
                Some(f) => old(self).heartbeat_due(idle_secs) && f@ == (FrameModel {
                    join_ref: None,
                    reference: Some(decimal_text(old(self).spec_counter() as nat)),
                    topic: "phoenix"@,
                    event: "heartbeat"@,
                    payload: JsonModel::Object(Map::empty()),
                }) && final(self).spec_counter() == counter_after(old(self).spec_counter()),
                None => !old(self).heartbeat_due(idle_secs) && final(self).spec_counter()
                    == old(self).spec_counter(),
            },
            final(self).spec_topic() == old(self).spec_topic(),
            final(self).spec_options() == old(self).spec_options(),
            final(self).spec_joined() == old(self).spec_joined(),
    {
        let interval = self.options.heartbeat_secs;
        if !self.joined || interval == 0 || idle_secs < interval {
            return None;
        }
        let reference = self.next_ref();
        Some(PhoenixFrame::heartbeat(reference.as_str()))
    }

    /// Reads a frame received while waiting for the join reply: a
    /// `phx_reply` on the session topic with the text status "ok" joins the
    /// channel, one with another text status is a refusal, any other frame
    /// is not the reply.
    pub fn accept_join_reply(&mut self, frame: &PhoenixFrame) -> (step: JoinStep)
        ensures
            match join_reply_status(old(self).spec_topic(), frame@) {
                None => step is Pending,
                Some(s) => if s == "ok"@ {
                    step is Joined
                } else {
                    step matches JoinStep::Rejected { status } && status@ == s
                },
            },
            final(self).spec_joined() == (old(self).spec_joined() || step is Joined),
            final(self).spec_counter() == old(self).spec_counter(),
            final(self).spec_topic() == old(self).spec_topic(),
            final(self).spec_options() == old(self).spec_options(),
    {
        let topic_matches = frame.topic == self.topic;
        if !topic_matches || !crate::text::same_text(frame.event.as_str(), "phx_reply") {
            return JoinStep::Pending;
        }
        match frame.payload.get("status") {
            Some(v) => match v.as_str() {
                Some(status) => {
                    if crate::text::same_text(status, "ok") {
                        self.joined = true;
                        JoinStep::Joined
                    } else {
                        JoinStep::Rejected { status: String::from_str(status) }
                    }
                },
                None => JoinStep::Pending,
            },
            None => JoinStep::Pending,
        }
    }

    /// The error when the connection closes before the join reply.
    pub fn join_closed_error() -> (e: GliaError)
        ensures
            e matches GliaError::ConnectionError(m) && m@ == "Connection closed during channel join"@,
    {
        GliaError::ConnectionError(String::from_str("Connection closed during channel join"))
    }

    /// The error for a refused join: the status and the payload of the
    /// reply, written as `payload_text`.
    pub fn join_rejected_error(status: &str, payload_text: &str) -> (e: GliaError)
        ensures
            e matches GliaError::JoinRejected(m) && m@ == "Join rejected with status '"@ + status@
                + "': "@ + payload_text@,
    {
        let mut m = String::from_str("Join rejected with status '");
        m.append(status);
        m.append("': ");
        m.append(payload_text);
        GliaError::JoinRejected(m)
    }

    /// The `run` push that asks the agent to answer `message`, under the next
    /// reference. Its payload holds the message, the system prompt given or
    /// else the default one of the options, and the tools. Without a joined
    /// channel the reference is still used up and the answer is
    /// `NotConnected`.
    pub fn begin_run(
        &mut self,
        message: &str,
        system_prompt: Option<&str>,
        tools: Vec<DynamicTool>,
    ) -> (r: Result<PhoenixFrame, GliaError>)
        ensures
            final(self).spec_counter() == counter_after(old(self).spec_counter()),
            final(self).spec_topic() == old(self).spec_topic(),
            final(self).spec_options() == old(self).spec_options(),
            final(self).spec_joined() == old(self).spec_joined(),
            match r {
                Ok(f) => old(self).spec_joined() && f@ == (FrameModel {
                    join_ref: None,
                    reference: Some(decimal_text(old(self).spec_counter() as nat)),
                    topic: old(self).spec_topic(),
                    event: "run"@,
                    payload: run_payload_wire(
                        message@,
                        match system_prompt {
                            Some(p) => Some(p@),
                            None => old(self).spec_options().default_system_prompt.deep_view(),
                        },
                        tools@,
                        None,
                        None,
                    ),
                }),
                Err(e) => !old(self).spec_joined() && e is NotConnected,
            },
    {
        let push_ref = self.next_ref();
        let prompt: Option<String> = match system_prompt {
            Some(p) => Some(String::from_str(p)),
            None => match &self.options.default_system_prompt {
                Some(d) => Some(d.clone()),
                None => None,
            },
        };
        let payload = RunPayload {
            message: String::from_str(message),
            system_prompt: prompt,
            tools,
            provider: None,
            model: None,
        };
        let frame = PhoenixFrame::push(
            self.topic.as_str(),
            "run",
            push_ref.as_str(),
            payload.to_json(),
        );
        if !self.joined {
            return Err(GliaError::NotConnected);
        }
        Ok(frame)
    }

    /// Reads a frame received while a run streams: an event of the session
    /// topic is handed over, and a `done` or `error` event ends the run;
    /// frames of other topics and unknown or incomplete events are skipped.
    pub fn accept_run_frame(&self, frame: &PhoenixFrame) -> (step: RunStep)
        ensures
            frame.topic@ != self.spec_topic() ==> step is Skip,
            frame.topic@ == self.spec_topic() ==> match event_of(frame.event@, frame.payload@) {
                None => step is Skip,
                Some(e) => if e.is_terminal() {
                    step matches RunStep::Finish(g) && g@ == e
                } else {
                    step matches RunStep::Emit(g) && g@ == e
                },
            },
    {
        if frame.topic != self.topic {
            return RunStep::Skip;
        }
        match GliaEvent::parse(frame.event.as_str(), &frame.payload) {
            Some(event) => {
                if event.is_terminal() {
                    RunStep::Finish(event)
                } else {
                    RunStep::Emit(event)
                }
            },
            None => RunStep::Skip,
        }
    }

    /// The answer of a run from its events in the order they came: the text
    /// of the first `done`, or an `ExecutionError` with the message of the
    /// first `error`, whichever comes first; the empty text when there is
    /// neither.
    pub fn run_outcome(events: &Vec<GliaEvent>) -> (r: Result<String, GliaError>)
        ensures
            match r {
                Ok(t) => run_outcome_of(event_models(events@)) == Ok::<Seq<char>, Seq<char>>(t@),
                Err(GliaError::ExecutionError(m)) => run_outcome_of(event_models(events@)) == Err::<
                    Seq<char>,
                    Seq<char>,
                >(m@),
                Err(_) => false,
            },
    {
        let ghost all = event_models(events@);
        let mut i: usize = 0;
        proof {
            assert(all.skip(0) =~= all);
        }
        while i < events.len()
            invariant
                i <= events.len(),
                all == event_models(events@),
                all.len() == events@.len(),
                run_outcome_of(all) == run_outcome_of(all.skip(i as int)),
            decreases events.len() - i,
        {
            assert(all.skip(i as int)[0] == events@[i as int]@);
            assert(all.skip(i as int).drop_first() =~= all.skip(i + 1));
            match &events[i] {
                GliaEvent::Done { text } => {
                    return Ok(text.clone());
                },
                GliaEvent::Error { message } => {
                    return Err(GliaError::ExecutionError(message.clone()));
                },
                _ => {},
            }
            i = i + 1;
        }
        Ok(String::new())
    }
}

} // verus!
