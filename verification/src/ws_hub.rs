//! Per-session turn hub: lets a socket that reconnects mid-turn rejoin the turn
//! already running for its session.
//!
//! A turn's producer mirrors every frame into the hub: appended to an ordered
//! replay buffer and broadcast live. A socket that attaches while the turn is
//! running gets the replay buffer, then the rest of the turn live. Adjacent
//! `chunk` deltas and adjacent `thinking` deltas are merged in the buffer, never
//! across another frame, while the live broadcast carries the raw deltas.
//!
//! A hub is driven through `&mut`: whoever shares one between sockets puts it
//! behind one lock.
use vstd::prelude::*;

use crate::json;
use crate::json::Json;
use crate::text;

verus! {

/// The sending half of a `tokio` broadcast channel.
#[verifier::external_type_specification]
#[verifier::external_body]
#[verifier::reject_recursive_types(T)]
pub struct ExLiveSender<T>(tokio::sync::broadcast::Sender<T>);

/// A receiving half of a `tokio` broadcast channel.
#[verifier::external_type_specification]
#[verifier::external_body]
#[verifier::reject_recursive_types(T)]
pub struct ExLiveReceiver<T>(tokio::sync::broadcast::Receiver<T>);

/// A sending half of a bounded `tokio` channel.
#[verifier::external_type_specification]
#[verifier::external_body]
#[verifier::reject_recursive_types(T)]
pub struct ExSteeringSender<T>(tokio::sync::mpsc::Sender<T>);

/// The receiving half of a bounded `tokio` channel.
#[verifier::external_type_specification]
#[verifier::external_body]
#[verifier::reject_recursive_types(T)]
pub struct ExSteeringReceiver<T>(tokio::sync::mpsc::Receiver<T>);

/// Live-frame fan-out capacity. A slow observer that falls this far behind is
/// detached rather than stalling the turn.
pub const LIVE_CAPACITY: usize = 1024;

/// One serialized frame on the live broadcast.
#[derive(Debug)]
pub struct LiveFrame {
    pub text: String,
    /// The session goes idle after this frame, so observers detach.
    pub last: bool,
}

/// What a [`LiveFrame`] says.
pub struct LiveFrameView {
    pub text: Seq<char>,
    pub last: bool,
}

impl LiveFrame {
    pub open spec fn view(&self) -> LiveFrameView {
        LiveFrameView { text: self.text@, last: self.last }
    }
}

impl Clone for LiveFrame {
    fn clone(&self) -> (out: Self)
        ensures
            out@ == self@,
    {
        LiveFrame { text: self.text.clone(), last: self.last }
    }
}

/// The frames that a sender has been given to broadcast, in order.
pub uninterp spec fn broadcast_frames(
    live: tokio::sync::broadcast::Sender<LiveFrame>,
) -> Seq<LiveFrameView>;

/// The place among its sender's frames of the first one that a receiver
/// receives.
pub uninterp spec fn first_received(live: tokio::sync::broadcast::Receiver<LiveFrame>) -> nat;

/// What a channel answers to a message that it is offered.
#[derive(Clone, Copy, Debug, PartialEq, Eq, Structural)]
pub enum Answer {
    /// It takes the message.
    Taken,
    /// It has no room.
    Full,
    /// Nobody receives any more.
    Closed,
}

/// The messages that a sender has offered to its channel, in order, and what the
/// channel answered.
pub uninterp spec fn offers(steering: tokio::sync::mpsc::Sender<String>) -> Seq<
    (Seq<char>, Answer),
>;

/// What the polls of a receiver have come to, in order: a message each, or
/// nothing.
pub uninterp spec fn polled(steering: tokio::sync::mpsc::Receiver<String>) -> Seq<
    Option<Seq<char>>,
>;

/// `tokio::sync::broadcast::channel`, of which only the sender is kept. It has
/// been given nothing yet. The capacities left out are those on which `channel`
/// panics.
#[verifier::external_body]
fn live_channel(capacity: usize) -> (out: tokio::sync::broadcast::Sender<LiveFrame>)
    requires
        0 < capacity <= usize::MAX / 2,
    ensures
        broadcast_frames(out) == Seq::<LiveFrameView>::empty(),
{
    let (live, _receiver) = tokio::sync::broadcast::channel(capacity);
    live
}

/// `send` of `tokio::sync::broadcast::Sender`: gives the frame to every receiver
/// there is. That there may be none is no concern of the sender.
#[verifier::external_body]
fn broadcast(live: &mut tokio::sync::broadcast::Sender<LiveFrame>, frame: LiveFrame)
    ensures
        broadcast_frames(*final(live)) == broadcast_frames(*old(live)).push(frame@),
{
    let _ = live.send(frame);
}

/// `subscribe` of `tokio::sync::broadcast::Sender`: a receiver of what is sent
/// after the call, and of nothing sent before.
#[verifier::external_body]
fn subscribe(live: &tokio::sync::broadcast::Sender<LiveFrame>) -> (out:
    tokio::sync::broadcast::Receiver<LiveFrame>)
    ensures
        first_received(out) == broadcast_frames(*live).len(),
{
    live.subscribe()
}

/// Why a steering message was refused. It hands the message back.
#[derive(Debug)]
pub enum SteerRefusal {
    /// The turn has more waiting for it than it takes.
    Full(String),
    /// No turn takes steering.
    Closed(String),
}

impl SteerRefusal {
    /// The message that was refused.
    pub open spec fn message(self) -> Seq<char> {
        match self {
            SteerRefusal::Full(message) => message@,
            SteerRefusal::Closed(message) => message@,
        }
    }
}

/// The answer that an outcome tells of.
pub open spec fn answer_of(outcome: Result<(), SteerRefusal>) -> Answer {
    match outcome {
        Ok(()) => Answer::Taken,
        Err(SteerRefusal::Full(_)) => Answer::Full,
        Err(SteerRefusal::Closed(_)) => Answer::Closed,
    }
}

/// `try_send` of `tokio::sync::mpsc::Sender`: offers the message to the channel,
/// which takes it; or the error tells why not and hands it back. Which of them
/// happens rests with the receiver.
#[verifier::external_body]
fn try_send(steering: &mut tokio::sync::mpsc::Sender<String>, content: String) -> (out: Result<
    (),
    SteerRefusal,
>)
    ensures
        offers(*final(steering)) == offers(*old(steering)).push((content@, answer_of(out))),
        out matches Err(refusal) ==> refusal.message() == content@,
{
    match steering.try_send(content) {
        Ok(()) => Ok(()),
        Err(tokio::sync::mpsc::error::TrySendError::Full(m)) => Err(SteerRefusal::Full(m)),
        Err(tokio::sync::mpsc::error::TrySendError::Closed(m)) => Err(SteerRefusal::Closed(m)),
    }
}

/// `try_recv` of `tokio::sync::mpsc::Receiver`: the next message, or nothing
/// where none is waiting. Which of them happens rests with the senders.
#[verifier::external_body]
fn try_recv(steering: &mut tokio::sync::mpsc::Receiver<String>) -> (out: Option<String>)
    ensures
        polled(*final(steering)) == polled(*old(steering)).push(text::option_view(out)),
{
    match steering.try_recv() {
        Ok(content) => Some(content),
        Err(_) => None,
    }
}

/// The frame types that belong in the replay buffer.
pub open spec fn is_replayable_type(frame_type: Seq<char>) -> bool {
    ||| frame_type == "chunk"@
    ||| frame_type == "thinking"@
    ||| frame_type == "tool_call"@
    ||| frame_type == "tool_result"@
    ||| frame_type == "plan"@
    ||| frame_type == "approval_request"@
}

/// Whether a frame type belongs in the replay buffer. Terminal frames (`done`,
/// `aborted`, `error`) are broadcast live but never buffered.
pub fn is_replayable(frame_type: &str) -> (out: bool)
    ensures
        out == is_replayable_type(frame_type@),
{
    text::same(frame_type, "chunk") || text::same(frame_type, "thinking") || text::same(
        frame_type,
        "tool_call",
    ) || text::same(frame_type, "tool_result") || text::same(frame_type, "plan") || text::same(
        frame_type,
        "approval_request",
    )
}

/// The text in a field of a frame; empty where there is none.
pub open spec fn text_in(frame: json::Document, key: Seq<char>) -> Seq<char> {
    match frame.at(key) {
        json::Document::Text(s) => s,
        _ => Seq::empty(),
    }
}

/// Whether a frame belongs in the replay buffer.
pub open spec fn replays(frame: json::Document) -> bool {
    is_replayable_type(text_in(frame, "type"@))
}

/// Whether a frame type carries a piece of a longer text.
pub open spec fn is_delta_type(frame_type: Seq<char>) -> bool {
    frame_type == "chunk"@ || frame_type == "thinking"@
}

/// Whether a frame continues the text of the frame in front of it.
pub open spec fn continues(last: json::Document, frame: json::Document) -> bool {
    is_delta_type(text_in(frame, "type"@)) && last.at("type"@) == json::Document::Text(
        text_in(frame, "type"@),
    )
}

/// A frame whose text has been continued by another.
pub open spec fn continued(last: json::Document, frame: json::Document) -> json::Document {
    last.with("content"@, json::Document::Text(text_in(last, "content"@) + text_in(frame, "content"@)))
}

/// A replay buffer with one more frame: merged into the last one where it
/// continues its text, behind it otherwise.
pub open spec fn buffered(replay: Seq<json::Document>, frame: json::Document) -> Seq<
    json::Document,
> {
    if replay.len() > 0 && continues(replay.last(), frame) {
        replay.drop_last().push(continued(replay.last(), frame))
    } else {
        replay.push(frame)
    }
}

/// A frame as the broadcast carries it.
pub open spec fn live_frame(frame: json::Document, last: bool) -> LiveFrameView {
    LiveFrameView { text: json::rendered(frame), last }
}

/// Tool-approval prompts that await an operator's decision, by request id.
#[derive(Debug)]
pub struct PendingApprovals {
    ids: Vec<String>,
}

impl PendingApprovals {
    pub closed spec fn view(&self) -> Set<Seq<char>> {
        text::views(self.ids@).to_set()
    }

    /// No prompt.
    pub fn new() -> (out: Self)
        ensures
            out@ == Set::<Seq<char>>::empty(),
    {
        let ids: Vec<String> = Vec::new();
        proof {
            assert(text::views(ids@).to_set() =~= Set::<Seq<char>>::empty());
        }
        PendingApprovals { ids }
    }

    /// Whether a request is pending.
    pub fn contains(&self, id: &str) -> (out: bool)
        ensures
            out == self@.contains(id@),
    {
        text::any_same(&self.ids, id)
    }

    /// A request that now awaits a decision.
    pub fn insert(&mut self, id: &str)
        ensures
            final(self)@ == old(self)@.insert(id@),
    {
        let ghost before = text::views(self.ids@);
        self.ids.push(id.to_owned());
        proof {
            let after = text::views(self.ids@);
            assert(after =~= before.push(id@));
            assert forall|k: Seq<char>| #[trigger] after.to_set().contains(k) == before.to_set().insert(
                id@,
            ).contains(k) by {
                if before.contains(k) {
                    let i = choose|i: int| 0 <= i < before.len() && before[i] == k;
                    assert(after[i] == k);
                }
                if after.contains(k) {
                    let i = choose|i: int| 0 <= i < after.len() && after[i] == k;
                    if i < before.len() {
                        assert(before[i] == k);
                    }
                }
                assert(after[before.len() as int] == id@);
            }
            assert(after.to_set() =~= before.to_set().insert(id@));
        }
    }

    /// A request that has been answered, denied or given up.
    pub fn remove(&mut self, id: &str)
        ensures
            final(self)@ == old(self)@.remove(id@),
    {
        let mut left: Vec<String> = Vec::new();
        let ghost before = text::views(self.ids@);
        let mut i: usize = 0;
        while i < self.ids.len()
            invariant
                i <= self.ids@.len(),
                before == text::views(self.ids@),
                forall|k: Seq<char>| #[trigger]
                    text::views(left@).contains(k) <==> before.take(i as int).contains(k) && k
                        != id@,
            decreases self.ids@.len() - i,
        {
            let ghost kept = text::views(left@);
            let ghost at = before[i as int];
            if !text::same(self.ids[i].as_str(), id) {
                left.push(self.ids[i].clone());
                proof {
                    assert(text::views(left@) =~= kept.push(at));
                }
            }
            proof {
                let now = text::views(left@);
                assert(before.take(i + 1) =~= before.take(i as int).push(at));
                assert forall|k: Seq<char>| #[trigger] now.contains(k) <==> before.take(
                    i + 1,
                ).contains(k) && k != id@ by {
                    lemma_push_contains(before.take(i as int), at, k);
                    lemma_push_contains(kept, at, k);
                    assert(kept.contains(k) <==> before.take(i as int).contains(k) && k != id@);
                }
            }
            i += 1;
        }
        proof {
            assert(before.take(i as int) =~= before);
            assert(text::views(left@).to_set() =~= before.to_set().remove(id@));
        }
        self.ids = left;
    }
}

proof fn lemma_push_contains(all: Seq<Seq<char>>, last: Seq<char>, k: Seq<char>)
    ensures
        all.push(last).contains(k) <==> all.contains(k) || k == last,
{
    let more = all.push(last);
    assert(more[all.len() as int] == last);
    if all.contains(k) {
        let i = choose|i: int| 0 <= i < all.len() && all[i] == k;
        assert(more[i] == k);
    }
    if more.contains(k) {
        let i = choose|i: int| 0 <= i < more.len() && more[i] == k;
        if i < all.len() {
            assert(all[i] == k);
        }
    }
}

/// One session's running-turn state.
pub struct TurnHub {
    /// The running turn's replayable frames, in order, with adjacent deltas
    /// merged.
    replay: Vec<Json>,
    /// Live serialized frames to every attached observer.
    live: tokio::sync::broadcast::Sender<LiveFrame>,
    /// True only while a turn is streaming for this session.
    running: bool,
    /// Tool-approval prompts that await a decision. On the hub, so that a
    /// resumed socket can answer them.
    pending_approvals: PendingApprovals,
    /// Sender into the running turn's steering channel.
    steering: Option<tokio::sync::mpsc::Sender<String>>,
}

/// What a [`TurnHub`] says.
#[verifier::ext_equal]
pub struct HubView {
    /// The replay buffer.
    pub replay: Seq<json::Document>,
    /// All frames broadcast so far.
    pub live: Seq<LiveFrameView>,
    /// Whether a turn is running.
    pub running: bool,
    /// The approval requests that are pending.
    pub pending: Set<Seq<char>>,
    /// Where steering is open, what has been offered to the steering channel, and
    /// what it answered.
    pub steering: Option<Seq<(Seq<char>, Answer)>>,
}

impl HubView {
    /// The hub of a session that has had no turn yet.
    pub open spec fn initial() -> HubView {
        HubView {
            replay: Seq::empty(),
            live: Seq::empty(),
            running: false,
            pending: Set::empty(),
            steering: None,
        }
    }

    /// The hub at the start of a turn.
    pub open spec fn begun(self, offered: Seq<(Seq<char>, Answer)>) -> HubView {
        HubView { replay: Seq::empty(), running: true, steering: Some(offered), ..self }
    }

    /// The hub after one frame of a turn.
    pub open spec fn pushed(self, frame: json::Document) -> HubView {
        if replays(frame) {
            HubView {
                replay: buffered(self.replay, frame),
                live: self.live.push(live_frame(frame, false)),
                ..self
            }
        } else {
            self
        }
    }

    /// The hub after the frames of a turn, in order.
    pub open spec fn pushed_all(self, frames: Seq<json::Document>) -> HubView
        decreases frames.len(),
    {
        if frames.len() == 0 {
            self
        } else {
            self.pushed_all(frames.drop_last()).pushed(frames.last())
        }
    }

    /// The hub after a frame that is for the observers only.
    pub open spec fn announced(self, frame: json::Document) -> HubView {
        HubView { live: self.live.push(live_frame(frame, false)), ..self }
    }

    /// The hub after the last frame of the last turn.
    pub open spec fn finished(self, frame: json::Document) -> HubView {
        HubView {
            replay: Seq::empty(),
            live: self.live.push(live_frame(frame, true)),
            running: false,
            steering: None,
            ..self
        }
    }

    /// The hub after the last frame of a turn behind which another one follows.
    pub open spec fn chained(self, frame: json::Document) -> HubView {
        HubView {
            replay: Seq::empty(),
            live: self.live.push(live_frame(frame, false)),
            ..self
        }
    }

    /// Whether an observer that attaches now is shown a frame of the buffer: an
    /// approval request only while it is pending.
    pub open spec fn shows(self, frame: json::Document) -> bool {
        frame.at("type"@) != json::Document::Text("approval_request"@) || (match frame.at(
            "request_id"@,
        ) {
            json::Document::Text(id) => self.pending.contains(id),
            _ => false,
        })
    }

    /// The frames that an observer is shown that attaches now.
    pub open spec fn snapshot(self) -> Seq<json::Document> {
        self.replay.filter(|frame: json::Document| self.shows(frame))
    }
}

fn text_of_field<'a>(frame: &'a Json, key: &str) -> (out: &'a str)
    ensures
        out@ == text_in(frame@, key@),
{
    match frame.text_field(key) {
        Some(s) => s,
        None => {
            proof {
                reveal_strlit("");
                assert(""@ =~= Seq::<char>::empty());
            }
            ""
        },
    }
}

impl TurnHub {
    pub closed spec fn view(&self) -> HubView {
        HubView {
            replay: json::documents_of(self.replay@),
            live: broadcast_frames(self.live),
            running: self.running,
            pending: self.pending_approvals@,
            steering: match self.steering {
                Some(steering) => Some(offers(steering)),
                None => None,
            },
        }
    }

    /// The hub of a session that has had no turn yet.
    pub fn new() -> (out: TurnHub)
        ensures
            out@ == HubView::initial(),
    {
        TurnHub {
            replay: Vec::new(),
            live: live_channel(LIVE_CAPACITY),
            running: false,
            pending_approvals: PendingApprovals::new(),
            steering: None,
        }
    }

    /// Whether a turn is streaming.
    pub fn running(&self) -> (out: bool)
        ensures
            out == self@.running,
    {
        self.running
    }

    /// Marks a turn started: resets the replay buffer and installs its steering
    /// channel.
    pub fn begin(&mut self, steering: tokio::sync::mpsc::Sender<String>)
        ensures
            final(self)@ == old(self)@.begun(offers(steering)),
    {
        self.replay = Vec::new();
        self.steering = Some(steering);
        self.running = true;
    }

    /// Records and fans out one replayable frame; another frame is ignored.
    /// Adjacent deltas of one kind are merged in the buffer; the broadcast
    /// always carries the raw delta.
    pub fn push(&mut self, frame: &Json)
        ensures
            final(self)@ == old(self)@.pushed(frame@),
    {
        let ty: &str = text_of_field(frame, "type");
        if !is_replayable(ty) {
            return;
        }
        buffer_frame(&mut self.replay, frame);
        broadcast(&mut self.live, LiveFrame { text: frame.render(), last: false });
    }

    /// Fans a frame out to observers without buffering it for replay.
    pub fn announce(&mut self, frame: &Json)
        ensures
            final(self)@ == old(self)@.announced(frame@),
            final(self)@ == (HubView {
                live: old(self)@.live.push(
                    LiveFrameView { text: json::rendered(frame@), last: false },
                ),
                ..old(self)@
            }),
    {
        broadcast(&mut self.live, LiveFrame { text: frame.render(), last: false });
    }

    /// Broadcasts a terminal frame (`done`, `aborted`, `error`) and ends the
    /// turn.
    pub fn finish(&mut self, frame: &Json)
        ensures
            final(self)@ == old(self)@.finished(frame@),
            final(self)@.live == old(self)@.live.push(
                LiveFrameView { text: json::rendered(frame@), last: true },
            ),
    {
        broadcast(&mut self.live, LiveFrame { text: frame.render(), last: true });
        self.replay = Vec::new();
        self.steering = None;
        self.running = false;
    }

    /// Broadcasts a terminal frame with the next turn chained behind it;
    /// observers and steering stay attached.
    pub fn finish_chained(&mut self, frame: &Json)
        ensures
            final(self)@ == old(self)@.chained(frame@),
            final(self)@.live == old(self)@.live.push(
                LiveFrameView { text: json::rendered(frame@), last: false },
            ),
    {
        broadcast(&mut self.live, LiveFrame { text: frame.render(), last: false });
        self.replay = Vec::new();
    }

    /// Attaches an observer to a running turn: a snapshot of the replay buffer,
    /// and a receiver positioned exactly behind the snapshot's last frame.
    /// Nothing where no turn is running. An approval request is replayed only
    /// while it is pending: an answer to a stale one would go nowhere.
    pub fn attach(&self) -> (out: Option<(tokio::sync::broadcast::Receiver<LiveFrame>, Vec<Json>)>)
        ensures
            out is Some <==> self@.running,
            out matches Some((receiver, frames)) ==> {
                &&& first_received(receiver) == self@.live.len()
                &&& json::documents_of(frames@) == self@.snapshot()
            },
    {
        if !self.running {
            return None;
        }
        let receiver: tokio::sync::broadcast::Receiver<LiveFrame> = subscribe(&self.live);
        let mut frames: Vec<Json> = Vec::new();
        let ghost keep = |frame: json::Document| self@.shows(frame);
        let ghost all = json::documents_of(self.replay@);
        let mut i: usize = 0;
        proof {
            reveal(Seq::filter);
            assert(all.take(0).filter(keep) =~= Seq::<json::Document>::empty());
            assert(json::documents_of(frames@) =~= Seq::<json::Document>::empty());
        }
        while i < self.replay.len()
            invariant
                i <= self.replay@.len(),
                all == json::documents_of(self.replay@),
                all.len() == self.replay@.len(),
                keep == (|frame: json::Document| self@.shows(frame)),
                json::documents_of(frames@) == all.take(i as int).filter(keep),
            decreases self.replay@.len() - i,
        {
            let frame: &Json = &self.replay[i];
            proof {
                assert(all[i as int] == frame@);
                assert(all.take(i + 1).drop_last() =~= all.take(i as int));
                reveal(Seq::filter);
            }
            let ghost before = frames@;
            if self.is_shown(frame) {
                frames.push(frame.copy());
                proof {
                    assert(json::documents_of(frames@) =~= json::documents_of(before).push(frame@));
                }
            }
            i += 1;
        }
        proof {
            assert(all.take(i as int) =~= all);
        }
        Some((receiver, frames))
    }

    /// Whether an approval request awaits a decision.
    pub fn is_pending(&self, id: &str) -> (out: bool)
        ensures
            out == self@.pending.contains(id@),
    {
        self.pending_approvals.contains(id)
    }

    /// An approval request that now awaits a decision.
    pub fn insert_pending(&mut self, id: &str)
        ensures
            final(self)@ == (HubView {
                pending: old(self)@.pending.insert(id@),
                ..old(self)@
            }),
    {
        self.pending_approvals.insert(id);
    }

    /// An approval request that has been answered, denied or given up.
    pub fn remove_pending(&mut self, id: &str)
        ensures
            final(self)@ == (HubView {
                pending: old(self)@.pending.remove(id@),
                ..old(self)@
            }),
    {
        self.pending_approvals.remove(id);
    }

    fn is_shown(&self, frame: &Json) -> (out: bool)
        ensures
            out == self@.shows(frame@),
    {
        let is_request: bool = match frame.text_field("type") {
            Some(ty) => text::same(ty, "approval_request"),
            None => false,
        };
        if !is_request {
            return true;
        }
        match frame.text_field("request_id") {
            Some(id) => self.pending_approvals.contains(id),
            None => false,
        }
    }

    /// Injects a steering message into the running turn; a refusal hands the
    /// message back. Where steering is open the message is offered to its
    /// channel, and the outcome is what the channel answered; whether there is
    /// room rests with the turn.
    pub fn steer(&mut self, content: String) -> (out: Result<(), SteerRefusal>)
        ensures
            match old(self)@.steering {
                None => answer_of(out) == Answer::Closed && final(self)@ == old(self)@,
                Some(offered) => final(self)@ == (HubView {
                    steering: Some(offered.push((content@, answer_of(out)))),
                    ..old(self)@
                }),
            },
            out matches Err(refusal) ==> refusal.message() == content@,
    {
        let mut steering: Option<tokio::sync::mpsc::Sender<String>> = None;
        std::mem::swap(&mut steering, &mut self.steering);
        match steering {
            Some(mut sender) => {
                let out: Result<(), SteerRefusal> = try_send(&mut sender, content);
                self.steering = Some(sender);
                out
            },
            None => Err(SteerRefusal::Closed(content)),
        }
    }

    /// Drains what the finished turn accepted but never read, in arrival order,
    /// and closes steering unless `chain` has a turn to run it. The last poll of
    /// the channel found nothing. Where the receiver is the other end of the
    /// hub's sender, and nobody else sends, what is drained is what steering had
    /// accepted and the turn had not read.
    pub fn take_unread_steering(
        &mut self,
        steering: &mut tokio::sync::mpsc::Receiver<String>,
        chain: bool,
    ) -> (out: Vec<String>)
        ensures
            polled(*final(steering)) == polled(*old(steering)) + text::views(out@).map_values(
                |m: Seq<char>| Some(m),
            ).push(None),
            old(self)@.steering matches Some(offered) ==> are_two_ends(
                offered,
                polled(*final(steering)),
            ) ==> received(polled(*old(steering))) + text::views(out@) == accepted(offered),
            final(self)@ == (if !chain || out@.len() == 0 {
                HubView { steering: None, ..old(self)@ }
            } else {
                old(self)@
            }),
    {
        let mut unread: Vec<String> = Vec::new();
        let ghost before = polled(*steering);
        let ghost wrap = |m: Seq<char>| Some(m);
        proof {
            assert(polled(*steering) =~= before + text::views(unread@).map_values(wrap));
        }
        loop
            invariant_except_break
                wrap == (|m: Seq<char>| Some(m)),
                polled(*steering) == before + text::views(unread@).map_values(wrap),
            ensures
                wrap == (|m: Seq<char>| Some(m)),
                polled(*steering) == before + text::views(unread@).map_values(wrap).push(None),
            decreases usize::MAX - unread.len(),
        {
            let ghost read = unread@;
            let ghost polls = polled(*steering);
            match try_recv(steering) {
                Some(content) => {
                    unread.push(content);
                    proof {
                        assert(text::views(unread@) =~= text::views(read).push(content@));
                        assert(text::views(unread@).map_values(wrap) =~= text::views(
                            read,
                        ).map_values(wrap).push(Some(content@)));
                        assert(polled(*steering) =~= before + text::views(unread@).map_values(wrap));
                    }
                },
                None => {
                    proof {
                        assert(polled(*steering) =~= before + text::views(unread@).map_values(
                            wrap,
                        ).push(None));
                    }
                    break;
                },
            }
        }
        proof {
            if let Some(offered) = self@.steering {
                if are_two_ends(offered, polled(*steering)) {
                    law_unread_steering_is_what_was_accepted(offered, before, text::views(unread@));
                }
            }
        }
        if !chain || unread.len() == 0 {
            self.steering = None;
        }
        unread
    }
}

fn buffer_frame(replay: &mut Vec<Json>, frame: &Json)
    ensures
        json::documents_of(final(replay)@) == buffered(json::documents_of(old(replay)@), frame@),
{
    let ghost before = replay@;
    let ty: &str = text_of_field(frame, "type");
    let is_delta: bool = text::same(ty, "chunk") || text::same(ty, "thinking");
    if is_delta && replay.len() > 0 {
        let end: usize = replay.len() - 1;
        let same_type: bool = match replay[end].text_field("type") {
            Some(last_ty) => text::same(last_ty, ty),
            None => false,
        };
        if same_type {
            if let Some(mut last) = replay.pop() {
                let content: String = text::concat2(
                    text_of_field(&last, "content"),
                    text_of_field(frame, "content"),
                );
                last.set("content", Json::Text(content));
                replay.push(last);
                proof {
                    assert(json::documents_of(replay@) =~= json::documents_of(
                        before,
                    ).drop_last().push(last@));
                }
            }
            return;
        }
    }
    replay.push(frame.copy());
    proof {
        assert(json::documents_of(replay@) =~= json::documents_of(before).push(frame@));
    }
}

/// Who needs a session's hub.
#[derive(Clone, Copy, Debug)]
pub struct HubUse {
    /// A socket holds it.
    pub referenced: bool,
    /// Its turn is still streaming.
    pub running: bool,
}

impl HubUse {
    /// Whether the hub is needed at all.
    pub open spec fn needed(self) -> bool {
        self.referenced || self.running
    }
}

/// The entries that are needed or asked for, in order.
pub open spec fn swept<H>(
    entries: Seq<(Seq<char>, H)>,
    uses: Seq<HubUse>,
    key: Seq<char>,
) -> Seq<(Seq<char>, H)>
    decreases entries.len(),
{
    if entries.len() == 0 {
        Seq::empty()
    } else if uses[entries.len() - 1].needed() || entries.last().0 == key {
        swept(entries.drop_last(), uses, key).push(entries.last())
    } else {
        swept(entries.drop_last(), uses, key)
    }
}

/// Whether some entry is a session's.
pub open spec fn has_entry<H>(entries: Seq<(Seq<char>, H)>, key: Seq<char>) -> bool {
    exists|i: int| 0 <= i < entries.len() && (#[trigger] entries[i]).0 == key
}

/// Whether an entry is among those that are needed or asked for.
pub open spec fn is_needed<H>(
    entries: Seq<(Seq<char>, H)>,
    uses: Seq<HubUse>,
    key: Seq<char>,
    entry: (Seq<char>, H),
) -> bool {
    exists|i: int|
        0 <= i < entries.len() && (uses[i].needed() || entries[i].0 == key) && (
        #[trigger] entries[i]) == entry
}

/// Whether no session has two entries.
pub open spec fn one_each<H>(entries: Seq<(Seq<char>, H)>) -> bool {
    forall|i: int, j: int|
        0 <= i < j < entries.len() ==> (#[trigger] entries[i]).0 != (#[trigger] entries[j]).0
}

/// The entries after a session's hub has been asked for.
pub open spec fn with_entry<H>(
    entries: Seq<(Seq<char>, H)>,
    uses: Seq<HubUse>,
    key: Seq<char>,
    fresh: H,
) -> Seq<(Seq<char>, H)> {
    if has_entry(swept(entries, uses, key), key) {
        swept(entries, uses, key)
    } else {
        swept(entries, uses, key).push((key, fresh))
    }
}

/// The hubs of the sessions, one for each.
pub struct Registry<H> {
    entries: Vec<(String, H)>,
}

spec fn entry_views<H>(entries: Seq<(String, H)>) -> Seq<(Seq<char>, H)> {
    Seq::new(entries.len(), |i: int| (entries[i].0@, entries[i].1))
}

impl<H> Registry<H> {
    pub closed spec fn view(&self) -> Seq<(Seq<char>, H)> {
        entry_views(self.entries@)
    }

    #[verifier::type_invariant]
    spec fn distinct(self) -> bool {
        one_each(entry_views(self.entries@))
    }

    /// No hub.
    pub fn new() -> (out: Self)
        ensures
            out@ == Seq::<(Seq<char>, H)>::empty(),
    {
        Registry { entries: Vec::new() }
    }

    /// How many sessions have a hub.
    pub fn len(&self) -> (out: usize)
        ensures
            out == self@.len(),
            one_each(self@),
    {
        proof {
            use_type_invariant(self);
        }
        self.entries.len()
    }

    /// The hub of an entry.
    pub fn hub_at(&self, i: usize) -> (out: &H)
        requires
            i < self@.len(),
        ensures
            *out == self@[i as int].1,
    {
        &self.entries[i].1
    }

    /// Where a session's entry is, if it has one.
    pub fn find(&self, key: &str) -> (out: Option<usize>)
        ensures
            out is Some <==> has_entry(self@, key@),
            out matches Some(i) ==> i < self@.len() && self@[i as int].0 == key@,
    {
        find_entry(&self.entries, key)
    }
}

/// The hub for a session, by the place of its entry; `fresh` becomes its hub
/// where it has none. Other entries that nobody needs are dropped first, which
/// bounds the registry to about the number of connected sessions; `uses` tells of
/// each entry whether somebody does.
pub fn hub_for<H>(
    registry: &mut Registry<H>,
    session_key: &str,
    uses: &Vec<HubUse>,
    fresh: H,
) -> (out: usize)
    requires
        uses@.len() == old(registry)@.len(),
    ensures
        final(registry)@ == with_entry(old(registry)@, uses@, session_key@, fresh),
        out < final(registry)@.len(),
        final(registry)@[out as int].0 == session_key@,
{
    proof {
        use_type_invariant(&*registry);
    }
    let mut entries: Vec<(String, H)> = Vec::new();
    std::mem::swap(&mut entries, &mut registry.entries);
    let ghost before = entry_views(entries@);
    sweep(&mut entries, uses, session_key);
    proof {
        lemma_swept(before, uses@, session_key@);
    }
    let out: usize = match find_entry(&entries, session_key) {
        Some(i) => i,
        None => {
            let ghost kept = entries@;
            entries.push((session_key.to_owned(), fresh));
            proof {
                let more = entry_views(entries@);
                assert(more =~= entry_views(kept).push((session_key@, fresh)));
                assert forall|i: int, j: int| 0 <= i < j < more.len() implies (
                #[trigger] more[i]).0 != (#[trigger] more[j]).0 by {
                    assert(more[i] == entry_views(kept)[i]);
                    if j < kept.len() {
                        assert(more[j] == entry_views(kept)[j]);
                    }
                }
            }
            entries.len() - 1
        },
    };
    registry.entries = entries;
    out
}

fn find_entry<H>(entries: &Vec<(String, H)>, key: &str) -> (out: Option<usize>)
    ensures
        out is Some <==> has_entry(entry_views(entries@), key@),
        out matches Some(i) ==> i < entries@.len() && entries@[i as int].0@ == key@,
{
    let ghost all = entry_views(entries@);
    let mut i: usize = 0;
    while i < entries.len()
        invariant
            i <= entries@.len(),
            all == entry_views(entries@),
            forall|j: int| 0 <= j < i ==> (#[trigger] all[j]).0 != key@,
        decreases entries@.len() - i,
    {
        if text::same(entries[i].0.as_str(), key) {
            proof {
                assert(all[i as int].0 == key@);
            }
            return Some(i);
        }
        i += 1;
    }
    None
}

fn sweep<H>(entries: &mut Vec<(String, H)>, uses: &Vec<HubUse>, key: &str)
    requires
        uses@.len() == old(entries)@.len(),
    ensures
        entry_views(final(entries)@) == swept(entry_views(old(entries)@), uses@, key@),
{
    let ghost all = entry_views(entries@);
    let mut at: usize = 0;
    let mut seen: usize = 0;
    proof {
        assert(all.take(0) =~= Seq::<(Seq<char>, H)>::empty());
        assert(entry_views(entries@) =~= swept(all.take(0), uses@, key@) + all.skip(0));
    }
    while seen < uses.len()
        invariant
            at <= seen <= uses@.len() == all.len(),
            at == swept(all.take(seen as int), uses@, key@).len(),
            entry_views(entries@) == swept(all.take(seen as int), uses@, key@) + all.skip(seen as int),
        decreases uses@.len() - seen,
    {
        let ghost kept = swept(all.take(seen as int), uses@, key@);
        let ghost now = entry_views(entries@);
        proof {
            assert(all.take(seen + 1).drop_last() =~= all.take(seen as int));
            assert(now.len() == entries@.len());
            assert(now[at as int] == all[seen as int]);
        }
        let used: HubUse = uses[seen];
        if used.referenced || used.running || text::same(entries[at].0.as_str(), key) {
            at += 1;
            proof {
                assert(now =~= kept.push(all[seen as int]) + all.skip(seen + 1));
            }
        } else {
            entries.remove(at);
            proof {
                assert(entry_views(entries@) =~= now.remove(at as int));
                assert(entry_views(entries@) =~= kept + all.skip(seen + 1));
            }
        }
        seen += 1;
    }
    proof {
        assert(all.take(seen as int) =~= all);
        assert(swept(all, uses@, key@) + all.skip(seen as int) =~= swept(all, uses@, key@));
    }
}

proof fn lemma_swept<H>(entries: Seq<(Seq<char>, H)>, uses: Seq<HubUse>, key: Seq<char>)
    requires
        one_each(entries),
    ensures
        one_each(swept(entries, uses, key)),
        forall|j: int|
            0 <= j < swept(entries, uses, key).len() ==> is_needed(
                entries,
                uses,
                key,
                #[trigger] swept(entries, uses, key)[j],
            ),
        forall|i: int|
            0 <= i < entries.len() && (uses[i].needed() || entries[i].0 == key) ==> swept(
                entries,
                uses,
                key,
            ).contains(#[trigger] entries[i]),
    decreases entries.len(),
{
    if entries.len() > 0 {
        let front = entries.drop_last();
        let last = entries.len() - 1;
        assert forall|i: int, j: int| 0 <= i < j < front.len() implies (#[trigger] front[i]).0 != (
        #[trigger] front[j]).0 by {
            assert(front[i] == entries[i] && front[j] == entries[j]);
        }
        lemma_swept(front, uses, key);
        let kept = swept(front, uses, key);
        let all = swept(entries, uses, key);
        assert forall|j: int| 0 <= j < all.len() implies is_needed(
            entries,
            uses,
            key,
            #[trigger] all[j],
        ) by {
            if j < kept.len() {
                assert(all[j] == kept[j]);
                assert(is_needed(front, uses, key, kept[j]));
                let i = choose|i: int|
                    0 <= i < front.len() && (uses[i].needed() || front[i].0 == key) && (
                    #[trigger] front[i]) == kept[j];
                assert(entries[i] == all[j]);
            } else {
                assert(entries[last] == all[j]);
            }
        }
        assert forall|i: int, j: int| 0 <= i < j < all.len() implies (#[trigger] all[i]).0 != (
        #[trigger] all[j]).0 by {
            assert(all[i] == kept[i]);
            if j < kept.len() {
                assert(all[j] == kept[j]);
            } else {
                assert(is_needed(front, uses, key, kept[i]));
                let k = choose|k: int|
                    0 <= k < front.len() && (uses[k].needed() || front[k].0 == key) && (
                    #[trigger] front[k]) == kept[i];
                assert(entries[k].0 != entries[last].0);
            }
        }
        assert forall|i: int|
            0 <= i < entries.len() && (uses[i].needed() || entries[i].0
                == key) implies all.contains(#[trigger] entries[i]) by {
            if i < last {
                assert(front[i] == entries[i]);
                let j = choose|j: int| 0 <= j < kept.len() && kept[j] == entries[i];
                assert(all[j] == entries[i]);
            } else {
                assert(all[kept.len() as int] == entries[last]);
            }
        }
    }
}

/// Asking for a session's hub takes away no hub that a socket holds or whose
/// turn is still streaming, nor the one asked for; keeps no other; and leaves one
/// hub for each session.
pub proof fn law_the_registry_reclaims_only_what_nobody_needs<H>(
    entries: Seq<(Seq<char>, H)>,
    uses: Seq<HubUse>,
    key: Seq<char>,
    fresh: H,
)
    requires
        one_each(entries),
        uses.len() == entries.len(),
    ensures
        one_each(with_entry(entries, uses, key, fresh)),
        has_entry(with_entry(entries, uses, key, fresh), key),
        forall|i: int|
            0 <= i < entries.len() && (uses[i].needed() || entries[i].0 == key) ==> with_entry(
                entries,
                uses,
                key,
                fresh,
            ).contains(#[trigger] entries[i]),
        forall|j: int|
            0 <= j < with_entry(entries, uses, key, fresh).len() ==> (#[trigger] with_entry(
                entries,
                uses,
                key,
                fresh,
            )[j]).0 == key || is_needed(entries, uses, key, with_entry(entries, uses, key, fresh)[j]),
{
    lemma_swept(entries, uses, key);
    let kept = swept(entries, uses, key);
    let all = with_entry(entries, uses, key, fresh);
    if !has_entry(kept, key) {
        assert(all[kept.len() as int].0 == key);
        assert forall|i: int, j: int| 0 <= i < j < all.len() implies (#[trigger] all[i]).0 != (
        #[trigger] all[j]).0 by {
            assert(all[i] == kept[i]);
            if j < kept.len() {
                assert(all[j] == kept[j]);
            }
        }
        assert forall|i: int|
            0 <= i < entries.len() && (uses[i].needed() || entries[i].0
                == key) implies all.contains(#[trigger] entries[i]) by {
            let j = choose|j: int| 0 <= j < kept.len() && kept[j] == entries[i];
            assert(all[j] == entries[i]);
        }
        assert forall|j: int| 0 <= j < all.len() && (#[trigger] all[j]).0 != key implies is_needed(
            entries,
            uses,
            key,
            all[j],
        ) by {
            assert(all[j] == kept[j]);
        }
    }
}

/// The frames of a turn that are broadcast, as the broadcast carries them.
pub open spec fn live_frames(frames: Seq<json::Document>) -> Seq<LiveFrameView>
    decreases frames.len(),
{
    if frames.len() == 0 {
        Seq::empty()
    } else if replays(frames.last()) {
        live_frames(frames.drop_last()).push(live_frame(frames.last(), false))
    } else {
        live_frames(frames.drop_last())
    }
}

/// A replay buffer that the frames of a turn have gone through, in order.
pub open spec fn buffered_all(replay: Seq<json::Document>, frames: Seq<json::Document>) -> Seq<
    json::Document,
>
    decreases frames.len(),
{
    if frames.len() == 0 {
        replay
    } else if replays(frames.last()) {
        buffered(buffered_all(replay, frames.drop_last()), frames.last())
    } else {
        buffered_all(replay, frames.drop_last())
    }
}

/// An observer sees each frame of a turn exactly once, wherever it attaches: the
/// frames in front of that place have gone through the buffer that it is shown
/// and stand in front of its place on the broadcast; the frames behind it are
/// what the broadcast carries from its place on, each once and in order; and an
/// observer that lets them go through the buffer that it was shown has the
/// buffer of the whole turn.
pub proof fn law_each_frame_reaches_an_observer_once(
    hub: HubView,
    before: Seq<json::Document>,
    after: Seq<json::Document>,
)
    ensures
        ({
            let attached = hub.pushed_all(before);
            let done = hub.pushed_all(before + after);
            &&& attached.replay == buffered_all(hub.replay, before)
            &&& attached.live == hub.live + live_frames(before)
            &&& done.live.skip(attached.live.len() as int) == live_frames(after)
            &&& done.live.take(attached.live.len() as int) == attached.live
            &&& done.replay == buffered_all(attached.replay, after)
        }),
{
    lemma_pushed_all(hub, before);
    lemma_pushed_twice(hub, before, after);
    let attached = hub.pushed_all(before);
    lemma_pushed_all(attached, after);
    let done = hub.pushed_all(before + after);
    assert(done.live.skip(attached.live.len() as int) =~= live_frames(after));
    assert(done.live.take(attached.live.len() as int) =~= attached.live);
}

proof fn lemma_pushed_all(hub: HubView, frames: Seq<json::Document>)
    ensures
        hub.pushed_all(frames) == (HubView {
            replay: buffered_all(hub.replay, frames),
            live: hub.live + live_frames(frames),
            ..hub
        }),
    decreases frames.len(),
{
    if frames.len() == 0 {
        assert(hub.live + live_frames(frames) =~= hub.live);
    } else {
        lemma_pushed_all(hub, frames.drop_last());
        assert((hub.live + live_frames(frames.drop_last())).push(live_frame(frames.last(), false))
            =~= hub.live + live_frames(frames.drop_last()).push(live_frame(frames.last(), false)));
    }
}

proof fn lemma_pushed_twice(hub: HubView, before: Seq<json::Document>, after: Seq<json::Document>)
    ensures
        hub.pushed_all(before + after) == hub.pushed_all(before).pushed_all(after),
    decreases after.len(),
{
    if after.len() == 0 {
        assert(before + after =~= before);
    } else {
        lemma_pushed_twice(hub, before, after.drop_last());
        assert((before + after).drop_last() =~= before + after.drop_last());
        assert((before + after).last() == after.last());
    }
}

/// The text that frames carry, joined.
pub open spec fn carried(frames: Seq<json::Document>) -> Seq<char>
    decreases frames.len(),
{
    if frames.len() == 0 {
        Seq::empty()
    } else {
        carried(frames.drop_last()) + text_in(frames.last(), "content"@)
    }
}

/// The frames of a turn that belong in the replay buffer.
pub open spec fn replayable(frames: Seq<json::Document>) -> Seq<json::Document> {
    frames.filter(|frame: json::Document| replays(frame))
}

/// Merging loses no text and adds none: the buffer carries what was pushed.
pub proof fn law_merging_keeps_the_text(frames: Seq<json::Document>)
    ensures
        carried(buffered_all(Seq::empty(), frames)) == carried(replayable(frames)),
    decreases frames.len(),
{
    reveal(Seq::filter);
    if frames.len() > 0 {
        law_merging_keeps_the_text(frames.drop_last());
        if replays(frames.last()) {
            let replay = buffered_all(Seq::empty(), frames.drop_last());
            let frame = frames.last();
            lemma_buffered_carries(replay, frame);
            let kept = replayable(frames.drop_last());
            assert(replayable(frames) =~= kept.push(frame));
            assert(kept.push(frame).drop_last() =~= kept);
        } else {
            assert(replayable(frames) =~= replayable(frames.drop_last()));
        }
    } else {
        assert(replayable(frames) =~= Seq::<json::Document>::empty());
    }
}

proof fn lemma_buffered_carries(replay: Seq<json::Document>, frame: json::Document)
    ensures
        carried(buffered(replay, frame)) == carried(replay) + text_in(frame, "content"@),
{
    let more = buffered(replay, frame);
    if replay.len() > 0 && continues(replay.last(), frame) {
        let last = replay.last();
        assert(more.drop_last() =~= replay.drop_last());
        assert(last is Object);
        assert(text_in(continued(last, frame), "content"@) == text_in(last, "content"@) + text_in(
            frame,
            "content"@,
        ));
        assert(carried(replay.drop_last()) + (text_in(last, "content"@) + text_in(
            frame,
            "content"@,
        )) =~= (carried(replay.drop_last()) + text_in(last, "content"@)) + text_in(
            frame,
            "content"@,
        ));
    } else {
        assert(more.drop_last() =~= replay);
    }
}

/// Whether no frame of a buffer continues the one in front of it.
pub open spec fn is_merged(replay: Seq<json::Document>) -> bool {
    forall|i: int|
        0 < i < replay.len() ==> !continues(replay[i - 1], #[trigger] replay[i])
}

/// A turn's buffer has no two adjacent deltas of one kind, and holds replayable
/// frames only.
pub proof fn law_adjacent_deltas_are_merged(frames: Seq<json::Document>)
    ensures
        is_merged(buffered_all(Seq::empty(), frames)),
        forall|i: int|
            0 <= i < buffered_all(Seq::empty(), frames).len() ==> replays(
                #[trigger] buffered_all(Seq::empty(), frames)[i],
            ),
    decreases frames.len(),
{
    if frames.len() > 0 {
        law_adjacent_deltas_are_merged(frames.drop_last());
        let replay = buffered_all(Seq::empty(), frames.drop_last());
        let frame = frames.last();
        let more = buffered(replay, frame);
        if replays(frame) && replay.len() > 0 && continues(replay.last(), frame) {
            let last = replay.last();
            let merged = continued(last, frame);
            lemma_content_is_no_type();
            assert(last is Object);
            assert(merged.at("type"@) == last.at("type"@));
            assert forall|i: int| 0 < i < more.len() implies !continues(
                more[i - 1],
                #[trigger] more[i],
            ) by {
                if i == more.len() - 1 {
                    assert(more[i - 1] == replay[i - 1]);
                    assert(!continues(replay[i - 1], replay[i]));
                } else {
                    assert(more[i - 1] == replay[i - 1] && more[i] == replay[i]);
                }
            }
            assert forall|i: int| 0 <= i < more.len() implies replays(#[trigger] more[i]) by {
                assert(replays(replay[i]));
            }
        } else if replays(frame) {
            assert forall|i: int| 0 < i < more.len() implies !continues(
                more[i - 1],
                #[trigger] more[i],
            ) by {
                if i < replay.len() {
                    assert(!continues(replay[i - 1], replay[i]));
                }
            }
            assert forall|i: int| 0 <= i < more.len() implies replays(#[trigger] more[i]) by {
                if i < replay.len() {
                    assert(replays(replay[i]));
                }
            }
        }
    }
}

/// The maximal runs of frames of which each continues the one in front of it.
pub open spec fn runs_of(frames: Seq<json::Document>) -> Seq<Seq<json::Document>>
    decreases frames.len(),
{
    if frames.len() == 0 {
        Seq::empty()
    } else {
        let rest = runs_of(frames.drop_last());
        if frames.len() > 1 && continues(frames[frames.len() - 2], frames.last()) {
            rest.drop_last().push(rest.last().push(frames.last()))
        } else {
            rest.push(seq![frames.last()])
        }
    }
}

/// Whether frames are cut into their maximal runs: none is lost, added or moved;
/// within a run each frame continues the one in front of it; and no run
/// continues the one in front of it.
pub open spec fn are_maximal_runs(
    runs: Seq<Seq<json::Document>>,
    frames: Seq<json::Document>,
) -> bool {
    &&& runs.flatten() == frames
    &&& forall|r: int| 0 <= r < runs.len() ==> (#[trigger] runs[r]).len() > 0
    &&& forall|r: int, k: int|
        0 <= r < runs.len() && 0 < k < runs[r].len() ==> continues(
            runs[r][k - 1],
            #[trigger] runs[r][k],
        )
    &&& forall|r: int|
        0 < r < runs.len() ==> !continues(runs[r - 1].last(), (#[trigger] runs[r]).first())
}

/// A run as one frame: its first one, with the contents of all of them.
pub open spec fn run_frame(run: Seq<json::Document>) -> json::Document {
    if run.len() == 1 {
        run.first()
    } else {
        run.first().with("content"@, json::Document::Text(carried(run)))
    }
}

/// Runs as one frame each.
pub open spec fn run_frames(runs: Seq<Seq<json::Document>>) -> Seq<json::Document> {
    runs.map_values(|run: Seq<json::Document>| run_frame(run))
}

/// A delta has its type as a text, and so has what it continues.
proof fn lemma_delta_type(last: json::Document, frame: json::Document)
    requires
        continues(last, frame),
    ensures
        last is Object,
        last.at("type"@) == frame.at("type"@),
{
    reveal_strlit("chunk");
    reveal_strlit("thinking");
    assert(text_in(frame, "type"@).len() > 0);
}

proof fn lemma_runs(frames: Seq<json::Document>)
    ensures
        are_maximal_runs(runs_of(frames), frames),
        frames.len() == 0 ==> runs_of(frames).len() == 0,
        frames.len() > 0 ==> {
            &&& runs_of(frames).len() > 0
            &&& runs_of(frames).last().last() == frames.last()
            &&& runs_of(frames).last().first().at("type"@) == frames.last().at("type"@)
        },
    decreases frames.len(),
{
    let runs = runs_of(frames);
    if frames.len() > 0 {
        let front = frames.drop_last();
        let rest = runs_of(front);
        let frame = frames.last();
        lemma_runs(front);
        if frames.len() > 1 && continues(frames[frames.len() - 2], frame) {
            assert(front.last() == frames[frames.len() - 2]);
            lemma_delta_type(front.last(), frame);
            let run = rest.last();
            let more = run.push(frame);
            let head = rest.drop_last();
            head.lemma_flatten_push(run);
            head.lemma_flatten_push(more);
            assert(head.push(run) =~= rest);
            assert(runs == head.push(more));
            assert(head.flatten() + more =~= (head.flatten() + run).push(frame));
            assert(front.push(frame) =~= frames);
            assert(runs.flatten() =~= frames);
            assert(more.first() == run.first());
            assert forall|r: int, k: int|
                0 <= r < runs.len() && 0 < k < runs[r].len() implies continues(
                runs[r][k - 1],
                #[trigger] runs[r][k],
            ) by {
                if r < runs.len() - 1 {
                    assert(runs[r] == rest[r]);
                } else if k < run.len() {
                    assert(rest[r] == run);
                    assert(continues(rest[r][k - 1], rest[r][k]));
                    assert(more[k - 1] == run[k - 1] && more[k] == run[k]);
                } else {
                    assert(more[k - 1] == run.last());
                }
            }
            assert forall|r: int| 0 < r < runs.len() implies !continues(
                runs[r - 1].last(),
                (#[trigger] runs[r]).first(),
            ) by {
                assert(runs[r - 1] == rest[r - 1]);
                assert(!continues(rest[r - 1].last(), rest[r].first()));
            }
        } else {
            rest.lemma_flatten_push(seq![frame]);
            assert(runs.flatten() =~= frames);
            assert forall|r: int, k: int|
                0 <= r < runs.len() && 0 < k < runs[r].len() implies continues(
                runs[r][k - 1],
                #[trigger] runs[r][k],
            ) by {
                assert(runs[r] == rest[r]);
            }
            assert forall|r: int| 0 < r < runs.len() implies !continues(
                runs[r - 1].last(),
                (#[trigger] runs[r]).first(),
            ) by {
                assert(runs[r - 1] == rest[r - 1]);
                if r < rest.len() {
                    assert(runs[r] == rest[r]);
                } else {
                    assert(rest[r - 1].last() == front.last());
                }
            }
        }
    } else {
        assert(runs.flatten() =~= frames);
    }
}

proof fn lemma_run_grows(run: Seq<json::Document>, frame: json::Document)
    requires
        run.len() > 0,
        run.first() is Object,
    ensures
        run_frame(run.push(frame)) == continued(run_frame(run), frame),
{
    let more = run.push(frame);
    assert(more.drop_last() =~= run);
    assert(more.first() == run.first());
    let fields = run.first()->Object_0;
    if run.len() == 1 {
        reveal_with_fuel(carried, 2);
        assert(run.last() == run.first());
        assert(carried(run) =~= text_in(run.first(), "content"@));
    } else {
        let merged = json::Document::Text(carried(run));
        let longer = json::Document::Text(carried(more));
        assert(fields.insert("content"@, merged).insert("content"@, longer) =~= fields.insert(
            "content"@,
            longer,
        ));
    }
}

proof fn lemma_buffer_is_runs(frames: Seq<json::Document>)
    ensures
        buffered_all(Seq::empty(), frames) == run_frames(runs_of(replayable(frames))),
    decreases frames.len(),
{
    reveal(Seq::filter);
    if frames.len() == 0 {
        assert(replayable(frames) =~= Seq::<json::Document>::empty());
        assert(run_frames(runs_of(replayable(frames))) =~= Seq::<json::Document>::empty());
    } else {
        let front = frames.drop_last();
        let frame = frames.last();
        lemma_buffer_is_runs(front);
        let kept = replayable(front);
        if replays(frame) {
            let all = kept.push(frame);
            assert(replayable(frames) =~= all);
            assert(all.drop_last() =~= kept);
            lemma_runs(kept);
            let rest = runs_of(kept);
            let replay = run_frames(rest);
            assert(buffered_all(Seq::empty(), front) == replay);
            if kept.len() > 0 {
                let run = rest.last();
                assert(all[all.len() - 2] == kept.last());
                assert(replay.last() == run_frame(run));
                lemma_content_is_no_type();
                assert(run_frame(run).at("type"@) == run.first().at("type"@));
                assert(continues(replay.last(), frame) == continues(kept.last(), frame));
                if continues(kept.last(), frame) {
                    lemma_delta_type(kept.last(), frame);
                    lemma_run_grows(run, frame);
                    assert(run_frames(rest.drop_last().push(run.push(frame)))
                        =~= replay.drop_last().push(continued(run_frame(run), frame)));
                } else {
                    assert(run_frames(rest.push(seq![frame])) =~= replay.push(frame));
                }
            } else {
                assert(run_frames(rest.push(seq![frame])) =~= replay.push(frame));
            }
        } else {
            assert(replayable(frames) =~= kept);
        }
    }
}

proof fn lemma_live_frames(frames: Seq<json::Document>)
    ensures
        live_frames(frames) == replayable(frames).map_values(
            |frame: json::Document| live_frame(frame, false),
        ),
    decreases frames.len(),
{
    reveal(Seq::filter);
    let show = |frame: json::Document| live_frame(frame, false);
    if frames.len() == 0 {
        assert(live_frames(frames) =~= replayable(frames).map_values(show));
    } else {
        lemma_live_frames(frames.drop_last());
        let kept = replayable(frames.drop_last());
        if replays(frames.last()) {
            assert(replayable(frames) =~= kept.push(frames.last()));
        } else {
            assert(replayable(frames) =~= kept);
        }
        assert(live_frames(frames) =~= replayable(frames).map_values(show));
    }
}

/// Whether a frame asks for an approval.
pub open spec fn asks_approval(frame: json::Document) -> bool {
    frame.at("type"@) == json::Document::Text("approval_request"@)
}

proof fn lemma_no_request_is_buffered(frames: Seq<json::Document>)
    requires
        forall|i: int| 0 <= i < frames.len() ==> !asks_approval(#[trigger] frames[i]),
    ensures
        forall|i: int|
            0 <= i < buffered_all(Seq::empty(), frames).len() ==> !asks_approval(
                #[trigger] buffered_all(Seq::empty(), frames)[i],
            ),
    decreases frames.len(),
{
    if frames.len() > 0 {
        let front = frames.drop_last();
        let frame = frames.last();
        assert forall|i: int| 0 <= i < front.len() implies !asks_approval(#[trigger] front[i]) by {
            assert(front[i] == frames[i]);
        }
        lemma_no_request_is_buffered(front);
        let replay = buffered_all(Seq::empty(), front);
        let more = buffered_all(Seq::empty(), frames);
        assert forall|i: int| 0 <= i < more.len() implies !asks_approval(#[trigger] more[i]) by {
            if i < replay.len() {
                assert(!asks_approval(replay[i]));
                lemma_content_is_no_type();
            } else {
                assert(!asks_approval(frames[frames.len() - 1]));
            }
        }
    }
}

proof fn lemma_filter_all(frames: Seq<json::Document>, keep: spec_fn(json::Document) -> bool)
    requires
        forall|i: int| 0 <= i < frames.len() ==> keep(#[trigger] frames[i]),
    ensures
        frames.filter(keep) == frames,
    decreases frames.len(),
{
    reveal(Seq::filter);
    if frames.len() > 0 {
        let front = frames.drop_last();
        assert forall|i: int| 0 <= i < front.len() implies keep(#[trigger] front[i]) by {
            assert(front[i] == frames[i]);
        }
        lemma_filter_all(front, keep);
        assert(keep(frames[frames.len() - 1]));
        assert(front.push(frames.last()) =~= frames);
    }
    assert(frames.filter(keep) =~= frames);
}

/// The frames of a turn in the replay buffer: those that are replayable, in
/// order, each maximal run of adjacent deltas of one kind as its first frame with
/// the contents of the run joined. An observer that attaches then is shown them,
/// where none asks for an approval; one that attached at the start of the turn
/// has had each replayable frame once, raw and unmerged, and no other.
pub proof fn law_the_buffer_holds_the_turn_in_runs(
    hub: HubView,
    offered: Seq<(Seq<char>, Answer)>,
    frames: Seq<json::Document>,
)
    ensures
        ({
            let begun = hub.begun(offered);
            let done = begun.pushed_all(frames);
            let runs = runs_of(replayable(frames));
            &&& are_maximal_runs(runs, replayable(frames))
            &&& done.replay == run_frames(runs)
            &&& done.running
            &&& (forall|i: int| 0 <= i < frames.len() ==> !asks_approval(#[trigger] frames[i]))
                ==> done.snapshot() == run_frames(runs)
            &&& done.live.take(begun.live.len() as int) == begun.live
            &&& done.live.skip(begun.live.len() as int) == replayable(frames).map_values(
                |frame: json::Document| live_frame(frame, false),
            )
        }),
{
    let begun = hub.begun(offered);
    let done = begun.pushed_all(frames);
    lemma_pushed_all(begun, frames);
    lemma_runs(replayable(frames));
    lemma_buffer_is_runs(frames);
    lemma_live_frames(frames);
    assert(done.live.take(begun.live.len() as int) =~= begun.live);
    assert(done.live.skip(begun.live.len() as int) =~= live_frames(frames));
    if forall|i: int| 0 <= i < frames.len() ==> !asks_approval(#[trigger] frames[i]) {
        lemma_no_request_is_buffered(frames);
        let keep = |frame: json::Document| done.shows(frame);
        assert forall|i: int| 0 <= i < done.replay.len() implies keep(
            #[trigger] done.replay[i],
        ) by {
            assert(!asks_approval(done.replay[i]));
        }
        lemma_filter_all(done.replay, keep);
    }
}

proof fn lemma_content_is_no_type()
    ensures
        "content"@ != "type"@,
{
    reveal_strlit("content");
    reveal_strlit("type");
    assert("content"@.len() != "type"@.len());
}

/// A frame that is no delta stands in the buffer as it was pushed, and nothing
/// behind it is merged into anything in front of it.
pub proof fn law_no_merging_across_other_frames(
    before: Seq<json::Document>,
    frame: json::Document,
    after: Seq<json::Document>,
)
    requires
        replays(frame),
        !is_delta_type(text_in(frame, "type"@)),
    ensures
        buffered_all(Seq::empty(), before.push(frame) + after) == buffered_all(
            Seq::empty(),
            before,
        ).push(frame) + buffered_all(Seq::empty(), after),
    decreases after.len(),
{
    let front = buffered_all(Seq::empty(), before).push(frame);
    if after.len() == 0 {
        assert(before.push(frame) + after =~= before.push(frame));
        assert(before.push(frame).drop_last() =~= before);
        assert(front + buffered_all(Seq::empty(), after) =~= front);
    } else {
        law_no_merging_across_other_frames(before, frame, after.drop_last());
        let all = before.push(frame) + after;
        assert(all.drop_last() =~= before.push(frame) + after.drop_last());
        assert(all.last() == after.last());
        let back = buffered_all(Seq::empty(), after.drop_last());
        let next = after.last();
        if replays(next) {
            if back.len() == 0 {
                assert(front + back =~= front);
                assert(front.last() == frame);
                assert(!continues(frame, next));
                assert(front.push(next) =~= front + back.push(next));
            } else {
                assert((front + back).last() == back.last());
                assert((front + back).drop_last() =~= front + back.drop_last());
                assert((front + back.drop_last()).push(continued(back.last(), next)) =~= front
                    + back.drop_last().push(continued(back.last(), next)));
                assert((front + back).push(next) =~= front + back.push(next));
            }
        }
    }
}

/// A finished turn leaves nothing to attach to: no turn runs, nothing is
/// replayed, no steering is taken; the observers get the very frame that was
/// given, behind all they had, and marked as the last one; and what awaits a
/// decision still does.
pub proof fn law_a_finished_turn_is_over(hub: HubView, frame: json::Document)
    ensures
        ({
            let done = hub.finished(frame);
            &&& !done.running
            &&& done.replay == Seq::<json::Document>::empty()
            &&& done.snapshot() == Seq::<json::Document>::empty()
            &&& done.steering is None
            &&& done.live.last().last
            &&& done.live == hub.live.push(
                LiveFrameView { text: json::rendered(frame), last: true },
            )
            &&& done.pending == hub.pending
        }),
{
    reveal(Seq::filter);
}

/// Between two chained turns observers stay, steering stays as it is, and the
/// finished turn is not replayed; the frames of the next turn come behind.
pub proof fn law_a_chained_turn_keeps_observers_and_steering(
    hub: HubView,
    frame: json::Document,
    frames: Seq<json::Document>,
)
    ensures
        ({
            let next = hub.chained(frame);
            &&& next.running == hub.running
            &&& next.steering == hub.steering
            &&& next.snapshot() == Seq::<json::Document>::empty()
            &&& !next.live.last().last
            &&& next.live.drop_last() == hub.live
            &&& next.live.last().text == json::rendered(frame)
            &&& next.pending == hub.pending
            &&& next.pushed_all(frames).live == next.live + live_frames(frames)
        }),
{
    reveal(Seq::filter);
    lemma_pushed_all(hub.chained(frame), frames);
    assert(hub.chained(frame).live.drop_last() =~= hub.live);
}

/// Of the approval requests in the buffer an observer is shown those that are
/// pending, and no other; every other frame it is shown.
pub proof fn law_only_pending_requests_are_shown(hub: HubView, frame: json::Document)
    ensures
        hub.snapshot().contains(frame) <==> hub.replay.contains(frame) && hub.shows(frame),
{
    let keep = |f: json::Document| hub.shows(f);
    lemma_filter_contains(hub.replay, keep, frame);
}

proof fn lemma_filter_contains(
    all: Seq<json::Document>,
    keep: spec_fn(json::Document) -> bool,
    frame: json::Document,
)
    ensures
        all.filter(keep).contains(frame) <==> all.contains(frame) && keep(frame),
    decreases all.len(),
{
    reveal(Seq::filter);
    if all.len() > 0 {
        lemma_filter_contains(all.drop_last(), keep, frame);
        let front = all.drop_last();
        let kept = front.filter(keep);
        if all.contains(frame) {
            let i = choose|i: int| 0 <= i < all.len() && all[i] == frame;
            if i < front.len() {
                assert(front[i] == frame);
            }
        }
        if front.contains(frame) {
            let i = choose|i: int| 0 <= i < front.len() && front[i] == frame;
            assert(all[i] == frame);
        }
        if keep(all.last()) {
            let more = kept.push(all.last());
            assert(all.filter(keep) == more);
            assert(more[kept.len() as int] == all.last());
            if kept.contains(frame) {
                let i = choose|i: int| 0 <= i < kept.len() && kept[i] == frame;
                assert(more[i] == frame);
            }
            if more.contains(frame) {
                let i = choose|i: int| 0 <= i < more.len() && more[i] == frame;
                if i < kept.len() {
                    assert(kept[i] == frame);
                }
            }
        }
        assert(all[all.len() - 1] == all.last());
    }
}


/// The messages among some offers that the channel took, in order.
pub open spec fn accepted(offered: Seq<(Seq<char>, Answer)>) -> Seq<Seq<char>>
    decreases offered.len(),
{
    if offered.len() == 0 {
        Seq::empty()
    } else if offered.last().1 == Answer::Taken {
        accepted(offered.drop_last()).push(offered.last().0)
    } else {
        accepted(offered.drop_last())
    }
}

/// The messages that some polls came to, in order.
pub open spec fn received(polls: Seq<Option<Seq<char>>>) -> Seq<Seq<char>>
    decreases polls.len(),
{
    if polls.len() == 0 {
        Seq::empty()
    } else {
        match polls.last() {
            Some(message) => received(polls.drop_last()).push(message),
            None => received(polls.drop_last()),
        }
    }
}

/// Whether a sender's offers and a receiver's polls are those of the two ends of
/// one channel to which nobody else sends: what has been received is what was
/// accepted first, in order; and where the last poll found nothing, nothing that
/// was accepted was left.
pub open spec fn are_two_ends(
    offered: Seq<(Seq<char>, Answer)>,
    polls: Seq<Option<Seq<char>>>,
) -> bool {
    &&& received(polls).is_prefix_of(accepted(offered))
    &&& polls.len() > 0 && polls.last() is None ==> received(polls) == accepted(offered)
}

/// What a drain takes is what steering had accepted and the turn had not read,
/// in order, and nothing is left: `offered` is what the hub has offered to the
/// turn's channel, `before` what the turn's polls had come to, and `unread` what
/// [`TurnHub::take_unread_steering`] gave.
pub proof fn law_unread_steering_is_what_was_accepted(
    offered: Seq<(Seq<char>, Answer)>,
    before: Seq<Option<Seq<char>>>,
    unread: Seq<Seq<char>>,
)
    requires
        are_two_ends(
            offered,
            before + unread.map_values(|m: Seq<char>| Some(m)).push(None),
        ),
    ensures
        received(before) + unread == accepted(offered),
        unread == accepted(offered).skip(received(before).len() as int),
{
    let wrapped = unread.map_values(|m: Seq<char>| Some(m));
    let polls = before + wrapped.push(None);
    assert(polls.drop_last() =~= before + wrapped);
    assert(polls.last() is None);
    lemma_received(before, unread);
    assert((received(before) + unread).skip(received(before).len() as int) =~= unread);
}

proof fn lemma_received(before: Seq<Option<Seq<char>>>, unread: Seq<Seq<char>>)
    ensures
        received(before + unread.map_values(|m: Seq<char>| Some(m))) == received(before) + unread,
    decreases unread.len(),
{
    let wrapped = unread.map_values(|m: Seq<char>| Some(m));
    if unread.len() == 0 {
        assert(before + wrapped =~= before);
        assert(received(before) + unread =~= received(before));
    } else {
        let front = unread.drop_last();
        lemma_received(before, front);
        assert((before + wrapped).drop_last() =~= before + front.map_values(
            |m: Seq<char>| Some(m),
        ));
        assert((before + wrapped).last() == Some(unread.last()));
        assert((received(before) + front).push(unread.last()) =~= received(before) + unread);
    }
}


/// What happens at the two ends of a channel.
pub enum ChannelEvent {
    /// A message was offered, and what the channel answered.
    Offered(Seq<char>, Answer),
    /// The receiver polled, and what it came to.
    Polled(Option<Seq<char>>),
}

/// The messages that wait in a queue after some events: those that it took, but
/// for those that were polled.
pub open spec fn waiting(events: Seq<ChannelEvent>) -> Seq<Seq<char>>
    decreases events.len(),
{
    if events.len() == 0 {
        Seq::empty()
    } else {
        let queue = waiting(events.drop_last());
        match events.last() {
            ChannelEvent::Offered(message, answer) => if answer == Answer::Taken {
                queue.push(message)
            } else {
                queue
            },
            ChannelEvent::Polled(_) => if queue.len() > 0 {
                queue.drop_first()
            } else {
                queue
            },
        }
    }
}

/// Whether some events are those of a queue: each poll comes to the message that
/// has waited longest, and to nothing only where none waits.
pub open spec fn are_of_a_queue(events: Seq<ChannelEvent>) -> bool
    decreases events.len(),
{
    events.len() > 0 ==> {
        let queue = waiting(events.drop_last());
        &&& are_of_a_queue(events.drop_last())
        &&& events.last() matches ChannelEvent::Polled(found) ==> found == (if queue.len() > 0 {
            Some(queue.first())
        } else {
            None
        })
    }
}

/// What was offered, in order.
pub open spec fn offers_in(events: Seq<ChannelEvent>) -> Seq<(Seq<char>, Answer)>
    decreases events.len(),
{
    if events.len() == 0 {
        Seq::empty()
    } else {
        match events.last() {
            ChannelEvent::Offered(message, answer) => offers_in(events.drop_last()).push(
                (message, answer),
            ),
            ChannelEvent::Polled(_) => offers_in(events.drop_last()),
        }
    }
}

/// What the polls came to, in order.
pub open spec fn polls_in(events: Seq<ChannelEvent>) -> Seq<Option<Seq<char>>>
    decreases events.len(),
{
    if events.len() == 0 {
        Seq::empty()
    } else {
        match events.last() {
            ChannelEvent::Offered(_, _) => polls_in(events.drop_last()),
            ChannelEvent::Polled(found) => polls_in(events.drop_last()).push(found),
        }
    }
}

/// A queue loses, adds and moves no message: what it took is what was received
/// and what still waits, however offers and polls came in turn. So where the last
/// thing that happened is a poll that found nothing, its offers and its polls are
/// those of two ends.
pub proof fn law_a_queue_has_two_ends(events: Seq<ChannelEvent>)
    requires
        are_of_a_queue(events),
    ensures
        received(polls_in(events)) + waiting(events) == accepted(offers_in(events)),
        events.len() > 0 && events.last() == ChannelEvent::Polled(None) ==> are_two_ends(
            offers_in(events),
            polls_in(events),
        ),
    decreases events.len(),
{
    if events.len() == 0 {
        assert(received(polls_in(events)) + waiting(events) =~= accepted(offers_in(events)));
    } else {
        let front = events.drop_last();
        law_a_queue_has_two_ends(front);
        let read = received(polls_in(front));
        let queue = waiting(front);
        let offered = offers_in(front);
        match events.last() {
            ChannelEvent::Offered(message, answer) => {
                let more = offered.push((message, answer));
                assert(more.drop_last() =~= offered);
                assert(read + queue.push(message) =~= (read + queue).push(message));
            },
            ChannelEvent::Polled(found) => {
                let more = polls_in(front).push(found);
                assert(more.drop_last() =~= polls_in(front));
                if queue.len() > 0 {
                    assert(read.push(queue.first()) + queue.drop_first() =~= read + queue);
                } else {
                    assert(read + queue =~= read);
                    assert(accepted(offered).take(read.len() as int) =~= read);
                }
            },
        }
    }
}

/// A session that has had no turn yet runs none, replays nothing, has broadcast
/// nothing, awaits no decision and takes no steering.
pub proof fn law_a_new_hub_is_idle()
    ensures
        ({
            let hub = HubView::initial();
            &&& !hub.running
            &&& hub.replay.len() == 0
            &&& hub.live.len() == 0
            &&& hub.pending == Set::<Seq<char>>::empty()
            &&& hub.steering is None
        }),
{
}

/// A turn that begins runs, with an empty buffer and its own steering; what was
/// broadcast and what awaits a decision stays.
pub proof fn law_a_turn_begins_afresh(hub: HubView, offered: Seq<(Seq<char>, Answer)>)
    ensures
        ({
            let begun = hub.begun(offered);
            &&& begun.running
            &&& begun.replay.len() == 0
            &&& begun.live == hub.live
            &&& begun.pending == hub.pending
            &&& begun.steering == Some(offered)
        }),
{
}

/// Six types of frames are replayed, among them the two that carry pieces of a
/// text.
pub proof fn law_types_of_frames(name: Seq<char>)
    ensures
        is_replayable_type("chunk"@) && is_replayable_type("thinking"@),
        is_replayable_type("tool_call"@) && is_replayable_type("tool_result"@),
        is_replayable_type("plan"@) && is_replayable_type("approval_request"@),
        is_replayable_type(name) ==> name == "chunk"@ || name == "thinking"@ || name == "tool_call"@
            || name == "tool_result"@ || name == "plan"@ || name == "approval_request"@,
        is_delta_type(name) <==> name == "chunk"@ || name == "thinking"@,
{
}

/// A frame is replayed exactly where the text of its type is replayable; it
/// continues another exactly where both are pieces of a reply, or both pieces of
/// a thought.
pub proof fn law_which_frames_continue(last: json::Document, frame: json::Document)
    ensures
        replays(frame) <==> frame.at("type"@) is Text && is_replayable_type(
            frame.at("type"@)->Text_0,
        ),
        continues(last, frame) <==> {
            ||| last.at("type"@) == json::Document::Text("chunk"@) && frame.at("type"@)
                == json::Document::Text("chunk"@)
            ||| last.at("type"@) == json::Document::Text("thinking"@) && frame.at("type"@)
                == json::Document::Text("thinking"@)
        },
{
    reveal_strlit("chunk");
    reveal_strlit("thinking");
    reveal_strlit("tool_call");
    reveal_strlit("tool_result");
    reveal_strlit("plan");
    reveal_strlit("approval_request");
    assert("chunk"@.len() == 5 && "thinking"@.len() == 8 && "tool_call"@.len() == 9);
    assert("tool_result"@.len() == 11 && "plan"@.len() == 4 && "approval_request"@.len() == 16);
}

/// A frame that is replayed goes to the observers as it is, and into the buffer:
/// behind the last frame, or into it where it continues it. Every other frame
/// goes nowhere. Nothing else changes.
pub proof fn law_a_frame_goes_to_buffer_and_observers(hub: HubView, frame: json::Document)
    ensures
        ({
            let next = hub.pushed(frame);
            &&& !replays(frame) ==> next == hub
            &&& replays(frame) ==> {
                &&& next.live == hub.live.push(
                    LiveFrameView { text: json::rendered(frame), last: false },
                )
                &&& next.running == hub.running && next.pending == hub.pending && next.steering
                    == hub.steering
                &&& hub.replay.len() == 0 || !continues(hub.replay.last(), frame) ==> next.replay
                    == hub.replay.push(frame)
                &&& hub.replay.len() > 0 && continues(hub.replay.last(), frame) ==> {
                    &&& next.replay.len() == hub.replay.len()
                    &&& next.replay.drop_last() == hub.replay.drop_last()
                    &&& next.replay.last().at("content"@) == json::Document::Text(
                        text_in(hub.replay.last(), "content"@) + text_in(frame, "content"@),
                    )
                    &&& forall|name: Seq<char>|
                        name != "content"@ ==> #[trigger] next.replay.last().get(name)
                            == hub.replay.last().get(name)
                }
            }
        }),
{
    if replays(frame) && hub.replay.len() > 0 && continues(hub.replay.last(), frame) {
        lemma_delta_type(hub.replay.last(), frame);
        assert(hub.pushed(frame).replay.drop_last() =~= hub.replay.drop_last());
    }
}

/// A field carries the text that stands in it; one without a text carries
/// nothing.
pub proof fn law_the_text_of_a_field(frame: json::Document, key: Seq<char>, s: Seq<char>)
    ensures
        frame.at(key) == json::Document::Text(s) ==> text_in(frame, key) == s,
        !(frame.at(key) is Text) ==> text_in(frame, key) == Seq::<char>::empty(),
{
}

/// Frames carry their contents one behind the other.
pub proof fn law_contents_follow_one_another(
    front: Seq<json::Document>,
    back: Seq<json::Document>,
    frame: json::Document,
)
    ensures
        carried(seq![frame]) == text_in(frame, "content"@),
        carried(front + back) == carried(front) + carried(back),
    decreases back.len(),
{
    reveal_with_fuel(carried, 2);
    assert(seq![frame].drop_last() =~= Seq::empty());
    assert(carried(seq![frame]) =~= text_in(frame, "content"@));
    if back.len() == 0 {
        assert(front + back =~= front);
        assert(carried(front) + carried(back) =~= carried(front));
    } else {
        law_contents_follow_one_another(front, back.drop_last(), frame);
        assert((front + back).drop_last() =~= front + back.drop_last());
        assert((front + back).last() == back.last());
        assert(carried(front) + carried(back.drop_last()) + text_in(back.last(), "content"@)
            =~= carried(front) + (carried(back.drop_last()) + text_in(back.last(), "content"@)));
    }
}

/// A run is replayed as its first frame with all its contents; a run of one frame
/// as that frame.
pub proof fn law_a_run_is_one_frame(run: Seq<json::Document>)
    requires
        run.len() > 0,
        run.first() is Object,
    ensures
        run.len() == 1 ==> run_frame(run) == run.first(),
        run.len() > 1 ==> run_frame(run).at("content"@) == json::Document::Text(carried(run)),
        forall|name: Seq<char>|
            name != "content"@ ==> #[trigger] run_frame(run).get(name) == run.first().get(name),
{
}

/// An observer is shown a frame unless it asks for an approval that nobody waits
/// for any more: one whose request is not pending, or that names none.
pub proof fn law_which_frames_are_shown(hub: HubView, frame: json::Document, id: Seq<char>)
    ensures
        frame.at("type"@) != json::Document::Text("approval_request"@) ==> hub.shows(frame),
        frame.at("type"@) == json::Document::Text("approval_request"@) && frame.at("request_id"@)
            == json::Document::Text(id) ==> (hub.shows(frame) <==> hub.pending.contains(id)),
        frame.at("type"@) == json::Document::Text("approval_request"@) && !(frame.at("request_id"@)
            is Text) ==> !hub.shows(frame),
        hub.snapshot() == hub.replay.filter(|f: json::Document| hub.shows(f)),
{
}

/// The answer of a channel is told as it was.
pub proof fn law_outcomes_tell_the_answer(content: String)
    ensures
        answer_of(Ok(())) is Taken,
        answer_of(Err(SteerRefusal::Full(content))) is Full,
        answer_of(Err(SteerRefusal::Closed(content))) is Closed,
        SteerRefusal::Full(content).message() == content@,
        SteerRefusal::Closed(content).message() == content@,
{
}

/// A session that has a hub gets that very hub when it is asked for, and one that
/// has none gets the fresh one. A hub is needed where a socket holds it or its
/// turn runs.
pub proof fn law_a_session_gets_its_hub<H>(
    entries: Seq<(Seq<char>, H)>,
    uses: Seq<HubUse>,
    key: Seq<char>,
    fresh: H,
    i: int,
    j: int,
)
    requires
        one_each(entries),
        uses.len() == entries.len(),
        0 <= j < with_entry(entries, uses, key, fresh).len(),
        with_entry(entries, uses, key, fresh)[j].0 == key,
    ensures
        0 <= i < entries.len() && entries[i].0 == key ==> with_entry(entries, uses, key, fresh)[j]
            == entries[i],
        !has_entry(entries, key) ==> with_entry(entries, uses, key, fresh)[j].1 == fresh,
        0 <= i < uses.len() ==> (uses[i].needed() <==> uses[i].referenced || uses[i].running),
{
    lemma_swept(entries, uses, key);
    law_the_registry_reclaims_only_what_nobody_needs(entries, uses, key, fresh);
    let all = with_entry(entries, uses, key, fresh);
    if 0 <= i < entries.len() && entries[i].0 == key {
        assert(all.contains(entries[i]));
        let k = choose|k: int| 0 <= k < all.len() && all[k] == entries[i];
        if k < j {
            assert(all[k].0 != all[j].0);
        }
        if j < k {
            assert(all[j].0 != all[k].0);
        }
    }
    if !has_entry(entries, key) {
        let kept = swept(entries, uses, key);
        if j < kept.len() {
            assert(is_needed(entries, uses, key, kept[j]));
            let n = choose|n: int|
                0 <= n < entries.len() && (uses[n].needed() || entries[n].0 == key) && (
                #[trigger] entries[n]) == kept[j];
            assert(entries[n].0 == key);
        }
    }
}

/// Whether an entry has a hub is whether one of the entries is the session's.
pub proof fn law_entries_are_found_by_key<H>(entries: Seq<(Seq<char>, H)>, key: Seq<char>)
    ensures
        has_entry(entries, key) <==> entries.map_values(|e: (Seq<char>, H)| e.0).contains(key),
{
    let keys = entries.map_values(|e: (Seq<char>, H)| e.0);
    if has_entry(entries, key) {
        let i = choose|i: int| 0 <= i < entries.len() && (#[trigger] entries[i]).0 == key;
        assert(keys[i] == key);
    }
    if keys.contains(key) {
        let i = choose|i: int| 0 <= i < keys.len() && keys[i] == key;
        assert(entries[i].0 == key);
    }
}

/// An announcement reaches the observers alone: it is broadcast behind all frames
/// so far, not as the last one, and nothing else changes.
pub proof fn law_an_announcement_reaches_the_observers(
    hub: HubView,
    frame: json::Document,
    live: LiveFrame,
)
    ensures
        ({
            let told = hub.announced(frame);
            &&& told.live == hub.live.push(
                LiveFrameView { text: json::rendered(frame), last: false },
            )
            &&& told.replay == hub.replay
            &&& told.running == hub.running
            &&& told.pending == hub.pending
            &&& told.steering == hub.steering
        }),
        live@.text == live.text@ && live@.last == live.last,
{
}

}
