use crate::store::{urls, SubscriberEndpoint};
use crate::text::{count_of, lemma_texts_push, parse_count, texts};
use vstd::prelude::*;

verus! {

/// The shape of the payload that the endpoints are sent.
#[derive(Clone, Copy, Debug, PartialEq, Eq, Structural)]
pub enum PayloadStyle {
    /// A batch of embeds. A response without a count of remaining requests has one to spare.
    Embeds,
    /// A line of text. A response must count the remaining requests.
    Text,
}

/// How a batch is handed to the endpoints.
#[derive(Clone, Copy, Debug, PartialEq, Eq, Structural)]
pub enum FanOut {
    /// One endpoint after the other; the first failure spares the rest.
    Sequential,
    /// All endpoints at once; any failure fails the whole.
    Concurrent,
}

/// What is wrong with the rate-limit headers of a response.
#[derive(Clone, Copy, Debug, PartialEq, Eq, Structural)]
pub enum HeaderFault {
    MissingRemaining,
    MalformedRemaining,
    MissingResetAfter,
    MalformedResetAfter,
}

/// Why a dispatch failed.
#[derive(Clone, Copy, Debug, PartialEq, Eq, Structural)]
pub enum DispatchError {
    /// The request did not get through.
    Transport,
    /// A rate-limit header that was needed is missing or cannot be read.
    RateLimitHeader(HeaderFault),
    /// The endpoint answered with this status, which is neither a success nor "not found".
    Rejected(u16),
    /// The store could not remove an endpoint that is gone.
    Store,
}

/// What the status of a response says of the delivery.
#[derive(Clone, Copy, Debug, PartialEq, Eq, Structural)]
pub enum Verdict {
    Delivered,
    Gone,
    Rejected,
}

/// The status with which an endpoint says that it no longer exists.
pub const NOT_FOUND: u16 = 404;

/// The verdict on a status: "not found" means that the endpoint is gone, a status
/// from 200 to 299 that the batch was taken, any other that it was rejected.
pub open spec fn verdict_of(status: u16) -> Verdict {
    if status == NOT_FOUND {
        Verdict::Gone
    } else if 200 <= status <= 299 {
        Verdict::Delivered
    } else {
        Verdict::Rejected
    }
}

/// Gives the verdict on a status.
pub fn verdict(status: u16) -> (v: Verdict)
    ensures
        v == verdict_of(status),
{
    if status == NOT_FOUND {
        Verdict::Gone
    } else if 200 <= status && status <= 299 {
        Verdict::Delivered
    } else {
        Verdict::Rejected
    }
}

/// The view of a string that may be absent.
pub open spec fn opt_text(o: Option<String>) -> Option<Seq<char>> {
    match o {
        Some(s) => Some(s@),
        None => None,
    }
}

/// The requests that an endpoint has left, by the header that counts them. Without
/// the header an endpoint that takes embeds has one left, and for one that takes text
/// the header is missed; a header that writes no count is malformed.
pub open spec fn remaining_of(style: PayloadStyle, header: Option<Seq<char>>) -> Result<
    usize,
    HeaderFault,
> {
    match header {
        None => match style {
            PayloadStyle::Embeds => Ok(1usize),
            PayloadStyle::Text => Err(HeaderFault::MissingRemaining),
        },
        Some(text) => match count_of(text) {
            Some(n) => Ok(n),
            None => Err(HeaderFault::MalformedRemaining),
        },
    }
}

/// Reads the requests that an endpoint has left from the header that counts them.
pub fn read_remaining(style: PayloadStyle, header: &Option<String>) -> (remaining: Result<
    usize,
    HeaderFault,
>)
    ensures
        remaining == remaining_of(style, opt_text(*header)),
{
    match header {
        None => match style {
            PayloadStyle::Embeds => Ok(1),
            PayloadStyle::Text => Err(HeaderFault::MissingRemaining),
        },
        Some(text) => match parse_count(text.as_str()) {
            Some(n) => Ok(n),
            None => Err(HeaderFault::MalformedRemaining),
        },
    }
}

/// What the dispatcher reads of an endpoint's response: the status, and the last
/// value of each of the two rate-limit headers, where the response has the header.
#[derive(Debug)]
pub struct Response {
    pub status: u16,
    pub remaining: Option<String>,
    pub reset_after: Option<String>,
}

/// A response as a mathematical value.
pub ghost struct ResponseView {
    pub status: u16,
    pub remaining: Option<Seq<char>>,
    pub reset_after: Option<Seq<char>>,
}

impl View for Response {
    type V = ResponseView;

    open spec fn view(&self) -> ResponseView {
        ResponseView {
            status: self.status,
            remaining: opt_text(self.remaining),
            reset_after: opt_text(self.reset_after),
        }
    }
}

/// How far the delivery to one endpoint has come.
#[derive(Clone, Copy, Debug, PartialEq, Eq, Structural)]
pub enum Stage {
    /// Nothing was sent yet.
    Queued,
    /// The batch was sent; the response is awaited.
    Sending,
    /// The endpoint has no requests left; the delivery rests until its window is
    /// over. The status of the response is kept for then.
    Pausing(u16),
    /// The endpoint is gone; its removal from the store is awaited.
    Removing,
    /// The delivery is over, and nothing failed.
    Settled,
}

/// What happened to the work that a directive asked for.
#[derive(Debug)]
pub enum Signal {
    /// The endpoint answered.
    Response(Response),
    /// The request did not get through.
    SendFailed,
    /// The pause is over.
    Resumed,
    /// The text that was to say how long to pause is no number of seconds.
    PauseRefused,
    /// The endpoint was removed from the store.
    Removed,
    /// The store could not remove the endpoint.
    RemoveFailed,
}

/// A signal as a mathematical value.
pub ghost enum SignalView {
    Response(ResponseView),
    SendFailed,
    Resumed,
    PauseRefused,
    Removed,
    RemoveFailed,
}

impl View for Signal {
    type V = SignalView;

    open spec fn view(&self) -> SignalView {
        match self {
            Signal::Response(r) => SignalView::Response(r@),
            Signal::SendFailed => SignalView::SendFailed,
            Signal::Resumed => SignalView::Resumed,
            Signal::PauseRefused => SignalView::PauseRefused,
            Signal::Removed => SignalView::Removed,
            Signal::RemoveFailed => SignalView::RemoveFailed,
        }
    }
}

/// What the host is to do next for a dispatch.
#[derive(Debug)]
pub enum Directive {
    /// Send the batch to the endpoint, and signal its response.
    Send { endpoint: usize, url: String },
    /// Rest this endpoint's delivery for the seconds that the text writes, and signal
    /// when that is over.
    Pause { endpoint: usize, reset_after: String },
    /// Remove the endpoint from the store, and signal when that is done.
    Remove { endpoint: usize, url: String },
    /// Nothing: other deliveries are still under way, or the signal was not awaited.
    Idle,
    /// The dispatch is over, and nothing failed.
    Finish,
    /// The dispatch failed; what is still under way is given up.
    Abort(DispatchError),
}

/// A directive as a mathematical value.
pub ghost enum DirectiveView {
    Send { endpoint: int, url: Seq<char> },
    Pause { endpoint: int, reset_after: Seq<char> },
    Remove { endpoint: int, url: Seq<char> },
    Idle,
    Finish,
    Abort(DispatchError),
}

impl View for Directive {
    type V = DirectiveView;

    open spec fn view(&self) -> DirectiveView {
        match self {
            Directive::Send { endpoint, url } => DirectiveView::Send {
                endpoint: *endpoint as int,
                url: url@,
            },
            Directive::Pause { endpoint, reset_after } => DirectiveView::Pause {
                endpoint: *endpoint as int,
                reset_after: reset_after@,
            },
            Directive::Remove { endpoint, url } => DirectiveView::Remove {
                endpoint: *endpoint as int,
                url: url@,
            },
            Directive::Idle => DirectiveView::Idle,
            Directive::Finish => DirectiveView::Finish,
            Directive::Abort(error) => DirectiveView::Abort(*error),
        }
    }
}

/// The views of a sequence of directives, in order.
pub open spec fn directive_views(v: Seq<Directive>) -> Seq<DirectiveView> {
    v.map_values(|d: Directive| d@)
}

/// Whether every delivery is over.
pub open spec fn all_settled(stages: Seq<Stage>) -> bool {
    forall|j: int| 0 <= j < stages.len() ==> #[trigger] stages[j] == Stage::Settled
}

/// One dispatch of a batch to a list of endpoints, as a mathematical value.
pub ghost struct DispatchView {
    pub style: PayloadStyle,
    pub fan_out: FanOut,
    pub urls: Seq<Seq<char>>,
    pub stages: Seq<Stage>,
    pub over: bool,
}

impl DispatchView {
    /// Whether each endpoint has its stage.
    pub open spec fn well_formed(self) -> bool {
        self.stages.len() == self.urls.len()
    }

    /// A dispatch to the endpoints at `urls` before anything happened, and what is to
    /// be done first: nothing but to finish where there is no endpoint; else to send to
    /// the first endpoint, or to all of them at once.
    pub open spec fn begin(style: PayloadStyle, fan_out: FanOut, urls: Seq<Seq<char>>) -> (
        DispatchView,
        Seq<DirectiveView>,
    ) {
        if urls.len() == 0 {
            (
                DispatchView { style, fan_out, urls, stages: Seq::empty(), over: true },
                seq![DirectiveView::Finish],
            )
        } else {
            match fan_out {
                FanOut::Sequential => (
                    DispatchView {
                        style,
                        fan_out,
                        urls,
                        stages: Seq::new(
                            urls.len(),
                            |j: int|
                                if j == 0 {
                                    Stage::Sending
                                } else {
                                    Stage::Queued
                                },
                        ),
                        over: false,
                    },
                    seq![DirectiveView::Send { endpoint: 0, url: urls[0] }],
                ),
                FanOut::Concurrent => (
                    DispatchView {
                        style,
                        fan_out,
                        urls,
                        stages: Seq::new(urls.len(), |j: int| Stage::Sending),
                        over: false,
                    },
                    Seq::new(urls.len(), |j: int| DirectiveView::Send { endpoint: j, url: urls[j] }),
                ),
            }
        }
    }

    /// The dispatch fails with `error`.
    pub open spec fn abort(self, error: DispatchError) -> (DispatchView, DirectiveView) {
        (DispatchView { over: true, ..self }, DirectiveView::Abort(error))
    }

    /// The delivery to endpoint `i` is over. One after the other, the next endpoint is
    /// sent to, and after the last the dispatch is finished; all at once, the dispatch
    /// is finished when every delivery is over.
    pub open spec fn settle(self, i: int) -> (DispatchView, DirectiveView) {
        let stages = self.stages.update(i, Stage::Settled);
        match self.fan_out {
            FanOut::Sequential => if i + 1 < self.urls.len() {
                (
                    DispatchView { stages: stages.update(i + 1, Stage::Sending), ..self },
                    DirectiveView::Send { endpoint: i + 1, url: self.urls[i + 1] },
                )
            } else {
                (DispatchView { stages, over: true, ..self }, DirectiveView::Finish)
            },
            FanOut::Concurrent => if all_settled(stages) {
                (DispatchView { stages, over: true, ..self }, DirectiveView::Finish)
            } else {
                (DispatchView { stages, ..self }, DirectiveView::Idle)
            },
        }
    }

    /// The response of endpoint `i` had `status`, and no pause is owed any more: a
    /// success settles the delivery, an endpoint that is gone is to be removed, anything
    /// else fails the dispatch.
    pub open spec fn conclude(self, i: int, status: u16) -> (DispatchView, DirectiveView) {
        match verdict_of(status) {
            Verdict::Delivered => self.settle(i),
            Verdict::Gone => (
                DispatchView { stages: self.stages.update(i, Stage::Removing), ..self },
                DirectiveView::Remove { endpoint: i, url: self.urls[i] },
            ),
            Verdict::Rejected => self.abort(DispatchError::Rejected(status)),
        }
    }

    /// Endpoint `i` answered. Its rate-limit headers are read first: with no request
    /// left the delivery pauses for what the other header says, and only then is the
    /// status looked at.
    pub open spec fn answer(self, i: int, response: ResponseView) -> (DispatchView, DirectiveView) {
        match remaining_of(self.style, response.remaining) {
            Err(fault) => self.abort(DispatchError::RateLimitHeader(fault)),
            Ok(remaining) => if remaining == 0 {
                match response.reset_after {
                    None => self.abort(DispatchError::RateLimitHeader(HeaderFault::MissingResetAfter)),
                    Some(text) => (
                        DispatchView {
                            stages: self.stages.update(i, Stage::Pausing(response.status)),
                            ..self
                        },
                        DirectiveView::Pause { endpoint: i, reset_after: text },
                    ),
                }
            } else {
                self.conclude(i, response.status)
            },
        }
    }

    /// The dispatch after `signal` came in for endpoint `i`, and what is to be done
    /// next. A signal that the endpoint's stage does not await, one for an endpoint
    /// that there is not, and any signal once the dispatch is over change nothing.
    pub open spec fn step(self, i: int, signal: SignalView) -> (DispatchView, DirectiveView) {
        if self.over || !(0 <= i < self.stages.len()) {
            (self, DirectiveView::Idle)
        } else {
            match (self.stages[i], signal) {
                (Stage::Sending, SignalView::Response(response)) => self.answer(i, response),
                (Stage::Sending, SignalView::SendFailed) => self.abort(DispatchError::Transport),
                (Stage::Pausing(status), SignalView::Resumed) => self.conclude(i, status),
                (Stage::Pausing(_), SignalView::PauseRefused) => self.abort(
                    DispatchError::RateLimitHeader(HeaderFault::MalformedResetAfter),
                ),
                (Stage::Removing, SignalView::Removed) => self.settle(i),
                (Stage::Removing, SignalView::RemoveFailed) => self.abort(DispatchError::Store),
                _ => (self, DirectiveView::Idle),
            }
        }
    }
}

/// How batches are dispatched: the payload's shape and the fan-out.
#[derive(Clone, Copy, Debug, PartialEq, Eq, Structural)]
pub struct Dispatcher {
    pub style: PayloadStyle,
    pub fan_out: FanOut,
}

/// One dispatch of a batch to a list of endpoints. The host does what the directives
/// ask and signals what came of it.
#[derive(Debug)]
pub struct Dispatch {
    style: PayloadStyle,
    fan_out: FanOut,
    urls: Vec<String>,
    stages: Vec<Stage>,
    over: bool,
}

impl View for Dispatch {
    type V = DispatchView;

    closed spec fn view(&self) -> DispatchView {
        DispatchView {
            style: self.style,
            fan_out: self.fan_out,
            urls: texts(self.urls@),
            stages: self.stages@,
            over: self.over,
        }
    }
}

impl Dispatcher {
    /// Begins a dispatch to `endpoints`, and says what is to be done first.
    pub fn begin(&self, endpoints: &Vec<SubscriberEndpoint>) -> (started: (Dispatch, Vec<Directive>))
        ensures
            started.0@.well_formed(),
            (started.0@, directive_views(started.1@)) == DispatchView::begin(
                self.style,
                self.fan_out,
                urls(endpoints@),
            ),
    {
        let mut addresses: Vec<String> = Vec::new();
        let mut stages: Vec<Stage> = Vec::new();
        let mut directives: Vec<Directive> = Vec::new();
        let sequential = match self.fan_out {
            FanOut::Sequential => true,
            FanOut::Concurrent => false,
        };
        let mut i: usize = 0;
        while i < endpoints.len()
            invariant
                i <= endpoints.len(),
                sequential == (self.fan_out == FanOut::Sequential),
                addresses@.len() == i,
                stages@.len() == i,
                forall|j: int| 0 <= j < i ==> (#[trigger] addresses@[j])@ == endpoints@[j].url@,
                forall|j: int|
                    0 <= j < i ==> #[trigger] stages@[j] == if sequential && j > 0 {
                        Stage::Queued
                    } else {
                        Stage::Sending
                    },
                directives@.len() == if sequential && i > 0 {
                    1int
                } else {
                    i as int
                },
                forall|j: int|
                    0 <= j < directives@.len() ==> (#[trigger] directives@[j])@ == (DirectiveView::Send {
                        endpoint: j,
                        url: endpoints@[j].url@,
                    }),
            decreases endpoints.len() - i,
        {
            addresses.push(endpoints[i].url.clone());
            if sequential && i > 0 {
                stages.push(Stage::Queued);
            } else {
                stages.push(Stage::Sending);
                directives.push(Directive::Send { endpoint: i, url: endpoints[i].url.clone() });
            }
            i = i + 1;
        }
        let over = endpoints.len() == 0;
        if over {
            directives.push(Directive::Finish);
        }
        let dispatch = Dispatch { style: self.style, fan_out: self.fan_out, urls: addresses, stages, over };
        proof {
            let expected = DispatchView::begin(self.style, self.fan_out, urls(endpoints@));
            assert(dispatch@.urls =~= urls(endpoints@));
            assert(dispatch@.stages =~= expected.0.stages);
            assert(directive_views(directives@) =~= expected.1);
        }
        (dispatch, directives)
    }
}

impl Dispatch {
    /// Whether each endpoint has its stage.
    pub open spec fn well_formed(&self) -> bool {
        self@.well_formed()
    }

    /// Tells whether the dispatch is over: finished or failed.
    pub fn is_over(&self) -> (over: bool)
        ensures
            over == self@.over,
    {
        self.over
    }

    fn abort(&mut self, error: DispatchError) -> (directive: Directive)
        requires
            old(self).well_formed(),
        ensures
            final(self).well_formed(),
            (final(self)@, directive@) == old(self)@.abort(error),
    {
        self.over = true;
        Directive::Abort(error)
    }

    fn every_settled(&self) -> (all: bool)
        ensures
            all == all_settled(self@.stages),
    {
        let mut j: usize = 0;
        while j < self.stages.len()
            invariant
                j <= self.stages.len(),
                forall|k: int| 0 <= k < j ==> #[trigger] self.stages@[k] == Stage::Settled,
            decreases self.stages.len() - j,
        {
            match self.stages[j] {
                Stage::Settled => {},
                _ => {
                    return false;
                },
            }
            j = j + 1;
        }
        true
    }

    fn settle(&mut self, i: usize) -> (directive: Directive)
        requires
            old(self).well_formed(),
            i < old(self)@.stages.len(),
        ensures
            final(self).well_formed(),
            (final(self)@, directive@) == old(self)@.settle(i as int),
    {
        let count = self.urls.len();
        assert(count == texts(self.urls@).len());
        self.stages.set(i, Stage::Settled);
        match self.fan_out {
            FanOut::Sequential => {
                if i + 1 < count {
                    self.stages.set(i + 1, Stage::Sending);
                    Directive::Send { endpoint: i + 1, url: self.urls[i + 1].clone() }
                } else {
                    self.over = true;
                    Directive::Finish
                }
            },
            FanOut::Concurrent => {
                if self.every_settled() {
                    self.over = true;
                    Directive::Finish
                } else {
                    Directive::Idle
                }
            },
        }
    }

    fn conclude(&mut self, i: usize, status: u16) -> (directive: Directive)
        requires
            old(self).well_formed(),
            i < old(self)@.stages.len(),
        ensures
            final(self).well_formed(),
            (final(self)@, directive@) == old(self)@.conclude(i as int, status),
    {
        match verdict(status) {
            Verdict::Delivered => self.settle(i),
            Verdict::Gone => {
                self.stages.set(i, Stage::Removing);
                Directive::Remove { endpoint: i, url: self.urls[i].clone() }
            },
            Verdict::Rejected => self.abort(DispatchError::Rejected(status)),
        }
    }

    fn answer(&mut self, i: usize, response: Response) -> (directive: Directive)
        requires
            old(self).well_formed(),
            i < old(self)@.stages.len(),
        ensures
            final(self).well_formed(),
            (final(self)@, directive@) == old(self)@.answer(i as int, response@),
    {
        match read_remaining(self.style, &response.remaining) {
            Err(fault) => self.abort(DispatchError::RateLimitHeader(fault)),
            Ok(remaining) => {
                if remaining == 0 {
                    match response.reset_after {
                        None => self.abort(
                            DispatchError::RateLimitHeader(HeaderFault::MissingResetAfter),
                        ),
                        Some(text) => {
                            self.stages.set(i, Stage::Pausing(response.status));
                            Directive::Pause { endpoint: i, reset_after: text }
                        },
                    }
                } else {
                    self.conclude(i, response.status)
                }
            },
        }
    }

    /// Takes in `signal` for the endpoint with the number `endpoint`, and says what
    /// is to be done next.
    pub fn step(&mut self, endpoint: usize, signal: Signal) -> (directive: Directive)
        requires
            old(self).well_formed(),
        ensures
            final(self).well_formed(),
            (final(self)@, directive@) == old(self)@.step(endpoint as int, signal@),
    {
        if self.over || endpoint >= self.stages.len() {
            return Directive::Idle;
        }
        let stage = self.stages[endpoint];
        match stage {
            Stage::Sending => match signal {
                Signal::Response(response) => self.answer(endpoint, response),
                Signal::SendFailed => self.abort(DispatchError::Transport),
                _ => Directive::Idle,
            },
            Stage::Pausing(status) => match signal {
                Signal::Resumed => self.conclude(endpoint, status),
                Signal::PauseRefused => self.abort(
                    DispatchError::RateLimitHeader(HeaderFault::MalformedResetAfter),
                ),
                _ => Directive::Idle,
            },
            Stage::Removing => match signal {
                Signal::Removed => self.settle(endpoint),
                Signal::RemoveFailed => self.abort(DispatchError::Store),
                _ => Directive::Idle,
            },
            _ => Directive::Idle,
        }
    }
}

/// Rate-limit honouring: when an endpoint whose response is awaited answers that it
/// has no request left and says when its window is over, its delivery is paused for
/// what it said, and nothing fails; when the pause is over and the status was a
/// success, the delivery is settled, and again nothing fails.
pub proof fn law_exhausted_endpoint_rests(dispatch: DispatchView, i: int, response: ResponseView)
    requires
        dispatch.well_formed(),
        !dispatch.over,
        0 <= i < dispatch.stages.len(),
        dispatch.stages[i] == Stage::Sending,
        remaining_of(dispatch.style, response.remaining) == Ok::<usize, HeaderFault>(0),
        response.reset_after is Some,
    ensures
        dispatch.step(i, SignalView::Response(response)).1 == (DirectiveView::Pause {
            endpoint: i,
            reset_after: response.reset_after.unwrap(),
        }),
        !dispatch.step(i, SignalView::Response(response)).0.over,
        verdict_of(response.status) == Verdict::Delivered ==> {
            let paused = dispatch.step(i, SignalView::Response(response)).0;
            &&& paused.step(i, SignalView::Resumed) == paused.settle(i)
            &&& !(paused.step(i, SignalView::Resumed).1 is Abort)
            &&& paused.step(i, SignalView::Resumed).0.stages[i] == Stage::Settled
        },
{
}

/// Gone-endpoint cleanup: when an endpoint whose response is awaited, and which
/// owes no pause, answers "not found", the host is told to remove that endpoint, and
/// the dispatch does not fail; once the endpoint is removed its delivery is settled
/// and the dispatch goes on: one after the other with the next endpoint, if there is
/// one.
pub proof fn law_gone_endpoint_is_removed(dispatch: DispatchView, i: int, response: ResponseView)
    requires
        dispatch.well_formed(),
        !dispatch.over,
        0 <= i < dispatch.stages.len(),
        dispatch.stages[i] == Stage::Sending,
        remaining_of(dispatch.style, response.remaining) is Ok,
        remaining_of(dispatch.style, response.remaining) != Ok::<usize, HeaderFault>(0),
        response.status == NOT_FOUND,
    ensures
        dispatch.step(i, SignalView::Response(response)).1 == (DirectiveView::Remove {
            endpoint: i,
            url: dispatch.urls[i],
        }),
        !dispatch.step(i, SignalView::Response(response)).0.over,
        ({
            let removing = dispatch.step(i, SignalView::Response(response)).0;
            &&& removing.step(i, SignalView::Removed) == removing.settle(i)
            &&& !(removing.step(i, SignalView::Removed).1 is Abort)
            &&& removing.step(i, SignalView::Removed).0.stages[i] == Stage::Settled
            &&& (dispatch.fan_out == FanOut::Sequential && i + 1 < dispatch.urls.len())
                ==> removing.step(i, SignalView::Removed).1 == (DirectiveView::Send {
                endpoint: i + 1,
                url: dispatch.urls[i + 1],
            })
        }),
{
}

/// An endpoint that answered "not found" with no request left is gone all the same:
/// when its pause is over, the host is told to remove it, and the dispatch does not
/// fail.
pub proof fn law_gone_endpoint_is_removed_after_rest(dispatch: DispatchView, i: int)
    requires
        dispatch.well_formed(),
        !dispatch.over,
        0 <= i < dispatch.stages.len(),
        dispatch.stages[i] == Stage::Pausing(NOT_FOUND),
    ensures
        dispatch.step(i, SignalView::Resumed).1 == (DirectiveView::Remove {
            endpoint: i,
            url: dispatch.urls[i],
        }),
        !dispatch.step(i, SignalView::Resumed).0.over,
        dispatch.step(i, SignalView::Resumed).0.stages[i] == Stage::Removing,
{
}

/// A dispatch that is over stays over, and asks for nothing more.
pub proof fn law_over_stays_over(dispatch: DispatchView, i: int, signal: SignalView)
    requires
        dispatch.over,
    ensures
        dispatch.step(i, signal) == (dispatch, DirectiveView::Idle),
{
}

/// A dispatch fails only for a reason: a request that did not get through, a
/// rate-limit header that was needed and is missing or unreadable, a status that is
/// neither a success nor "not found", or a store that could not remove an endpoint.
/// It never fails for an endpoint that is gone.
pub proof fn law_failures_have_reasons(dispatch: DispatchView, i: int, signal: SignalView)
    requires
        dispatch.well_formed(),
        dispatch.step(i, signal).1 is Abort,
    ensures
        !dispatch.over,
        0 <= i < dispatch.stages.len(),
        match dispatch.step(i, signal).1->Abort_0 {
            DispatchError::Transport => signal is SendFailed,
            DispatchError::RateLimitHeader(HeaderFault::MalformedResetAfter) => signal is PauseRefused,
            DispatchError::RateLimitHeader(fault) => signal is Response && (remaining_of(
                dispatch.style,
                signal->Response_0.remaining,
            ) == Err::<usize, HeaderFault>(fault) || (fault == HeaderFault::MissingResetAfter
                && signal->Response_0.reset_after is None)),
            DispatchError::Rejected(status) => verdict_of(status) == Verdict::Rejected && (
            signal is Resumed || signal is Response),
            DispatchError::Store => signal is RemoveFailed,
        },
{
}

/// Whether, one after the other, it is the turn of endpoint `turn`: the deliveries
/// before it are over, its own is under way, and those behind it have not begun.
pub open spec fn in_turn(dispatch: DispatchView, turn: int) -> bool {
    &&& dispatch.well_formed()
    &&& dispatch.fan_out == FanOut::Sequential
    &&& !dispatch.over
    &&& 0 <= turn < dispatch.stages.len()
    &&& forall|j: int| 0 <= j < turn ==> #[trigger] dispatch.stages[j] == Stage::Settled
    &&& dispatch.stages[turn] != Stage::Queued
    &&& dispatch.stages[turn] != Stage::Settled
    &&& forall|j: int|
        turn < j < dispatch.stages.len() ==> #[trigger] dispatch.stages[j] == Stage::Queued
}

/// A dispatch to at least one endpoint, one after the other, begins with the turn
/// of the first.
pub proof fn law_sequential_begins_with_the_first(style: PayloadStyle, urls: Seq<Seq<char>>)
    requires
        urls.len() > 0,
    ensures
        in_turn(DispatchView::begin(style, FanOut::Sequential, urls).0, 0),
{
}

/// One after the other: while it is the turn of an endpoint, a signal for any other
/// endpoint changes nothing, and whatever comes in for the endpoint itself, either
/// the turn stays with it, or it passes to the next endpoint, which is then sent to,
/// or the dispatch is over: finished after the last endpoint, or failed, in which
/// case the endpoints behind are never sent to.
pub proof fn law_sequential_takes_turns(dispatch: DispatchView, turn: int, i: int, signal: SignalView)
    requires
        in_turn(dispatch, turn),
    ensures
        i != turn ==> dispatch.step(i, signal) == (dispatch, DirectiveView::Idle),
        ({
            let (next, directive) = dispatch.step(turn, signal);
            ||| in_turn(next, turn) && !(directive is Send) && !(directive is Finish) && !(directive is Abort)
            ||| in_turn(next, turn + 1) && directive == (DirectiveView::Send {
                endpoint: turn + 1,
                url: dispatch.urls[turn + 1],
            })
            ||| next.over && directive is Finish && turn + 1 == dispatch.stages.len()
                && all_settled(next.stages)
            ||| next.over && directive is Abort && next.stages == dispatch.stages
        }),
{
    let (next, directive) = dispatch.step(turn, signal);
    if directive is Finish {
        assert(all_settled(next.stages)) by {
            assert forall|j: int| 0 <= j < next.stages.len() implies #[trigger] next.stages[j]
                == Stage::Settled by {
                if j < turn {
                    assert(dispatch.stages[j] == Stage::Settled);
                }
            }
        }
    }
    if directive is Send {
        assert forall|j: int| 0 <= j < turn + 1 implies #[trigger] next.stages[j]
            == Stage::Settled by {
            if j < turn {
                assert(dispatch.stages[j] == Stage::Settled);
            }
        }
        assert forall|j: int| turn + 1 < j < next.stages.len() implies #[trigger] next.stages[j]
            == Stage::Queued by {
            assert(dispatch.stages[j] == Stage::Queued);
        }
    }
    if in_turn(dispatch, turn) && !(directive is Send) && !(directive is Finish) && !(directive is Abort) {
        assert forall|j: int| 0 <= j < turn implies #[trigger] next.stages[j] == Stage::Settled by {
            assert(dispatch.stages[j] == Stage::Settled);
        }
        assert forall|j: int| turn < j < next.stages.len() implies #[trigger] next.stages[j]
            == Stage::Queued by {
            assert(dispatch.stages[j] == Stage::Queued);
        }
    }
}

} // verus!
