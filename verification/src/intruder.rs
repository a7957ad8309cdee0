//! Intruder
//!
//! The scheduling side of a campaign. The `Intruder` holds the template and
//! keeps count of the request sets that are on their way. It decides when
//! the next payload may be taken, turns a payload into the requests to send,
//! and says what came of a set once its requests were sent. Sending is left
//! to the caller.

use crate::marker::marker_compiles;
use crate::request_template::{
    generated, lemma_parsed_keeps, parsed, request_views, template_wf, AttackType, ComponentsView,
    GeneratedRequestSet, ReqTemplateFile, RequestTemplate, TemplateError, TemplateView,
};
use crate::text::views;
use vstd::prelude::*;
use vstd::string::*;

verus! {

/// What a campaign is made from.
#[derive(Clone, Debug, PartialEq, Eq)]
pub struct IntruderConfig {
    /// Where the request template was read from.
    pub req_f: String,
    /// Where the payloads are read from.
    pub pass_f: String,
    /// The marker pattern.
    pub pattern: String,
    /// How many request sets may be on their way at once.
    pub concurrent_requests: usize,
    pub attack_type: AttackType,
}

/// Why no campaign was begun.
#[derive(Copy, Clone, Debug, PartialEq, Eq, Structural)]
pub enum CampaignError {
    /// The attack type is not available.
    NotImplemented,
    /// The marker pattern is no regular expression.
    InvalidPattern,
    /// The text is no request template.
    Template(TemplateError),
}

/// What came of one request set.
#[derive(Clone, Debug, PartialEq, Eq)]
pub enum Outcome {
    /// Every request was answered: the status of each answer, in the order
    /// of the requests.
    Sent { statuses: Vec<u16>, payload: String },
    /// A request was not answered.
    Failed { payload: String },
}

/// What an `Outcome` stands for.
pub enum OutcomeView {
    Sent { statuses: Seq<u16>, payload: Seq<char> },
    Failed { payload: Seq<char> },
}

impl View for Outcome {
    type V = OutcomeView;

    open spec fn view(&self) -> OutcomeView {
        match self {
            Outcome::Sent { statuses, payload } => OutcomeView::Sent {
                statuses: statuses@,
                payload: payload@,
            },
            Outcome::Failed { payload } => OutcomeView::Failed { payload: payload@ },
        }
    }
}

/// What a sequence of outcomes stands for.
pub open spec fn outcome_views(outcomes: Seq<Outcome>) -> Seq<OutcomeView> {
    outcomes.map_values(|o: Outcome| o@)
}

/// What the campaign does next.
#[derive(Copy, Clone, Debug, PartialEq, Eq, Structural)]
pub enum Step {
    /// Take the next payload from the source and offer it.
    Pull,
    /// Wait until one of the sets on their way is settled.
    Await,
    /// Nothing is on its way and nothing more will be sent.
    Finish,
}

/// What became of a payload that was offered.
#[derive(Clone, Debug, PartialEq, Eq)]
pub enum Admission {
    /// These requests are to be sent now.
    Sent(GeneratedRequestSet),
    /// The payload gives no request and is passed over.
    Dropped,
    /// No payload is taken at this point; this one is still to be offered.
    Refused,
}

/// What an `Admission` stands for.
pub enum AdmissionView {
    Sent(Seq<ComponentsView>, Seq<char>),
    Dropped,
    Refused,
}

impl View for Admission {
    type V = AdmissionView;

    open spec fn view(&self) -> AdmissionView {
        match self {
            Admission::Sent(set) => AdmissionView::Sent(request_views(set.requests@), set.payload@),
            Admission::Dropped => AdmissionView::Dropped,
            Admission::Refused => AdmissionView::Refused,
        }
    }
}

/// The counters of a campaign.
pub struct Schedule {
    /// The largest number of sets that may be on their way at once.
    pub limit: nat,
    /// The number of sets on their way.
    pub in_flight: nat,
    /// The source has no further payload.
    pub exhausted: bool,
    /// The campaign was told to take no further payload.
    pub halted: bool,
}

/// Whether a payload may be taken.
pub open spec fn may_take(s: Schedule) -> bool {
    !s.halted && !s.exhausted && s.in_flight < s.limit
}

/// What is to be done next: a payload is taken while a slot is free, the
/// source has more and the campaign was not halted; else the sets on their
/// way are waited for; then the campaign is over.
pub open spec fn next_step(s: Schedule) -> Step {
    if may_take(s) {
        Step::Pull
    } else if s.in_flight > 0 {
        Step::Await
    } else {
        Step::Finish
    }
}

/// What offering `payload` gives.
pub open spec fn admission(t: TemplateView, s: Schedule, payload: Seq<char>) -> AdmissionView {
    if !may_take(s) {
        AdmissionView::Refused
    } else {
        match generated(t, payload) {
            Ok(requests) => AdmissionView::Sent(requests, payload),
            Err(_) => AdmissionView::Dropped,
        }
    }
}

/// The request sets of the payloads from `i` on: one for each payload that
/// gives requests, in the order of the payloads.
pub open spec fn request_sets(t: TemplateView, payloads: Seq<Seq<char>>, i: int) -> Seq<
    (Seq<ComponentsView>, Seq<char>),
>
    decreases payloads.len() - i,
{
    if i < 0 || i >= payloads.len() {
        Seq::empty()
    } else {
        match generated(t, payloads[i]) {
            Ok(requests) => seq![(requests, payloads[i])] + request_sets(t, payloads, i + 1),
            Err(_) => request_sets(t, payloads, i + 1),
        }
    }
}

/// What a sequence of request sets stands for.
pub open spec fn set_views(sets: Seq<GeneratedRequestSet>) -> Seq<(Seq<ComponentsView>, Seq<char>)> {
    sets.map_values(|s: GeneratedRequestSet| (request_views(s.requests@), s.payload@))
}

/// The statuses of the first `n` replies, where each of them is an answer.
pub open spec fn statuses_of(replies: Seq<Option<u16>>, n: int) -> Seq<u16> {
    Seq::new(n as nat, |i: int| replies[i]->Some_0)
}

/// Which request of a set of `total` requests is sent next, given the
/// replies so far: the one after them, where each of them is an answer and
/// the set has a further request; none else.
pub open spec fn next_to_send(replies: Seq<Option<u16>>, total: int) -> Option<int> {
    if replies.len() < total && (forall|i: int| 0 <= i < replies.len() ==> replies[i] is Some) {
        Some(replies.len() as int)
    } else {
        None
    }
}

/// What came of a set whose requests were sent one after the other with
/// these replies: it failed if any request was not answered.
pub open spec fn outcome_of(replies: Seq<Option<u16>>, payload: Seq<char>) -> OutcomeView {
    if exists|i: int| 0 <= i < replies.len() && replies[i] is None {
        OutcomeView::Failed { payload: payload }
    } else {
        OutcomeView::Sent { statuses: statuses_of(replies, replies.len() as int), payload: payload }
    }
}

/// Struct for managing the bruteforcing process
///
/// The Intruder struct stores the [RequestTemplate] for creating new
/// requests and any configuration parameters relevant to the bruteforcing
/// process, and counts the request sets on their way.
pub struct Intruder {
    req_templ: RequestTemplate,
    config: IntruderConfig,
    in_flight: usize,
    exhausted: bool,
    halted: bool,
}

impl Intruder {
    /// The template of the campaign.
    pub closed spec fn template(&self) -> TemplateView {
        self.req_templ@
    }

    /// What the campaign was made from.
    pub closed spec fn settings(&self) -> IntruderConfig {
        self.config
    }

    /// The counters of the campaign.
    pub closed spec fn schedule(&self) -> Schedule {
        Schedule {
            limit: self.config.concurrent_requests as nat,
            in_flight: self.in_flight as nat,
            exhausted: self.exhausted,
            halted: self.halted,
        }
    }

    /// No more sets are on their way than the limit allows, and the
    /// template is one that was read from a text.
    pub closed spec fn wf(&self) -> bool {
        &&& self.in_flight <= self.config.concurrent_requests
        &&& template_wf(self.req_templ@)
        &&& self.req_templ@.attack_type == AttackType::BatteringRam
    }

    /// Create new Intruder from the text of the request template.
    ///
    /// An attack type other than the battering ram ends the campaign before
    /// it begins, whatever else the configuration holds.
    pub fn new(config: IntruderConfig, template: String) -> (r: Result<Self, CampaignError>)
        ensures
            config.attack_type != AttackType::BatteringRam ==> r matches Err(
                CampaignError::NotImplemented,
            ),
            config.attack_type == AttackType::BatteringRam && !marker_compiles(config.pattern@)
                ==> r matches Err(CampaignError::InvalidPattern),
            config.attack_type == AttackType::BatteringRam && marker_compiles(config.pattern@)
                ==> (match parsed(template@, config.pattern@, config.attack_type) {
                Ok(t) => r matches Ok(intruder) && intruder.wf() && intruder.template() == t
                    && intruder.settings() == config && intruder.schedule() == (Schedule {
                    limit: config.concurrent_requests as nat,
                    in_flight: 0,
                    exhausted: false,
                    halted: false,
                }),
                Err(e) => r matches Err(CampaignError::Template(cause)) && cause == e,
            }),
    {
        match config.attack_type {
            AttackType::BatteringRam => {},
            _ => {
                return Err(CampaignError::NotImplemented);
            },
        }
        let file = match ReqTemplateFile::new(template, config.pattern.as_str(), config.attack_type) {
            Ok(file) => file,
            Err(_) => {
                return Err(CampaignError::InvalidPattern);
            },
        };
        proof {
            lemma_parsed_keeps(template@, config.pattern@, config.attack_type);
        }
        match RequestTemplate::try_from(file) {
            Ok(req_templ) => Ok(
                Intruder {
                    req_templ: req_templ,
                    config: config,
                    in_flight: 0,
                    exhausted: false,
                    halted: false,
                },
            ),
            Err(e) => Err(CampaignError::Template(e)),
        }
    }

    /// The template of the campaign.
    pub fn req_templ(&self) -> (r: &RequestTemplate)
        ensures
            r@ == self.template(),
    {
        &self.req_templ
    }

    /// What the campaign was made from.
    pub fn config(&self) -> (r: &IntruderConfig)
        ensures
            *r == self.settings(),
    {
        &self.config
    }

    /// The number of request sets on their way.
    pub fn in_flight(&self) -> (n: usize)
        ensures
            n == self.schedule().in_flight,
    {
        self.in_flight
    }

    /// The request sets of these payloads, in their order. A payload that
    /// gives no request is passed over.
    pub fn get_reqs(&self, payloads: &Vec<String>) -> (sets: Vec<GeneratedRequestSet>)
        ensures
            set_views(sets@) == request_sets(self.template(), views(payloads@), 0),
    {
        let mut sets: Vec<GeneratedRequestSet> = Vec::new();
        let mut i: usize = 0;
        while i < payloads.len()
            invariant
                i <= payloads.len(),
                set_views(sets@) + request_sets(self.template(), views(payloads@), i as int)
                    == request_sets(self.template(), views(payloads@), 0),
            decreases payloads.len() - i,
        {
            let ghost before = set_views(sets@);
            let ghost rest = request_sets(self.template(), views(payloads@), i + 1);
            proof {
                assert(views(payloads@)[i as int] == payloads@[i as int]@);
            }
            match self.req_templ.replace_then_request(payloads[i].as_str()) {
                Ok(set) => {
                    let ghost one = (request_views(set.requests@), set.payload@);
                    sets.push(set);
                    proof {
                        assert(set_views(sets@) =~= before.push(one));
                        assert(before.push(one) + rest =~= before + (seq![one] + rest));
                    }
                },
                Err(_) => {},
            }
            i += 1;
        }
        proof {
            assert(set_views(sets@) + Seq::<(Seq<ComponentsView>, Seq<char>)>::empty() =~= set_views(
                sets@,
            ));
        }
        sets
    }

    /// Says what the campaign does next.
    pub fn bruteforce(&self) -> (step: Step)
        ensures
            step == next_step(self.schedule()),
    {
        if !self.halted && !self.exhausted && self.in_flight < self.config.concurrent_requests {
            Step::Pull
        } else if self.in_flight > 0 {
            Step::Await
        } else {
            Step::Finish
        }
    }

    /// Offers the next payload of the source. Where a payload may be taken
    /// and gives requests, they are on their way from now on.
    pub fn offer(&mut self, payload: &str) -> (r: Admission)
        ensures
            old(self).wf() ==> final(self).wf(),
            r@ == admission(old(self).template(), old(self).schedule(), payload@),
            final(self).template() == old(self).template(),
            final(self).settings() == old(self).settings(),
            final(self).schedule() == (Schedule {
                in_flight: if r is Sent {
                    old(self).schedule().in_flight + 1
                } else {
                    old(self).schedule().in_flight
                },
                ..old(self).schedule()
            }),
    {
        if self.halted || self.exhausted || self.in_flight >= self.config.concurrent_requests {
            return Admission::Refused;
        }
        match self.req_templ.replace_then_request(payload) {
            Ok(set) => {
                self.in_flight += 1;
                Admission::Sent(set)
            },
            Err(_) => Admission::Dropped,
        }
    }

    /// Notes that one set on its way was settled.
    pub fn settle(&mut self)
        ensures
            old(self).wf() ==> final(self).wf(),
            final(self).template() == old(self).template(),
            final(self).settings() == old(self).settings(),
            final(self).schedule() == (Schedule {
                in_flight: if old(self).schedule().in_flight > 0 {
                    (old(self).schedule().in_flight - 1) as nat
                } else {
                    0
                },
                ..old(self).schedule()
            }),
    {
        if self.in_flight > 0 {
            self.in_flight -= 1;
        }
    }

    /// Notes that the source has no further payload.
    pub fn exhaust(&mut self)
        ensures
            old(self).wf() ==> final(self).wf(),
            final(self).template() == old(self).template(),
            final(self).settings() == old(self).settings(),
            final(self).schedule() == (Schedule { exhausted: true, ..old(self).schedule() }),
    {
        self.exhausted = true;
    }

    /// Tells the campaign to take no further payload. The sets on their
    /// way are still to be waited for.
    pub fn halt(&mut self)
        ensures
            old(self).wf() ==> final(self).wf(),
            final(self).template() == old(self).template(),
            final(self).settings() == old(self).settings(),
            final(self).schedule() == (Schedule { halted: true, ..old(self).schedule() }),
    {
        self.halted = true;
    }

    /// Says which request of a set of `total` requests is sent next, given
    /// the replies to the requests sent so far. No further request of a set
    /// is sent once one of them was not answered.
    pub fn next_request(replies: &Vec<Option<u16>>, total: usize) -> (r: Option<usize>)
        ensures
            match next_to_send(replies@, total as int) {
                Some(i) => r == Some(i as usize),
                None => r is None,
            },
    {
        if replies.len() >= total {
            return None;
        }
        let mut i: usize = 0;
        while i < replies.len()
            invariant
                i <= replies.len(),
                replies.len() < total,
                forall|j: int| 0 <= j < i ==> replies@[j] is Some,
            decreases replies.len() - i,
        {
            if replies[i].is_none() {
                return None;
            }
            i += 1;
        }
        Some(replies.len())
    }

    /// Says what came of a request set, given the replies to its requests
    /// in the order in which they were sent: the status of each answer, and
    /// `None` for a request that was not answered. Where a request was not
    /// answered the set has failed and the answers to the others are left
    /// out.
    pub fn send_reqs(replies: &Vec<Option<u16>>, payload: String) -> (r: Outcome)
        ensures
            r@ == outcome_of(replies@, payload@),
    {
        let mut statuses: Vec<u16> = Vec::new();
        let mut i: usize = 0;
        while i < replies.len()
            invariant
                i <= replies.len(),
                forall|j: int| 0 <= j < i ==> replies@[j] is Some,
                statuses@ == statuses_of(replies@, i as int),
            decreases replies.len() - i,
        {
            match replies[i] {
                Some(status) => {
                    statuses.push(status);
                    proof {
                        assert(statuses@ =~= statuses_of(replies@, i + 1));
                    }
                },
                None => {
                    return Outcome::Failed { payload: payload };
                },
            }
            i += 1;
        }
        Outcome::Sent { statuses: statuses, payload: payload }
    }
}


/// What is done about the payloads whose request sets failed.
#[derive(Copy, Clone, Debug, PartialEq, Eq, Structural)]
pub enum RetryPolicy {
    /// They are reported once and not sent again.
    RecordOnce,
    /// They are sent again with half as many request sets on their way at
    /// once, for as long as a pass over the payloads gets any set answered.
    HalveConcurrency,
}

/// What follows a pass over the payloads.
#[derive(Copy, Clone, Debug, PartialEq, Eq, Structural)]
pub enum AfterPass {
    /// Nothing is sent again.
    Done,
    /// No set of the pass was answered: the requests are not getting
    /// through.
    Stalled,
    /// Sets failed with a single set on its way: the search is given up.
    Aborted,
    /// The payloads that failed are sent again with this limit.
    Retry { concurrent_requests: usize },
}

/// What follows a pass in which `sent` sets were answered and `failed` sets
/// failed, with at most `concurrent_requests` sets on their way at once.
pub open spec fn pass_result(
    policy: RetryPolicy,
    concurrent_requests: usize,
    sent: usize,
    failed: usize,
) -> AfterPass {
    if policy == RetryPolicy::RecordOnce || failed == 0 {
        AfterPass::Done
    } else if sent == 0 {
        AfterPass::Stalled
    } else if concurrent_requests / 2 == 0 {
        AfterPass::Aborted
    } else {
        AfterPass::Retry { concurrent_requests: (concurrent_requests / 2) as usize }
    }
}

impl RetryPolicy {
    /// Says what follows a pass over the payloads. A limit that is handed
    /// out for another pass is positive and smaller than the limit before,
    /// so that the passes come to an end.
    pub fn after_pass(self, concurrent_requests: usize, sent: usize, failed: usize) -> (r: AfterPass)
        ensures
            r == pass_result(self, concurrent_requests, sent, failed),
            r matches AfterPass::Retry { concurrent_requests: next } ==> 0 < next
                < concurrent_requests,
    {
        match self {
            RetryPolicy::RecordOnce => AfterPass::Done,
            RetryPolicy::HalveConcurrency => {
                if failed == 0 {
                    AfterPass::Done
                } else if sent == 0 {
                    AfterPass::Stalled
                } else if concurrent_requests / 2 == 0 {
                    AfterPass::Aborted
                } else {
                    AfterPass::Retry { concurrent_requests: concurrent_requests / 2 }
                }
            },
        }
    }
}

/// A campaign that was halted takes no further payload: the next step is
/// never to pull one, and a payload that is offered is refused.
pub proof fn lemma_halted_takes_nothing(t: TemplateView, s: Schedule, payload: Seq<char>)
    requires
        s.halted,
    ensures
        next_step(s) != Step::Pull,
        admission(t, s, payload) == AdmissionView::Refused,
{
}

/// A payload is taken only while fewer sets are on their way than the limit
/// allows, so that the limit is never passed.
pub proof fn lemma_limit_kept(t: TemplateView, s: Schedule, payload: Seq<char>)
    requires
        s.in_flight <= s.limit,
    ensures
        admission(t, s, payload) is Sent ==> s.in_flight + 1 <= s.limit,
        next_step(s) == Step::Pull ==> s.in_flight < s.limit,
        next_step(s) == Step::Finish <==> s.in_flight == 0 && (s.halted || s.exhausted || s.limit
            == 0),
{
}

} // verus!
