//! The consuming side of a campaign: which answers count as hits, when the
//! campaign stops, and which payloads are reported as not sent.
//!
//! What came of each request set is handed over in the order in which the
//! sets were settled. Hits are numbered in that order, from one.

use crate::intruder::{
    next_step, outcome_views, Intruder, IntruderConfig, Outcome, OutcomeView, Schedule, Step,
};
use crate::request_template::AttackType;
use crate::text::views;
use vstd::prelude::*;
use vstd::string::*;

verus! {

/// What is considered a hit.
#[derive(Copy, Clone, Debug, PartialEq, Eq, Structural)]
pub enum HitType {
    /// An answer with the status 200.
    OkOnly,
    /// Every answer.
    All,
}

/// How a hit is written out.
#[derive(Copy, Clone, Debug, PartialEq, Eq, Structural)]
pub enum OutputFormat {
    Csv,
    Jsonl,
}

/// The attack type as it is chosen on the command line.
#[derive(Copy, Clone, Debug, PartialEq, Eq, Structural)]
pub enum AttackTypeCli {
    Sniper,
    BatteringRam,
    Pitchfork,
    ClusterBomb,
}

impl AttackTypeCli {
    /// The attack type that was chosen.
    pub open spec fn chosen(self) -> AttackType {
        match self {
            AttackTypeCli::Sniper => AttackType::Sniper,
            AttackTypeCli::BatteringRam => AttackType::BatteringRam,
            AttackTypeCli::Pitchfork => AttackType::Pitchfork,
            AttackTypeCli::ClusterBomb => AttackType::ClusterBomb,
        }
    }

    /// The attack type that was chosen.
    pub fn into(self) -> (r: AttackType)
        ensures
            r == self.chosen(),
    {
        match self {
            AttackTypeCli::Sniper => AttackType::Sniper,
            AttackTypeCli::BatteringRam => AttackType::BatteringRam,
            AttackTypeCli::Pitchfork => AttackType::Pitchfork,
            AttackTypeCli::ClusterBomb => AttackType::ClusterBomb,
        }
    }
}

/// The arguments of the program.
#[derive(Clone, Debug, PartialEq, Eq)]
pub struct Args {
    /// Path to request template file
    pub req_f: String,
    /// Path to password file
    pub pass_f: String,
    /// Number of concurrent requests
    pub concurrent_requests: usize,
    /// Regex pattern
    pub pattern: String,
    /// What is considered a hit
    pub hit_type: HitType,
    /// Output to file
    pub out_file: Option<String>,
    /// Stop after n hits, -1 to try all provided words
    pub stop: isize,
    /// Output format
    pub out_format: OutputFormat,
    /// How the payloads are laid onto the marked positions
    pub attack_type: AttackTypeCli,
    /// Whether progress is shown
    pub progress_bar: bool,
}

/// What the consuming side of a campaign is made from.
#[derive(Clone, Debug, PartialEq, Eq)]
pub struct CliConfig {
    pub out_format: OutputFormat,
    pub out_file: Option<String>,
    pub hit_type: HitType,
    /// The number of hits after which the campaign stops. A negative number
    /// sets no bound.
    pub stop: isize,
    pub progress_bar: bool,
}

/// Parts the arguments into what the consuming side and what the scheduling
/// side of a campaign are made from.
pub fn get_configs(args: Args) -> (r: (CliConfig, IntruderConfig))
    ensures
        r.0 == (CliConfig {
            out_format: args.out_format,
            out_file: args.out_file,
            hit_type: args.hit_type,
            stop: args.stop,
            progress_bar: args.progress_bar,
        }),
        r.1 == (IntruderConfig {
            req_f: args.req_f,
            pass_f: args.pass_f,
            pattern: args.pattern,
            concurrent_requests: args.concurrent_requests,
            attack_type: args.attack_type.chosen(),
        }),
{
    let cliconfig = CliConfig {
        out_format: args.out_format,
        out_file: args.out_file,
        hit_type: args.hit_type,
        stop: args.stop,
        progress_bar: args.progress_bar,
    };
    let intruderconfig = IntruderConfig {
        req_f: args.req_f,
        pass_f: args.pass_f,
        pattern: args.pattern,
        concurrent_requests: args.concurrent_requests,
        attack_type: args.attack_type.into(),
    };
    (cliconfig, intruderconfig)
}

/// Whether an answer with this status is a hit.
pub open spec fn counts_as_hit(hit_type: HitType, status: u16) -> bool {
    match hit_type {
        HitType::OkOnly => status == 200,
        HitType::All => true,
    }
}

/// Struct for detecting hits
#[derive(Copy, Clone, Debug, PartialEq, Eq, Structural)]
pub struct Hit {
    pub hit_type: HitType,
}

impl Hit {
    /// A detector for hits of this type.
    pub fn new(hit_type: HitType) -> (r: Self)
        ensures
            r.hit_type == hit_type,
    {
        Self { hit_type }
    }

    /// Whether an answer with this status is a hit.
    pub fn is_hit(&self, status: u16) -> (b: bool)
        ensures
            b == counts_as_hit(self.hit_type, status),
    {
        match self.hit_type {
            HitType::OkOnly => Hit::success_hit(status),
            HitType::All => Hit::all_hit(),
        }
    }

    /// Every answer is a hit.
    pub fn all_hit() -> (b: bool)
        ensures
            b,
    {
        true
    }

    /// An answer is a hit if its status is 200.
    pub fn success_hit(status: u16) -> (b: bool)
        ensures
            b == (status == 200),
    {
        status == 200
    }
}

/// One hit as it is handed on: its number, the payload, and which answer of
/// the request set it was.
#[derive(Clone, Debug, PartialEq, Eq)]
pub struct HitRecord {
    /// The number of the hit, from one.
    pub index: usize,
    pub payload: String,
    /// The place of the answer among the answers of its set, from zero.
    pub position: usize,
    pub status: u16,
}

/// What a `HitRecord` stands for.
pub struct HitRecordView {
    pub index: nat,
    pub payload: Seq<char>,
    pub position: nat,
    pub status: u16,
}

impl View for HitRecord {
    type V = HitRecordView;

    open spec fn view(&self) -> HitRecordView {
        HitRecordView {
            index: self.index as nat,
            payload: self.payload@,
            position: self.position as nat,
            status: self.status,
        }
    }
}

/// What a sequence of hits stands for.
pub open spec fn record_views(records: Seq<HitRecord>) -> Seq<HitRecordView> {
    records.map_values(|r: HitRecord| r@)
}

/// What the consumer of a campaign keeps: the number of hits so far, the
/// payloads whose requests were not answered, and whether the campaign has
/// stopped.
#[derive(Clone, Debug, PartialEq, Eq)]
pub struct CampaignState {
    pub hits: usize,
    pub errors: Vec<String>,
    pub stopped: bool,
}

/// What a `CampaignState` stands for.
pub struct CampaignView {
    pub hits: nat,
    pub errors: Seq<Seq<char>>,
    pub stopped: bool,
}

impl View for CampaignState {
    type V = CampaignView;

    open spec fn view(&self) -> CampaignView {
        CampaignView { hits: self.hits as nat, errors: views(self.errors@), stopped: self.stopped }
    }
}

/// The state in which a campaign begins.
pub open spec fn initial() -> CampaignView {
    CampaignView { hits: 0, errors: Seq::empty(), stopped: false }
}

/// The hits among the answers from `pos` on, where `hits` hits came before
/// and the campaign has not stopped. Each hit gets the next number. The hit
/// whose number is `stop` is the last one: the answers after it are not
/// looked at.
pub open spec fn hits_from(
    hit_type: HitType,
    stop: int,
    hits: nat,
    statuses: Seq<u16>,
    payload: Seq<char>,
    pos: int,
) -> Seq<HitRecordView>
    decreases statuses.len() - pos,
{
    if pos < 0 || pos >= statuses.len() {
        Seq::empty()
    } else if counts_as_hit(hit_type, statuses[pos]) {
        let hit = HitRecordView {
            index: hits + 1,
            payload: payload,
            position: pos as nat,
            status: statuses[pos],
        };
        if hits + 1 == stop {
            seq![hit]
        } else {
            seq![hit] + hits_from(hit_type, stop, hits + 1, statuses, payload, pos + 1)
        }
    } else {
        hits_from(hit_type, stop, hits, statuses, payload, pos + 1)
    }
}

/// The hits that one outcome gives. A set that failed gives none, and so
/// does every set once the campaign has stopped.
pub open spec fn forwarded(hit_type: HitType, stop: int, state: CampaignView, outcome: OutcomeView) -> Seq<
    HitRecordView,
> {
    match outcome {
        OutcomeView::Sent { statuses, payload } => if state.stopped {
            Seq::empty()
        } else {
            hits_from(hit_type, stop, state.hits, statuses, payload, 0)
        },
        OutcomeView::Failed { payload } => Seq::empty(),
    }
}

/// The state after one outcome. The payload of a set that failed is put at
/// the end of the errors. The hits of a set that was sent are counted, and
/// the campaign stops with the hit whose number is `stop`.
pub open spec fn after_outcome(
    hit_type: HitType,
    stop: int,
    state: CampaignView,
    outcome: OutcomeView,
) -> CampaignView {
    match outcome {
        OutcomeView::Sent { statuses, payload } => {
            let found = forwarded(hit_type, stop, state, outcome);
            CampaignView {
                hits: state.hits + found.len(),
                errors: state.errors,
                stopped: state.stopped || (found.len() > 0 && state.hits + found.len() == stop),
            }
        },
        OutcomeView::Failed { payload } => CampaignView {
            errors: state.errors.push(payload),
            ..state
        },
    }
}

/// The number of answers of an outcome.
pub open spec fn answers(outcome: OutcomeView) -> nat {
    match outcome {
        OutcomeView::Sent { statuses, payload } => statuses.len(),
        OutcomeView::Failed { payload } => 0,
    }
}

/// The number of answers of the outcomes from `i` on.
pub open spec fn answers_from(outcomes: Seq<OutcomeView>, i: int) -> nat
    decreases outcomes.len() - i,
{
    if i < 0 || i >= outcomes.len() {
        0
    } else {
        answers(outcomes[i]) + answers_from(outcomes, i + 1)
    }
}

/// The hits that the outcomes from `i` on give, in their order.
pub open spec fn run_hits(
    hit_type: HitType,
    stop: int,
    state: CampaignView,
    outcomes: Seq<OutcomeView>,
    i: int,
) -> Seq<HitRecordView>
    decreases outcomes.len() - i,
{
    if i < 0 || i >= outcomes.len() {
        Seq::empty()
    } else {
        forwarded(hit_type, stop, state, outcomes[i]) + run_hits(
            hit_type,
            stop,
            after_outcome(hit_type, stop, state, outcomes[i]),
            outcomes,
            i + 1,
        )
    }
}

/// The state after the outcomes from `i` on.
pub open spec fn run_state(
    hit_type: HitType,
    stop: int,
    state: CampaignView,
    outcomes: Seq<OutcomeView>,
    i: int,
) -> CampaignView
    decreases outcomes.len() - i,
{
    if i < 0 || i >= outcomes.len() {
        state
    } else {
        run_state(
            hit_type,
            stop,
            after_outcome(hit_type, stop, state, outcomes[i]),
            outcomes,
            i + 1,
        )
    }
}

/// The number of answers from `pos` on that are hits.
pub open spec fn count_hits(hit_type: HitType, statuses: Seq<u16>, pos: int) -> nat
    decreases statuses.len() - pos,
{
    if pos < 0 || pos >= statuses.len() {
        0
    } else if counts_as_hit(hit_type, statuses[pos]) {
        1 + count_hits(hit_type, statuses, pos + 1)
    } else {
        count_hits(hit_type, statuses, pos + 1)
    }
}

/// The number of answers that are hits in the sets that were sent, from the
/// outcome `i` on.
pub open spec fn count_run(hit_type: HitType, outcomes: Seq<OutcomeView>, i: int) -> nat
    decreases outcomes.len() - i,
{
    if i < 0 || i >= outcomes.len() {
        0
    } else {
        (match outcomes[i] {
            OutcomeView::Sent { statuses, payload } => count_hits(hit_type, statuses, 0),
            OutcomeView::Failed { payload } => 0,
        }) + count_run(hit_type, outcomes, i + 1)
    }
}

/// The payloads of the sets that failed, from the outcome `i` on, in their
/// order.
pub open spec fn failed_payloads(outcomes: Seq<OutcomeView>, i: int) -> Seq<Seq<char>>
    decreases outcomes.len() - i,
{
    if i < 0 || i >= outcomes.len() {
        Seq::empty()
    } else {
        (match outcomes[i] {
            OutcomeView::Sent { statuses, payload } => Seq::empty(),
            OutcomeView::Failed { payload } => seq![payload],
        }) + failed_payloads(outcomes, i + 1)
    }
}

/// The consumer of a campaign.
#[derive(Clone, Debug, PartialEq, Eq)]
pub struct Cli {
    pub hit_d: Hit,
    pub config: CliConfig,
}

impl Cli {
    /// The consumer that this configuration describes.
    pub fn new(config: CliConfig) -> (r: Self)
        ensures
            r.config == config,
            r.hit_d.hit_type == config.hit_type,
    {
        Self { hit_d: Hit::new(config.hit_type), config }
    }

    /// The state in which a campaign begins: no hit, no error, not stopped.
    pub fn begin() -> (state: CampaignState)
        ensures
            state@ == initial(),
    {
        let state = CampaignState { hits: 0, errors: Vec::new(), stopped: false };
        proof {
            assert(views(state.errors@) =~= Seq::empty());
        }
        state
    }

    /// Takes what came of one request set and gives the hits to hand on.
    pub fn on_outcome(&self, state: &mut CampaignState, outcome: &Outcome) -> (found: Vec<HitRecord>)
        requires
            old(state).hits + answers(outcome@) <= usize::MAX,
        ensures
            record_views(found@) == forwarded(
                self.hit_d.hit_type,
                self.config.stop as int,
                old(state)@,
                outcome@,
            ),
            final(state)@ == after_outcome(
                self.hit_d.hit_type,
                self.config.stop as int,
                old(state)@,
                outcome@,
            ),
            final(state).hits <= old(state).hits + answers(outcome@),
    {
        let mut found: Vec<HitRecord> = Vec::new();
        proof {
            assert(record_views(found@) =~= Seq::empty());
        }
        match outcome {
            Outcome::Failed { payload } => {
                let ghost before = views(state.errors@);
                let p = payload.clone();
                state.errors.push(p);
                proof {
                    assert(views(state.errors@) =~= before.push(payload@));
                }
            },
            Outcome::Sent { statuses, payload } => {
                if !state.stopped {
                    let ghost hits0 = state.hits as nat;
                    let ghost errors0 = state.errors;
                    let ghost total = hits_from(
                        self.hit_d.hit_type,
                        self.config.stop as int,
                        hits0,
                        statuses@,
                        payload@,
                        0,
                    );
                    let mut pos: usize = 0;
                    while pos < statuses.len() && !state.stopped
                        invariant
                            pos <= statuses.len(),
                            state.errors == errors0,
                            state.hits + (statuses.len() - pos) <= usize::MAX,
                            state.hits == hits0 + found.len(),
                            found.len() <= pos,
                            state.stopped ==> record_views(found@) == total && found.len() > 0
                                && state.hits == self.config.stop,
                            !state.stopped ==> record_views(found@) + hits_from(
                                self.hit_d.hit_type,
                                self.config.stop as int,
                                state.hits as nat,
                                statuses@,
                                payload@,
                                pos as int,
                            ) == total,
                            !state.stopped && found.len() > 0 ==> state.hits != self.config.stop,
                        decreases statuses.len() - pos,
                    {
                        let status = statuses[pos];
                        if self.hit_d.is_hit(status) {
                            let ghost before = record_views(found@);
                            let ghost rest = hits_from(
                                self.hit_d.hit_type,
                                self.config.stop as int,
                                (state.hits + 1) as nat,
                                statuses@,
                                payload@,
                                pos + 1,
                            );
                            state.hits += 1;
                            let record = HitRecord {
                                index: state.hits,
                                payload: payload.clone(),
                                position: pos,
                                status: status,
                            };
                            found.push(record);
                            proof {
                                assert(record_views(found@) =~= before.push(record@));
                            }
                            if self.config.stop >= 0 && state.hits == self.config.stop as usize {
                                state.stopped = true;
                                proof {
                                    assert(before.push(record@) =~= before + seq![record@]);
                                }
                            } else {
                                proof {
                                    assert(before.push(record@) + rest =~= before + (seq![record@]
                                        + rest));
                                }
                            }
                        }
                        pos += 1;
                    }
                    proof {
                        if !state.stopped {
                            assert(record_views(found@) + Seq::<HitRecordView>::empty()
                                =~= record_views(found@));
                        }
                        assert(record_views(found@).len() == found@.len());
                    }
                }
            },
        }
        found
    }

    /// Takes what came of one request set of a running campaign: the set
    /// is no longer on its way, its hits are handed on, and a campaign that
    /// has stopped is told to take no further payload.
    pub fn settle(
        &self,
        state: &mut CampaignState,
        intruder: &mut Intruder,
        outcome: &Outcome,
    ) -> (found: Vec<HitRecord>)
        requires
            old(state).hits + answers(outcome@) <= usize::MAX,
        ensures
            record_views(found@) == forwarded(
                self.hit_d.hit_type,
                self.config.stop as int,
                old(state)@,
                outcome@,
            ),
            final(state)@ == after_outcome(
                self.hit_d.hit_type,
                self.config.stop as int,
                old(state)@,
                outcome@,
            ),
            final(state).hits <= old(state).hits + answers(outcome@),
            old(intruder).wf() ==> final(intruder).wf(),
            final(intruder).template() == old(intruder).template(),
            final(intruder).settings() == old(intruder).settings(),
            final(intruder).schedule() == (Schedule {
                in_flight: if old(intruder).schedule().in_flight > 0 {
                    (old(intruder).schedule().in_flight - 1) as nat
                } else {
                    0
                },
                halted: old(intruder).schedule().halted || final(state).stopped,
                ..old(intruder).schedule()
            }),
            final(state).stopped ==> next_step(final(intruder).schedule()) != Step::Pull,
    {
        intruder.settle();
        let found = self.on_outcome(state, outcome);
        if state.stopped {
            intruder.halt();
        }
        found
    }

    /// Takes what came of the request sets of a campaign, in the order in
    /// which they were settled, and gives the hits to hand on and the
    /// payloads that were not sent.
    pub fn run(&self, outcomes: &Vec<Outcome>) -> (r: (Vec<HitRecord>, Vec<String>))
        requires
            answers_from(outcome_views(outcomes@), 0) <= usize::MAX,
        ensures
            record_views(r.0@) == run_hits(
                self.hit_d.hit_type,
                self.config.stop as int,
                initial(),
                outcome_views(outcomes@),
                0,
            ),
            views(r.1@) == run_state(
                self.hit_d.hit_type,
                self.config.stop as int,
                initial(),
                outcome_views(outcomes@),
                0,
            ).errors,
    {
        let mut state = Cli::begin();
        let mut hits: Vec<HitRecord> = Vec::new();
        let ghost all = outcome_views(outcomes@);
        let ghost hit_type = self.hit_d.hit_type;
        let ghost stop = self.config.stop as int;
        proof {
            assert(record_views(hits@) =~= Seq::empty());
            assert(record_views(hits@) + run_hits(hit_type, stop, initial(), all, 0) =~= run_hits(
                hit_type,
                stop,
                initial(),
                all,
                0,
            ));
        }
        let mut i: usize = 0;
        while i < outcomes.len()
            invariant
                i <= outcomes.len(),
                all == outcome_views(outcomes@),
                hit_type == self.hit_d.hit_type,
                stop == self.config.stop as int,
                state.hits + answers_from(all, i as int) <= usize::MAX,
                record_views(hits@) + run_hits(hit_type, stop, state@, all, i as int) == run_hits(
                    hit_type,
                    stop,
                    initial(),
                    all,
                    0,
                ),
                run_state(hit_type, stop, state@, all, i as int) == run_state(
                    hit_type,
                    stop,
                    initial(),
                    all,
                    0,
                ),
            decreases outcomes.len() - i,
        {
            let ghost before = record_views(hits@);
            let ghost old_state = state@;
            proof {
                assert(all[i as int] == outcomes@[i as int]@);
            }
            let mut found = self.on_outcome(&mut state, &outcomes[i]);
            let ghost found_views = record_views(found@);
            let ghost old_hits = hits@;
            let ghost old_found = found@;
            hits.append(&mut found);
            proof {
                assert(hits@ == old_hits + old_found);
                assert(record_views(hits@) =~= before + found_views);
                let rest = run_hits(hit_type, stop, state@, all, i + 1);
                assert((before + found_views) + rest =~= before + (found_views + rest));
            }
            i += 1;
        }
        proof {
            assert(record_views(hits@) + Seq::<HitRecordView>::empty() =~= record_views(hits@));
        }
        (hits, state.errors)
    }
}

/// The hits of one request set are numbered on from the hits before, each
/// is an answer of the set that counts as a hit, and they stand in the
/// order of the answers. With the hit type `OkOnly` every one of them has the
/// status 200.
pub proof fn lemma_hits_are_hits(
    hit_type: HitType,
    stop: int,
    hits: nat,
    statuses: Seq<u16>,
    payload: Seq<char>,
    pos: int,
)
    requires
        0 <= pos,
    ensures
        forall|k: int|
            0 <= k < hits_from(hit_type, stop, hits, statuses, payload, pos).len() ==> {
                let hit = #[trigger] hits_from(hit_type, stop, hits, statuses, payload, pos)[k];
                &&& hit.index == hits + k + 1
                &&& hit.payload == payload
                &&& pos <= hit.position < statuses.len()
                &&& hit.status == statuses[hit.position as int]
                &&& counts_as_hit(hit_type, hit.status)
                &&& hit_type == HitType::OkOnly ==> hit.status == 200
            },
        forall|j: int, k: int|
            0 <= j < k < hits_from(hit_type, stop, hits, statuses, payload, pos).len()
                ==> hits_from(hit_type, stop, hits, statuses, payload, pos)[j].position
                < hits_from(hit_type, stop, hits, statuses, payload, pos)[k].position,
    decreases statuses.len() - pos,
{
    let all = hits_from(hit_type, stop, hits, statuses, payload, pos);
    if pos < statuses.len() {
        let next_hits = if counts_as_hit(hit_type, statuses[pos]) {
            hits + 1
        } else {
            hits
        };
        let rest = hits_from(hit_type, stop, next_hits, statuses, payload, pos + 1);
        lemma_hits_are_hits(hit_type, stop, next_hits, statuses, payload, pos + 1);
        let shift: int = if counts_as_hit(hit_type, statuses[pos]) {
            1
        } else {
            0
        };
        assert(counts_as_hit(hit_type, statuses[pos]) && hits + 1 == stop ==> all.len() == 1);
        assert(!(counts_as_hit(hit_type, statuses[pos]) && hits + 1 == stop) ==> all.len()
            == rest.len() + shift);
        assert forall|k: int| 0 <= k < all.len() implies {
            let hit = #[trigger] all[k];
            &&& hit.index == hits + k + 1
            &&& hit.payload == payload
            &&& pos <= hit.position < statuses.len()
            &&& hit.status == statuses[hit.position as int]
            &&& counts_as_hit(hit_type, hit.status)
            &&& hit_type == HitType::OkOnly ==> hit.status == 200
        } by {
            if k >= shift {
                assert(all[k] == rest[k - shift]);
            }
        }
        assert forall|j: int, k: int| 0 <= j < k < all.len() implies all[j].position
            < all[k].position by {
            assert(all[k] == rest[k - shift]);
            if j >= shift {
                assert(all[j] == rest[j - shift]);
            }
        }
    }
}

/// How many hits a request set gives: every answer that counts as a hit,
/// but no more than are wanted until the campaign stops.
pub proof fn lemma_hits_counted(
    hit_type: HitType,
    stop: int,
    hits: nat,
    statuses: Seq<u16>,
    payload: Seq<char>,
    pos: int,
)
    requires
        0 <= pos,
    ensures
        hits_from(hit_type, stop, hits, statuses, payload, pos).len() == (if hits < stop && stop
            - hits <= count_hits(hit_type, statuses, pos) {
            stop - hits
        } else {
            count_hits(hit_type, statuses, pos) as int
        }),
        count_hits(hit_type, statuses, pos) <= statuses.len() - pos || pos >= statuses.len(),
        hit_type == HitType::All && pos <= statuses.len() ==> count_hits(hit_type, statuses, pos)
            == statuses.len() - pos,
    decreases statuses.len() - pos,
{
    if pos < statuses.len() {
        if counts_as_hit(hit_type, statuses[pos]) {
            lemma_hits_counted(hit_type, stop, hits + 1, statuses, payload, pos + 1);
        } else {
            lemma_hits_counted(hit_type, stop, hits, statuses, payload, pos + 1);
        }
    }
}

proof fn lemma_run_counted(
    hit_type: HitType,
    stop: int,
    state: CampaignView,
    outcomes: Seq<OutcomeView>,
    i: int,
)
    requires
        0 <= i,
    ensures
        state.stopped ==> run_hits(hit_type, stop, state, outcomes, i).len() == 0,
        !state.stopped ==> run_hits(hit_type, stop, state, outcomes, i).len() == (if state.hits
            < stop && stop - state.hits <= count_run(hit_type, outcomes, i) {
            stop - state.hits
        } else {
            count_run(hit_type, outcomes, i) as int
        }),
        run_state(hit_type, stop, state, outcomes, i).hits == state.hits + run_hits(
            hit_type,
            stop,
            state,
            outcomes,
            i,
        ).len(),
        run_state(hit_type, stop, state, outcomes, i).errors == state.errors + failed_payloads(
            outcomes,
            i,
        ),
    decreases outcomes.len() - i,
{
    if i < outcomes.len() {
        let next = after_outcome(hit_type, stop, state, outcomes[i]);
        lemma_run_counted(hit_type, stop, next, outcomes, i + 1);
        match outcomes[i] {
            OutcomeView::Sent { statuses, payload } => {
                lemma_hits_counted(hit_type, stop, state.hits, statuses, payload, 0);
                assert(state.errors + failed_payloads(outcomes, i) =~= next.errors
                    + failed_payloads(outcomes, i + 1));
            },
            OutcomeView::Failed { payload } => {
                assert(state.errors + failed_payloads(outcomes, i) =~= next.errors
                    + failed_payloads(outcomes, i + 1));
            },
        }
    } else {
        assert(state.errors + failed_payloads(outcomes, i) =~= state.errors);
    }
}

/// How many hits a campaign hands on. Where the stop count is positive and
/// the sets that were sent hold at least as many hits, the campaign hands on
/// exactly as many hits as the stop count says. Else it hands on every hit
/// of every set that was sent: this is so for every negative stop count,
/// which sets no bound, and for the stop count zero, which no number of a
/// hit ever equals.
pub proof fn lemma_stop_count(hit_type: HitType, stop: int, outcomes: Seq<OutcomeView>)
    ensures
        run_hits(hit_type, stop, initial(), outcomes, 0).len() == (if 0 < stop <= count_run(
            hit_type,
            outcomes,
            0,
        ) {
            stop
        } else {
            count_run(hit_type, outcomes, 0) as int
        }),
        run_state(hit_type, stop, initial(), outcomes, 0).hits == run_hits(
            hit_type,
            stop,
            initial(),
            outcomes,
            0,
        ).len(),
{
    lemma_run_counted(hit_type, stop, initial(), outcomes, 0);
}

/// The payloads that a campaign reports as not sent are the payloads of the
/// sets that failed, each once, in the order in which the sets were
/// settled; and a set that failed gives no hit and leaves the count of hits
/// as it was, whatever the state of the campaign.
pub proof fn lemma_failures_reported(
    hit_type: HitType,
    stop: int,
    state: CampaignView,
    outcomes: Seq<OutcomeView>,
    payload: Seq<char>,
)
    ensures
        run_state(hit_type, stop, initial(), outcomes, 0).errors == failed_payloads(outcomes, 0),
        forwarded(hit_type, stop, state, OutcomeView::Failed { payload: payload }).len() == 0,
        after_outcome(hit_type, stop, state, OutcomeView::Failed { payload: payload })
            == (CampaignView { errors: state.errors.push(payload), ..state }),
{
    lemma_run_counted(hit_type, stop, initial(), outcomes, 0);
    assert(initial().errors + failed_payloads(outcomes, 0) =~= failed_payloads(outcomes, 0));
}

/// Once a campaign has stopped no set gives a hit any more, and the
/// campaign stays stopped.
pub proof fn lemma_stopped_stays(
    hit_type: HitType,
    stop: int,
    state: CampaignView,
    outcome: OutcomeView,
)
    requires
        state.stopped,
    ensures
        forwarded(hit_type, stop, state, outcome).len() == 0,
        after_outcome(hit_type, stop, state, outcome).stopped,
        after_outcome(hit_type, stop, state, outcome).hits == state.hits,
{
}

} // verus!
