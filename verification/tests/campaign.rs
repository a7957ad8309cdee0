use rip_intruder::cli::{
    get_configs, Args, AttackTypeCli, CampaignState, Cli, CliConfig, Hit, HitRecord, HitType,
    OutputFormat,
};
use rip_intruder::intruder::{
    Admission, AfterPass, CampaignError, Intruder, IntruderConfig, Outcome, RetryPolicy, Step,
};
use rip_intruder::request_template::{AttackType, Header, TemplateError};

const TEMPLATE: &str = "GET /login HTTP/1.1\nHost: x\nAuthorization: Basic §§\n\n";

fn config(concurrent_requests: usize, attack_type: AttackType) -> IntruderConfig {
    IntruderConfig {
        req_f: "req.txt".to_string(),
        pass_f: "pass.txt".to_string(),
        pattern: "§§".to_string(),
        concurrent_requests,
        attack_type,
    }
}

fn intruder(concurrent_requests: usize) -> Intruder {
    Intruder::new(config(concurrent_requests, AttackType::BatteringRam), TEMPLATE.to_string())
        .unwrap()
}

fn cli(hit_type: HitType, stop: isize) -> Cli {
    Cli::new(CliConfig {
        out_format: OutputFormat::Csv,
        out_file: None,
        hit_type,
        stop,
        progress_bar: false,
    })
}

fn sent(payload: &str, statuses: &[u16]) -> Outcome {
    Outcome::Sent { statuses: statuses.to_vec(), payload: payload.to_string() }
}

fn failed(payload: &str) -> Outcome {
    Outcome::Failed { payload: payload.to_string() }
}

fn hit(index: usize, payload: &str, position: usize, status: u16) -> HitRecord {
    HitRecord { index, payload: payload.to_string(), position, status }
}

#[test]
fn ok_only_counts_status_200() {
    let h = Hit::new(HitType::OkOnly);
    assert_eq!(h.hit_type, HitType::OkOnly);
    assert!(h.is_hit(200));
    for status in [0, 100, 199, 201, 204, 301, 404, 500, 65535] {
        assert!(!h.is_hit(status));
    }
    assert!(Hit::success_hit(200));
    assert!(!Hit::success_hit(201));
}

#[test]
fn all_counts_every_status() {
    let h = Hit::new(HitType::All);
    for status in [0, 100, 200, 201, 404, 500, 65535] {
        assert!(h.is_hit(status));
    }
    assert!(Hit::all_hit());
}

#[test]
fn hits_are_numbered_in_the_order_of_the_outcomes() {
    let c = cli(HitType::OkOnly, -1);
    let outcomes = vec![
        sent("a", &[404]),
        sent("b", &[200]),
        failed("c"),
        sent("d", &[200, 500, 200]),
        sent("e", &[]),
    ];
    let (hits, errors) = c.run(&outcomes);
    assert_eq!(hits, vec![hit(1, "b", 0, 200), hit(2, "d", 0, 200), hit(3, "d", 2, 200)]);
    assert_eq!(errors, vec!["c".to_string()]);
}

#[test]
fn all_hands_on_every_answer() {
    let c = cli(HitType::All, -1);
    let outcomes = vec![sent("a", &[404]), sent("b", &[200, 302]), failed("c")];
    let (hits, errors) = c.run(&outcomes);
    assert_eq!(hits, vec![hit(1, "a", 0, 404), hit(2, "b", 0, 200), hit(3, "b", 1, 302)]);
    assert_eq!(errors, vec!["c".to_string()]);
}

#[test]
fn stop_two_hands_on_two_hits() {
    let c = cli(HitType::OkOnly, 2);
    let outcomes = vec![
        sent("a", &[200]),
        sent("b", &[403]),
        sent("c", &[200]),
        sent("d", &[200]),
        failed("e"),
        sent("f", &[200]),
    ];
    let (hits, errors) = c.run(&outcomes);
    assert_eq!(hits, vec![hit(1, "a", 0, 200), hit(2, "c", 0, 200)]);
    assert_eq!(errors, vec!["e".to_string()]);
}

#[test]
fn stop_is_reached_inside_a_set() {
    let c = cli(HitType::All, 2);
    let mut state = Cli::begin();
    let found = c.on_outcome(&mut state, &sent("a", &[200, 201, 202, 203]));
    assert_eq!(found, vec![hit(1, "a", 0, 200), hit(2, "a", 1, 201)]);
    assert_eq!(state.hits, 2);
    assert!(state.stopped);
    let found = c.on_outcome(&mut state, &sent("b", &[200]));
    assert!(found.is_empty());
    assert_eq!(state.hits, 2);
    assert!(state.stopped);
    let found = c.on_outcome(&mut state, &failed("c"));
    assert!(found.is_empty());
    assert_eq!(state.errors, vec!["c".to_string()]);
    assert_eq!(state.hits, 2);
}

#[test]
fn stop_that_is_not_reached_is_no_error() {
    let c = cli(HitType::OkOnly, 5);
    let (hits, errors) = c.run(&vec![sent("a", &[200]), sent("b", &[500])]);
    assert_eq!(hits, vec![hit(1, "a", 0, 200)]);
    assert!(errors.is_empty());
}

#[test]
fn unbounded_stop_takes_every_outcome() {
    for stop in [-1, -7, isize::MIN] {
        let c = cli(HitType::All, stop);
        let outcomes: Vec<Outcome> = (0..50).map(|i| sent(&i.to_string(), &[200])).collect();
        let (hits, errors) = c.run(&outcomes);
        assert_eq!(hits.len(), 50);
        assert_eq!(hits[49], hit(50, "49", 0, 200));
        assert!(errors.is_empty());
    }
}

#[test]
fn stop_zero_is_never_reached() {
    let c = cli(HitType::All, 0);
    let (hits, _) = c.run(&vec![sent("a", &[200]), sent("b", &[200])]);
    assert_eq!(hits, vec![hit(1, "a", 0, 200), hit(2, "b", 0, 200)]);
}

#[test]
fn failed_payload_is_reported_once_and_gives_no_hit() {
    let c = cli(HitType::All, -1);
    let outcomes = vec![failed("x"), sent("y", &[200]), failed("z"), sent("x", &[200])];
    let (hits, errors) = c.run(&outcomes);
    assert_eq!(errors, vec!["x".to_string(), "z".to_string()]);
    assert_eq!(hits, vec![hit(1, "y", 0, 200), hit(2, "x", 0, 200)]);

    let mut state = CampaignState { hits: 3, errors: vec!["q".to_string()], stopped: false };
    let found = c.on_outcome(&mut state, &failed("x"));
    assert!(found.is_empty());
    assert_eq!(
        state,
        CampaignState { hits: 3, errors: vec!["q".to_string(), "x".to_string()], stopped: false }
    );
}

#[test]
fn empty_campaign() {
    let c = cli(HitType::OkOnly, 1);
    let (hits, errors) = c.run(&Vec::new());
    assert!(hits.is_empty());
    assert!(errors.is_empty());
    assert_eq!(Cli::begin(), CampaignState { hits: 0, errors: Vec::new(), stopped: false });
}

#[test]
fn arguments_are_parted_into_two_configurations() {
    let args = Args {
        req_f: "req.txt".to_string(),
        pass_f: "pass.txt".to_string(),
        concurrent_requests: 8,
        pattern: "@@".to_string(),
        hit_type: HitType::All,
        out_file: Some("out.csv".to_string()),
        stop: -1,
        out_format: OutputFormat::Jsonl,
        attack_type: AttackTypeCli::Pitchfork,
        progress_bar: true,
    };
    let (cli_config, intruder_config) = get_configs(args);
    assert_eq!(
        cli_config,
        CliConfig {
            out_format: OutputFormat::Jsonl,
            out_file: Some("out.csv".to_string()),
            hit_type: HitType::All,
            stop: -1,
            progress_bar: true,
        }
    );
    assert_eq!(
        intruder_config,
        IntruderConfig {
            req_f: "req.txt".to_string(),
            pass_f: "pass.txt".to_string(),
            pattern: "@@".to_string(),
            concurrent_requests: 8,
            attack_type: AttackType::Pitchfork,
        }
    );
    let c = Cli::new(cli_config.clone());
    assert_eq!(c.config, cli_config);
    assert_eq!(c.hit_d, Hit::new(HitType::All));
}

#[test]
fn attack_type_of_the_command_line() {
    assert_eq!(AttackTypeCli::Sniper.into(), AttackType::Sniper);
    assert_eq!(AttackTypeCli::BatteringRam.into(), AttackType::BatteringRam);
    assert_eq!(AttackTypeCli::Pitchfork.into(), AttackType::Pitchfork);
    assert_eq!(AttackTypeCli::ClusterBomb.into(), AttackType::ClusterBomb);
}

#[test]
fn unavailable_attack_types_end_the_campaign_at_once() {
    for attack_type in [AttackType::Sniper, AttackType::Pitchfork, AttackType::ClusterBomb] {
        let r = Intruder::new(config(4, attack_type), TEMPLATE.to_string());
        assert_eq!(r.err(), Some(CampaignError::NotImplemented));
        let r = Intruder::new(config(4, attack_type), String::new());
        assert_eq!(r.err(), Some(CampaignError::NotImplemented));
        let mut bad = config(4, attack_type);
        bad.pattern = "(".to_string();
        assert_eq!(Intruder::new(bad, TEMPLATE.to_string()).err(), Some(CampaignError::NotImplemented));
    }
}

#[test]
fn campaign_is_not_begun_on_a_bad_pattern_or_template() {
    let mut bad = config(4, AttackType::BatteringRam);
    bad.pattern = "[".to_string();
    assert_eq!(Intruder::new(bad, TEMPLATE.to_string()).err(), Some(CampaignError::InvalidPattern));
    let r = Intruder::new(config(4, AttackType::BatteringRam), String::new());
    assert_eq!(r.err(), Some(CampaignError::Template(TemplateError::Empty)));
    let r = Intruder::new(config(4, AttackType::BatteringRam), "GET /\n".to_string());
    assert_eq!(r.err(), Some(CampaignError::Template(TemplateError::InvalidRequestLine)));
    let r = Intruder::new(config(4, AttackType::BatteringRam), "G{T / HTTP/1.1\n".to_string());
    assert_eq!(r.err(), Some(CampaignError::Template(TemplateError::InvalidMethod)));
    let r = Intruder::new(config(4, AttackType::BatteringRam), "GET / HTTP/1.1\nx\n".to_string());
    assert_eq!(r.err(), Some(CampaignError::Template(TemplateError::InvalidHeader)));
}

#[test]
fn new_campaign_has_nothing_on_its_way() {
    let i = intruder(3);
    assert_eq!(i.in_flight(), 0);
    assert_eq!(i.config(), &config(3, AttackType::BatteringRam));
    assert_eq!(i.req_templ().req().authority(), &Some("x".to_string()));
    assert_eq!(i.bruteforce(), Step::Pull);
}

#[test]
fn no_more_sets_are_on_their_way_than_the_limit_allows() {
    let mut i = intruder(2);
    assert_eq!(i.bruteforce(), Step::Pull);
    assert!(matches!(i.offer("a"), Admission::Sent(_)));
    assert_eq!(i.bruteforce(), Step::Pull);
    assert!(matches!(i.offer("b"), Admission::Sent(_)));
    assert_eq!(i.in_flight(), 2);
    assert_eq!(i.bruteforce(), Step::Await);
    assert_eq!(i.offer("c"), Admission::Refused);
    assert_eq!(i.in_flight(), 2);
    i.settle();
    assert_eq!(i.in_flight(), 1);
    assert_eq!(i.bruteforce(), Step::Pull);
    assert!(matches!(i.offer("c"), Admission::Sent(_)));
    i.exhaust();
    assert_eq!(i.bruteforce(), Step::Await);
    i.settle();
    assert_eq!(i.bruteforce(), Step::Await);
    i.settle();
    assert_eq!(i.in_flight(), 0);
    assert_eq!(i.bruteforce(), Step::Finish);
    i.settle();
    assert_eq!(i.in_flight(), 0);
}

#[test]
fn offered_payload_gives_its_request_set() {
    let mut i = intruder(1);
    match i.offer("secret") {
        Admission::Sent(set) => {
            assert_eq!(set.payload, "secret");
            assert_eq!(set.requests.len(), 1);
            assert_eq!(
                set.requests[0].head(),
                &vec![Header { name: "Authorization".to_string(), value: "Basic secret".to_string() }]
            );
        }
        other => panic!("{:?}", other),
    }
}

#[test]
fn payload_that_gives_no_request_is_dropped() {
    let mut i = intruder(1);
    assert_eq!(i.offer("a\rb"), Admission::Dropped);
    assert_eq!(i.in_flight(), 0);
    assert_eq!(i.bruteforce(), Step::Pull);
    assert!(matches!(i.offer("ab"), Admission::Sent(_)));
    assert_eq!(i.in_flight(), 1);
}

#[test]
fn halted_campaign_takes_no_payload() {
    let mut i = intruder(4);
    assert!(matches!(i.offer("a"), Admission::Sent(_)));
    i.halt();
    assert_eq!(i.bruteforce(), Step::Await);
    assert_eq!(i.offer("b"), Admission::Refused);
    assert_eq!(i.in_flight(), 1);
    i.settle();
    assert_eq!(i.bruteforce(), Step::Finish);
    assert_eq!(i.offer("c"), Admission::Refused);
}

#[test]
fn exhausted_campaign_takes_no_payload() {
    let mut i = intruder(4);
    i.exhaust();
    assert_eq!(i.offer("a"), Admission::Refused);
    assert_eq!(i.bruteforce(), Step::Finish);
}

#[test]
fn request_sets_leave_out_payloads_that_give_none() {
    let i = intruder(1);
    let payloads: Vec<String> = ["a", "b\nc", "d", "\u{0}", ""].iter().map(|s| s.to_string()).collect();
    let sets = i.get_reqs(&payloads);
    let got: Vec<&str> = sets.iter().map(|s| s.payload.as_str()).collect();
    assert_eq!(got, vec!["a", "d", ""]);
    assert_eq!(sets[1].requests[0].head()[0].value, "Basic d");
    assert_eq!(sets[2].requests[0].head()[0].value, "Basic ");
    assert!(i.get_reqs(&Vec::new()).is_empty());
}

#[test]
fn set_fails_if_any_request_is_not_answered() {
    assert_eq!(Intruder::send_reqs(&vec![Some(200), Some(404)], "p".to_string()), sent("p", &[200, 404]));
    assert_eq!(Intruder::send_reqs(&vec![Some(200), None], "p".to_string()), failed("p"));
    assert_eq!(Intruder::send_reqs(&vec![None, Some(200)], "p".to_string()), failed("p"));
    assert_eq!(Intruder::send_reqs(&vec![None], "p".to_string()), failed("p"));
    assert_eq!(Intruder::send_reqs(&Vec::new(), "p".to_string()), sent("p", &[]));
}

#[test]
fn campaign_stops_taking_payloads_after_the_stop_count() {
    let c = cli(HitType::OkOnly, 2);
    let mut state = Cli::begin();
    let mut i = intruder(1);
    let payloads = ["a", "b", "c", "d", "e"];
    let statuses = [200u16, 404, 200, 200, 200];
    let mut next = 0;
    let mut taken = Vec::new();
    let mut hits = Vec::new();
    let mut waiting: Vec<Outcome> = Vec::new();
    loop {
        match i.bruteforce() {
            Step::Pull => {
                if next == payloads.len() {
                    i.exhaust();
                } else {
                    if let Admission::Sent(set) = i.offer(payloads[next]) {
                        taken.push(set.payload.clone());
                        waiting.push(Intruder::send_reqs(&vec![Some(statuses[next])], set.payload));
                    }
                    next += 1;
                }
            }
            Step::Await => {
                let outcome = waiting.remove(0);
                hits.extend(c.settle(&mut state, &mut i, &outcome));
            }
            Step::Finish => break,
        }
    }
    assert_eq!(taken, vec!["a", "b", "c"]);
    assert_eq!(hits, vec![hit(1, "a", 0, 200), hit(2, "c", 0, 200)]);
    assert!(state.errors.is_empty());
}

#[test]
fn record_once_never_sends_again() {
    for (limit, sent, failed) in [(8, 5, 3), (1, 0, 9), (0, 0, 0), (usize::MAX, 1, 1)] {
        assert_eq!(RetryPolicy::RecordOnce.after_pass(limit, sent, failed), AfterPass::Done);
    }
}

#[test]
fn halving_sends_the_failed_payloads_again() {
    let p = RetryPolicy::HalveConcurrency;
    assert_eq!(p.after_pass(8, 5, 3), AfterPass::Retry { concurrent_requests: 4 });
    assert_eq!(p.after_pass(5, 1, 1), AfterPass::Retry { concurrent_requests: 2 });
    assert_eq!(p.after_pass(2, 7, 1), AfterPass::Retry { concurrent_requests: 1 });
    assert_eq!(p.after_pass(8, 5, 0), AfterPass::Done);
    assert_eq!(p.after_pass(8, 0, 0), AfterPass::Done);
    assert_eq!(p.after_pass(8, 0, 3), AfterPass::Stalled);
    assert_eq!(p.after_pass(1, 0, 3), AfterPass::Stalled);
    assert_eq!(p.after_pass(1, 5, 3), AfterPass::Aborted);
    assert_eq!(p.after_pass(0, 5, 3), AfterPass::Aborted);
}

#[test]
fn halving_comes_to_an_end() {
    let mut limit = 1000;
    let mut passes = 0;
    while let AfterPass::Retry { concurrent_requests } =
        RetryPolicy::HalveConcurrency.after_pass(limit, 1, 1)
    {
        assert!(concurrent_requests < limit);
        limit = concurrent_requests;
        passes += 1;
    }
    assert_eq!(passes, 9);
    assert_eq!(limit, 1);
}

#[test]
fn campaign_without_a_slot_sends_nothing() {
    let mut i = intruder(0);
    assert_eq!(i.bruteforce(), Step::Finish);
    assert_eq!(i.offer("a"), Admission::Refused);
}

#[test]
fn next_request_of_a_set() {
    assert_eq!(Intruder::next_request(&vec![], 1), Some(0));
    assert_eq!(Intruder::next_request(&vec![], 0), None);
    assert_eq!(Intruder::next_request(&vec![Some(200)], 1), None);
    assert_eq!(Intruder::next_request(&vec![Some(200)], 3), Some(1));
    assert_eq!(Intruder::next_request(&vec![Some(200), Some(500)], 3), Some(2));
    assert_eq!(Intruder::next_request(&vec![None], 3), None);
    assert_eq!(Intruder::next_request(&vec![Some(200), None], 3), None);
    assert_eq!(Intruder::next_request(&vec![None, Some(200)], 3), None);
    assert_eq!(Intruder::next_request(&vec![Some(1), Some(2), Some(3), Some(4)], 3), None);
}

#[test]
fn settling_an_outcome_halts_a_campaign_that_has_stopped() {
    let c = cli(HitType::OkOnly, 1);
    let mut state = Cli::begin();
    let mut i = intruder(3);
    assert!(matches!(i.offer("a"), Admission::Sent(_)));
    assert!(matches!(i.offer("b"), Admission::Sent(_)));
    assert!(matches!(i.offer("c"), Admission::Sent(_)));
    assert!(c.settle(&mut state, &mut i, &sent("a", &[404])).is_empty());
    assert_eq!(i.in_flight(), 2);
    assert_eq!(i.bruteforce(), Step::Pull);
    assert_eq!(c.settle(&mut state, &mut i, &sent("b", &[200])), vec![hit(1, "b", 0, 200)]);
    assert!(state.stopped);
    assert_eq!(i.in_flight(), 1);
    assert_eq!(i.bruteforce(), Step::Await);
    assert_eq!(i.offer("d"), Admission::Refused);
    assert!(c.settle(&mut state, &mut i, &sent("c", &[200])).is_empty());
    assert_eq!(i.bruteforce(), Step::Finish);
    assert_eq!(state.hits, 1);
}

#[test]
fn settling_a_failed_set_reports_its_payload() {
    let c = cli(HitType::All, -1);
    let mut state = Cli::begin();
    let mut i = intruder(1);
    assert!(matches!(i.offer("a"), Admission::Sent(_)));
    assert!(c.settle(&mut state, &mut i, &failed("a")).is_empty());
    assert_eq!(state.errors, vec!["a".to_string()]);
    assert!(!state.stopped);
    assert_eq!(i.in_flight(), 0);
    assert_eq!(i.bruteforce(), Step::Pull);
}
