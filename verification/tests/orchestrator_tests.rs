use expectation::orchestrator::{
    run_summary, Supervisor, SupervisorEvent, SupervisorStep,
};
use expectation::results::Verdict;

fn msg(name: &str, files_ok: &[(&str, bool)]) -> (String, Vec<Verdict>) {
    let verdicts = files_ok
        .iter()
        .map(|(file, ok)| {
            if *ok {
                Verdict::ok(name, file)
            } else {
                Verdict::expected_not_found(
                    name,
                    file,
                    format!("/actual/{}/{}", name, file),
                    format!("/expected/{}/{}", name, file),
                )
            }
        })
        .collect();
    (name.to_string(), verdicts)
}

#[test]
fn out_of_order_messages_are_both_recorded() {
    let first = msg("alpha", &[("a.txt", true)]);
    let second = msg("beta", &[("b.txt", false)]);

    let mut forward = Supervisor::new();
    forward.on_event(SupervisorEvent::Message(first.0.clone(), first.1.clone()));
    forward.on_event(SupervisorEvent::Message(second.0.clone(), second.1.clone()));
    let collected_forward = forward.into_results();

    let mut backward = Supervisor::new();
    backward.on_event(SupervisorEvent::Message(second.0.clone(), second.1.clone()));
    backward.on_event(SupervisorEvent::Message(first.0.clone(), first.1.clone()));
    let collected_backward = backward.into_results();

    for collected in [collected_forward, collected_backward] {
        assert_eq!(collected.len(), 2);
        let alpha = collected.iter().find(|(n, _)| n == "alpha").unwrap();
        let beta = collected.iter().find(|(n, _)| n == "beta").unwrap();
        assert_eq!(alpha.1, first.1);
        assert_eq!(beta.1, second.1);
    }
}

#[test]
fn supervisor_drains_after_worker_exit_before_finishing() {
    let mut supervisor = Supervisor::new();
    let step = supervisor.on_event(SupervisorEvent::Message(
        msg("early", &[("a.txt", true)]).0,
        msg("early", &[("a.txt", true)]).1,
    ));
    assert_eq!(step, SupervisorStep::Wait);

    let step = supervisor.on_event(SupervisorEvent::WorkerExited);
    assert_eq!(step, SupervisorStep::Drain);

    let late = msg("late", &[("z.txt", true)]);
    let step = supervisor.on_event(SupervisorEvent::Message(late.0, late.1));
    assert_eq!(step, SupervisorStep::Drain);

    let step = supervisor.on_event(SupervisorEvent::ChannelEmpty);
    assert_eq!(step, SupervisorStep::Finish);

    let collected = supervisor.into_results();
    assert_eq!(collected.len(), 2);
    assert_eq!(collected[0].0, "early");
    assert_eq!(collected[1].0, "late");
}

#[test]
fn channel_empty_before_worker_exit_keeps_waiting() {
    let mut supervisor = Supervisor::new();
    let step = supervisor.on_event(SupervisorEvent::ChannelEmpty);
    assert_eq!(step, SupervisorStep::Wait);
}

#[test]
fn run_summary_counts_suites_and_files() {
    let results = vec![
        msg("alpha", &[("a.txt", true), ("b.txt", true)]),
        msg("beta", &[("c.txt", true), ("d.txt", false), ("e.txt", false)]),
        msg("gamma", &[]),
    ];
    let summary = run_summary(&results);
    assert_eq!(summary.total_suites, 3);
    assert_eq!(summary.failed_suites, 1);
    assert_eq!(summary.total_files, 5);
    assert_eq!(summary.failed_files, 2);
}
