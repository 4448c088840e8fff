use video_diffusion::scheduler::{
    corrector_weights, ensure_step_in_range, make_scheduler, predictor_weights, FlowUniPC, SolverKind,
    StepPlan, WanScheduler, Weights,
};

#[test]
fn ensure_step_in_range_guards_over_and_under_run() {
    assert!(ensure_step_in_range(0, 0).is_err());
    assert!(ensure_step_in_range(0, 3).is_ok());
    assert!(ensure_step_in_range(1, 3).is_ok());
    assert!(ensure_step_in_range(2, 3).is_err());
}

#[test]
fn step_errors_instead_of_panicking_when_over_stepped() {
    let mut sched = make_scheduler(SolverKind::Euler, 1000);
    sched.set_timesteps(vec![true; 2]);
    assert!(sched.step().is_ok());
    assert!(sched.step().is_ok());
    let err = sched.step().unwrap_err().message();
    assert!(err.contains("over-stepped"), "got: {err}");

    let mut fresh = make_scheduler(SolverKind::Euler, 1000);
    assert!(fresh.step().is_err());
}

#[test]
fn from_name_maps_advertised_samplers_and_defaults_to_unipc() {
    assert_eq!(SolverKind::from_name("euler"), SolverKind::Euler);
    assert_eq!(SolverKind::from_name("dpmpp2m"), SolverKind::Dpmpp2m);
    assert_eq!(SolverKind::from_name("dpm++"), SolverKind::Dpmpp2m);
    assert_eq!(SolverKind::from_name("unipc"), SolverKind::UniPC);
    assert_eq!(SolverKind::from_name(""), SolverKind::UniPC);
    assert_eq!(SolverKind::from_name("nope"), SolverKind::UniPC);
    assert_eq!(SolverKind::from_name("Euler"), SolverKind::Euler);
    assert_eq!(SolverKind::from_name("DPM++"), SolverKind::Dpmpp2m);
}

#[test]
fn unipc_plans_every_step() {
    let mut sched = FlowUniPC::new(1000, 2);
    sched.set_timesteps(vec![true; 8]);
    for i in 0..8usize {
        match sched.step().unwrap() {
            StepPlan::UniPC { corrector, predictor, to_clean } => {
                assert_eq!(to_clean, i == 7);
                assert_eq!(corrector.is_some(), i > 0);
                assert_eq!((predictor.from, predictor.to), (i, i + 1));
                let earlier = if i == 0 || i == 7 { 0 } else { 1 };
                assert_eq!(predictor.earlier.len(), earlier, "step {i}");
            }
            other => panic!("got {other:?}"),
        }
    }
    assert!(sched.step().is_err());
    sched.reset();
    assert!(sched.step().is_ok());
}

#[test]
fn the_second_solver_reuses_the_estimate_before() {
    let mut sched = make_scheduler(SolverKind::Dpmpp2m, 1000);
    sched.set_timesteps(vec![true; 3]);
    match sched.step().unwrap() {
        StepPlan::Dpmpp2m { from, to, previous, to_clean } => {
            assert_eq!((from, to, previous, to_clean), (0, 1, None, false))
        }
        other => panic!("got {other:?}"),
    }
    match sched.step().unwrap() {
        StepPlan::Dpmpp2m { from, previous, .. } => assert_eq!((from, previous), (1, Some(0))),
        other => panic!("got {other:?}"),
    }
    match sched.step().unwrap() {
        StepPlan::Dpmpp2m { previous, to_clean, .. } => assert_eq!((previous, to_clean), (None, true)),
        other => panic!("got {other:?}"),
    }
}

#[test]
fn the_last_step_is_first_order_however_long_the_schedule() {
    let mut sched = make_scheduler(SolverKind::Dpmpp2m, 1000);
    sched.set_timesteps(vec![true; 20]);
    for i in 0..20usize {
        match sched.step().unwrap() {
            StepPlan::Dpmpp2m { previous, to_clean, .. } => {
                assert_eq!(previous, if i == 0 || i == 19 { None } else { Some(i - 1) }, "step {i}");
                assert_eq!(to_clean, i == 19);
            }
            other => panic!("got {other:?}"),
        }
    }
    assert!(sched.step().is_err());
}

#[test]
fn every_step_to_a_level_without_noise_gives_its_estimate() {
    for kind in [SolverKind::Dpmpp2m, SolverKind::UniPC] {
        let mut sched = make_scheduler(kind, 1);
        sched.set_timesteps(vec![false; 3]);
        for i in 0..3usize {
            match sched.step().unwrap() {
                StepPlan::Dpmpp2m { from, previous, to_clean, .. } => {
                    assert_eq!((from, previous, to_clean), (i, None, true))
                }
                StepPlan::UniPC { corrector, predictor, to_clean } => {
                    assert!(corrector.is_none(), "nothing is corrected at a level without noise");
                    assert_eq!((predictor.base, to_clean), (i, true));
                }
                other => panic!("got {other:?}"),
            }
        }
        assert!(sched.step().is_err());
    }
}

#[test]
fn only_the_levels_with_noise_are_combined() {
    let mut sched = make_scheduler(SolverKind::Dpmpp2m, 1000);
    sched.set_timesteps(vec![true, true, true, false]);
    let want = [(None, false), (Some(0), false), (None, true), (None, true)];
    for (i, w) in want.iter().enumerate() {
        match sched.step().unwrap() {
            StepPlan::Dpmpp2m { previous, to_clean, .. } => assert_eq!((previous, to_clean), *w, "step {i}"),
            other => panic!("got {other:?}"),
        }
    }
    let mut sched = make_scheduler(SolverKind::UniPC, 1000);
    sched.set_timesteps(vec![true, true, true, false]);
    let want = [(false, false), (true, false), (true, true), (false, true)];
    for (i, w) in want.iter().enumerate() {
        match sched.step().unwrap() {
            StepPlan::UniPC { corrector, to_clean, .. } => {
                assert_eq!((corrector.is_some(), to_clean), *w, "step {i}")
            }
            other => panic!("got {other:?}"),
        }
    }
}

#[test]
fn weights_are_solved_for_or_a_half() {
    assert_eq!(predictor_weights(1), Weights::Half);
    assert_eq!(predictor_weights(2), Weights::Solve { rows: 2 });
    assert_eq!(corrector_weights(0), Weights::Half);
    assert_eq!(corrector_weights(1), Weights::Solve { rows: 2 });
}
