use grindlewald::automation::{
    automation_outcome, clear_privileged_approvals, due_schedules, find_schedule,
    floodlight_outcome, floodlight_plan, home_network_plan, record_approval, approval_command,
    schedule_commands, shell_outcome, shell_plan, trigger_key, FloodlightPlan, ShellPlan,
    TriggeredRuns,
};
use grindlewald::command::{BrightnessValue, ControlCommand};
use grindlewald::settings::{FloodlightAction, Schedule, Settings};
use grindlewald::state::{
    breathing_frame_command, idle_action, idle_deadline, idle_wait, next_party_index,
    party_color, party_frame_command, plan_execution, resolve_preset, stop_effect_command,
    BreathingRun, BreathingSeek, EffectState, ExecutionPlan, IdleAction,
};
use grindlewald::timing::{
    check_trace_seconds, end_session, record, start_capture, trace_file_name, Capture,
    MAX_SAMPLES,
};

fn schedule(id: &str) -> Schedule {
    Schedule {
        id: id.into(),
        name: "Test".into(),
        time: "12:00".into(),
        enabled: true,
        disabled_until: None,
        lights: Vec::new(),
        preset: "daytime".into(),
        floodlights: FloodlightAction::Unchanged,
        floodlight_network: None,
        shell_command: String::new(),
        run_as_administrator: false,
        privileged_approved_command: String::new(),
        privileged_approved_at: String::new(),
    }
}

#[test]
fn seeking_updates_the_running_effect_without_stopping_or_loading_settings() {
    let mut state = EffectState::new();
    assert_eq!(state.seek_breathing(100, 1).unwrap_err(), "Breathing is not running");
    state.party_active = true;
    state.party_generation = 7;
    state.publish_breathing(0, 7, 0);
    for (position, request_id) in [(100, 1), (765, 2), (1529, 3)] {
        assert_eq!(state.seek_breathing(position, request_id).unwrap(), "Breathing");
    }
    let latest = state.seek.unwrap();
    assert_eq!(latest, BreathingSeek { position: 1529, generation: 7, request_id: 3 });
    assert!(state.party_active);
    assert_eq!(state.party_generation, 7);
    assert_eq!(
        state.seek_breathing(1530, 4).unwrap_err(),
        "breathing position must be between 0 and 1529"
    );
    state.party_generation += 1;
    assert!(state.current_breathing().is_none());
}

#[test]
fn disconnect_clears_effects_and_invalidates_hold_timers_without_settings() {
    let mut state = EffectState::new();
    state.party_active = true;
    assert!(state.begin_disconnect().is_ok());
    assert_eq!(state.begin_disconnect().unwrap_err(), "Disconnect already in progress");
    assert_eq!(state.check_available().unwrap_err(), "Disconnect in progress");
    assert!(!state.party_active);
    assert_eq!(state.party_generation, 1);
    assert_eq!(state.activity_generation, 1);
    assert_eq!(state.finish_disconnect(Ok(())).unwrap(), "Disconnected from lights");
    assert!(!state.disconnecting);
    assert!(state.check_available().is_ok());
    assert_eq!(state.status(Some(0)).connected_count, Some(0));
    assert!(!state.status(None).effect_active);
}

#[test]
fn published_frames_are_numbered_and_stale_ones_dropped() {
    let mut state = EffectState::new();
    let generation = state.begin_effect().unwrap();
    assert_eq!(generation, 1);
    assert!(state.begin_effect().is_none());
    state.publish_breathing(10, generation, 0);
    state.publish_breathing(11, generation, 0);
    let frame = state.current_breathing().unwrap();
    assert_eq!((frame.position, frame.frame_id), (11, 2));
    state.publish_breathing(12, generation + 1, 0);
    assert_eq!(state.current_breathing().unwrap().position, 11);
    state.fail_effect();
    assert!(state.current_breathing().is_none());
    assert!(!state.party_active);
    assert_eq!(state.party_generation, 2);
    let timer = state.arm_idle();
    assert_eq!(timer, state.activity_generation);
}

#[test]
fn generations_wrap_like_atomic_counters() {
    let mut state = EffectState::new();
    state.party_generation = u64::MAX;
    state.activity_generation = u64::MAX;
    state.end_activity();
    assert_eq!(state.party_generation, 0);
    assert_eq!(state.activity_generation, 0);
}

#[test]
fn breathing_runs_advance_or_follow_seeks_of_their_own_effect() {
    let mut run = BreathingRun::new(1529, 1, 3).unwrap();
    assert_eq!(run.step(false, None), 0);
    assert_eq!(run.step(true, None), 0);
    let stale = BreathingSeek { position: 700, generation: 2, request_id: 9 };
    assert_eq!(run.step(false, Some(stale)), 1);
    assert_eq!(run.request_id, 0);
    let seek = BreathingSeek { position: 700, generation: 3, request_id: 9 };
    assert_eq!(run.step(true, Some(seek)), 700);
    assert_eq!(run.request_id, 9);
    assert_eq!(run.step(false, None), 701);
    assert!(BreathingRun::new(0, 0, 1).is_err());
    match breathing_frame_command(510, Some("Desk".into())) {
        ControlCommand::BreathingFrame { value, device } => {
            assert_eq!(value, "#00ff00");
            assert_eq!(device.as_deref(), Some("Desk"));
        }
        other => panic!("unexpected {other:?}"),
    }
}

#[test]
fn party_palette_cycles_and_starts_by_entering_the_effect() {
    assert_eq!(party_color(0), "#ff3040");
    assert_eq!(party_color(11), "#ff3040");
    assert_eq!(party_color(6), "#2670ff");
    assert_eq!(next_party_index(11), 0);
    assert_eq!(next_party_index(3), 4);
    match party_frame_command(0, true, None) {
        ControlCommand::PartyFrame { value, enter, device } => {
            assert_eq!(value, "#ff3040");
            assert!(enter);
            assert!(device.is_none());
        }
        other => panic!("unexpected {other:?}"),
    }
}

#[test]
fn idle_timers_poll_every_two_seconds_until_their_deadline() {
    let deadline = idle_deadline(1_000, 6);
    assert_eq!(deadline, 6_000_001_000);
    assert_eq!(idle_wait(1_000, deadline), 2_000_000_000);
    assert_eq!(idle_wait(5_000_000_000, deadline), 1_000_001_000);
    assert_eq!(idle_wait(deadline + 5, deadline), 0);
    assert_eq!(idle_action(1, 2, 0, deadline), IdleAction::Stop);
    assert_eq!(idle_action(2, 2, deadline, deadline), IdleAction::Disconnect);
    assert_eq!(idle_action(2, 2, deadline - 1, deadline), IdleAction::KeepAlive);
}

#[test]
fn presets_resolve_case_insensitively_to_color_or_white_commands() {
    let settings = Settings::default();
    let resolved = resolve_preset(
        &settings.presets,
        ControlCommand::Preset { name: "NIGHTTIME".into(), device: Some("Desk".into()) },
    )
    .unwrap();
    match resolved {
        ControlCommand::Color { value, brightness, device } => {
            assert_eq!(value, "#ff4500");
            assert_eq!(brightness, Some(BrightnessValue { bits: 0.35f32.to_bits(), level: 89 }));
            assert_eq!(device.as_deref(), Some("Desk"));
        }
        other => panic!("unexpected {other:?}"),
    }
    match resolve_preset(
        &settings.presets,
        ControlCommand::Preset { name: "daytime".into(), device: None },
    )
    .unwrap()
    {
        ControlCommand::White { value, kelvin, .. } => {
            assert_eq!(value, "#d6e1ff");
            assert!(kelvin.is_none());
        }
        other => panic!("unexpected {other:?}"),
    }
    assert_eq!(
        resolve_preset(
            &settings.presets,
            ControlCommand::Preset { name: "missing".into(), device: None }
        )
        .unwrap_err(),
        "preset \"missing\" was not found"
    );
    assert!(matches!(
        resolve_preset(&settings.presets, ControlCommand::StopEffect).unwrap(),
        ControlCommand::StopEffect
    ));
    match stop_effect_command(&settings) {
        ControlCommand::Color { value, brightness, device } => {
            assert_eq!(value, settings.color);
            assert_eq!(brightness, Some(settings.brightness));
            assert!(device.is_none());
        }
        other => panic!("unexpected {other:?}"),
    }
}

#[test]
fn commands_are_planned_before_touching_the_lights() {
    match plan_execution(ControlCommand::Experiment { payload: "04 08".into(), device: None }) {
        ExecutionPlan::Reject(m) => {
            assert_eq!(m, "experimental commands must target one named light")
        }
        other => panic!("unexpected {other:?}"),
    }
    assert!(matches!(
        plan_execution(ControlCommand::SeekBreathing { position: 5, request_id: 2 }),
        ExecutionPlan::Seek { position: 5, request_id: 2 }
    ));
    assert!(matches!(plan_execution(ControlCommand::StopParty), ExecutionPlan::StopEffect));
    assert!(matches!(
        plan_execution(ControlCommand::Party { device: None }),
        ExecutionPlan::StartParty { device: None }
    ));
    assert!(matches!(
        plan_execution(ControlCommand::Power { on: true, device: None }),
        ExecutionPlan::Apply(ControlCommand::Power { on: true, .. })
    ));
}

#[test]
fn automations_are_found_by_exact_identifier() {
    let schedules = vec![schedule("a"), schedule("b"), schedule("b")];
    assert_eq!(find_schedule(&schedules, "b").unwrap(), 1);
    assert_eq!(find_schedule(&schedules, "B").unwrap_err(), "schedule \"B\" was not found");
}

#[test]
fn approvals_cover_the_trimmed_command_until_it_is_edited() {
    let mut s = schedule("job-1");
    s.shell_command = "  echo hi \n".into();
    let command = approval_command(&s);
    assert_eq!(command, "echo hi");
    record_approval(&mut s, command, "2024-01-01T00:00:00Z".into());
    assert!(s.run_as_administrator);
    match shell_plan(&s).unwrap() {
        ShellPlan::Privileged(id) => assert_eq!(id, "job-1"),
        other => panic!("unexpected {other:?}"),
    }
    s.shell_command = "echo bye".into();
    assert_eq!(
        shell_plan(&s).unwrap_err(),
        "administrator command changed and must be approved again"
    );
    let mut settings = Settings { schedules: vec![s], ..Settings::default() };
    clear_privileged_approvals(&mut settings);
    let cleared = &settings.schedules[0];
    assert!(!cleared.run_as_administrator);
    assert!(cleared.privileged_approved_command.is_empty());
    assert!(cleared.privileged_approved_at.is_empty());
    assert_eq!(cleared.shell_command, "echo bye");
    match shell_plan(cleared).unwrap() {
        ShellPlan::Shell(c) => assert_eq!(c, "echo bye"),
        other => panic!("unexpected {other:?}"),
    }
    match shell_plan(&schedule("none")).unwrap() {
        ShellPlan::Done(m) => assert_eq!(m, "No shell command"),
        other => panic!("unexpected {other:?}"),
    }
}

#[test]
fn automations_target_listed_lights_or_all_of_them() {
    let mut s = schedule("a");
    let all = schedule_commands(&s);
    assert_eq!(all.len(), 1);
    assert!(matches!(&all[0], ControlCommand::Preset { name, device: None } if name == "daytime"));
    s.lights = vec!["Desk".into(), "Shelf".into()];
    let listed = schedule_commands(&s);
    assert_eq!(listed.len(), 2);
    assert!(
        matches!(&listed[1], ControlCommand::Preset { device: Some(d), .. } if d == "Shelf")
    );
}

#[test]
fn floodlights_follow_the_action_and_the_home_network() {
    assert_eq!(floodlight_plan(FloodlightAction::On), FloodlightPlan::Switch(true));
    assert_eq!(floodlight_plan(FloodlightAction::Off), FloodlightPlan::Switch(false));
    assert_eq!(floodlight_plan(FloodlightAction::Unchanged), FloodlightPlan::Unchanged);
    assert_eq!(
        floodlight_plan(FloodlightAction::OnHomeNetwork),
        FloodlightPlan::CheckHomeNetwork
    );
    let home = "router-sha256:0000000000000000000000000000000000000000000000000000000000000000";
    assert_eq!(home_network_plan(Some(home), Some(home)), FloodlightPlan::Switch(true));
    assert_eq!(
        home_network_plan(Some(home), None),
        FloodlightPlan::Skipped("Floodlights skipped: saved home network is not connected".into())
    );
    assert_eq!(floodlight_outcome(true, true, "", "exit status: 0").unwrap(), "Floodlights on");
    assert_eq!(
        floodlight_outcome(false, false, "  \n", "exit status: 1").unwrap_err(),
        "Floodlight script exited with exit status: 1"
    );
    assert_eq!(
        floodlight_outcome(false, false, " Traceback\n", "exit status: 1").unwrap_err(),
        "Floodlight script failed: Traceback"
    );
    assert_eq!(shell_outcome(true, "").unwrap(), "Shell command completed");
    assert_eq!(shell_outcome(false, " boom \n").unwrap_err(), "shell command failed: boom");
}

#[test]
fn automation_results_combine_into_sentences_or_errors() {
    assert_eq!(
        automation_outcome(Ok("Updated 1 light(s)".into()), Ok(None), Ok("No shell command".into()))
            .unwrap(),
        "Updated 1 light(s). No shell command."
    );
    assert_eq!(
        automation_outcome(
            Ok("a".into()),
            Ok(Some("Floodlights on".into())),
            Ok("c".into())
        )
        .unwrap(),
        "a. Floodlights on. c."
    );
    assert_eq!(
        automation_outcome(Err("x".into()), Ok(Some("f".into())), Err("y".into())).unwrap_err(),
        "x; y"
    );
}

#[test]
fn each_automation_runs_once_a_day() {
    let mut s = schedule("wake");
    s.time = "07:30".into();
    let mut paused = schedule("later");
    paused.time = "07:30".into();
    paused.disabled_until = Some(2_000);
    let schedules = vec![s, schedule("noon"), paused];
    assert_eq!(due_schedules(&schedules, 1_000, "07:30"), vec![0]);
    assert_eq!(due_schedules(&schedules, 2_000, "07:30"), vec![0, 2]);
    let mut runs = TriggeredRuns::new();
    let key = trigger_key("2024-05-01", "wake");
    assert_eq!(key, "2024-05-01:wake");
    assert!(runs.insert(key.clone()));
    assert!(!runs.insert(key.clone()));
    assert!(runs.insert(trigger_key("2024-05-02", "wake")));
    runs.retain_day("2024-05-02");
    assert_eq!(runs.len(), 1);
    assert!(!runs.contains(&key));
    assert!(runs.contains("2024-05-02:wake"));
}

#[test]
fn timing_captures_are_bounded_to_their_window() {
    assert_eq!(
        check_trace_seconds(4).unwrap_err(),
        "trace duration must be between 5 and 300 seconds"
    );
    assert!(check_trace_seconds(300).is_ok());
    let mut slot: Option<Capture> = None;
    record(&mut slot, "write".into(), 1, 2, None, true);
    assert!(slot.is_none());
    start_capture(&mut slot, 1_000, 5).unwrap();
    assert_eq!(
        start_capture(&mut slot, 2_000, 5).unwrap_err(),
        "a breathing timing capture is already running"
    );
    record(&mut slot, "write".into(), 1_500, 2_500, Some(0), true);
    record(&mut slot, "write".into(), 500, 2_500, Some(0), true);
    record(&mut slot, "write".into(), 1_500, 5_000_001_001, Some(0), true);
    let capture = slot.as_ref().unwrap();
    assert_eq!(capture.deadline, 5_000_001_000);
    assert_eq!(capture.samples.len(), 1);
    assert_eq!(capture.samples[0].at_nanos, 500);
    assert_eq!(capture.samples[0].duration_nanos, 1_000);
    assert!(!capture.sample_limit_reached());
    end_session(&mut slot, 999);
    assert!(slot.is_some());
    end_session(&mut slot, 1_000);
    assert!(slot.is_none());
    assert_eq!(trace_file_name("20240101T000000.000Z"), "breathing-timing-20240101T000000.000Z.json");
    assert_eq!(MAX_SAMPLES, 100_000);
}
