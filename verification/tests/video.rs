use shapemaker::video::{
    at_frame_fires, at_timestamp_fires, render_frames, render_schedule, command_arguments, commands_to_run, duration_ms, each_beat_fires,
    each_frame_fires, each_n_frame_fires, frame_at, init_fires, later_hooks_to_delete,
    on_marker_fires, remove_in_turn, split_commas, stem_list_includes, total_frames,
    when_remaining_fires, RenderProgress,
};

#[test]
fn frames_follow_the_frame_rate() {
    assert_eq!(frame_at(30, 0), 0);
    assert_eq!(frame_at(30, 1_500), 45);
    assert_eq!(frame_at(24, 999), 23);
    assert_eq!(total_frames(30, 10_000, 2_000), 360);
}

#[test]
fn duration_prefers_the_override() {
    assert_eq!(duration_ms(Some(5), &vec![10, 20]), Some(5));
    assert_eq!(duration_ms(None, &vec![10, 30, 20]), Some(30));
    assert_eq!(duration_ms(None, &vec![]), None);
}

#[test]
fn hook_conditions() {
    assert!(init_fires(0));
    assert!(!init_fires(1));
    assert!(each_frame_fires(3, 2));
    assert!(!each_frame_fires(2, 2));
    assert!(each_n_frame_fires(4, 8, 7));
    assert!(!each_n_frame_fires(4, 9, 8));
    assert!(each_beat_fires(0, 0, 1, 0, 0));
    assert!(!each_beat_fires(10, 2, 3, 2, 2));
    assert!(each_beat_fires(10, 3, 3, 2, 2));
    assert!(at_frame_fires(12, 12));
    assert!(when_remaining_fires(2, 8_000, 10_000));
    assert!(!when_remaining_fires(2, 7_999, 10_000));
    assert!(when_remaining_fires(20, 0, 10_000));
    assert!(on_marker_fires("drop", "drop"));
    assert!(!on_marker_fires("drop", "dro"));
}

#[test]
fn markers_run_commands_with_arguments() {
    assert_eq!(command_arguments(":fade   in  ", "fade"), Some("in".to_string()));
    assert_eq!(command_arguments("::fadefade x", "fade"), Some("x".to_string()));
    assert_eq!(command_arguments("fade x", "fade"), None);
    assert_eq!(command_arguments(":show", "fade"), None);
    let names = vec!["fade".to_string(), "show".to_string(), "f".to_string()];
    assert_eq!(
        commands_to_run(":fade out", &names),
        vec![(0, "out".to_string()), (2, "ade out".to_string())]
    );
}

#[test]
fn later_hooks_are_dropped_in_turn() {
    let fired = vec![true, false, true, false];
    let once = vec![true, true, false, false];
    assert_eq!(later_hooks_to_delete(&fired, &once), vec![0, 3]);
    let mut items = vec!['a', 'b', 'c', 'd'];
    remove_in_turn(&mut items, &vec![1, 1, 9]);
    assert_eq!(items, vec!['a', 'd']);
}

#[test]
fn frames_are_written_when_they_change() {
    let p = RenderProgress::new();
    let (p, write) = p.after_moment(0, 0);
    assert!(!write);
    let (p, write) = p.after_moment(1, 2);
    assert!(write);
    assert_eq!(p, RenderProgress { previous_rendered_beat: 2, previous_rendered_frame: 1, written_frames_count: 1 });
}

#[test]
fn at_timestamp_never_fires_on_a_rendered_frame() {
    assert_eq!(at_timestamp_fires("00:00:01.000", 4, 4), Some(false));
}

#[test]
fn at_timestamp_reads_no_time_without_a_date() {
    // A `NaiveDateTime` needs a date: none of the hook's formats has one, so the timestamp
    // is never read and the hook cannot decide.
    assert_eq!(at_timestamp_fires("00:00:01.000", 5, 4), None);
    assert_eq!(at_timestamp_fires("01:02", 5, 4), None);
    assert_eq!(at_timestamp_fires("12", 1, 0), None);
}

#[test]
fn schedule_writes_a_frame_each_time_the_frame_changes() {
    assert_eq!(render_schedule(30, 100, 0), vec![(34, 1), (67, 2), (100, 3)]);
    assert_eq!(render_schedule(30, 60, 40), vec![(34, 1), (67, 2), (100, 3)]);
    assert_eq!(render_schedule(30, 0, 0), vec![]);
    assert_eq!(render_schedule(2000, 2, 0), vec![(1, 2), (2, 4)]);
    assert_eq!(render_schedule(30, 1000, 0).len(), total_frames(30, 1000, 0));
}

#[test]
fn rendering_visits_every_moment_in_order_and_writes_the_schedule() {
    let seen = std::cell::RefCell::new(vec![]);
    let written = std::cell::RefCell::new(vec![]);
    let r: Result<usize, String> = render_frames(30, 70, 30, |ms, frame, write| {
        seen.borrow_mut().push(ms);
        if write {
            written.borrow_mut().push((ms, frame));
        }
        Ok(())
    });
    assert_eq!(r, Ok(3));
    assert_eq!(*seen.borrow(), (1..=100).collect::<Vec<usize>>());
    assert_eq!(*written.borrow(), render_schedule(30, 70, 30));
}

#[test]
fn rendering_stops_at_the_first_error() {
    let seen = std::cell::RefCell::new(vec![]);
    let r: Result<usize, String> = render_frames(30, 100, 0, |ms, _, _| {
        seen.borrow_mut().push(ms);
        if ms == 50 { Err(format!("hook failed at {}", ms)) } else { Ok(()) }
    });
    assert_eq!(r, Err("hook failed at 50".to_string()));
    assert_eq!(seen.borrow().len(), 50);
}

#[test]
fn comma_lists_split_like_str_split() {
    assert_eq!(split_commas("bass, kick,,snare "), vec!["bass", " kick", "", "snare "]);
    assert_eq!(split_commas(""), vec![""]);
    assert_eq!(split_commas("a,"), vec!["a", ""]);
}

#[test]
fn note_hooks_fire_for_a_listed_stem() {
    let playing = vec!["kick".to_string(), "lead".to_string()];
    assert!(stem_list_includes("bass, kick", &playing));
    assert!(!stem_list_includes("bass,snare", &playing));
    assert!(!stem_list_includes("bass, kick", &vec![]));
    assert!(stem_list_includes("  lead  ", &playing));
}
