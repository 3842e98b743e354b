use masker::control::{ControlChannel, InputEvent, Loudness};
use masker::engine::{Engine, Phase};
use masker::graph::compile_source;
use masker::output::write_data;

fn as_f64(l: &Loudness) -> f64 {
    l.num as f64 / 2f64.powi(l.exp as i32)
}

#[test]
fn volume_up_doubles_until_capped() {
    // 1/8 -> 1/4 -> 1/2 -> 1 -> 1
    let mut l = Loudness::new(1, 3);
    l.volume_up();
    assert_eq!((l.num, l.exp), (1, 2));
    l.volume_up();
    assert_eq!((l.num, l.exp), (1, 1));
    l.volume_up();
    assert_eq!((l.num, l.exp), (1, 0));
    l.volume_up();
    assert_eq!((l.num, l.exp), (1, 0));
    assert_eq!(as_f64(&l), 1.0);
}

#[test]
fn volume_up_caps_above_half() {
    // 3/4 -> 1, not 3/2
    let mut l = Loudness::new(3, 2);
    l.volume_up();
    assert_eq!(as_f64(&l), 1.0);
}

#[test]
fn volume_down_halves_and_stays_positive() {
    let mut l = Loudness::new(1, 0);
    for k in 1..=40u32 {
        l.volume_down();
        assert_eq!(as_f64(&l), 0.5f64.powi(k as i32));
        assert!(as_f64(&l) > 0.0);
    }
}

#[test]
fn down_then_up_round_trips_below_cap() {
    let mut l = Loudness::new(5, 3);
    let before = (l.num, l.exp);
    l.volume_down();
    l.volume_up();
    // 5/8 -> 5/16 -> 5/8
    assert_eq!(as_f64(&l), 0.625);
    assert_eq!(before.0 as f64 / 2f64.powi(before.1 as i32), 0.625);
}

#[test]
fn control_channel_dispatch_table() {
    let mut ch = ControlChannel::new(Loudness::new(1, 2));
    ch.apply(InputEvent::Other);
    assert!(!ch.shutdown);
    assert_eq!((ch.loudness.num, ch.loudness.exp), (1, 2));
    ch.apply(InputEvent::VolumeUp);
    assert_eq!((ch.loudness.num, ch.loudness.exp), (1, 1));
    ch.apply(InputEvent::VolumeDown);
    assert_eq!((ch.loudness.num, ch.loudness.exp), (1, 2));
    ch.apply(InputEvent::Quit);
    assert!(ch.shutdown);
    // shutdown latches
    ch.apply(InputEvent::Other);
    assert!(ch.shutdown);
}

#[test]
fn phase_switches_at_threshold_and_latches() {
    let startup = compile_source(&b"white".to_vec()).unwrap();
    let sustained = compile_source(&b"pink".to_vec()).unwrap();
    let mut e = Engine::new(startup, Some(sustained), 500);
    assert_eq!(e.select_phase(1000), Phase::Startup); // start captured here
    assert_eq!(e.start_ms, Some(1000));
    assert_eq!(e.select_phase(1499), Phase::Startup);
    assert_eq!(e.select_phase(1500), Phase::Sustained);
    // never reverts, even if the clock steps back
    assert_eq!(e.select_phase(1000), Phase::Sustained);
    assert_eq!(e.select_phase(0), Phase::Sustained);
}

#[test]
fn end_to_end_startup_then_sustained() {
    // threshold 500 ms: at t=0 the startup graph drives output; by t=600
    // only the sustained graph does
    let startup = compile_source(&b"sin 440".to_vec()).unwrap();
    let sustained = compile_source(&b"white".to_vec()).unwrap();
    let mut e = Engine::new(startup.clone(), Some(sustained.clone()), 500);
    let p0 = e.select_phase(0);
    assert_eq!(p0, Phase::Startup);
    assert_eq!(*e.active_graph(p0), startup);
    let p1 = e.select_phase(600);
    assert_eq!(p1, Phase::Sustained);
    assert_eq!(*e.active_graph(p1), sustained);
}

#[test]
fn single_phase_engine_keeps_startup_graph() {
    let startup = compile_source(&b"brown".to_vec()).unwrap();
    let mut e = Engine::new(startup.clone(), None, 0);
    let p = e.select_phase(7);
    assert_eq!(p, Phase::Sustained);
    assert_eq!(*e.active_graph(p), startup);
}

#[test]
fn write_data_fills_every_slot_stereo() {
    let frames: Vec<(f64, f64)> = vec![(0.1, -0.1), (0.2, -0.2), (0.3, -0.3)];
    let mut out = vec![0.0f64; 6];
    write_data(&mut out, 2, &frames);
    assert_eq!(out, vec![0.1, -0.1, 0.2, -0.2, 0.3, -0.3]);
}

#[test]
fn write_data_replicates_by_parity_beyond_stereo() {
    let frames: Vec<(f64, f64)> = vec![(1.0, 2.0), (3.0, 4.0)];
    let mut out = vec![0.0f64; 10];
    write_data(&mut out, 5, &frames);
    // even channel index takes left, odd takes right
    assert_eq!(out, vec![1.0, 2.0, 1.0, 2.0, 1.0, 3.0, 4.0, 3.0, 4.0, 3.0]);
}

#[test]
fn write_data_mono() {
    let frames: Vec<(i32, i32)> = vec![(7, 9), (8, 10)];
    let mut out = vec![0i32; 2];
    write_data(&mut out, 1, &frames);
    assert_eq!(out, vec![7, 8]);
}
