use synth::delay::{DelayLine, DelayOutput};
use synth::frame::{Channel, Interleaver};
use synth::keys::Keyboard;
use synth::pool::retain_live;

#[test]
fn delay_is_silent_until_primed_then_echoes() {
    let mut line: DelayLine<i32> = DelayLine::new();
    assert_eq!(line.step(1, 3), DelayOutput::Silent);
    assert_eq!(line.step(2, 3), DelayOutput::Silent);
    assert_eq!(line.step(3, 3), DelayOutput::Echoed(1));
    assert_eq!(line.step(4, 3), DelayOutput::Echoed(2));
    assert_eq!(line.step(5, 3), DelayOutput::Echoed(3));
    assert_eq!(line.len(), 2);
}

#[test]
fn delay_of_one_echoes_the_input() {
    let mut line: DelayLine<i32> = DelayLine::new();
    assert_eq!(line.step(7, 1), DelayOutput::Echoed(7));
    assert_eq!(line.step(8, 1), DelayOutput::Echoed(8));
    assert_eq!(line.len(), 0);
}

#[test]
fn zero_delay_passes_through() {
    let mut line: DelayLine<i32> = DelayLine::new();
    line.step(1, 5);
    line.step(2, 5);
    assert_eq!(line.step(9, 0), DelayOutput::Passed(9));
    assert_eq!(line.len(), 0);
}

#[test]
fn shrinking_delay_drops_oldest() {
    let mut line: DelayLine<i32> = DelayLine::new();
    for x in 1..=5 {
        assert_eq!(line.step(x, 10), DelayOutput::Silent);
    }
    // line now holds 5,4,3,2,1; pushing 6 gives 6,5,4,3,2,1
    assert_eq!(line.step(6, 2), DelayOutput::Passed(4));
    assert_eq!(line.len(), 2);
    assert_eq!(line.newest(), Some(6));
}

#[test]
fn feedback_replaces_newest() {
    let mut line: DelayLine<i32> = DelayLine::new();
    line.replace_newest(3);
    assert_eq!(line.newest(), None);
    line.step(1, 4);
    line.step(2, 4);
    line.replace_newest(20);
    assert_eq!(line.newest(), Some(20));
    assert_eq!(line.step(3, 4), DelayOutput::Silent);
    assert_eq!(line.step(4, 4), DelayOutput::Echoed(1));
    assert_eq!(line.step(5, 4), DelayOutput::Echoed(20));
}

#[test]
fn key_press_release_round_trip() {
    let mut kb: Keyboard<&str> = Keyboard::new(7);
    assert_eq!(kb.keys(), 7);
    assert!(kb.is_free(0));
    assert!(kb.hold(0, "a"));
    assert!(!kb.is_free(0));
    assert!(kb.is_free(1));
    assert_eq!(kb.release(0), Some("a"));
    assert!(kb.is_free(0));
    assert_eq!(kb.release(0), None);
}

#[test]
fn held_key_is_not_retriggered() {
    let mut kb: Keyboard<u32> = Keyboard::new(3);
    assert!(kb.hold(2, 10));
    assert!(!kb.hold(2, 11));
    assert!(kb.hold(1, 12));
    assert_eq!(kb.release(2), Some(10));
    assert_eq!(kb.release(1), Some(12));
}

#[test]
fn stereo_samples_alternate() {
    let mut s = Interleaver::new();
    assert_eq!(s.advance(), Channel::Left);
    assert_eq!(s.advance(), Channel::Right);
    assert_eq!(s.advance(), Channel::Left);
    assert_eq!(s.advance(), Channel::Right);
}

#[test]
fn finished_voices_are_dropped_in_order() {
    let mut v = vec![10, 20, 30, 40, 50];
    retain_live(&mut v, &vec![true, false, true, false, true]);
    assert_eq!(v, vec![10, 30, 50]);
    let mut w = vec![1, 2];
    retain_live(&mut w, &vec![false, false]);
    assert!(w.is_empty());
    let mut e: Vec<i32> = vec![];
    retain_live(&mut e, &vec![]);
    assert!(e.is_empty());
}
