use vehicle_audio_engine::adsr::{EnvelopeClock, EnvelopeOutput, Segment, Stage, Target};

#[test]
fn envelope_attacks_decays_and_sustains() {
    let mut c = EnvelopeClock::new(3, 2, 4);
    assert_eq!(c.advance(), EnvelopeOutput::Silent);
    c.note_on();
    assert_eq!(c.advance(), EnvelopeOutput::Ramp { segment: Segment::Attack, elapsed: 1, length: 3 });
    assert_eq!(c.advance(), EnvelopeOutput::Ramp { segment: Segment::Attack, elapsed: 2, length: 3 });
    assert_eq!(c.advance(), EnvelopeOutput::Settle { target: Target::Peak });
    assert_eq!(c.stage(), Stage::Decay);
    assert_eq!(c.advance(), EnvelopeOutput::Ramp { segment: Segment::Decay, elapsed: 1, length: 2 });
    assert_eq!(c.advance(), EnvelopeOutput::Settle { target: Target::Sustain });
    assert_eq!(c.stage(), Stage::Sustain);
    assert_eq!(c.advance(), EnvelopeOutput::Hold);
}

#[test]
fn release_takes_exactly_the_release_length() {
    let mut c = EnvelopeClock::new(10, 0, 10);
    c.note_on();
    for _ in 0..10 {
        c.advance();
    }
    assert!(c.note_off());
    for k in 1..10u32 {
        assert_eq!(c.advance(), EnvelopeOutput::Ramp { segment: Segment::Release, elapsed: k, length: 10 });
        assert_eq!(c.stage(), Stage::Release);
    }
    assert_eq!(c.advance(), EnvelopeOutput::Settle { target: Target::Zero });
    assert_eq!(c.stage(), Stage::Done);
    assert!(!c.note_off());
}

#[test]
fn zero_length_stages_resolve_in_one_sample() {
    let mut c = EnvelopeClock::new(0, 0, 0);
    c.note_on();
    assert_eq!(c.advance(), EnvelopeOutput::Settle { target: Target::Sustain });
    assert_eq!(c.stage(), Stage::Sustain);
    assert!(c.note_off());
    assert_eq!(c.advance(), EnvelopeOutput::Settle { target: Target::Zero });
    assert_eq!(c.stage(), Stage::Done);
    assert_eq!(c.advance(), EnvelopeOutput::Silent);
}

#[test]
fn note_off_while_idle_does_nothing() {
    let mut c = EnvelopeClock::new(1, 1, 1);
    assert!(!c.note_off());
    assert_eq!(c.stage(), Stage::Idle);
}
