use sampler::envelope::{EnvStage, Envelope};
use sampler::param::{offset_position, stage_frames, sustain_level};
use sampler::pitch::{pitch_ratio, RATIO_CAP};

#[test]
fn pitch_ratio_follows_semitones_and_octaves() {
    assert_eq!(pitch_ratio(48, 44100), 65536);
    assert_eq!(pitch_ratio(60, 44100), 131072);
    assert_eq!(pitch_ratio(36, 44100), 32768);
    assert_eq!(pitch_ratio(49, 44100), 69433);
    assert_eq!(pitch_ratio(47, 44100), 123715 / 2);
    assert_eq!(pitch_ratio(48, 22050), 32768);
    assert_eq!(pitch_ratio(48, 48000), 65536 * 48000 / 44100);
}

#[test]
fn pitch_ratio_extremes() {
    assert_eq!(pitch_ratio(i32::MAX, 44100), RATIO_CAP);
    assert_eq!(pitch_ratio(i32::MIN, 44100), 0);
    assert_eq!(pitch_ratio(48, 0), 0);
}

#[test]
fn control_conversions() {
    assert_eq!(stage_frames(5), 220);
    assert_eq!(stage_frames(-3), 0);
    assert_eq!(stage_frames(1000), 44100);
    assert_eq!(sustain_level(500), 32768);
    assert_eq!(sustain_level(5000), 65536);
    assert_eq!(sustain_level(-1), 0);
    assert_eq!(offset_position(1000), 65536);
    assert_eq!(offset_position(1500), 98304);
    assert_eq!(offset_position(-7), 0);
}

#[test]
fn envelope_runs_its_stages() {
    let mut e = Envelope::new();
    assert_eq!(e.value(), 0);
    e.attack = 2;
    e.decay = 2;
    e.sustain = 32768;
    e.release = 2;
    e.start_attack();
    let levels: Vec<u64> = (0..6).map(|_| e.value()).collect();
    assert_eq!(levels, vec![0, 32768, 65536, 65536, 49152, 32768]);
    assert_eq!(e.stage, EnvStage::Sustain);
    e.start_release();
    assert_eq!(e.stage, EnvStage::Release);
    let tail: Vec<u64> = (0..3).map(|_| e.value()).collect();
    assert_eq!(tail, vec![32768, 16384, 0]);
    assert_eq!(e.stage, EnvStage::Init);
    e.start_release();
    assert_eq!(e.stage, EnvStage::Release);
    let again = format!("{:?}", e);
    e.start_release();
    assert_eq!(format!("{:?}", e), again);
}

#[test]
fn cut_release_starts_at_current_level_and_falls() {
    let mut e = Envelope::new();
    e.attack = 0;
    e.decay = 0;
    e.sustain = 40000;
    e.release = 0;
    e.start_attack();
    assert_eq!(e.value(), 65536);
    assert_eq!(e.value(), 40000);
    assert_eq!(e.value(), 40000);
    e.release = 220;
    e.start_release();
    let levels: Vec<u64> = (0..222).map(|_| e.value()).collect();
    assert_eq!(levels[0], 40000);
    assert!(levels.windows(2).all(|w| w[1] <= w[0]));
    assert_eq!(levels[219], 40000 / 220);
    assert_eq!(levels[220], 0);
    assert_eq!(e.stage, EnvStage::Init);
}
