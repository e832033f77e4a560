use sampler::envelope::EnvStage;
use sampler::event::{Event, EventType};
use sampler::param::SamplerParam;
use sampler::sampler::{LoadError, Sampler, VoiceState, STOP_FRAMES};

fn four_frame_store(num_voices: usize) -> Sampler {
    let pcm = vec![10000, -10000, 20000, -20000, 5000, -5000, 0, 0];
    Sampler::from_pcm(num_voices, &pcm, 2, 16, 44100).unwrap()
}

fn long_store(num_voices: usize, frames: usize) -> Sampler {
    let pcm: Vec<i32> = (0..frames).map(|i| 1000 + (i as i32 % 7) * 100).collect();
    Sampler::from_pcm(num_voices, &pcm, 1, 16, 44100).unwrap()
}

fn busy_columns(s: &Sampler) -> Vec<usize> {
    s.voices
        .iter()
        .filter(|v| v.state == VoiceState::Busy)
        .map(|v| v.column)
        .collect()
}

#[test]
fn end_to_end_note_render_release() {
    let mut s = four_frame_store(8);
    assert_eq!(s.get_param(SamplerParam::Offset), 0);
    s.send_event(0, &EventType::NoteOn { pitch: 48 });
    assert_eq!(s.busy_voices(), 1);
    assert_eq!(s.voices[0].state, VoiceState::Busy);
    assert_eq!(s.voices[0].pitch_ratio, 65536);

    let mut buf: Vec<(i128, i128)> = vec![(0, 0); 2];
    s.render(&mut buf);
    // Attack of 5 ms = 220 frames: levels 0 then 65536 / 220.
    let lvl1: i128 = 65536 / 220;
    assert_eq!(buf[0], (0, 0));
    assert_eq!(buf[1], (20000 * 65536 * lvl1, -20000 * 65536 * lvl1));
    assert_eq!(s.voices[0].position, 2 * 65536);

    s.send_event(0, &EventType::NoteOff { pitch: 48 });
    assert_eq!(s.voices[0].env.stage, EnvStage::Release);

    let mut buf2: Vec<(i128, i128)> = vec![(0, 0); 2];
    s.render(&mut buf2);
    let mut buf3: Vec<(i128, i128)> = vec![(0, 0); 2];
    s.render(&mut buf3);
    assert_eq!(s.voices[0].state, VoiceState::Free);
    assert_eq!(s.voices[0].position, 0);
    assert_eq!(s.busy_voices(), 0);
}

#[test]
fn render_accumulates_into_buffer() {
    let mut s = four_frame_store(2);
    s.send_event(0, &EventType::NoteOn { pitch: 48 });
    let mut buf: Vec<(i128, i128)> = vec![(5, -5); 2];
    s.render(&mut buf);
    let lvl1: i128 = 65536 / 220;
    assert_eq!(buf[0], (5, -5));
    assert_eq!(buf[1], (5 + 20000 * 65536 * lvl1, -5 - 20000 * 65536 * lvl1));
}

#[test]
fn envelope_rest_retires_voice_to_offset() {
    let mut s = long_store(4, 100);
    s.send_event(3, &EventType::NoteOn { pitch: 48 });
    s.send_event(3, &EventType::NoteOff { pitch: 48 });
    let mut buf: Vec<(i128, i128)> = vec![(0, 0); 4];
    s.render(&mut buf);
    // Release of 0 frames: the first step brings the envelope to rest.
    assert_eq!(s.voices[0].env.stage, EnvStage::Init);
    assert_eq!(s.voices[0].state, VoiceState::Busy);
    s.render(&mut buf);
    assert_eq!(s.voices[0].state, VoiceState::Free);
    assert_eq!(s.voices[0].position, 0);
}

#[test]
fn voice_exhaustion_drops_second_note() {
    let mut s = four_frame_store(1);
    s.send_event(0, &EventType::NoteOn { pitch: 48 });
    s.send_event(1, &EventType::NoteOn { pitch: 50 });
    assert_eq!(s.busy_voices(), 1);
    assert_eq!(busy_columns(&s), vec![0]);
    assert_eq!(s.voices[0].pitch, 48);
}

#[test]
fn pool_never_exceeds_its_size() {
    let mut s = four_frame_store(3);
    for column in 0..10 {
        s.send_event(column, &EventType::NoteOn { pitch: 48 + column as i32 });
        assert!(s.busy_voices() <= 3);
    }
    assert_eq!(s.voices.len(), 3);
    assert_eq!(busy_columns(&s), vec![0, 1, 2]);
}

#[test]
fn note_on_same_column_releases_previous_voice() {
    let mut s = long_store(2, 2000);
    s.send_event(0, &EventType::NoteOn { pitch: 48 });
    s.send_event(0, &EventType::NoteOn { pitch: 48 });
    assert_eq!(s.voices[0].env.stage, EnvStage::Release);
    assert_eq!(s.voices[0].env.release, STOP_FRAMES);
    assert_eq!(s.voices[1].state, VoiceState::Busy);
    assert_eq!(s.voices[1].env.stage, EnvStage::Attack);
    let mut buf: Vec<(i128, i128)> = vec![(0, 0); 300];
    s.render(&mut buf);
    s.render(&mut buf);
    assert_eq!(s.voices[0].state, VoiceState::Free);
    assert_eq!(s.voices[1].state, VoiceState::Busy);
}

#[test]
fn note_off_twice_changes_nothing_the_second_time() {
    let mut s = long_store(2, 100);
    s.send_event(0, &EventType::NoteOn { pitch: 48 });
    let mut buf: Vec<(i128, i128)> = vec![(0, 0); 3];
    s.render(&mut buf);
    s.note_off(0, 48);
    let once = format!("{:?}", s.voices);
    s.note_off(0, 48);
    assert_eq!(format!("{:?}", s.voices), once);
    assert_eq!(s.voices[0].env.stage, EnvStage::Release);
}

#[test]
fn unmatched_note_off_and_empty_event_are_ignored() {
    let mut s = four_frame_store(2);
    s.send_event(0, &EventType::NoteOn { pitch: 48 });
    let before = format!("{:?}", s.voices);
    s.send_event(0, &EventType::NoteOff { pitch: 47 });
    s.send_event(1, &EventType::NoteOff { pitch: 48 });
    s.send_event(0, &EventType::Empty);
    assert_eq!(format!("{:?}", s.voices), before);
}

#[test]
fn two_frame_store_interpolates_at_half_speed() {
    let pcm = vec![1000, 3000, 5000, 7000];
    let mut s = Sampler::from_pcm(1, &pcm, 2, 16, 44100).unwrap();
    s.set_param(SamplerParam::Attack, 0);
    s.send_event(0, &EventType::NoteOn { pitch: 36 });
    assert_eq!(s.voices[0].pitch_ratio, 32768);
    let mut buf: Vec<(i128, i128)> = vec![(0, 0); 3];
    s.render(&mut buf);
    let full: i128 = 65536;
    assert_eq!(buf[0], (1000 * 65536 * full, 3000 * 65536 * full));
    assert_eq!(buf[1], (3000 * 65536 * full, 5000 * 65536 * full));
    assert_eq!(buf[2], (0, 0));
    assert_eq!(s.voices[0].state, VoiceState::Free);
}

#[test]
fn onset_of_silent_audio_is_its_length() {
    let pcm = vec![0; 10];
    let s = Sampler::from_pcm(1, &pcm, 2, 16, 44100).unwrap();
    assert_eq!(s.get_param(SamplerParam::Offset), 5 * 1000);
}

#[test]
fn onset_of_single_loud_sample() {
    let mut pcm = vec![0; 12];
    pcm[7] = 20000;
    let s = Sampler::from_pcm(1, &pcm, 1, 16, 44100).unwrap();
    assert_eq!(s.get_param(SamplerParam::Offset), 7 * 1000);
    let p = &s.params()[1].1;
    assert_eq!(p.min, 7000);
    assert_eq!(p.default, 7000);
    assert!(s.voices.iter().all(|v| v.position == 7 * 65536));
}

#[test]
fn first_note_plays_from_the_onset() {
    let pcm = vec![0, 0, 0, 4000, 8000, 12000];
    let mut s = Sampler::from_pcm(2, &pcm, 1, 16, 44100).unwrap();
    s.set_param(SamplerParam::Attack, 0);
    s.send_event(0, &EventType::NoteOn { pitch: 48 });
    let mut buf: Vec<(i128, i128)> = vec![(0, 0); 1];
    s.render(&mut buf);
    assert_eq!(buf[0], (4000 * 65536 * 65536, 4000 * 65536 * 65536));
}

#[test]
fn note_on_cuts_a_busy_voice_whose_envelope_rested() {
    let mut s = long_store(2, 100);
    s.send_event(0, &EventType::NoteOn { pitch: 48 });
    s.send_event(0, &EventType::NoteOff { pitch: 48 });
    let mut buf: Vec<(i128, i128)> = vec![(0, 0); 2];
    s.render(&mut buf);
    assert_eq!(s.voices[0].env.stage, EnvStage::Init);
    assert_eq!(s.voices[0].state, VoiceState::Busy);
    s.send_event(0, &EventType::NoteOn { pitch: 50 });
    assert_eq!(s.voices[0].env.stage, EnvStage::Release);
    assert_eq!(s.voices[0].env.release, STOP_FRAMES);
    assert_eq!(s.voices[1].state, VoiceState::Busy);
    assert_eq!(s.voices[1].pitch, 50);
}

#[test]
fn onset_threshold_is_one_hundredth_of_full_scale() {
    // 16-bit full scale is 32768; one hundredth is 327.68.
    let s = Sampler::from_pcm(1, &vec![327, -327, 328, 0], 1, 16, 44100).unwrap();
    assert_eq!(s.get_param(SamplerParam::Offset), 2000);
    let s = Sampler::from_pcm(1, &vec![0, -328, 0, 0], 1, 16, 44100).unwrap();
    assert_eq!(s.get_param(SamplerParam::Offset), 1000);
}

#[test]
fn load_errors() {
    assert_eq!(Sampler::from_pcm(1, &vec![0; 4], 0, 16, 44100).err(), Some(LoadError::NoChannels));
    assert_eq!(Sampler::from_pcm(1, &vec![0; 4], 1, 0, 44100).err(), Some(LoadError::BadBitDepth));
    assert_eq!(Sampler::from_pcm(1, &vec![0; 4], 1, 33, 44100).err(), Some(LoadError::BadBitDepth));
    assert_eq!(Sampler::from_pcm(1, &vec![0; 2], 2, 16, 44100).err(), Some(LoadError::TooShort));
    assert_eq!(Sampler::from_pcm(1, &vec![], 1, 16, 44100).err(), Some(LoadError::TooShort));
}

#[test]
fn frames_from_mono_and_multichannel_audio() {
    let s = Sampler::from_pcm(1, &vec![1, 2, 3], 1, 16, 44100).unwrap();
    assert_eq!(s.samples.len(), 3);
    assert_eq!((s.samples[1].left, s.samples[1].right), (2, 2));
    let s = Sampler::from_pcm(1, &vec![1, 2, 3, 4, 5, 6, 7], 3, 16, 44100).unwrap();
    assert_eq!(s.samples.len(), 3);
    assert_eq!((s.samples[0].left, s.samples[0].right), (1, 2));
    assert_eq!((s.samples[1].left, s.samples[1].right), (4, 5));
    assert_eq!((s.samples[2].left, s.samples[2].right), (7, 7));
}

#[test]
fn params_are_listed_in_key_order() {
    let mut s = four_frame_store(1);
    let list = s.params();
    let keys: Vec<SamplerParam> = list.iter().map(|(k, _)| *k).collect();
    assert_eq!(
        keys,
        vec![
            SamplerParam::Amp,
            SamplerParam::Offset,
            SamplerParam::Attack,
            SamplerParam::Decay,
            SamplerParam::Sustain,
            SamplerParam::Release
        ]
    );
    assert_eq!(list[0].1.val, -6000);
    assert_eq!(list[0].1.min, -75000);
    assert_eq!(list[3].1.default, 250);
    s.set_param(SamplerParam::Decay, 1234);
    assert_eq!(s.get_param(SamplerParam::Decay), 1234);
    assert_eq!(s.params()[3].1.default, 250);
    assert_eq!(SamplerParam::Sustain.name(), "Sustain");
    assert_eq!(SamplerParam::Amp.name(), "Amp");
}

#[test]
fn note_on_reads_envelope_controls() {
    let mut s = four_frame_store(1);
    s.set_param(SamplerParam::Attack, 10);
    s.set_param(SamplerParam::Decay, 20);
    s.set_param(SamplerParam::Sustain, 500);
    s.set_param(SamplerParam::Release, 1000);
    s.send_event(2, &EventType::NoteOn { pitch: 60 });
    let v = &s.voices[0];
    assert_eq!(v.env.attack, 441);
    assert_eq!(v.env.decay, 882);
    assert_eq!(v.env.sustain, 32768);
    assert_eq!(v.env.release, 44100);
    assert_eq!(v.pitch_ratio, 131072);
    assert_eq!(v.column, 2);
}

#[test]
fn event_keeps_its_position() {
    let e = Event::new(960, EventType::NoteOn { pitch: 50 });
    assert_eq!(e.pos, 960);
    assert_eq!(e.kind, EventType::NoteOn { pitch: 50 });
}
