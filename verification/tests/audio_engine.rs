use nae::AudioContext;
use nae::AudioSource;
use nae::DecodeError;
use nae::DeviceError;
use nae::PlayEffect;
use nae::VOLUME_UNIT;

/// A minimal valid WAV file: mono, 16-bit PCM, 8 kHz, 0.2 s of silence.
fn wav_bytes() -> Vec<u8> {
    let sample_count: u32 = 1600;
    let data_size: u32 = sample_count * 2;
    let mut v: Vec<u8> = Vec::new();
    v.extend_from_slice(b"RIFF");
    v.extend_from_slice(&(36 + data_size).to_le_bytes());
    v.extend_from_slice(b"WAVE");
    v.extend_from_slice(b"fmt ");
    v.extend_from_slice(&16u32.to_le_bytes());
    v.extend_from_slice(&1u16.to_le_bytes()); // PCM
    v.extend_from_slice(&1u16.to_le_bytes()); // mono
    v.extend_from_slice(&8000u32.to_le_bytes()); // sample rate
    v.extend_from_slice(&16000u32.to_le_bytes()); // byte rate
    v.extend_from_slice(&2u16.to_le_bytes()); // block align
    v.extend_from_slice(&16u16.to_le_bytes()); // bits per sample
    v.extend_from_slice(b"data");
    v.extend_from_slice(&data_size.to_le_bytes());
    for _ in 0..sample_count {
        v.extend_from_slice(&0i16.to_le_bytes());
    }
    v
}

#[test]
fn from_bytes_accepts_wav() {
    let bytes = wav_bytes();
    let source = AudioSource::from_bytes(&bytes).unwrap();
    assert_eq!(source.as_bytes(), &bytes[..]);
}

#[test]
fn from_bytes_rejects_garbage() {
    let garbage: Vec<u8> = vec![0x13, 0x37, 0x00, 0xFF, 0x42, 0x99, 0x01];
    let r = AudioSource::from_bytes(&garbage);
    assert_eq!(r.unwrap_err(), DecodeError);
}

#[test]
fn new_without_device_fails() {
    let r = AudioContext::new(false);
    assert_eq!(r.unwrap_err(), DeviceError);
}

#[test]
fn new_context_is_at_full_volume_and_empty() {
    let ctx = AudioContext::new(true).unwrap();
    assert_eq!(ctx.volume(), VOLUME_UNIT);
    assert_eq!(ctx.registry_len(), 0);
}

#[test]
fn context_set_volume_clamps() {
    let mut ctx = AudioContext::new(true).unwrap();
    ctx.set_volume(1500);
    assert_eq!(ctx.volume(), 1000);
    ctx.set_volume(-5);
    assert_eq!(ctx.volume(), 0);
    ctx.set_volume(250);
    assert_eq!(ctx.volume(), 250);
}

#[test]
fn instance_set_volume_clamps() {
    let source = AudioSource::from_bytes(&wav_bytes()).unwrap();
    let mut ctx = AudioContext::new(true).unwrap();
    let i = ctx.instance(&source);
    assert_eq!(i.volume(&ctx), VOLUME_UNIT);
    i.set_volume(&mut ctx, 2000);
    assert_eq!(i.volume(&ctx), 1000);
    i.set_volume(&mut ctx, -1);
    assert_eq!(i.volume(&ctx), 0);
    i.set_volume(&mut ctx, 125);
    assert_eq!(i.volume(&ctx), 125);
}

#[test]
fn play_starts_a_fresh_voice_at_effective_gain() {
    let source = AudioSource::from_bytes(&wav_bytes()).unwrap();
    let mut ctx = AudioContext::new(true).unwrap();
    let i = ctx.instance(&source);
    assert!(!i.is_playing(&ctx));
    assert_eq!(i.applied_gain(&ctx), None);
    let eff = i.play(&mut ctx);
    assert_eq!(eff, PlayEffect::Started { gain: 1_000_000 });
    assert!(i.is_playing(&ctx));
    assert_eq!(i.applied_gain(&ctx), Some(1_000_000));
}

#[test]
fn play_while_playing_is_a_no_op() {
    let source = AudioSource::from_bytes(&wav_bytes()).unwrap();
    let mut ctx = AudioContext::new(true).unwrap();
    let i = ctx.instance(&source);
    let first = i.play(&mut ctx);
    assert!(matches!(first, PlayEffect::Started { .. }));
    let second = i.play(&mut ctx);
    assert_eq!(second, PlayEffect::AlreadyPlaying);
    assert!(i.is_playing(&ctx));
    assert_eq!(i.applied_gain(&ctx), Some(1_000_000));
}

#[test]
fn pause_then_play_resumes_without_a_decode() {
    let source = AudioSource::from_bytes(&wav_bytes()).unwrap();
    let mut ctx = AudioContext::new(true).unwrap();
    let i = ctx.instance(&source);
    assert!(matches!(i.play(&mut ctx), PlayEffect::Started { .. }));
    i.pause(&mut ctx);
    assert!(i.is_paused(&ctx));
    assert!(!i.is_playing(&ctx));
    let eff = i.play(&mut ctx);
    assert_eq!(eff, PlayEffect::Resumed);
    assert!(i.is_playing(&ctx));
    assert!(!i.is_paused(&ctx));
}

#[test]
fn stop_then_play_decodes_afresh() {
    let source = AudioSource::from_bytes(&wav_bytes()).unwrap();
    let mut ctx = AudioContext::new(true).unwrap();
    let i = ctx.instance(&source);
    assert!(matches!(i.play(&mut ctx), PlayEffect::Started { .. }));
    i.stop(&mut ctx);
    assert!(!i.is_playing(&ctx));
    assert!(!i.is_paused(&ctx));
    let eff = i.play(&mut ctx);
    assert!(matches!(eff, PlayEffect::Started { .. }));
}

#[test]
fn pause_on_stopped_instance_does_nothing() {
    let source = AudioSource::from_bytes(&wav_bytes()).unwrap();
    let mut ctx = AudioContext::new(true).unwrap();
    let i = ctx.instance(&source);
    i.pause(&mut ctx);
    assert!(!i.is_paused(&ctx));
    assert!(!i.is_playing(&ctx));
}

#[test]
fn toggle_play_alternates() {
    let source = AudioSource::from_bytes(&wav_bytes()).unwrap();
    let mut ctx = AudioContext::new(true).unwrap();
    let i = ctx.instance(&source);
    let eff = i.toggle_play(&mut ctx);
    assert!(matches!(eff, Some(PlayEffect::Started { .. })));
    assert!(i.is_playing(&ctx));
    let eff = i.toggle_play(&mut ctx);
    assert_eq!(eff, None);
    assert!(!i.is_playing(&ctx));
    // from paused, toggling resumes rather than stopping
    i.play(&mut ctx);
    i.pause(&mut ctx);
    let eff = i.toggle_play(&mut ctx);
    assert_eq!(eff, Some(PlayEffect::Resumed));
    assert!(i.is_playing(&ctx));
}

#[test]
fn volume_changes_reach_the_active_voice_immediately() {
    let source = AudioSource::from_bytes(&wav_bytes()).unwrap();
    let mut ctx = AudioContext::new(true).unwrap();
    let i = ctx.instance(&source);
    assert!(matches!(i.play(&mut ctx), PlayEffect::Started { .. }));
    ctx.set_volume(500);
    assert_eq!(i.applied_gain(&ctx), Some(500_000));
    i.set_volume(&mut ctx, 200);
    assert_eq!(i.applied_gain(&ctx), Some(100_000));
    i.set_volume(&mut ctx, 0);
    assert_eq!(i.applied_gain(&ctx), Some(0));
}

#[test]
fn end_to_end_instance_lifecycle() {
    let source = AudioSource::from_bytes(&wav_bytes()).unwrap();
    let mut ctx = AudioContext::new(true).unwrap();
    let i = ctx.instance(&source);
    let eff = i.play(&mut ctx);
    assert_eq!(eff, PlayEffect::Started { gain: 1_000_000 });
    assert!(i.is_playing(&ctx));
    ctx.set_volume(500);
    assert_eq!(i.applied_gain(&ctx), Some(500 * i.volume(&ctx)));
    i.set_volume(&mut ctx, 200);
    assert_eq!(i.applied_gain(&ctx), Some(100_000));
    i.stop(&mut ctx);
    assert!(!i.is_playing(&ctx));
    let eff = i.play(&mut ctx);
    assert_eq!(eff, PlayEffect::Started { gain: 200 * 500 });
}

#[test]
fn own_volume_persists_across_stop() {
    let source = AudioSource::from_bytes(&wav_bytes()).unwrap();
    let mut ctx = AudioContext::new(true).unwrap();
    let i = ctx.instance(&source);
    i.set_volume(&mut ctx, 300);
    i.play(&mut ctx);
    i.stop(&mut ctx);
    assert_eq!(i.volume(&ctx), 300);
    let eff = i.play(&mut ctx);
    assert_eq!(eff, PlayEffect::Started { gain: 300_000 });
}

#[test]
fn instance_observes_global_volume_at_creation() {
    let source = AudioSource::from_bytes(&wav_bytes()).unwrap();
    let mut ctx = AudioContext::new(true).unwrap();
    ctx.set_volume(600);
    let i = ctx.instance(&source);
    let eff = i.play(&mut ctx);
    assert_eq!(eff, PlayEffect::Started { gain: 600_000 });
}

#[test]
fn tick_prunes_exactly_the_dropped_instance() {
    let source = AudioSource::from_bytes(&wav_bytes()).unwrap();
    let mut ctx = AudioContext::new(true).unwrap();
    let a = ctx.instance(&source);
    let b = ctx.instance(&source);
    assert_eq!(ctx.registry_len(), 2);
    a.play(&mut ctx);
    let released = ctx.drop_handle(a);
    assert!(released);
    // the dangling registration neither panics nor errors the cascade
    ctx.set_volume(300);
    assert_eq!(b.volume(&ctx), VOLUME_UNIT);
    assert_eq!(ctx.registry_len(), 2);
    ctx.tick();
    assert_eq!(ctx.registry_len(), 1);
    assert!(!b.is_playing(&ctx));
    b.play(&mut ctx);
    assert_eq!(b.applied_gain(&ctx), Some(300_000));
}

#[test]
fn cloned_handles_share_one_instance() {
    let source = AudioSource::from_bytes(&wav_bytes()).unwrap();
    let mut ctx = AudioContext::new(true).unwrap();
    let i = ctx.instance(&source);
    let j = ctx.clone_handle(&i);
    assert_eq!(j, i);
    i.set_volume(&mut ctx, 400);
    assert_eq!(j.volume(&ctx), 400);
    let released = ctx.drop_handle(j);
    assert!(!released);
    assert_eq!(i.volume(&ctx), 400);
    let released = ctx.drop_handle(i);
    assert!(released);
}

#[test]
fn slots_are_reused_with_a_new_generation() {
    let source = AudioSource::from_bytes(&wav_bytes()).unwrap();
    let mut ctx = AudioContext::new(true).unwrap();
    let a = ctx.instance(&source);
    ctx.drop_handle(a);
    let b = ctx.instance(&source);
    ctx.tick();
    assert_eq!(ctx.registry_len(), 1);
    assert!(!b.is_playing(&ctx));
}

#[test]
fn source_bytes_are_those_of_the_instanced_source() {
    let bytes = wav_bytes();
    let source = AudioSource::from_bytes(&bytes).unwrap();
    let mut ctx = AudioContext::new(true).unwrap();
    let i = ctx.instance(&source);
    assert_eq!(&i.source_bytes(&ctx)[..], &bytes[..]);
}
