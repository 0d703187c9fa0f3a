//! Voice allocation, stealing and caps.

use dimetric::audio::{Bus, Device, Rejected, Voice, VoicePool};

fn voice(clip: &str, priority: u8) -> Voice {
    Voice {
        clip: clip.into(),
        bus: Bus::Sfx,
        volume_db_bits: 0.0f32.to_bits(),
        pitch_bits: 1.0f32.to_bits(),
        pan_bits: 0.0f32.to_bits(),
        priority,
        handle: 0,
        age: 0,
    }
}

#[test]
fn a_clip_cannot_flood_the_pool() {
    let mut pool = VoicePool::new(32, 3);
    for _ in 0..3 {
        assert!(pool.play(voice("impact", 1)).is_ok());
    }
    assert_eq!(pool.play(voice("impact", 1)), Err(Rejected::ClipCapReached));
    // Other clips are unaffected: the cap is per clip, not a global limit.
    assert!(pool.play(voice("cast", 1)).is_ok());
}

#[test]
fn voices_a_full_pool_steals_the_oldest_lowest_priority_voice() {
    let mut pool = VoicePool::new(2, 8);
    let quiet = pool.play(voice("footstep", 1)).unwrap();
    pool.age();
    pool.age();
    let loud = pool.play(voice("roar", 5)).unwrap();
    pool.age();

    // A new high-priority sound evicts the footstep, not the roar.
    let new = pool.play(voice("thunder", 5)).unwrap();
    let clips: Vec<&str> = pool.voices().iter().map(|v| v.clip.as_str()).collect();
    assert!(clips.contains(&"roar"), "higher priority survives: {clips:?}");
    assert!(!clips.contains(&"footstep"));
    assert_ne!(new, quiet);
    assert_ne!(new, loud);
}

#[test]
fn a_low_priority_sound_cannot_evict_a_high_priority_one() {
    let mut pool = VoicePool::new(1, 8);
    pool.play(voice("boss_roar", 9)).unwrap();
    assert_eq!(
        pool.play(voice("footstep", 1)),
        Err(Rejected::NoVoiceAvailable),
        "a footstep must not cut off the boss"
    );
}

#[test]
fn stopping_frees_a_slot() {
    let mut pool = VoicePool::new(1, 8);
    let handle = pool.play(voice("hum", 1)).unwrap();
    assert!(pool.stop(handle));
    assert!(pool.is_empty());
    assert!(pool.play(voice("hum", 1)).is_ok());
    assert!(!pool.stop(handle), "stopping twice is not an error, just false");
}

#[test]
fn a_bus_can_be_silenced_without_touching_the_others() {
    let mut pool = VoicePool::new(8, 8);
    let mut music = voice("theme", 1);
    music.bus = Bus::Music;
    pool.play(music).unwrap();
    pool.play(voice("hit", 1)).unwrap();
    pool.stop_bus(Bus::Music);
    assert_eq!(pool.len(), 1);
    assert_eq!(pool.voices()[0].clip, "hit");
}

#[test]
fn the_headless_backend_is_what_a_default_device_opens() {
    let backend = Device::default().open();
    assert_eq!(backend.name(), "mock", "no device I/O in a headless run");
}

#[test]
fn handles_are_handed_out_in_order_from_one() {
    let mut pool = VoicePool::new(4, 4);
    assert_eq!(pool.play(voice("a", 1)), Ok(1));
    assert_eq!(pool.play(voice("b", 1)), Ok(2));
    assert_eq!(pool.voices()[1].handle, 2);
}

#[test]
fn a_full_pool_of_equal_priority_steals_the_oldest() {
    let mut pool = VoicePool::new(2, 8);
    pool.play(voice("first", 3)).unwrap();
    pool.age();
    pool.play(voice("second", 3)).unwrap();
    pool.play(voice("third", 3)).unwrap();
    let clips: Vec<&str> = pool.voices().iter().map(|v| v.clip.as_str()).collect();
    assert_eq!(clips.len(), 2);
    assert!(!clips.contains(&"first"));
}

#[test]
fn ageing_counts_every_voice_up() {
    let mut pool = VoicePool::new(4, 4);
    pool.play(voice("a", 1)).unwrap();
    pool.age();
    pool.age();
    assert_eq!(pool.voices()[0].age, 2);
}

#[test]
fn bus_gain_is_kept_per_bus() {
    let mut pool = VoicePool::new(4, 4);
    pool.set_gain_bits(Bus::Sfx, 0.5f32.to_bits());
    assert_eq!(pool.gain_bits(Bus::Sfx), 0.5f32.to_bits());
    assert_eq!(pool.gain_bits(Bus::Music), 1.0f32.to_bits());
}
