use std::collections::{HashMap, HashSet, VecDeque};

use audio_core::activity_tracker::ActivityTracker;
use audio_core::classification::{majority_vote, ClassificationResult};
use audio_core::control::{
    apply_saved_settings, display_order, mode_from_index, record_original_volumes,
    set_app_mode, set_app_user_volume, set_runtime, should_save, step_volume, volume_updates,
};
use audio_core::platform::{
    clamp_percent, parse_amixer_volume, parse_osascript_volume, parse_pactl_volume,
    FALLBACK_VOLUME,
};
use audio_core::priority::{
    base_volume_percent, duck_order, duck_step, effective_priority, find_voice, plan_ducking,
    recovery_done, DuckStep,
};
use audio_core::settings::{AppConfig, RuntimeSettings, Settings};
use audio_core::sound_mode::SoundMode;
use audio_core::sound_type::{AppSession, SoundType, SoundTypeBuffer};
use audio_core::text::{chars_of, decode_text, text_eq};
use audio_core::window::RecentValues;

fn session(pid: u32, name: &str, volume: i32, peak: i32, t: SoundType, m: SoundMode) -> AppSession {
    AppSession {
        pid,
        name: name.to_string(),
        volume,
        effective_volume: volume,
        is_muted: false,
        peak_level: peak,
        sound_type: t,
        sound_mode: m,
    }
}

#[test]
fn sound_mode_names_round_trip() {
    for m in [SoundMode::Auto, SoundMode::Voice, SoundMode::Music, SoundMode::Other] {
        assert_eq!(SoundMode::from_str(m.as_str()), Some(m));
    }
    assert_eq!(SoundMode::Auto.as_str(), "auto");
    assert_eq!(SoundMode::from_str("music"), Some(SoundMode::Music));
    assert_eq!(SoundMode::from_str("Music"), None);
    assert_eq!(SoundMode::from_str(""), None);
}

#[test]
fn sound_mode_base_priorities() {
    assert_eq!(SoundMode::Voice.base_priority(), 0);
    assert_eq!(SoundMode::Auto.base_priority(), 99);
    assert_eq!(SoundMode::Music.base_priority(), 10);
    assert_eq!(SoundMode::Other.base_priority(), -1);
}

#[test]
fn sound_type_names() {
    assert_eq!(SoundType::Silent.as_str(), "none");
    assert_eq!(SoundType::Voice.as_str(), "voice");
    assert_eq!(SoundType::Music.as_str(), "music");
    assert_eq!(SoundType::Noise.as_str(), "noise");
}

#[test]
fn window_keeps_newest_values() {
    let mut b = SoundTypeBuffer::new(1000, 200);
    assert_eq!(b.len(), 0);
    assert!(!b.is_full());
    assert_eq!(b.resolve(), SoundType::Silent);
    b.push(SoundType::Voice);
    for _ in 0..5 {
        b.push(SoundType::Noise);
    }
    assert_eq!(b.len(), 5);
    assert!(b.is_full());
    // the voice tick has left the window
    assert_eq!(b.resolve(), SoundType::Noise);
    b.push(SoundType::Music);
    assert_eq!(b.resolve(), SoundType::Music);
    b.push(SoundType::Voice);
    assert_eq!(b.resolve(), SoundType::Voice);
    assert_eq!(b.period_ms(), 1000);
}

#[test]
fn window_capacity_is_at_least_one() {
    let mut b = SoundTypeBuffer::new(100, 200);
    b.push(SoundType::Voice);
    b.push(SoundType::Music);
    assert_eq!(b.len(), 1);
    assert_eq!(b.resolve(), SoundType::Music);
}

#[test]
fn shorter_period_drops_oldest() {
    let mut b = SoundTypeBuffer::new(1000, 200);
    b.push(SoundType::Voice);
    b.push(SoundType::Noise);
    b.push(SoundType::Music);
    b.set_period_ms(400, 200);
    assert_eq!(b.period_ms(), 400);
    assert_eq!(b.len(), 2);
    assert!(b.is_full());
    assert_eq!(b.resolve(), SoundType::Music);
}

#[test]
fn vote_picks_most_frequent() {
    let h: VecDeque<SoundType> =
        vec![SoundType::Voice, SoundType::Music, SoundType::Voice].into_iter().collect();
    assert_eq!(
        majority_vote(&h),
        ClassificationResult {
            primary: SoundType::Voice,
            secondary: SoundType::Music,
            primary_votes: 2,
            secondary_votes: 1,
        }
    );
}

#[test]
fn vote_breaks_ties_in_type_order() {
    let h: VecDeque<SoundType> =
        vec![SoundType::Noise, SoundType::Music, SoundType::Noise, SoundType::Music].into_iter().collect();
    let r = majority_vote(&h);
    assert_eq!(r.primary, SoundType::Music);
    assert_eq!(r.secondary, SoundType::Noise);
    assert_eq!((r.primary_votes, r.secondary_votes), (2, 2));
    let one: VecDeque<SoundType> = vec![SoundType::Noise].into_iter().collect();
    let r = majority_vote(&one);
    assert_eq!((r.primary, r.secondary), (SoundType::Noise, SoundType::Silent));
    assert_eq!((r.primary_votes, r.secondary_votes), (1, 0));
}

#[test]
fn vote_on_empty_history() {
    let h: VecDeque<SoundType> = VecDeque::new();
    let r = majority_vote(&h);
    assert_eq!((r.primary, r.secondary), (SoundType::Silent, SoundType::Silent));
    assert_eq!((r.primary_votes, r.secondary_votes), (0, 0));
}

#[test]
fn priorities_by_mode_and_type() {
    assert_eq!(effective_priority(SoundMode::Other, SoundType::Voice), -1);
    assert_eq!(effective_priority(SoundMode::Voice, SoundType::Silent), 0);
    assert_eq!(effective_priority(SoundMode::Music, SoundType::Voice), 10);
    assert_eq!(effective_priority(SoundMode::Auto, SoundType::Voice), 1);
    assert_eq!(effective_priority(SoundMode::Auto, SoundType::Music), 10);
    assert_eq!(effective_priority(SoundMode::Auto, SoundType::Noise), 15);
    assert_eq!(effective_priority(SoundMode::Auto, SoundType::Silent), 20);
}

#[test]
fn ducking_order_is_stable_and_skips_other() {
    let s = vec![
        session(1, "a", 50, 10, SoundType::Music, SoundMode::Auto),
        session(2, "b", 50, 10, SoundType::Voice, SoundMode::Other),
        session(3, "c", 50, 10, SoundType::Music, SoundMode::Music),
        session(4, "d", 50, 10, SoundType::Voice, SoundMode::Auto),
        session(5, "e", 50, 10, SoundType::Silent, SoundMode::Voice),
    ];
    let order = duck_order(&s);
    assert_eq!(order, vec![(4, 0), (3, 1), (0, 10), (2, 10)]);
}

#[test]
fn voice_is_first_audible_speaker() {
    let s = vec![
        session(1, "quiet", 80, 0, SoundType::Voice, SoundMode::Auto),
        session(2, "music", 60, 30, SoundType::Music, SoundMode::Auto),
        session(3, "talk", 70, 0, SoundType::Music, SoundMode::Voice),
        session(4, "call", 90, 25, SoundType::Voice, SoundMode::Auto),
    ];
    let plan = plan_ducking(&s);
    assert_eq!(plan.order, vec![(2, 0), (0, 1), (3, 1), (1, 10)]);
    assert_eq!(plan.voice, Some((90, 25)));
    assert_eq!(find_voice(&s, &[(1, 10)]), None);
}

#[test]
fn duck_steps() {
    let settings = Settings::new();
    assert_eq!(duck_step(0, true, 0, &settings), DuckStep::Lead);
    assert_eq!(duck_step(1, true, 5000, &settings), DuckStep::Duck);
    assert_eq!(duck_step(1, false, 1000, &settings), DuckStep::Recover);
    assert_eq!(duck_step(1, false, 1001, &settings), DuckStep::Restore);
    assert!(!recovery_done(1000, &settings));
    assert!(recovery_done(1001, &settings));
}

#[test]
fn base_volume_prefers_user_setting() {
    let mut settings = Settings::new();
    let s = session(1, "player", 130, 10, SoundType::Music, SoundMode::Auto);
    assert_eq!(base_volume_percent(&settings, &s), 100);
    settings.get_or_default("player").user_volume = 40;
    assert_eq!(base_volume_percent(&settings, &s), 40);
    settings.get_or_default("player").user_volume = -3;
    assert_eq!(base_volume_percent(&settings, &s), 0);
}

#[test]
fn amixer_output_gives_volume() {
    let out = b"Simple mixer control 'Master',0\n  Capabilities: pvolume pswitch\n  Front Left: Playback 49152 [75%] [on]\n  Front Right: Playback 49152 [80%] [on]\n";
    assert_eq!(parse_amixer_volume(out), Some(75));
    assert_eq!(parse_amixer_volume(b"Mono: [abc%]\nMono: [150%]\r\n"), Some(100));
    assert_eq!(parse_amixer_volume(b"Mono: [-20%]"), Some(0));
    assert_eq!(parse_amixer_volume(b"no volume here\n[12 without percent\n"), None);
    assert_eq!(parse_amixer_volume(b""), None);
    assert_eq!(parse_amixer_volume(b"[+7%]"), Some(7));
    assert_eq!(parse_amixer_volume(b"[99999999999%]\n[33%]"), Some(33));
}

#[test]
fn amixer_output_must_be_utf8() {
    assert_eq!(parse_amixer_volume(b"\xff[50%]"), None);
    assert_eq!(parse_pactl_volume(b"\xffVolume: front-left: 1 / 50% / 0 dB"), None);
    assert_eq!(parse_osascript_volume(b"\xfe42"), None);
}

#[test]
fn pactl_output_gives_volume() {
    let out = b"Sink #0\n\tState: RUNNING\n\tVolume: front-left: 42598 /  65% / -11.23 dB,   front-right: 42598 /  65% / -11.23 dB\n";
    assert_eq!(parse_pactl_volume(out), Some(65));
    assert_eq!(parse_pactl_volume(b"Volume: mono: 1 / 50% / 0 dB\n"), None);
    assert_eq!(parse_pactl_volume(b"Volume: front-left 65536\nVolume: front-left: 1 / 120%%\n"), Some(100));
    assert_eq!(parse_pactl_volume(b"Volume: front-left: 1 /\xc2\xa0 30% \n"), Some(30));
}

#[test]
fn osascript_output_gives_volume() {
    assert_eq!(parse_osascript_volume(b" 37\n"), Some(37));
    assert_eq!(parse_osascript_volume(b"-5"), Some(0));
    assert_eq!(parse_osascript_volume(b"missing value\n"), None);
    assert_eq!(FALLBACK_VOLUME, 50);
    assert_eq!(clamp_percent(101), 100);
    assert_eq!(clamp_percent(55), 55);
}

#[test]
fn text_helpers() {
    assert!(text_eq("voice", "voice"));
    assert!(!text_eq("voice", "voic"));
    assert_eq!(chars_of("añb"), vec!['a', 'ñ', 'b']);
    assert_eq!(decode_text(b"h\xc3\xa9"), Some(vec!['h', 'é']));
    assert_eq!(decode_text(b"\xc3"), None);
}

#[test]
fn settings_defaults() {
    let s = Settings::default();
    assert!(!s.is_dirty());
    let rt = s.runtime();
    assert_eq!(rt.recovery_ms_u128(), 1000);
    assert_eq!(rt.active_peak_threshold_i32(), 3);
    assert_eq!(rt.inactivity_timeout_ms_u32(), 3000);
    let c = AppConfig::default();
    assert_eq!(c.process_name, "");
    assert_eq!(c.sound_mode, SoundMode::Auto);
    assert_eq!((c.user_volume, c.priority, c.original_volume), (100, 99, None));
}

#[test]
fn negative_runtime_values_wrap() {
    let mut rt = RuntimeSettings::default();
    rt.recovery_ms = -1;
    rt.inactivity_timeout_ms = -1;
    assert_eq!(rt.recovery_ms_u128(), u128::MAX);
    assert_eq!(rt.inactivity_timeout_ms_u32(), u32::MAX);
}

#[test]
fn get_or_default_creates_once() {
    let mut s = Settings::new();
    assert!(s.get("game").is_none());
    {
        let c = s.get_or_default("game");
        assert_eq!(c.process_name, "game");
        assert_eq!(c.user_volume, 100);
        c.user_volume = 30;
    }
    assert_eq!(s.get_or_default("game").user_volume, 30);
    assert_eq!(s.app_entries().len(), 1);
    assert!(!s.is_dirty());
    s.mark_dirty();
    assert!(s.is_dirty());
    s.mark_clean();
    assert!(!s.is_dirty());
}

#[test]
fn insert_app_replaces() {
    let mut s = Settings::new();
    let mut c = AppConfig::default();
    c.user_volume = 10;
    s.insert_app("x".to_string(), c.clone());
    c.user_volume = 20;
    s.insert_app("x".to_string(), c);
    assert_eq!(s.app_entries().len(), 1);
    assert_eq!(s.get("x").map(|c| c.user_volume), Some(20));
}

#[test]
fn restore_targets_follow_recorded_volumes() {
    let mut s = Settings::new();
    s.get_or_default("a").original_volume = Some(70);
    s.get_or_default("b");
    s.get_or_default("c").original_volume = Some(15);
    let active = vec![(3, "c".to_string()), (1, "a".to_string()), (2, "b".to_string()), (9, "z".to_string())];
    assert_eq!(s.restore_targets(&active), vec![(3, 15), (1, 70)]);
    s.restore_all(&active);
}

#[test]
fn user_commands_update_settings() {
    let mut s = Settings::new();
    set_app_mode(&mut s, "chat", SoundMode::Voice);
    assert!(s.is_dirty());
    let c = s.get("chat").unwrap();
    assert_eq!((c.sound_mode, c.priority, c.user_volume), (SoundMode::Voice, 0, 100));
    s.mark_clean();
    set_app_user_volume(&mut s, "chat", 250);
    assert!(s.is_dirty());
    let c = s.get("chat").unwrap();
    assert_eq!((c.sound_mode, c.user_volume), (SoundMode::Voice, 100));
    let mut rt = RuntimeSettings::default();
    rt.recovery_ms = 2500;
    set_runtime(&mut s, rt);
    assert_eq!(s.runtime().recovery_ms, 2500);
}

#[test]
fn mode_picker_and_volume_steps() {
    assert_eq!(mode_from_index(0), SoundMode::Auto);
    assert_eq!(mode_from_index(1), SoundMode::Voice);
    assert_eq!(mode_from_index(2), SoundMode::Music);
    assert_eq!(mode_from_index(3), SoundMode::Other);
    assert_eq!(mode_from_index(7), SoundMode::Auto);
    assert_eq!(step_volume(95, 10), 100);
    assert_eq!(step_volume(3, -5), 0);
    assert_eq!(step_volume(40, 5), 45);
}

#[test]
fn saving_waits_five_seconds() {
    assert!(!should_save(false, None));
    assert!(should_save(true, None));
    assert!(!should_save(true, Some(5)));
    assert!(should_save(true, Some(6)));
}

#[test]
fn saved_settings_apply_to_sessions() {
    let mut s = Settings::new();
    set_app_mode(&mut s, "music", SoundMode::Music);
    s.get_or_default("music").original_volume = Some(90);
    s.mark_clean();
    let mut sessions = vec![
        session(1, "music", 40, 5, SoundType::Music, SoundMode::Auto),
        session(2, "chat", 55, 5, SoundType::Voice, SoundMode::Other),
        session(3, "chat", 65, 5, SoundType::Voice, SoundMode::Auto),
    ];
    apply_saved_settings(&mut s, &mut sessions);
    assert!(s.is_dirty());
    assert_eq!(sessions[0].sound_mode, SoundMode::Music);
    assert_eq!(sessions[1].sound_mode, SoundMode::Auto);
    assert_eq!(sessions[2].sound_mode, SoundMode::Auto);
    assert_eq!(s.get("music").unwrap().original_volume, Some(90));
    assert_eq!(s.get("chat").unwrap().original_volume, Some(55));
    // nothing new to record the second time
    s.mark_clean();
    apply_saved_settings(&mut s, &mut sessions);
    assert!(!s.is_dirty());
}

#[test]
fn originals_recorded_once_per_pid() {
    let mut originals: HashMap<u32, (String, i32)> = HashMap::new();
    let mut names: HashMap<u32, String> = HashMap::new();
    originals.insert(7, ("old".to_string(), 12));
    let sessions = vec![
        session(7, "seven", 50, 1, SoundType::Music, SoundMode::Auto),
        session(8, "eight", 60, 1, SoundType::Music, SoundMode::Auto),
        session(8, "eight-again", 61, 1, SoundType::Music, SoundMode::Auto),
    ];
    record_original_volumes(&mut originals, &mut names, &sessions);
    assert_eq!(originals.get(&7), Some(&("old".to_string(), 12)));
    assert_eq!(originals.get(&8), Some(&("eight".to_string(), 60)));
    assert_eq!(names.get(&8), Some(&"eight".to_string()));
    assert_eq!(names.get(&7), None);
}

#[test]
fn volume_updates_skip_other_and_unchanged() {
    let sessions = vec![
        session(1, "a", 50, 1, SoundType::Music, SoundMode::Auto),
        session(2, "b", 50, 1, SoundType::Music, SoundMode::Other),
        session(3, "c", 30, 1, SoundType::Music, SoundMode::Auto),
        session(4, "d", 30, 1, SoundType::Music, SoundMode::Auto),
    ];
    let mut targets = HashMap::new();
    targets.insert(1, 20);
    targets.insert(2, 10);
    targets.insert(3, 30);
    assert_eq!(volume_updates(&sessions, &targets), vec![(1, 20)]);
}

#[test]
fn display_puts_excluded_last() {
    let sessions = vec![
        session(1, "a", 50, 1, SoundType::Music, SoundMode::Other),
        session(2, "b", 50, 1, SoundType::Silent, SoundMode::Auto),
        session(3, "c", 50, 1, SoundType::Music, SoundMode::Voice),
        session(4, "d", 50, 1, SoundType::Music, SoundMode::Other),
    ];
    let order: Vec<usize> = display_order(&sessions).into_iter().map(|(i, _)| i).collect();
    assert_eq!(order, vec![2, 1, 0, 3]);
}

#[test]
fn activity_lasts_for_timeout() {
    let settings = Settings::new();
    let mut t = ActivityTracker::new(&settings);
    let ms = 1_000_000u128;
    assert!(!t.is_active_at(5, 1, 3, 0));
    assert!(t.is_active_at(5, 10, 3, 100 * ms));
    assert!(t.is_active_at(5, 0, 3, 3099 * ms));
    assert!(!t.is_active_at(5, 0, 3, 3100 * ms));
    // forgotten once timed out
    assert!(!t.is_active_at(5, 0, 3, 3101 * ms));
    assert!(t.is_active(6, 50, 3));
    assert!(t.is_active(6, 0, 3));
}

#[test]
fn activity_cleanup_and_timeout_update() {
    let mut settings = Settings::new();
    let mut t = ActivityTracker::new(&settings);
    assert!(t.is_active_at(1, 10, 3, 0));
    assert!(t.is_active_at(2, 10, 3, 0));
    let mut keep = HashSet::new();
    keep.insert(2u32);
    t.cleanup(&keep);
    assert!(!t.is_active_at(1, 0, 3, 1));
    assert!(t.is_active_at(2, 0, 3, 1));
    let mut rt = RuntimeSettings::default();
    rt.inactivity_timeout_ms = 10;
    set_runtime(&mut settings, rt);
    t.update_timeout(&settings);
    assert!(!t.is_active_at(2, 0, 3, 10_000_000));
}

#[test]
fn recent_values_slide() {
    let mut w: RecentValues<i32> = RecentValues::new(2);
    assert!(w.is_empty());
    w.push(1);
    w.push(2);
    w.push(3);
    assert_eq!(w.to_vec(), vec![2, 3]);
    assert_eq!(w.len(), 2);
    w.clear();
    assert!(w.is_empty());
    let mut z: RecentValues<u8> = RecentValues::new(0);
    z.push(7);
    z.push(9);
    assert_eq!(z.to_vec(), vec![9]);
}
