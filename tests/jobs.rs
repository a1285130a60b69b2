use voicereader::config::{normalize_yaml_path, rewrite_config_paths, yaml_quote_path};
use voicereader::job::{
    is_terminal_event, job_text_chunks, relay_step, tempo_command_args, JobRegistry,
    RelayAction, RemoteMessage, SynthesisRun,
};
use voicereader::voice::{
    check_voice_deletable, cloned_voice_meta, is_default_voice, updated_voice_meta,
    voice_state_key,
};
use voicereader::job::check_speak_request;
use voicereader::settings::BuildVariant;
use voicereader::{ErrorKind, LocalJobEndState};

const SCENARIO_TEXT: &str = "Hello world. This is a test of the reading pipeline, which should split into more than one chunk because it exceeds the first-chunk limit of two hundred characters once extended with enough padding words to push past that boundary reliably.";

fn scenario_chunks() -> Vec<String> {
    let split = vec![
        "Hello world.".to_string(),
        "This is a test of the reading pipeline, which should split into more than one chunk because it exceeds the first-chunk limit of two hundred characters once extended with enough padding words to push past that boundary reliably.".to_string(),
    ];
    job_text_chunks(split, SCENARIO_TEXT, 200)
}

fn block() -> Vec<i32> {
    vec![100_000, -250_000, 500_000, 0]
}

#[test]
fn scenario_job_completes_with_increasing_indices() {
    let chunks = scenario_chunks();
    assert!(chunks.len() >= 2);
    assert!(chunks[0].chars().count() <= 200);
    let mut run = SynthesisRun::new(1000, 1000, false);
    let mut indices = Vec::new();
    for _chunk in &chunks {
        assert!(!run.checkpoint(false));
        for _ in 0..2 {
            assert!(!run.checkpoint(false));
            if let Some(c) = run.direct_audio(&block()) {
                assert_eq!(c.samples, vec![3277, -8192, 16384, 0]);
                indices.push(c.chunk_index);
            }
        }
    }
    let (tail, end) = run.finish(false);
    assert!(tail.is_none());
    assert_eq!(end, LocalJobEndState::Done);
    assert_eq!(indices, (0..2 * chunks.len()).collect::<Vec<_>>());
}

#[test]
fn scenario_cancel_at_once() {
    let mut reg = JobRegistry::new();
    let (id, superseded) = reg.start_job();
    assert!(!superseded);
    assert_eq!(id.len(), 36);
    let canceled = reg.request_cancel();
    assert_eq!(canceled.as_deref(), Some(id.as_str()));
    assert!(reg.is_job_suppressed(&id));
    assert!(reg.is_cancel_requested());
    assert!(reg.active_job().is_none());

    let chunks = scenario_chunks();
    let mut run = SynthesisRun::new(1000, 1000, false);
    let mut delivered = 0;
    for _chunk in &chunks {
        if run.checkpoint(reg.is_cancel_requested()) {
            break;
        }
        if run.direct_audio(&block()).is_some() {
            delivered += 1;
        }
    }
    let (tail, end) = run.finish(false);
    assert!(tail.is_none());
    assert_eq!(end, LocalJobEndState::Canceled);
    assert_eq!(delivered, 0);
    assert_eq!(run.next_chunk_index(), 0);
}

#[test]
fn cancel_before_any_chunk_delivers_nothing() {
    let mut run = SynthesisRun::new(1500, 1000, false);
    assert!(run.checkpoint(true));
    assert!(run.direct_audio(&block()).is_none());
    assert!(run.checkpoint(false));
    let (tail, end) = run.finish(false);
    assert!(tail.is_none());
    assert_eq!(end, LocalJobEndState::Canceled);
}

#[test]
fn no_chunk_after_cancel() {
    let mut run = SynthesisRun::new(1000, 1000, false);
    let a = run.direct_audio(&block()).unwrap();
    let b = run.direct_audio(&block()).unwrap();
    assert_eq!((a.chunk_index, b.chunk_index), (0, 1));
    assert!(run.checkpoint(true));
    assert!(run.direct_audio(&block()).is_none());
    assert_eq!(run.end_state(), Some(LocalJobEndState::Canceled));
    assert_eq!(run.finish(false).1, LocalJobEndState::Canceled);
}

#[test]
fn empty_audio_is_not_a_chunk() {
    let mut run = SynthesisRun::new(1000, 1000, false);
    assert!(run.direct_audio(&[]).is_none());
    assert_eq!(run.direct_audio(&block()).unwrap().chunk_index, 0);
}

#[test]
fn rate_is_clamped_and_resamples_without_tempo_process() {
    let mut run = SynthesisRun::new(9000, 2000, false);
    assert_eq!(run.rate(), 4000);
    assert!(run.rate_active());
    assert!(!run.uses_tempo_process());
    let c = run.direct_audio(&[0, 100_000, 200_000, 300_000, 400_000, 500_000, 600_000, 700_000]).unwrap();
    assert_eq!(c.samples, vec![0, 26214]);
    assert_eq!(SynthesisRun::new(10, 1000, false).rate(), 250);
}

#[test]
fn tempo_output_goes_out_in_frames() {
    let mut run = SynthesisRun::new(1500, 1000, true);
    assert!(run.uses_tempo_process());
    assert_eq!(run.gain_block(&[1_000_000, -1_000_000]), vec![32767, -32767]);
    assert!(run.tempo_output(&vec![0u8; 1000]).is_none());
    let c = run.tempo_output(&vec![1u8; 2 * 8192]).unwrap();
    assert_eq!(c.chunk_index, 0);
    assert_eq!(c.samples.len(), 8192);
    let (tail, end) = run.finish(false);
    let tail = tail.unwrap();
    assert_eq!(tail.chunk_index, 1);
    assert_eq!(tail.samples.len(), 500);
    assert_eq!(end, LocalJobEndState::Done);
}

#[test]
fn cancel_drops_tempo_output() {
    let mut run = SynthesisRun::new(2500, 1000, true);
    assert!(run.tempo_output(&vec![3u8; 4000]).is_none());
    assert!(run.checkpoint(true));
    let (tail, end) = run.finish(false);
    assert!(tail.is_none());
    assert_eq!(end, LocalJobEndState::Canceled);
}

#[test]
fn unit_rate_never_uses_tempo_process() {
    assert!(!SynthesisRun::new(1000, 1000, true).uses_tempo_process());
}

#[test]
fn new_job_supersedes_running_one() {
    let mut reg = JobRegistry::new();
    assert!(!reg.begin_job("a".to_string()));
    assert!(reg.begin_job("b".to_string()));
    assert_eq!(reg.active_job().as_deref(), Some("b"));
    assert!(!reg.is_cancel_requested());
}

#[test]
fn cancel_without_active_job() {
    let mut reg = JobRegistry::new();
    assert!(reg.request_cancel().is_none());
    assert!(!reg.is_cancel_requested());
}

#[test]
fn finishing_clears_bookkeeping() {
    let mut reg = JobRegistry::new();
    reg.begin_job("job-1".to_string());
    reg.request_cancel();
    let id = "job-1".to_string();
    assert!(reg.is_job_suppressed(&id));
    reg.finish_job(&id);
    assert!(!reg.is_job_suppressed(&id));
    assert!(!reg.is_cancel_requested());
    assert!(reg.active_job().is_none());
}

#[test]
fn restarting_a_suppressed_id_unsuppresses_it() {
    let mut reg = JobRegistry::new();
    reg.begin_job("x".to_string());
    reg.request_cancel();
    assert!(reg.is_job_suppressed(&"x".to_string()));
    reg.begin_job("x".to_string());
    assert!(!reg.is_job_suppressed(&"x".to_string()));
}

#[test]
fn suppressed_set_is_emptied_past_its_bound() {
    let mut reg = JobRegistry::new();
    for i in 0..129 {
        reg.begin_job(format!("j{i}"));
        reg.request_cancel();
    }
    assert!(reg.is_job_suppressed(&"j0".to_string()));
    reg.begin_job("fresh".to_string());
    assert!(!reg.is_job_suppressed(&"j0".to_string()));
    assert!(!reg.is_job_suppressed(&"j128".to_string()));
}

#[test]
fn finishing_an_old_job_keeps_the_new_one() {
    let mut reg = JobRegistry::new();
    reg.begin_job("old".to_string());
    reg.begin_job("new".to_string());
    reg.finish_job(&"old".to_string());
    assert_eq!(reg.active_job().as_deref(), Some("new"));
    assert!(reg.request_cancel().is_some());
    assert!(reg.is_cancel_requested());
}

#[test]
fn job_ids_are_fresh() {
    let mut reg = JobRegistry::new();
    let (a, _) = reg.start_job();
    let (b, superseded) = reg.start_job();
    assert!(superseded);
    assert_ne!(a, b);
}

#[test]
fn terminal_events() {
    assert!(is_terminal_event("JOB_DONE"));
    assert!(is_terminal_event("JOB_CANCELED"));
    assert!(is_terminal_event("JOB_ERROR"));
    assert!(!is_terminal_event("AUDIO_CHUNK"));
    assert!(!is_terminal_event("JOB_DONE "));
}

#[test]
fn relay_decisions() {
    let done = RemoteMessage::Text(Some("JOB_DONE".to_string()));
    let audio = RemoteMessage::Text(Some("AUDIO_CHUNK".to_string()));
    assert_eq!(relay_step(false, false, &audio), RelayAction::Forward);
    assert_eq!(relay_step(false, false, &RemoteMessage::Text(None)), RelayAction::Forward);
    assert_eq!(relay_step(false, false, &done), RelayAction::ForwardLast);
    assert_eq!(relay_step(true, false, &audio), RelayAction::Stop);
    assert_eq!(relay_step(false, false, &RemoteMessage::Other), RelayAction::Skip);
    assert_eq!(relay_step(false, false, &RemoteMessage::ReadError), RelayAction::Fail);
    assert_eq!(relay_step(false, false, &RemoteMessage::Close), RelayAction::Fail);
    assert_eq!(relay_step(false, true, &RemoteMessage::Close), RelayAction::Stop);
    assert_eq!(relay_step(false, false, &RemoteMessage::StreamEnd), RelayAction::Fail);
}

#[test]
fn tempo_command_for_rate() {
    assert!(tempo_command_args(2000, 0).is_none());
    let a = tempo_command_args(2000, 24000).unwrap();
    assert_eq!(a.len(), 23 + 6);
    assert_eq!(a[4], "24000");
    assert_eq!(&a[23..], &["tempo", "1.259921", "tempo", "1.259921", "tempo", "1.259921"]);
    let b = tempo_command_args(100, 16000).unwrap();
    assert_eq!(b.len(), 23 + 10);
}

#[test]
fn voice_state_keys() {
    assert_eq!(voice_state_key("0", "alba"), "preset:alba");
    assert_eq!(voice_state_key("abc-1", "alba"), "voice:abc-1");
    assert!(is_default_voice("0"));
    assert!(!is_default_voice("00"));
}

#[test]
fn default_voice_cannot_be_deleted() {
    assert_eq!(check_voice_deletable("0").unwrap_err().kind, ErrorKind::DefaultVoiceImmutable);
    assert!(check_voice_deletable("some-id").is_ok());
}

#[test]
fn voice_records() {
    let m = cloned_voice_meta(
        "id1".to_string(),
        "Me".to_string(),
        "1700000000".to_string(),
        "kyutai_pocket_tts".to_string(),
        None,
        Some("hello".to_string()),
    );
    assert_eq!(m.language_hint, "en");
    assert!(m.description.is_none());
    assert_eq!(m.ref_text.as_deref(), Some("hello"));
    let u = updated_voice_meta(m.clone(), "You".to_string(), None, Some("desc".to_string()));
    assert_eq!(u.display_name, "You");
    assert_eq!(u.language_hint, "en");
    assert_eq!(u.description.as_deref(), Some("desc"));
    let v = updated_voice_meta(m, "You".to_string(), Some("fr".to_string()), None);
    assert_eq!(v.language_hint, "fr");
    assert!(v.description.is_none());
}

#[test]
fn yaml_paths() {
    assert_eq!(yaml_quote_path("C:/it's/here"), "'C:/it''s/here'");
    assert_eq!(normalize_yaml_path("C:\\models\\tts"), "C:/models/tts");
}

#[test]
fn config_paths_are_rewritten() {
    let template = "model:\n  weights_path: old.safetensors\r\n  weights_path_without_voice_cloning: x\n  tokenizer_path:   y\nother: 1\n";
    let r = rewrite_config_paths(template, "/m/w's.safetensors", "/m/tok.model").unwrap();
    assert_eq!(
        r,
        "model:\n  weights_path: '/m/w''s.safetensors'\n  weights_path_without_voice_cloning: '/m/w''s.safetensors'\n  tokenizer_path: '/m/tok.model'\nother: 1"
    );
}

#[test]
fn config_missing_key_is_refused() {
    let e = rewrite_config_paths("weights_path: a\ntokenizer_path: b\n", "w", "t").unwrap_err();
    assert_eq!(e.kind, ErrorKind::ConfigurationError);
}

#[test]
fn last_tempo_output_joins_the_final_chunk() {
    let mut run = SynthesisRun::new(1500, 1000, true);
    assert!(run.tempo_output(&vec![2u8; 100]).is_none());
    run.tempo_final_output(&vec![2u8; 2 * 8192]);
    assert_eq!(run.tempo_pending_len(), 100 + 2 * 8192);
    let (tail, end) = run.finish(false);
    let tail = tail.unwrap();
    assert_eq!(tail.chunk_index, 0);
    assert_eq!(tail.samples.len(), 8192 + 50);
    assert_eq!(end, LocalJobEndState::Done);
}

#[test]
fn voices_sort_by_creation_keeping_ties() {
    let mk = |id: &str, at: &str| {
        cloned_voice_meta(id.to_string(), id.to_string(), at.to_string(), "m".to_string(), None, None)
    };
    let v = vec![mk("c", "1700000300"), mk("a", "1700000100"), mk("b1", "1700000200"), mk("b2", "1700000200"), mk("z", "17")];
    let r = voicereader::voice::sort_voices_by_creation(v);
    let ids: Vec<&str> = r.iter().map(|m| m.voice_id.as_str()).collect();
    assert_eq!(ids, vec!["z", "a", "b1", "b2", "c"]);
    assert!(voicereader::voice::sort_voices_by_creation(Vec::new()).is_empty());
}

#[test]
fn speak_requests() {
    assert_eq!(check_speak_request("  Hi.  ", "kyutai_pocket_tts", BuildVariant::Base).unwrap(), "Hi.");
    assert_eq!(check_speak_request(" \n ", "kyutai_pocket_tts", BuildVariant::Full).unwrap_err().kind, ErrorKind::ConfigurationError);
    assert!(check_speak_request("Hi", "qwen_custom_voice", BuildVariant::Base).is_err());
    assert!(check_speak_request("Hi", "qwen_custom_voice", BuildVariant::Full).is_ok());
    assert!(check_speak_request("Hi", "qwen_base_clone", BuildVariant::Full).is_err());
}

#[test]
fn cancel_seen_at_finish_drops_the_tempo_tail() {
    let mut run = SynthesisRun::new(1500, 1000, true);
    let c = run.tempo_output(&vec![1u8; 2 * 8192]).unwrap();
    assert_eq!(c.chunk_index, 0);
    run.tempo_final_output(&vec![1u8; 500]);
    let (tail, end) = run.finish(true);
    assert!(tail.is_none());
    assert_eq!(end, LocalJobEndState::Canceled);
    assert_eq!(run.next_chunk_index(), 1);
}

#[test]
fn speak_request_messages() {
    let e = check_speak_request("   ", "kyutai_pocket_tts", BuildVariant::Base).unwrap_err();
    assert_eq!(e.message, "Speak text cannot be empty");
    let e = check_speak_request("Hi", "qwen_base_clone", BuildVariant::Base).unwrap_err();
    assert_eq!(e.message, "This model does not read aloud in this build. Switch to kyutai_pocket_tts.");
}

#[test]
fn started_job_is_not_suppressed() {
    let mut reg = JobRegistry::new();
    let (id, _) = reg.start_job();
    reg.request_cancel();
    assert!(reg.is_job_suppressed(&id));
    let (id2, _) = reg.start_job();
    assert!(!reg.is_job_suppressed(&id2));
    assert!(reg.is_job_suppressed(&id));
}
