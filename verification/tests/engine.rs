use pirately::engine::{engine_kind, EngineError, LoadedEngineKind, TranscriptionManager};
use pirately::models::{EngineType, ModelManager};

fn manager_with_small_downloaded() -> ModelManager {
    let mut mm = ModelManager::new("models".to_string(), vec![]);
    mm.mark_downloaded("small", true);
    mm
}

#[test]
fn both_moonshine_families_run_on_one_engine() {
    assert_eq!(engine_kind(EngineType::Moonshine), LoadedEngineKind::Moonshine);
    assert_eq!(engine_kind(EngineType::MoonshineStreaming), LoadedEngineKind::Moonshine);
    assert_eq!(engine_kind(EngineType::Whisper), LoadedEngineKind::Whisper);
    assert_eq!(engine_kind(EngineType::Cohere), LoadedEngineKind::Cohere);
    assert_eq!(LoadedEngineKind::GigaAM.label(), "GigaAM");
}

#[test]
fn loading_a_model_makes_it_current() {
    let mm = manager_with_small_downloaded();
    let mut tm: TranscriptionManager<String> = TranscriptionManager::new();
    let req = tm.begin_load(&mm, "small").ok().unwrap().expect("a load request");
    assert_eq!(req.model_id, "small");
    assert_eq!(req.kind, LoadedEngineKind::Whisper);
    assert_eq!(std::path::Path::new(&req.path), std::path::Path::new("models").join("ggml-small.bin"));
    assert!(tm.complete_load(req, Ok("engine".to_string())).is_ok());
    assert_eq!(tm.get_current_model_id(), Some("small".to_string()));
    assert!(tm.is_current("small"));
    // Loading the current model again does nothing.
    assert!(tm.begin_load(&mm, "small").ok().unwrap().is_none());
    assert_eq!(tm.get_current_model_id(), Some("small".to_string()));
}

#[test]
fn models_not_downloaded_or_unknown_are_refused() {
    let mm = manager_with_small_downloaded();
    let mut tm: TranscriptionManager<String> = TranscriptionManager::new();
    match tm.begin_load(&mm, "turbo") {
        Err(e @ EngineError::NotDownloaded(_)) => {
            assert_eq!(e.message(), "Model 'turbo' is not downloaded. Please download it first.")
        }
        _ => panic!("expected not downloaded"),
    }
    match tm.begin_load(&mm, "nope") {
        Err(e @ EngineError::ModelNotFound(_)) => assert_eq!(e.message(), "Model 'nope' not found"),
        _ => panic!("expected not found"),
    }
}

#[test]
fn loading_another_model_unloads_the_current_one_first() {
    let mm = manager_with_small_downloaded();
    let mut tm: TranscriptionManager<String> = TranscriptionManager::new();
    let req = tm.begin_load(&mm, "small").ok().unwrap().unwrap();
    tm.complete_load(req, Ok("engine".to_string())).ok().unwrap();
    assert!(tm.begin_load(&mm, "turbo").is_err());
    assert_eq!(tm.get_current_model_id(), None);
    assert!(matches!(tm.take_engine(), Err(EngineError::NoModelLoaded)));
}

#[test]
fn a_failed_load_is_reported_with_the_engine_name() {
    let mm = manager_with_small_downloaded();
    let mut tm: TranscriptionManager<String> = TranscriptionManager::new();
    let req = tm.begin_load(&mm, "small").ok().unwrap().unwrap();
    match tm.complete_load(req, Err("bad file".to_string())) {
        Err(e) => assert_eq!(e.message(), "Failed to load Whisper model: bad file"),
        Ok(()) => panic!("expected an error"),
    }
    assert_eq!(tm.get_current_model_id(), None);
}

#[test]
fn transcription_takes_the_engine_and_puts_it_back() {
    let mm = manager_with_small_downloaded();
    let mut tm: TranscriptionManager<String> = TranscriptionManager::new();
    assert_eq!(tm.take_engine().err().unwrap().message(), "No model loaded");
    let req = tm.begin_load(&mm, "small").ok().unwrap().unwrap();
    tm.complete_load(req, Ok("engine".to_string())).ok().unwrap();
    let (kind, engine) = tm.take_engine().ok().unwrap();
    assert_eq!(kind, LoadedEngineKind::Whisper);
    assert_eq!(engine, "engine");
    let out = tm.finish_transcription(kind, engine, Ok("hello".to_string()));
    assert_eq!(out.ok(), Some("hello".to_string()));
    let (kind, engine) = tm.take_engine().ok().unwrap();
    let out = tm.finish_transcription(kind, engine, Err("boom".to_string()));
    assert_eq!(out.err().unwrap().message(), "Whisper transcription failed: boom");
    assert!(tm.take_engine().is_ok());
}

#[test]
fn unloading_forgets_the_model() {
    let mm = manager_with_small_downloaded();
    let mut tm: TranscriptionManager<String> = TranscriptionManager::new();
    let req = tm.begin_load(&mm, "small").ok().unwrap().unwrap();
    tm.complete_load(req, Ok("engine".to_string())).ok().unwrap();
    tm.unload();
    assert_eq!(tm.get_current_model_id(), None);
    assert!(tm.take_engine().is_err());
}

#[test]
fn a_failed_load_drops_the_model_loaded_before() {
    let mut mm = manager_with_small_downloaded();
    mm.mark_downloaded("turbo", true);
    let mut tm: TranscriptionManager<String> = TranscriptionManager::new();
    let req = tm.begin_load(&mm, "small").ok().unwrap().unwrap();
    tm.complete_load(req, Ok("small engine".to_string())).ok().unwrap();
    let req = tm.begin_load(&mm, "turbo").ok().unwrap().unwrap();
    assert!(tm.complete_load(req, Err("corrupt".to_string())).is_err());
    assert_eq!(tm.get_current_model_id(), None);
    assert!(matches!(tm.take_engine(), Err(EngineError::NoModelLoaded)));
}
