use pirately::models::{builtin_models, is_single_directory, EngineType, ModelError, ModelInfo, ModelManager, Removal};
use pirately::paths::EntryKind;

fn custom(id: &str, name: &str, filename: &str, is_directory: bool) -> ModelInfo {
    ModelInfo {
        id: id.to_string(),
        name: name.to_string(),
        engine_type: EngineType::Cohere,
        filename: filename.to_string(),
        url: "https://example.com/model".to_string(),
        sha256: "abc".to_string(),
        size_mb: 7,
        is_directory,
        is_downloaded: true,
    }
}

#[test]
fn the_builtin_catalog() {
    let models = builtin_models();
    assert_eq!(models.len(), 10);
    assert_eq!(models[0].id, "parakeet-tdt-0.6b-v3");
    assert_eq!(models[0].filename, "parakeet-tdt-0.6b-v3-int8");
    assert_eq!(models[0].engine_type, EngineType::Parakeet);
    assert_eq!(models[0].size_mb, 456);
    assert!(models[0].is_directory);
    assert_eq!(models[2].id, "small");
    assert_eq!(models[2].url, "https://blob.handy.computer/ggml-small.bin");
    assert!(!models[2].is_directory);
    assert_eq!(models[9].name, "Canary Flash");
    assert!(models.iter().all(|m| !m.is_downloaded && m.sha256.is_empty()));
}

#[test]
fn models_are_listed_by_name() {
    let mm = ModelManager::new("models".to_string(), vec![]);
    let names: Vec<String> = mm.list_models().into_iter().map(|m| m.name).collect();
    assert_eq!(
        names,
        vec![
            "Canary Flash", "GigaAM v3", "Moonshine Base", "Parakeet V2", "Parakeet V3", "SenseVoice",
            "Whisper Large", "Whisper Medium", "Whisper Small", "Whisper Turbo",
        ]
    );
}

#[test]
fn custom_models_add_to_and_replace_builtin_ones() {
    let mm = ModelManager::new(
        "models".to_string(),
        vec![custom("small", "A Custom Small", "custom-small.bin", false), custom("extra", "Extra", "extra", true)],
    );
    let list = mm.list_models();
    assert_eq!(list.len(), 11);
    assert_eq!(list[0].name, "A Custom Small");
    let small = mm.get_model_info("small").ok().unwrap();
    assert_eq!(small.filename, "custom-small.bin");
    assert!(!small.is_downloaded);
    assert!(mm.get_model_info("extra").is_ok());
}

#[test]
fn unknown_models_are_reported() {
    let mm = ModelManager::new("models".to_string(), vec![]);
    match mm.get_model_info("nope") {
        Err(e) => {
            assert!(matches!(&e, ModelError::NotFound(id) if id == "nope"));
            assert_eq!(e.message(), "Model 'nope' not found");
        }
        Ok(_) => panic!("expected an error"),
    }
    assert!(mm.get_model_path("nope").is_err());
}

#[test]
fn model_paths_are_under_the_models_directory() {
    let mm = ModelManager::new("models".to_string(), vec![]);
    let p = mm.get_model_path("small").ok().unwrap();
    assert_eq!(std::path::Path::new(&p), std::path::Path::new("models").join("ggml-small.bin"));
    let info = mm.get_model_info("moonshine-base").ok().unwrap();
    let paths = mm.download_paths(&info);
    assert_eq!(std::path::Path::new(&paths.final_path), std::path::Path::new("models").join("moonshine-base"));
    assert_eq!(std::path::Path::new(&paths.archive_path), std::path::Path::new("models").join("moonshine-base.tar.gz"));
    assert_eq!(std::path::Path::new(&paths.tmp_dir), std::path::Path::new("models").join("moonshine-base.tmp"));
    assert_eq!(mm.model_path(&info), paths.final_path);
}

#[test]
fn download_state_follows_what_is_on_disk() {
    let mut mm = ModelManager::new("models".to_string(), vec![]);
    let dir_model = mm.get_model_info("moonshine-base").ok().unwrap();
    let file_model = mm.get_model_info("small").ok().unwrap();
    assert!(mm.check_downloaded(&dir_model, EntryKind::Directory));
    assert!(!mm.check_downloaded(&dir_model, EntryKind::File));
    assert!(ModelManager::check_downloaded_static(&file_model, EntryKind::File));
    assert!(!ModelManager::check_downloaded_static(&file_model, EntryKind::Missing));
    mm.record_probe("moonshine-base", EntryKind::Directory);
    mm.record_probe("small", EntryKind::Directory);
    assert!(mm.get_model_info("moonshine-base").ok().unwrap().is_downloaded);
    assert!(!mm.get_model_info("small").ok().unwrap().is_downloaded);
}

#[test]
fn a_download_can_be_cancelled_and_finished() {
    let mut mm = ModelManager::new("models".to_string(), vec![]);
    assert!(!mm.is_download_cancelled("small"));
    mm.cancel_download("small");
    assert!(!mm.is_download_cancelled("small"));
    let model = mm.begin_download("small").ok().unwrap();
    assert_eq!(model.id, "small");
    assert!(!mm.is_download_cancelled("small"));
    mm.cancel_download("small");
    assert!(mm.is_download_cancelled("small"));
    mm.finish_download("small", false);
    assert!(!mm.is_download_cancelled("small"));
    assert!(!mm.get_model_info("small").ok().unwrap().is_downloaded);

    mm.begin_download("small").ok().unwrap();
    mm.finish_download("small", true);
    assert!(mm.get_model_info("small").ok().unwrap().is_downloaded);
    assert!(mm.begin_download("missing").is_err());
}

#[test]
fn deleting_removes_what_is_there_and_marks_the_model() {
    let mut mm = ModelManager::new("models".to_string(), vec![]);
    mm.mark_downloaded("turbo", true);
    let turbo = mm.get_model_info("turbo").ok().unwrap();
    assert_eq!(ModelManager::removal_for(&turbo, EntryKind::File), Removal::File);
    assert_eq!(ModelManager::removal_for(&turbo, EntryKind::Directory), Removal::Nothing);
    let sv = mm.get_model_info("sense-voice-int8").ok().unwrap();
    assert_eq!(ModelManager::removal_for(&sv, EntryKind::Directory), Removal::Directory);
    assert_eq!(ModelManager::removal_for(&sv, EntryKind::Missing), Removal::Nothing);
    mm.mark_downloaded("turbo", false);
    assert!(!mm.get_model_info("turbo").ok().unwrap().is_downloaded);
}

#[test]
fn a_single_unpacked_directory_becomes_the_model() {
    assert!(is_single_directory(&[EntryKind::Directory]));
    assert!(!is_single_directory(&[EntryKind::File]));
    assert!(!is_single_directory(&[EntryKind::Directory, EntryKind::File]));
    assert!(!is_single_directory(&[]));
}

#[test]
fn downloads_of_different_models_are_independent() {
    let mut mm = ModelManager::new("models".to_string(), vec![]);
    mm.begin_download("small").ok().unwrap();
    mm.begin_download("turbo").ok().unwrap();
    mm.cancel_download("turbo");
    assert!(mm.is_download_cancelled("turbo"));
    assert!(!mm.is_download_cancelled("small"));
    mm.finish_download("turbo", false);
    assert!(!mm.is_download_cancelled("turbo"));
    mm.cancel_download("small");
    assert!(mm.is_download_cancelled("small"));
    mm.mark_downloaded("medium", true);
    assert!(mm.get_model_info("medium").ok().unwrap().is_downloaded);
    assert!(!mm.get_model_info("large").ok().unwrap().is_downloaded);
    assert_eq!(mm.list_models().len(), 10);
}

#[test]
fn the_listing_holds_each_registered_model_once() {
    let mm = ModelManager::new(
        "models".to_string(),
        vec![custom("small", "A Small Custom", "custom.bin", false)],
    );
    let list = mm.list_models();
    assert_eq!(list.len(), 10);
    assert_eq!(list[0].name, "A Small Custom");
    assert_eq!(list[9].name, "Whisper Turbo");
    let mut ids: Vec<String> = list.iter().map(|m| m.id.clone()).collect();
    ids.sort();
    ids.dedup();
    assert_eq!(ids.len(), 10);
    for m in &list {
        let info = mm.get_model_info(&m.id).ok().unwrap();
        assert_eq!(info.name, m.name);
        assert_eq!(info.filename, m.filename);
        assert_eq!(info.is_downloaded, m.is_downloaded);
    }
}
