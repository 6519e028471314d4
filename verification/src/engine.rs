use vstd::prelude::*;

use crate::models::{spec_builtin_models, EngineType, ModelError, ModelManager};
use crate::paths::joined_path;

verus! {

/// The engine that runs a model.
#[derive(Clone, Copy, Debug, PartialEq, Eq, Structural)]
pub enum LoadedEngineKind {
    Whisper,
    Parakeet,
    Moonshine,
    SenseVoice,
    GigaAM,
    Canary,
    Cohere,
}

/// The engine for a family of models; both Moonshine families run on the
/// Moonshine engine.
pub open spec fn spec_engine_kind(t: EngineType) -> LoadedEngineKind {
    match t {
        EngineType::Whisper => LoadedEngineKind::Whisper,
        EngineType::Parakeet => LoadedEngineKind::Parakeet,
        EngineType::Moonshine => LoadedEngineKind::Moonshine,
        EngineType::MoonshineStreaming => LoadedEngineKind::Moonshine,
        EngineType::SenseVoice => LoadedEngineKind::SenseVoice,
        EngineType::GigaAM => LoadedEngineKind::GigaAM,
        EngineType::Canary => LoadedEngineKind::Canary,
        EngineType::Cohere => LoadedEngineKind::Cohere,
    }
}

/// The engine for a family of models.
pub fn engine_kind(t: EngineType) -> (r: LoadedEngineKind)
    ensures
        r == spec_engine_kind(t),
{
    match t {
        EngineType::Whisper => LoadedEngineKind::Whisper,
        EngineType::Parakeet => LoadedEngineKind::Parakeet,
        EngineType::Moonshine => LoadedEngineKind::Moonshine,
        EngineType::MoonshineStreaming => LoadedEngineKind::Moonshine,
        EngineType::SenseVoice => LoadedEngineKind::SenseVoice,
        EngineType::GigaAM => LoadedEngineKind::GigaAM,
        EngineType::Canary => LoadedEngineKind::Canary,
        EngineType::Cohere => LoadedEngineKind::Cohere,
    }
}

/// The name of an engine in messages.
pub open spec fn spec_engine_label(k: LoadedEngineKind) -> Seq<char> {
    match k {
        LoadedEngineKind::Whisper => "Whisper"@,
        LoadedEngineKind::Parakeet => "Parakeet"@,
        LoadedEngineKind::Moonshine => "Moonshine"@,
        LoadedEngineKind::SenseVoice => "SenseVoice"@,
        LoadedEngineKind::GigaAM => "GigaAM"@,
        LoadedEngineKind::Canary => "Canary"@,
        LoadedEngineKind::Cohere => "Cohere"@,
    }
}

impl LoadedEngineKind {
    /// The name of the engine in messages.
    pub fn label(&self) -> (r: String)
        ensures
            r@ == spec_engine_label(*self),
    {
        match self {
            LoadedEngineKind::Whisper => "Whisper".to_owned(),
            LoadedEngineKind::Parakeet => "Parakeet".to_owned(),
            LoadedEngineKind::Moonshine => "Moonshine".to_owned(),
            LoadedEngineKind::SenseVoice => "SenseVoice".to_owned(),
            LoadedEngineKind::GigaAM => "GigaAM".to_owned(),
            LoadedEngineKind::Canary => "Canary".to_owned(),
            LoadedEngineKind::Cohere => "Cohere".to_owned(),
        }
    }
}

/// Whether `s` begins with `p`.
pub open spec fn starts_with(s: Seq<char>, p: Seq<char>) -> bool {
    p.len() <= s.len() && s.subrange(0, p.len() as int) == p
}

/// Two families of models share an engine only when both are Moonshine
/// families: every other family has an engine of its own.
pub proof fn law_one_engine_per_family(a: EngineType, b: EngineType)
    ensures
        spec_engine_kind(a) == spec_engine_kind(b) <==> (a == b || ((a == EngineType::Moonshine
            || a == EngineType::MoonshineStreaming) && (b == EngineType::Moonshine || b == EngineType::MoonshineStreaming))),
{
}

/// Every built-in model runs on the engine whose name its own name begins
/// with: the Parakeet models on Parakeet, the Whisper models on Whisper, and
/// so on.
pub proof fn law_builtin_models_run_on_their_named_engine(i: int)
    requires
        0 <= i < spec_builtin_models().len(),
    ensures
        starts_with(spec_builtin_models()[i].name, spec_engine_label(spec_engine_kind(spec_builtin_models()[i].engine_type))),
{
    reveal_strlit("Parakeet V3");
    reveal_strlit("Parakeet V2");
    reveal_strlit("Whisper Small");
    reveal_strlit("Whisper Medium");
    reveal_strlit("Whisper Turbo");
    reveal_strlit("Whisper Large");
    reveal_strlit("Moonshine Base");
    reveal_strlit("SenseVoice");
    reveal_strlit("GigaAM v3");
    reveal_strlit("Canary Flash");
    reveal_strlit("Parakeet");
    reveal_strlit("Whisper");
    reveal_strlit("Moonshine");
    reveal_strlit("GigaAM");
    reveal_strlit("Canary");
    let m = spec_builtin_models()[i];
    let label = spec_engine_label(spec_engine_kind(m.engine_type));
    assert(m.name.subrange(0, label.len() as int) =~= label);
}

/// Why a model could not be loaded or run.
#[derive(Debug)]
pub enum EngineError {
    /// No model has this id.
    ModelNotFound(String),
    /// The model with this id is not on disk.
    NotDownloaded(String),
    /// The engine could not load the model; the message says why.
    LoadFailed(String),
    /// No model is loaded.
    NoModelLoaded,
    /// The engine failed on the audio; the message says why.
    TranscriptionFailed(String),
}

impl EngineError {
    /// The message shown for the error.
    pub fn message(&self) -> (r: String)
        ensures
            match self {
                EngineError::ModelNotFound(id) => r@ == "Model '"@ + id@ + "' not found"@,
                EngineError::NotDownloaded(id) => r@ == "Model '"@ + id@ + "' is not downloaded. Please download it first."@,
                EngineError::LoadFailed(m) => r@ == m@,
                EngineError::NoModelLoaded => r@ == "No model loaded"@,
                EngineError::TranscriptionFailed(m) => r@ == m@,
            },
    {
        match self {
            EngineError::ModelNotFound(id) => "Model '".to_owned().concat(id.as_str()).concat("' not found"),
            EngineError::NotDownloaded(id) => "Model '".to_owned().concat(id.as_str()).concat(
                "' is not downloaded. Please download it first.",
            ),
            EngineError::LoadFailed(m) => m.clone(),
            EngineError::NoModelLoaded => "No model loaded".to_owned(),
            EngineError::TranscriptionFailed(m) => m.clone(),
        }
    }
}

/// A model to be loaded by its engine.
#[derive(Debug)]
pub struct LoadRequest {
    pub model_id: String,
    pub kind: LoadedEngineKind,
    pub path: String,
}

/// What a [`TranscriptionManager`] holds: the loaded engine with its kind,
/// and the id of the model it is.
pub ghost struct EngineSlot<E> {
    pub engine: Option<(LoadedEngineKind, E)>,
    pub current: Option<Seq<char>>,
}

/// Nothing loaded.
pub open spec fn unloaded_slot<E>() -> EngineSlot<E> {
    EngineSlot { engine: None, current: None }
}

/// The first half of loading `id`: nothing changes if it is the model
/// loaded; otherwise the loaded model is dropped.
pub open spec fn begin_load_slot<E>(st: EngineSlot<E>, id: Seq<char>) -> EngineSlot<E> {
    if st.current == Some(id) {
        st
    } else {
        unloaded_slot()
    }
}

/// The second half of loading model `id` on engine `kind`: what the engine
/// loaded becomes current; a failure changes nothing.
pub open spec fn complete_load_slot<E>(st: EngineSlot<E>, kind: LoadedEngineKind, id: Seq<char>, loaded: Result<E, String>) -> EngineSlot<E> {
    match loaded {
        Ok(e) => EngineSlot { engine: Some((kind, e)), current: Some(id) },
        Err(_) => st,
    }
}

/// The engine taken out to run.
pub open spec fn take_slot<E>(st: EngineSlot<E>) -> EngineSlot<E> {
    EngineSlot { engine: None, ..st }
}

/// The engine put back after it ran.
pub open spec fn put_back_slot<E>(st: EngineSlot<E>, kind: LoadedEngineKind, engine: E) -> EngineSlot<E> {
    EngineSlot { engine: Some((kind, engine)), ..st }
}

/// A load that fails leaves no model loaded, not even the one loaded before.
pub proof fn law_failed_load_unloads<E>(st: EngineSlot<E>, id: Seq<char>, kind: LoadedEngineKind, msg: String)
    requires
        st.current != Some(id),
    ensures
        complete_load_slot(begin_load_slot(st, id), kind, id, Err(msg)) == unloaded_slot::<E>(),
{
}

/// Once a model is loaded, loading it again changes nothing.
pub proof fn law_loaded_model_is_kept<E>(st: EngineSlot<E>, id: Seq<char>, kind: LoadedEngineKind, engine: E)
    ensures
        ({
            let loaded = complete_load_slot(st, kind, id, Ok(engine));
            begin_load_slot(loaded, id) == loaded
        }),
{
}

/// Running the loaded engine and putting it back leaves the manager as it
/// was.
pub proof fn law_transcription_keeps_model<E>(st: EngineSlot<E>)
    requires
        st.engine is Some,
    ensures
        ({
            let (kind, engine) = st.engine->0;
            put_back_slot(take_slot(st), kind, engine) == st
        }),
{
}

/// Outside a transcription, a model id is current exactly when an engine
/// is loaded.
pub open spec fn slot_consistent<E>(st: EngineSlot<E>) -> bool {
    (st.current is Some) == (st.engine is Some)
}

/// Construction, unloading and both halves of loading keep a model id
/// current exactly when an engine is loaded.
pub proof fn law_loading_keeps_consistency<E>(st: EngineSlot<E>, id: Seq<char>, kind: LoadedEngineKind, loaded: Result<E, String>)
    requires
        slot_consistent(st),
    ensures
        slot_consistent(unloaded_slot::<E>()),
        slot_consistent(begin_load_slot(st, id)),
        slot_consistent(complete_load_slot(st, kind, id, loaded)),
{
}

/// Once model `id` is loaded, it stays loaded through transcriptions: it
/// has its engine (so taking the engine out succeeds), loading it again
/// changes nothing, and putting the engine back after it ran restores the
/// manager, with `id` still current.
pub proof fn law_loaded_model_stays_loaded<E>(st: EngineSlot<E>, id: Seq<char>)
    requires
        slot_consistent(st),
        st.current == Some(id),
    ensures
        st.engine is Some,
        begin_load_slot(st, id) == st,
        ({
            let (kind, engine) = st.engine->0;
            let after = put_back_slot(take_slot(st), kind, engine);
            &&& after == st
            &&& after.current == Some(id)
            &&& slot_consistent(after)
        }),
{
}

/// Keeps at most one loaded speech model, of engine type `E`, and the id of
/// the model it is.
pub struct TranscriptionManager<E> {
    engine: Option<(LoadedEngineKind, E)>,
    current_model_id: Option<String>,
}

impl<E> TranscriptionManager<E> {
    /// The loaded engine, and its kind.
    pub closed spec fn engine(&self) -> Option<(LoadedEngineKind, E)> {
        self.engine
    }

    /// The id of the loaded model.
    pub closed spec fn current(&self) -> Option<Seq<char>> {
        match self.current_model_id {
            Some(id) => Some(id@),
            None => None,
        }
    }

    /// Everything the manager holds.
    pub open spec fn slot(&self) -> EngineSlot<E> {
        EngineSlot { engine: self.engine(), current: self.current() }
    }

    /// Nothing loaded.
    pub fn new() -> (r: Self)
        ensures
            r.slot() == unloaded_slot::<E>(),
    {
        TranscriptionManager { engine: None, current_model_id: None }
    }

    /// Whether model `model_id` is the one loaded.
    pub fn is_current(&self, model_id: &str) -> (r: bool)
        ensures
            r == (self.current() == Some(model_id@)),
    {
        match &self.current_model_id {
            Some(id) => *id == model_id.to_owned(),
            None => false,
        }
    }

    /// Drops the loaded model, if any.
    pub fn unload(&mut self)
        ensures
            final(self).slot() == unloaded_slot::<E>(),
    {
        self.engine = None;
        self.current_model_id = None;
    }

    /// The id of the loaded model.
    pub fn get_current_model_id(&self) -> (r: Option<String>)
        ensures
            match r {
                Some(id) => self.current() == Some(id@),
                None => self.current() is None,
            },
    {
        self.current_model_id.clone()
    }

    /// The first half of loading model `model_id`: nothing to do if it is
    /// the one loaded; otherwise the loaded model is dropped, and the model
    /// is looked up, which fails if it is unknown or not on disk, and
    /// otherwise says which engine must load it from where.  The second half
    /// is [`TranscriptionManager::complete_load`].
    pub fn begin_load(&mut self, models: &ModelManager, model_id: &str) -> (r: Result<Option<LoadRequest>, EngineError>)
        ensures
            final(self).slot() == begin_load_slot(old(self).slot(), model_id@),
            old(self).current() == Some(model_id@) ==> r matches Ok(None),
            old(self).current() != Some(model_id@) ==> {
                match r {
                    Ok(Some(req)) => {
                        &&& models.models().contains_key(model_id@)
                        &&& models.models()[model_id@].is_downloaded
                        &&& req.model_id@ == model_id@
                        &&& req.kind == spec_engine_kind(models.models()[model_id@].engine_type)
                        &&& req.path@ == joined_path(models.models_dir(), models.models()[model_id@].filename)
                    },
                    Ok(None) => false,
                    Err(EngineError::ModelNotFound(id)) => !models.models().contains_key(model_id@) && id@ == model_id@,
                    Err(EngineError::NotDownloaded(id)) => models.models().contains_key(model_id@)
                        && !models.models()[model_id@].is_downloaded && id@ == model_id@,
                    Err(_) => false,
                }
            },
    {
        if self.is_current(model_id) {
            return Ok(None);
        }
        self.unload();
        let info = match models.get_model_info(model_id) {
            Ok(m) => m,
            Err(ModelError::NotFound(id)) => return Err(EngineError::ModelNotFound(id)),
        };
        if !info.is_downloaded {
            return Err(EngineError::NotDownloaded(model_id.to_owned()));
        }
        let path = match models.get_model_path(model_id) {
            Ok(p) => p,
            Err(ModelError::NotFound(id)) => return Err(EngineError::ModelNotFound(id)),
        };
        Ok(Some(LoadRequest { model_id: model_id.to_owned(), kind: engine_kind(info.engine_type), path }))
    }

    /// The second half of loading: what the engine made of `request`.  A
    /// loaded engine becomes the current model; a failure is reported with
    /// the engine's name and nothing is loaded.
    pub fn complete_load(&mut self, request: LoadRequest, loaded: Result<E, String>) -> (r: Result<(), EngineError>)
        ensures
            final(self).slot() == complete_load_slot(old(self).slot(), request.kind, request.model_id@, loaded),
            match loaded {
                Ok(_) => r is Ok,
                Err(msg) => r matches Err(EngineError::LoadFailed(m))
                    && m@ == "Failed to load "@ + spec_engine_label(request.kind) + " model: "@ + msg@,
            },
    {
        match loaded {
            Ok(e) => {
                self.engine = Some((request.kind, e));
                self.current_model_id = Some(request.model_id);
                Ok(())
            },
            Err(msg) => {
                let m = "Failed to load ".to_owned().concat(request.kind.label().as_str()).concat(" model: ").concat(
                    msg.as_str(),
                );
                Err(EngineError::LoadFailed(m))
            },
        }
    }

    /// Takes the loaded engine out to run it; fails when nothing is loaded.
    /// It is put back with [`TranscriptionManager::finish_transcription`].
    pub fn take_engine(&mut self) -> (r: Result<(LoadedEngineKind, E), EngineError>)
        ensures
            final(self).slot() == take_slot(old(self).slot()),
            match old(self).engine() {
                Some(pair) => r matches Ok(got) && got == pair,
                None => r matches Err(EngineError::NoModelLoaded),
            },
    {
        match self.engine.take() {
            Some(pair) => Ok(pair),
            None => Err(EngineError::NoModelLoaded),
        }
    }

    /// Puts the engine back after it ran, and reports its result; a failure
    /// is reported with the engine's name.
    pub fn finish_transcription(&mut self, kind: LoadedEngineKind, engine: E, result: Result<String, String>) -> (r: Result<String, EngineError>)
        ensures
            final(self).slot() == put_back_slot(old(self).slot(), kind, engine),
            match result {
                Ok(text) => (r matches Ok(t) && t@ == text@),
                Err(msg) => (r matches Err(EngineError::TranscriptionFailed(m))
                    && m@ == spec_engine_label(kind) + " transcription failed: "@ + msg@),
            },
    {
        self.engine = Some((kind, engine));
        match result {
            Ok(text) => Ok(text),
            Err(msg) => Err(EngineError::TranscriptionFailed(
                kind.label().concat(" transcription failed: ").concat(msg.as_str()),
            )),
        }
    }
}

} // verus!
