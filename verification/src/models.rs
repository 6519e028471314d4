use vstd::prelude::*;

use crate::paths::{join_path, joined_path, EntryKind};

verus! {

/// The family of speech model, which decides the engine that runs it.
#[derive(Clone, Copy, Debug, PartialEq, Eq, Structural)]
pub enum EngineType {
    Whisper,
    Parakeet,
    Moonshine,
    MoonshineStreaming,
    SenseVoice,
    GigaAM,
    Canary,
    Cohere,
}

/// A speech model that can be downloaded and run.
#[derive(Debug)]
pub struct ModelInfo {
    pub id: String,
    pub name: String,
    pub engine_type: EngineType,
    /// The file, or directory, under the models directory.
    pub filename: String,
    pub url: String,
    pub sha256: String,
    pub size_mb: u64,
    /// Whether the model is a directory unpacked from an archive.
    pub is_directory: bool,
    pub is_downloaded: bool,
}

/// A [`ModelInfo`] as mathematical values.
pub ghost struct ModelInfoView {
    pub id: Seq<char>,
    pub name: Seq<char>,
    pub engine_type: EngineType,
    pub filename: Seq<char>,
    pub url: Seq<char>,
    pub sha256: Seq<char>,
    pub size_mb: u64,
    pub is_directory: bool,
    pub is_downloaded: bool,
}

impl View for ModelInfo {
    type V = ModelInfoView;

    open spec fn view(&self) -> ModelInfoView {
        ModelInfoView {
            id: self.id@,
            name: self.name@,
            engine_type: self.engine_type,
            filename: self.filename@,
            url: self.url@,
            sha256: self.sha256@,
            size_mb: self.size_mb,
            is_directory: self.is_directory,
            is_downloaded: self.is_downloaded,
        }
    }
}

impl ModelInfo {
    /// A copy of this model description.
    pub fn duplicate(&self) -> (r: ModelInfo)
        ensures
            r@ == self@,
    {
        ModelInfo {
            id: self.id.clone(),
            name: self.name.clone(),
            engine_type: self.engine_type,
            filename: self.filename.clone(),
            url: self.url.clone(),
            sha256: self.sha256.clone(),
            size_mb: self.size_mb,
            is_directory: self.is_directory,
            is_downloaded: self.is_downloaded,
        }
    }
}

/// The same model with its download state set to `downloaded`.
pub open spec fn with_download_state(m: ModelInfoView, downloaded: bool) -> ModelInfoView {
    ModelInfoView { is_downloaded: downloaded, ..m }
}

/// The views of a sequence of models.
pub open spec fn model_views(s: Seq<ModelInfo>) -> Seq<ModelInfoView> {
    s.map_values(|m: ModelInfo| m@)
}

/// The models that come with the application, none downloaded.
pub open spec fn spec_builtin_models() -> Seq<ModelInfoView> {
    seq![
        builtin_entry("parakeet-tdt-0.6b-v3"@, "Parakeet V3"@, EngineType::Parakeet, "parakeet-tdt-0.6b-v3-int8"@,
            "https://blob.handy.computer/parakeet-v3-int8.tar.gz"@, 456, true),
        builtin_entry("parakeet-tdt-0.6b-v2"@, "Parakeet V2"@, EngineType::Parakeet, "parakeet-tdt-0.6b-v2-int8"@,
            "https://blob.handy.computer/parakeet-v2-int8.tar.gz"@, 451, true),
        builtin_entry("small"@, "Whisper Small"@, EngineType::Whisper, "ggml-small.bin"@,
            "https://blob.handy.computer/ggml-small.bin"@, 465, false),
        builtin_entry("medium"@, "Whisper Medium"@, EngineType::Whisper, "whisper-medium-q4_1.bin"@,
            "https://blob.handy.computer/whisper-medium-q4_1.bin"@, 469, false),
        builtin_entry("turbo"@, "Whisper Turbo"@, EngineType::Whisper, "ggml-large-v3-turbo.bin"@,
            "https://blob.handy.computer/ggml-large-v3-turbo.bin"@, 1549, false),
        builtin_entry("large"@, "Whisper Large"@, EngineType::Whisper, "ggml-large-v3-q5_0.bin"@,
            "https://blob.handy.computer/ggml-large-v3-q5_0.bin"@, 1031, false),
        builtin_entry("moonshine-base"@, "Moonshine Base"@, EngineType::Moonshine, "moonshine-base"@,
            "https://blob.handy.computer/moonshine-base.tar.gz"@, 55, true),
        builtin_entry("sense-voice-int8"@, "SenseVoice"@, EngineType::SenseVoice, "sense-voice-int8"@,
            "https://blob.handy.computer/sense-voice-int8.tar.gz"@, 152, true),
        builtin_entry("gigaam-v3-e2e-ctc"@, "GigaAM v3"@, EngineType::GigaAM, "gigaam-v3-e2e-ctc"@,
            "https://blob.handy.computer/gigaam-v3-e2e-ctc.tar.gz"@, 151, true),
        builtin_entry("canary-180m-flash"@, "Canary Flash"@, EngineType::Canary, "canary-180m-flash"@,
            "https://blob.handy.computer/canary-180m-flash.tar.gz"@, 146, true),
    ]
}

/// A built-in model: no checksum, not downloaded.
pub open spec fn builtin_entry(
    id: Seq<char>,
    name: Seq<char>,
    engine_type: EngineType,
    filename: Seq<char>,
    url: Seq<char>,
    size_mb: u64,
    is_directory: bool,
) -> ModelInfoView {
    ModelInfoView {
        id,
        name,
        engine_type,
        filename,
        url,
        sha256: Seq::empty(),
        size_mb,
        is_directory,
        is_downloaded: false,
    }
}

fn builtin(
    id: &str,
    name: &str,
    engine_type: EngineType,
    filename: &str,
    url: &str,
    size_mb: u64,
    is_directory: bool,
) -> (r: ModelInfo)
    ensures
        r@ == builtin_entry(id@, name@, engine_type, filename@, url@, size_mb, is_directory),
{
    ModelInfo {
        id: id.to_owned(),
        name: name.to_owned(),
        engine_type,
        filename: filename.to_owned(),
        url: url.to_owned(),
        sha256: String::new(),
        size_mb,
        is_directory,
        is_downloaded: false,
    }
}

/// The models that come with the application.
pub fn builtin_models() -> (r: Vec<ModelInfo>)
    ensures
        model_views(r@) == spec_builtin_models(),
{
    let mut v: Vec<ModelInfo> = Vec::new();
    v.push(builtin("parakeet-tdt-0.6b-v3", "Parakeet V3", EngineType::Parakeet, "parakeet-tdt-0.6b-v3-int8",
        "https://blob.handy.computer/parakeet-v3-int8.tar.gz", 456, true));
    v.push(builtin("parakeet-tdt-0.6b-v2", "Parakeet V2", EngineType::Parakeet, "parakeet-tdt-0.6b-v2-int8",
        "https://blob.handy.computer/parakeet-v2-int8.tar.gz", 451, true));
    v.push(builtin("small", "Whisper Small", EngineType::Whisper, "ggml-small.bin",
        "https://blob.handy.computer/ggml-small.bin", 465, false));
    v.push(builtin("medium", "Whisper Medium", EngineType::Whisper, "whisper-medium-q4_1.bin",
        "https://blob.handy.computer/whisper-medium-q4_1.bin", 469, false));
    v.push(builtin("turbo", "Whisper Turbo", EngineType::Whisper, "ggml-large-v3-turbo.bin",
        "https://blob.handy.computer/ggml-large-v3-turbo.bin", 1549, false));
    v.push(builtin("large", "Whisper Large", EngineType::Whisper, "ggml-large-v3-q5_0.bin",
        "https://blob.handy.computer/ggml-large-v3-q5_0.bin", 1031, false));
    v.push(builtin("moonshine-base", "Moonshine Base", EngineType::Moonshine, "moonshine-base",
        "https://blob.handy.computer/moonshine-base.tar.gz", 55, true));
    v.push(builtin("sense-voice-int8", "SenseVoice", EngineType::SenseVoice, "sense-voice-int8",
        "https://blob.handy.computer/sense-voice-int8.tar.gz", 152, true));
    v.push(builtin("gigaam-v3-e2e-ctc", "GigaAM v3", EngineType::GigaAM, "gigaam-v3-e2e-ctc",
        "https://blob.handy.computer/gigaam-v3-e2e-ctc.tar.gz", 151, true));
    v.push(builtin("canary-180m-flash", "Canary Flash", EngineType::Canary, "canary-180m-flash",
        "https://blob.handy.computer/canary-180m-flash.tar.gz", 146, true));
    assert(model_views(v@) =~= spec_builtin_models());
    v
}

} // verus!

verus! {

/// No two models share an id.
pub open spec fn ids_unique(s: Seq<ModelInfoView>) -> bool {
    forall|i: int, j: int| 0 <= i < s.len() && 0 <= j < s.len() && i != j ==> s[i].id != s[j].id
}

/// Some model has id `id`.
pub open spec fn has_id(s: Seq<ModelInfoView>, id: Seq<char>) -> bool {
    exists|i: int| 0 <= i < s.len() && s[i].id == id
}

/// The models of `s` keyed by id.
pub open spec fn models_by_id(s: Seq<ModelInfoView>) -> Map<Seq<char>, ModelInfoView> {
    Map::new(
        |id: Seq<char>| has_id(s, id),
        |id: Seq<char>| s[choose|i: int| 0 <= i < s.len() && s[i].id == id],
    )
}

/// The registry that adding the models of `s` in order makes: a later model
/// replaces an earlier one with the same id.
pub open spec fn registry_of(s: Seq<ModelInfoView>) -> Map<Seq<char>, ModelInfoView>
    decreases s.len(),
{
    if s.len() == 0 {
        Map::empty()
    } else {
        registry_of(s.drop_last()).insert(s.last().id, s.last())
    }
}

/// Every model of `s` marked as not downloaded.
pub open spec fn undownloaded(s: Seq<ModelInfoView>) -> Seq<ModelInfoView> {
    s.map_values(|m: ModelInfoView| with_download_state(m, false))
}

/// Whether a model is on disk, given what was found at its path: a
/// directory for a model that is a directory, a file otherwise.
pub open spec fn downloaded_from(is_directory: bool, entry: EntryKind) -> bool {
    if is_directory {
        entry == EntryKind::Directory
    } else {
        entry == EntryKind::File
    }
}

/// Sorted by name, equal names in any order.
pub open spec fn sorted_by_name(s: Seq<ModelInfoView>) -> bool {
    forall|i: int, j: int| 0 <= i < j < s.len() ==> !crate::text::lex_lt(s[j].name, s[i].name)
}

proof fn lemma_lookup(s: Seq<ModelInfoView>, i: int)
    requires
        ids_unique(s),
        0 <= i < s.len(),
    ensures
        models_by_id(s).contains_key(s[i].id),
        models_by_id(s)[s[i].id] == s[i],
{
    assert(has_id(s, s[i].id));
    let j = choose|j: int| 0 <= j < s.len() && s[j].id == s[i].id;
    assert(j == i);
}

proof fn lemma_push(s: Seq<ModelInfoView>, m: ModelInfoView)
    requires
        ids_unique(s),
        !has_id(s, m.id),
    ensures
        ids_unique(s.push(m)),
        models_by_id(s.push(m)) =~= models_by_id(s).insert(m.id, m),
{
    let t = s.push(m);
    assert forall|id: Seq<char>| has_id(t, id) <==> (has_id(s, id) || id == m.id) by {
        if has_id(s, id) {
            let i = choose|i: int| 0 <= i < s.len() && s[i].id == id;
            assert(t[i] == s[i]);
        }
        if id == m.id {
            assert(t[s.len() as int] == m);
        }
    }
    assert(ids_unique(t)) by {
        assert forall|i: int, j: int| 0 <= i < t.len() && 0 <= j < t.len() && i != j implies t[i].id != t[j].id by {
            if i == s.len() {
                assert(!(0 <= j < s.len() && s[j].id == m.id));
            } else if j == s.len() {
                assert(!(0 <= i < s.len() && s[i].id == m.id));
            }
        }
    }
    assert forall|id: Seq<char>| #[trigger] models_by_id(t).contains_key(id) implies models_by_id(t)[id] == models_by_id(s).insert(m.id, m)[id] by {
        let k = choose|k: int| 0 <= k < t.len() && t[k].id == id;
        lemma_lookup(t, k);
        if id != m.id {
            lemma_lookup(s, k);
        }
    }
}

proof fn lemma_update(s: Seq<ModelInfoView>, i: int, m: ModelInfoView)
    requires
        ids_unique(s),
        0 <= i < s.len(),
        s[i].id == m.id,
    ensures
        ids_unique(s.update(i, m)),
        models_by_id(s.update(i, m)) =~= models_by_id(s).insert(m.id, m),
{
    let t = s.update(i, m);
    assert forall|id: Seq<char>| has_id(t, id) <==> has_id(s, id) by {
        if has_id(s, id) {
            let k = choose|k: int| 0 <= k < s.len() && s[k].id == id;
            assert(t[k].id == id);
        }
        if has_id(t, id) {
            let k = choose|k: int| 0 <= k < t.len() && t[k].id == id;
            assert(s[k].id == id);
        }
    }
    assert(ids_unique(t));
    assert forall|id: Seq<char>| #[trigger] models_by_id(t).contains_key(id) implies models_by_id(t)[id] == models_by_id(s).insert(m.id, m)[id] by {
        let k = choose|k: int| 0 <= k < t.len() && t[k].id == id;
        lemma_lookup(t, k);
        if id != m.id {
            lemma_lookup(s, k);
        }
    }
}

/// A registry made from models with distinct ids holds one model per model.
proof fn lemma_registry_size(s: Seq<ModelInfoView>)
    requires
        ids_unique(s),
    ensures
        models_by_id(s).dom().finite(),
        models_by_id(s).len() == s.len(),
{
    let ids = s.map_values(|m: ModelInfoView| m.id);
    assert(ids.no_duplicates()) by {
        assert forall|i: int, j: int| 0 <= i < ids.len() && 0 <= j < ids.len() && i != j implies ids[i] != ids[j] by {
            assert(ids[i] == s[i].id && ids[j] == s[j].id);
        }
    }
    ids.unique_seq_to_set();
    assert forall|id: Seq<char>| ids.to_set().contains(id) <==> has_id(s, id) by {
        if has_id(s, id) {
            let k = choose|k: int| 0 <= k < s.len() && s[k].id == id;
            assert(ids[k] == id);
        }
        if ids.to_set().contains(id) {
            let k = choose|k: int| 0 <= k < ids.len() && ids[k] == id;
            assert(s[k].id == id);
        }
    }
    assert(ids.to_set() =~= models_by_id(s).dom());
}

/// A download in progress and whether it was asked to stop.
pub ghost struct DownloadFlagView {
    pub model_id: Seq<char>,
    pub cancelled: bool,
}

pub open spec fn flags_unique(s: Seq<DownloadFlagView>) -> bool {
    forall|i: int, j: int| 0 <= i < s.len() && 0 <= j < s.len() && i != j ==> s[i].model_id != s[j].model_id
}

pub open spec fn has_flag(s: Seq<DownloadFlagView>, id: Seq<char>) -> bool {
    exists|i: int| 0 <= i < s.len() && s[i].model_id == id
}

/// For each download in progress, whether it was asked to stop.
pub open spec fn flags_by_id(s: Seq<DownloadFlagView>) -> Map<Seq<char>, bool> {
    Map::new(
        |id: Seq<char>| has_flag(s, id),
        |id: Seq<char>| s[choose|i: int| 0 <= i < s.len() && s[i].model_id == id].cancelled,
    )
}

proof fn lemma_flag_lookup(s: Seq<DownloadFlagView>, i: int)
    requires
        flags_unique(s),
        0 <= i < s.len(),
    ensures
        flags_by_id(s).contains_key(s[i].model_id),
        flags_by_id(s)[s[i].model_id] == s[i].cancelled,
{
    assert(has_flag(s, s[i].model_id));
    let j = choose|j: int| 0 <= j < s.len() && s[j].model_id == s[i].model_id;
    assert(j == i);
}

proof fn lemma_flag_push(s: Seq<DownloadFlagView>, f: DownloadFlagView)
    requires
        flags_unique(s),
        !has_flag(s, f.model_id),
    ensures
        flags_unique(s.push(f)),
        flags_by_id(s.push(f)) =~= flags_by_id(s).insert(f.model_id, f.cancelled),
{
    let t = s.push(f);
    assert forall|id: Seq<char>| has_flag(t, id) <==> (has_flag(s, id) || id == f.model_id) by {
        if has_flag(s, id) {
            let i = choose|i: int| 0 <= i < s.len() && s[i].model_id == id;
            assert(t[i] == s[i]);
        }
        if id == f.model_id {
            assert(t[s.len() as int] == f);
        }
    }
    assert(flags_unique(t)) by {
        assert forall|i: int, j: int| 0 <= i < t.len() && 0 <= j < t.len() && i != j implies t[i].model_id != t[j].model_id by {
            if i == s.len() {
                assert(!(0 <= j < s.len() && s[j].model_id == f.model_id));
            } else if j == s.len() {
                assert(!(0 <= i < s.len() && s[i].model_id == f.model_id));
            }
        }
    }
    assert forall|id: Seq<char>| #[trigger] flags_by_id(t).contains_key(id) implies flags_by_id(t)[id] == flags_by_id(s).insert(f.model_id, f.cancelled)[id] by {
        let k = choose|k: int| 0 <= k < t.len() && t[k].model_id == id;
        lemma_flag_lookup(t, k);
        if id != f.model_id {
            lemma_flag_lookup(s, k);
        }
    }
}

proof fn lemma_flag_update(s: Seq<DownloadFlagView>, i: int, f: DownloadFlagView)
    requires
        flags_unique(s),
        0 <= i < s.len(),
        s[i].model_id == f.model_id,
    ensures
        flags_unique(s.update(i, f)),
        flags_by_id(s.update(i, f)) =~= flags_by_id(s).insert(f.model_id, f.cancelled),
{
    let t = s.update(i, f);
    assert forall|id: Seq<char>| has_flag(t, id) <==> has_flag(s, id) by {
        if has_flag(s, id) {
            let k = choose|k: int| 0 <= k < s.len() && s[k].model_id == id;
            assert(t[k].model_id == id);
        }
        if has_flag(t, id) {
            let k = choose|k: int| 0 <= k < t.len() && t[k].model_id == id;
            assert(s[k].model_id == id);
        }
    }
    assert(flags_unique(t));
    assert forall|id: Seq<char>| #[trigger] flags_by_id(t).contains_key(id) implies flags_by_id(t)[id] == flags_by_id(s).insert(f.model_id, f.cancelled)[id] by {
        let k = choose|k: int| 0 <= k < t.len() && t[k].model_id == id;
        lemma_flag_lookup(t, k);
        if id != f.model_id {
            lemma_flag_lookup(s, k);
        }
    }
}

proof fn lemma_flag_remove(s: Seq<DownloadFlagView>, i: int)
    requires
        flags_unique(s),
        0 <= i < s.len(),
    ensures
        flags_unique(s.remove(i)),
        flags_by_id(s.remove(i)) =~= flags_by_id(s).remove(s[i].model_id),
{
    let t = s.remove(i);
    assert(forall|k: int| 0 <= k < i ==> t[k] == s[k]);
    assert(forall|k: int| i <= k < t.len() ==> t[k] == s[k + 1]);
    assert forall|id: Seq<char>| has_flag(t, id) <==> (has_flag(s, id) && id != s[i].model_id) by {
        if has_flag(t, id) {
            let k = choose|k: int| 0 <= k < t.len() && t[k].model_id == id;
            if k < i {
                assert(s[k].model_id == id);
            } else {
                assert(s[k + 1].model_id == id);
            }
        }
        if has_flag(s, id) && id != s[i].model_id {
            let k = choose|k: int| 0 <= k < s.len() && s[k].model_id == id;
            if k < i {
                assert(t[k].model_id == id);
            } else {
                assert(t[k - 1].model_id == id);
            }
        }
    }
    assert(flags_unique(t)) by {
        assert forall|a: int, b: int| 0 <= a < t.len() && 0 <= b < t.len() && a != b implies t[a].model_id != t[b].model_id by {
            let a2 = if a < i { a } else { a + 1 };
            let b2 = if b < i { b } else { b + 1 };
            assert(t[a] == s[a2] && t[b] == s[b2]);
        }
    }
    assert forall|id: Seq<char>| #[trigger] flags_by_id(t).contains_key(id) implies flags_by_id(t)[id] == flags_by_id(s)[id] by {
        let k = choose|k: int| 0 <= k < t.len() && t[k].model_id == id;
        lemma_flag_lookup(t, k);
        let k2 = if k < i { k } else { k + 1 };
        assert(s[k2] == t[k]);
        lemma_flag_lookup(s, k2);
    }
}

/// The registry `models` with model `id`, if it is there, marked as
/// downloaded or not.
pub open spec fn marked(models: Map<Seq<char>, ModelInfoView>, id: Seq<char>, downloaded: bool) -> Map<Seq<char>, ModelInfoView> {
    if models.contains_key(id) {
        models.insert(id, with_download_state(models[id], downloaded))
    } else {
        models
    }
}

/// The downloads `d` once a download of `id`, not asked to stop, begins.
pub open spec fn download_begun(d: Map<Seq<char>, bool>, id: Seq<char>) -> Map<Seq<char>, bool> {
    d.insert(id, false)
}

/// The downloads `d` once the download of `id`, if there is one, is asked
/// to stop.
pub open spec fn download_cancelled(d: Map<Seq<char>, bool>, id: Seq<char>) -> Map<Seq<char>, bool> {
    if d.contains_key(id) {
        d.insert(id, true)
    } else {
        d
    }
}

/// The downloads `d` once the download of `id` ends.
pub open spec fn download_ended(d: Map<Seq<char>, bool>, id: Seq<char>) -> Map<Seq<char>, bool> {
    d.remove(id)
}

/// Whether a download of `id` is in progress and was asked to stop.
pub open spec fn cancel_requested(d: Map<Seq<char>, bool>, id: Seq<char>) -> bool {
    d.contains_key(id) && d[id]
}

/// A model's download state reads back as it was last set, the other models
/// are left as they were, and no model is added or removed.
pub proof fn law_download_state_reads_back(models: Map<Seq<char>, ModelInfoView>, id: Seq<char>, downloaded: bool, other: Seq<char>)
    requires
        other != id,
    ensures
        marked(models, id, downloaded).dom() == models.dom(),
        models.contains_key(id) ==> marked(models, id, downloaded)[id] == with_download_state(models[id], downloaded),
        models.contains_key(other) ==> marked(models, id, downloaded)[other] == models[other],
{
    assert(marked(models, id, downloaded).dom() =~= models.dom());
}

/// A download that has begun and is then cancelled is seen as asked to stop;
/// one that has just begun, or that has ended, is not.  Cancelling when no
/// download of the model is in progress changes nothing.
pub proof fn law_cancellation_lifecycle(d: Map<Seq<char>, bool>, id: Seq<char>)
    ensures
        !cancel_requested(download_begun(d, id), id),
        cancel_requested(download_cancelled(download_begun(d, id), id), id),
        !cancel_requested(download_ended(d, id), id),
        !d.contains_key(id) ==> download_cancelled(d, id) == d,
{
}

/// Downloads of other models are not affected by beginning, cancelling or
/// ending the download of `id`.
pub proof fn law_downloads_independent(d: Map<Seq<char>, bool>, id: Seq<char>, other: Seq<char>)
    requires
        other != id,
    ensures
        cancel_requested(download_begun(d, id), other) == cancel_requested(d, other),
        cancel_requested(download_cancelled(d, id), other) == cancel_requested(d, other),
        cancel_requested(download_ended(d, id), other) == cancel_requested(d, other),
{
}

/// Every model added is in the registry, and under its id stands the last
/// model added with that id: a custom model replaces a built-in one.
pub proof fn law_last_added_wins(s: Seq<ModelInfoView>, i: int)
    requires
        0 <= i < s.len(),
        forall|j: int| i < j < s.len() ==> s[j].id != s[i].id,
    ensures
        registry_of(s).contains_key(s[i].id),
        registry_of(s)[s[i].id] == s[i],
    decreases s.len(),
{
    if i < s.len() - 1 {
        law_last_added_wins(s.drop_last(), i);
    }
}

/// The registry holds the models added and nothing else.
pub proof fn law_registry_holds_added_ids(s: Seq<ModelInfoView>, id: Seq<char>)
    ensures
        registry_of(s).contains_key(id) <==> has_id(s, id),
    decreases s.len(),
{
    if s.len() > 0 {
        law_registry_holds_added_ids(s.drop_last(), id);
        if has_id(s.drop_last(), id) {
            let k = choose|k: int| 0 <= k < s.drop_last().len() && s.drop_last()[k].id == id;
            assert(s[k].id == id);
        }
        if has_id(s, id) && id != s.last().id {
            let k = choose|k: int| 0 <= k < s.len() && s[k].id == id;
            assert(s.drop_last()[k].id == id);
        }
    }
}

/// The downloads of a list of `(model id, asked to stop)` pairs.
pub open spec fn flag_views(v: Seq<(String, bool)>) -> Seq<DownloadFlagView> {
    v.map_values(|p: (String, bool)| DownloadFlagView { model_id: p.0@, cancelled: p.1 })
}

/// What to remove from disk to delete a model that is a directory or not,
/// given what was found at its path: its directory or its file when it is
/// there, nothing otherwise.
pub open spec fn removal_of(is_directory: bool, entry: EntryKind) -> Removal {
    if is_directory && entry == EntryKind::Directory {
        Removal::Directory
    } else if !is_directory && entry == EntryKind::File {
        Removal::File
    } else {
        Removal::Nothing
    }
}

/// A model counts as downloaded exactly when a probe found an entry of its
/// own kind at its path (a directory for a directory model, a file
/// otherwise), which is exactly when deleting it has something to remove:
/// nothing there, or something of the other kind, is not a download.
pub proof fn law_downloaded_means_own_kind_on_disk(is_directory: bool, entry: EntryKind)
    ensures
        downloaded_from(is_directory, entry) <==> entry == (if is_directory { EntryKind::Directory } else { EntryKind::File }),
        downloaded_from(is_directory, entry) <==> removal_of(is_directory, entry) != Removal::Nothing,
        !downloaded_from(is_directory, EntryKind::Missing),
        !downloaded_from(is_directory, EntryKind::Other),
{
}

/// Whether `s` ends with `suffix`.
pub open spec fn ends_with(s: Seq<char>, suffix: Seq<char>) -> bool {
    suffix.len() <= s.len() && s.subrange(s.len() - suffix.len(), s.len() as int) == suffix
}

/// A built-in model is a directory exactly when it is downloaded as a
/// `.tar.gz` archive, which is unpacked into that directory; the others
/// are single files.
pub proof fn law_builtin_archives_are_directories(i: int)
    requires
        0 <= i < spec_builtin_models().len(),
    ensures
        spec_builtin_models()[i].is_directory <==> ends_with(spec_builtin_models()[i].url, ".tar.gz"@),
{
    reveal_strlit(".tar.gz");
    reveal_strlit("https://blob.handy.computer/parakeet-v3-int8.tar.gz");
    reveal_strlit("https://blob.handy.computer/parakeet-v2-int8.tar.gz");
    reveal_strlit("https://blob.handy.computer/ggml-small.bin");
    reveal_strlit("https://blob.handy.computer/whisper-medium-q4_1.bin");
    reveal_strlit("https://blob.handy.computer/ggml-large-v3-turbo.bin");
    reveal_strlit("https://blob.handy.computer/ggml-large-v3-q5_0.bin");
    reveal_strlit("https://blob.handy.computer/moonshine-base.tar.gz");
    reveal_strlit("https://blob.handy.computer/sense-voice-int8.tar.gz");
    reveal_strlit("https://blob.handy.computer/gigaam-v3-e2e-ctc.tar.gz");
    reveal_strlit("https://blob.handy.computer/canary-180m-flash.tar.gz");
    let u = spec_builtin_models()[i].url;
    let tail = u.subrange(u.len() - 7, u.len() as int);
    if spec_builtin_models()[i].is_directory {
        assert(tail =~= ".tar.gz"@);
    } else {
        assert(tail[6] != ".tar.gz"@[6]);
    }
}

/// A model lookup failed.
#[derive(Debug)]
pub enum ModelError {
    /// No model has this id.
    NotFound(String),
}

impl ModelError {
    /// The message shown for the error.
    pub fn message(&self) -> (r: String)
        ensures
            match self {
                ModelError::NotFound(id) => r@ == "Model '"@ + id@ + "' not found"@,
            },
    {
        match self {
            ModelError::NotFound(id) => {
                let r = "Model '".to_owned();
                let r = r.concat(id.as_str());
                r.concat("' not found")
            },
        }
    }
}

/// Where a model is downloaded to: the model itself, and, for a model
/// unpacked from an archive, the archive and the scratch directory.
#[derive(Debug)]
pub struct DownloadPaths {
    pub final_path: String,
    pub archive_path: String,
    pub tmp_dir: String,
}

/// What to remove from disk to delete a model.
#[derive(Clone, Copy, Debug, PartialEq, Eq, Structural)]
pub enum Removal {
    Directory,
    File,
    Nothing,
}

/// The registry of speech models, their download state, and the downloads
/// in progress.
pub struct ModelManager {
    models_dir: String,
    models: Vec<ModelInfo>,
    downloads: Vec<(String, bool)>,
}

impl ModelManager {
    /// The models, in the order they were added.
    pub closed spec fn entries(&self) -> Seq<ModelInfoView> {
        model_views(self.models@)
    }

    closed spec fn flag_entries(&self) -> Seq<DownloadFlagView> {
        flag_views(self.downloads@)
    }

    /// The directory that holds the models.
    pub closed spec fn models_dir(&self) -> Seq<char> {
        self.models_dir@
    }

    /// The models keyed by id.
    pub open spec fn models(&self) -> Map<Seq<char>, ModelInfoView> {
        models_by_id(self.entries())
    }

    /// For each download in progress, whether it was asked to stop.
    pub closed spec fn downloads(&self) -> Map<Seq<char>, bool> {
        flags_by_id(self.flag_entries())
    }

    /// Model ids and download ids are each unique.
    #[verifier::type_invariant]
    spec fn wf(&self) -> bool {
        &&& ids_unique(self.entries())
        &&& flags_unique(self.flag_entries())
    }

    /// The position of the model with id `key`, if any.
    fn find(&self, key: &String) -> (r: Option<usize>)
        ensures
            match r {
                Some(i) => i < self.entries().len() && self.entries()[i as int].id == key@,
                None => !has_id(self.entries(), key@),
            },
    {
        let mut i: usize = 0;
        while i < self.models.len()
            invariant
                i <= self.models@.len(),
                forall|k: int| 0 <= k < i ==> self.entries()[k].id != key@,
            decreases self.models@.len() - i,
        {
            if self.models[i].id == *key {
                return Some(i);
            }
            i = i + 1;
        }
        None
    }

    /// The position of the download of `key`, if any.
    fn find_flag(&self, key: &String) -> (r: Option<usize>)
        ensures
            match r {
                Some(i) => i < self.flag_entries().len() && self.flag_entries()[i as int].model_id == key@,
                None => !has_flag(self.flag_entries(), key@),
            },
    {
        let mut i: usize = 0;
        while i < self.downloads.len()
            invariant
                i <= self.downloads@.len(),
                forall|k: int| 0 <= k < i ==> self.flag_entries()[k].model_id != key@,
            decreases self.downloads@.len() - i,
        {
            if self.downloads[i].0 == *key {
                return Some(i);
            }
            i = i + 1;
        }
        None
    }

    /// Adds `m`, replacing the model with the same id if there is one.
    fn insert_model(&mut self, m: ModelInfo)
        ensures
            final(self).models() == old(self).models().insert(m@.id, m@),
            final(self).downloads() == old(self).downloads(),
            final(self).models_dir() == old(self).models_dir(),
    {
        proof { use_type_invariant(&*self); }
        let ghost mv = m@;
        let ghost s = self.entries();
        match self.find(&m.id) {
            Some(i) => {
                let mut models: Vec<ModelInfo> = Vec::new();
                std::mem::swap(&mut models, &mut self.models);
                models.set(i, m);
                proof {
                    assert(model_views(models@) =~= s.update(i as int, mv));
                    lemma_update(s, i as int, mv);
                }
                self.models = models;
            },
            None => {
                let mut models: Vec<ModelInfo> = Vec::new();
                std::mem::swap(&mut models, &mut self.models);
                models.push(m);
                proof {
                    assert(model_views(models@) =~= s.push(mv));
                    lemma_push(s, mv);
                }
                self.models = models;
            },
        }
    }

    /// A registry of the built-in models and then `custom_models`, a later
    /// model replacing an earlier one with the same id, all marked as not
    /// downloaded until a probe of the disk says otherwise
    /// ([`ModelManager::record_probe`]).
    pub fn new(models_dir: String, custom_models: Vec<ModelInfo>) -> (r: Self)
        ensures
            r.models() == registry_of(undownloaded(spec_builtin_models() + model_views(custom_models@))),
            r.downloads() == Map::<Seq<char>, bool>::empty(),
            r.models_dir() == models_dir@,
    {
        let mut mm = ModelManager { models_dir, models: Vec::new(), downloads: Vec::new() };
        let ghost all = spec_builtin_models() + model_views(custom_models@);
        proof {
            assert(mm.models() =~= registry_of(undownloaded(all.take(0))));
            assert(mm.downloads() =~= Map::<Seq<char>, bool>::empty());
        }
        let builtin = builtin_models();
        let nb = builtin.len();
        let mut i: usize = 0;
        while i < nb
            invariant
                nb == builtin@.len() == spec_builtin_models().len(),
                model_views(builtin@) == spec_builtin_models(),
                all == spec_builtin_models() + model_views(custom_models@),
                i <= nb,
                mm.models() == registry_of(undownloaded(all.take(i as int))),
                mm.downloads() == Map::<Seq<char>, bool>::empty(),
                mm.models_dir() == models_dir@,
            decreases nb - i,
        {
            let mut m = builtin[i].duplicate();
            m.is_downloaded = false;
            mm.insert_model(m);
            proof {
                assert(undownloaded(all.take(i + 1)).drop_last() =~= undownloaded(all.take(i as int)));
                assert(undownloaded(all.take(i + 1)).last() == m@);
            }
            i = i + 1;
        }
        let nc = custom_models.len();
        let mut j: usize = 0;
        while j < nc
            invariant
                nc == custom_models@.len(),
                nb == spec_builtin_models().len(),
                all == spec_builtin_models() + model_views(custom_models@),
                j <= nc,
                mm.models() == registry_of(undownloaded(all.take(nb + j))),
                mm.downloads() == Map::<Seq<char>, bool>::empty(),
                mm.models_dir() == models_dir@,
            decreases nc - j,
        {
            let mut m = custom_models[j].duplicate();
            m.is_downloaded = false;
            mm.insert_model(m);
            proof {
                assert(undownloaded(all.take(nb + j + 1)).drop_last() =~= undownloaded(all.take(nb + j)));
                assert(all[nb + j] == custom_models@[j as int]@);
                assert(undownloaded(all.take(nb + j + 1)).last() == m@);
            }
            j = j + 1;
        }
        assert(all.take(nb + nc) =~= all);
        mm
    }

    /// Whether `model` is on disk, given what was found at its path
    /// ([`ModelManager::model_path`]): a directory for a model that is a
    /// directory, a file otherwise.
    pub fn check_downloaded_static(model: &ModelInfo, entry: EntryKind) -> (r: bool)
        ensures
            r == downloaded_from(model.is_directory, entry),
    {
        if model.is_directory {
            entry == EntryKind::Directory
        } else {
            entry == EntryKind::File
        }
    }

    /// Whether `model` is on disk, given what was found at its path.
    pub fn check_downloaded(&self, model: &ModelInfo, entry: EntryKind) -> (r: bool)
        ensures
            r == downloaded_from(model.is_directory, entry),
    {
        Self::check_downloaded_static(model, entry)
    }

    /// The path of `model` under the models directory.
    pub fn model_path(&self, model: &ModelInfo) -> (r: String)
        ensures
            r@ == joined_path(self.models_dir(), model.filename@),
    {
        join_path(self.models_dir.as_str(), model.filename.as_str())
    }

    /// Records what a probe found at the path of model `model_id`: it is
    /// downloaded exactly when [`ModelManager::check_downloaded`] says so.
    pub fn record_probe(&mut self, model_id: &str, entry: EntryKind)
        ensures
            final(self).models() == marked(
                old(self).models(),
                model_id@,
                downloaded_from(old(self).models()[model_id@].is_directory, entry),
            ),
            final(self).downloads() == old(self).downloads(),
            final(self).models_dir() == old(self).models_dir(),
    {
        proof { use_type_invariant(&*self); }
        let key = model_id.to_owned();
        match self.find(&key) {
            Some(i) => {
                proof { lemma_lookup(self.entries(), i as int); }
                let downloaded = Self::check_downloaded_static(&self.models[i], entry);
                self.mark_downloaded(model_id, downloaded);
            },
            None => {},
        }
    }

    /// Sets whether model `model_id` is downloaded; nothing happens if there
    /// is no such model.
    pub fn mark_downloaded(&mut self, model_id: &str, downloaded: bool)
        ensures
            final(self).models() == marked(old(self).models(), model_id@, downloaded),
            final(self).downloads() == old(self).downloads(),
            final(self).models_dir() == old(self).models_dir(),
    {
        proof { use_type_invariant(&*self); }
        let key = model_id.to_owned();
        match self.find(&key) {
            Some(i) => {
                proof { lemma_lookup(self.entries(), i as int); }
                let mut m = self.models[i].duplicate();
                m.is_downloaded = downloaded;
                self.insert_model(m);
            },
            None => {},
        }
    }

    /// The model with id `model_id`.
    pub fn get_model_info(&self, model_id: &str) -> (r: Result<ModelInfo, ModelError>)
        ensures
            match r {
                Ok(m) => self.models().contains_key(model_id@) && m@ == self.models()[model_id@],
                Err(ModelError::NotFound(id)) => !self.models().contains_key(model_id@) && id@ == model_id@,
            },
    {
        proof { use_type_invariant(self); }
        let key = model_id.to_owned();
        match self.find(&key) {
            Some(i) => {
                proof { lemma_lookup(self.entries(), i as int); }
                Ok(self.models[i].duplicate())
            },
            None => Err(ModelError::NotFound(key)),
        }
    }

    /// The path of model `model_id` under the models directory.
    pub fn get_model_path(&self, model_id: &str) -> (r: Result<String, ModelError>)
        ensures
            match r {
                Ok(p) => self.models().contains_key(model_id@)
                    && p@ == joined_path(self.models_dir(), self.models()[model_id@].filename),
                Err(ModelError::NotFound(id)) => !self.models().contains_key(model_id@) && id@ == model_id@,
            },
    {
        proof { use_type_invariant(self); }
        let key = model_id.to_owned();
        match self.find(&key) {
            Some(i) => {
                proof { lemma_lookup(self.entries(), i as int); }
                Ok(join_path(self.models_dir.as_str(), self.models[i].filename.as_str()))
            },
            None => Err(ModelError::NotFound(key)),
        }
    }

    /// Every model, sorted by name.
    pub fn list_models(&self) -> (r: Vec<ModelInfo>)
        ensures
            sorted_by_name(model_views(r@)),
            model_views(r@).to_multiset() == self.entries().to_multiset(),
            r@.len() == self.models().len(),
            ids_unique(model_views(r@)),
            forall|i: int| 0 <= i < r@.len() ==> {
                &&& self.models().contains_key(#[trigger] r@[i].id@)
                &&& self.models()[r@[i].id@] == r@[i]@
            },
            forall|id: Seq<char>| #[trigger] self.models().contains_key(id) ==> exists|i: int| 0 <= i < r@.len() && r@[i].id@ == id,
    {
        proof { use_type_invariant(self); }
        broadcast use vstd::seq_lib::group_to_multiset_ensures;
        let mut list: Vec<ModelInfo> = Vec::new();
        let n = self.models.len();
        let mut i: usize = 0;
        proof {
            assert(model_views(list@).to_multiset() =~= self.entries().take(0).to_multiset()) by {
                assert(self.entries().take(0) =~= Seq::<ModelInfoView>::empty());
                assert(model_views(list@) =~= Seq::<ModelInfoView>::empty());
            }
        }
        while i < n
            invariant
                n == self.models@.len(),
                i <= n,
                sorted_by_name(model_views(list@)),
                model_views(list@).to_multiset() == self.entries().take(i as int).to_multiset(),
                ids_unique(model_views(list@)),
                ids_unique(self.entries()),
            decreases n - i,
        {
            let m = self.models[i].duplicate();
            let mut p: usize = 0;
            while p < list.len() && !crate::text::str_less(m.name.as_str(), list[p].name.as_str())
                invariant
                    p <= list@.len(),
                    forall|k: int| 0 <= k < p ==> !crate::text::lex_lt(m.name@, #[trigger] list@[k].name@),
                decreases list@.len() - p,
            {
                p = p + 1;
            }
            let ghost before = model_views(list@);
            let ghost mv = m@;
            assert(before.to_multiset() == self.entries().take(i as int).to_multiset());
            list.insert(p, m);
            proof {
                assert(model_views(list@) =~= before.insert(p as int, mv));
                before.insert_ensures(p as int, mv);
                let after = model_views(list@);
                assert forall|a: int, b: int| 0 <= a < b < after.len() implies !crate::text::lex_lt(after[b].name, after[a].name) by {
                    if a < p && b == p {
                        assert(after[a] == before[a]);
                    } else if a == p && b > p {
                        assert(after[b] == before[b - 1]);
                        assert(crate::text::lex_lt(mv.name, before[p as int].name));
                        if crate::text::lex_lt(before[b - 1].name, mv.name) {
                            crate::text::lemma_lex_lt_transitive(before[b - 1].name, mv.name, before[p as int].name);
                            if b - 1 > p {
                                assert(!crate::text::lex_lt(before[b - 1].name, before[p as int].name));
                            } else {
                                crate::text::lemma_lex_lt_irreflexive(before[p as int].name);
                            }
                        }
                    } else if a < p && b > p {
                        assert(after[a] == before[a] && after[b] == before[b - 1]);
                    } else if a > p {
                        assert(after[a] == before[a - 1] && after[b] == before[b - 1]);
                    } else {
                        assert(after[a] == before[a] && after[b] == before[b]);
                    }
                }
                assert(self.entries()[i as int] == mv);
                assert forall|k: int| 0 <= k < before.len() implies before[k].id != mv.id by {
                    before.to_multiset_ensures();
                    self.entries().take(i as int).to_multiset_ensures();
                    assert(before.contains(before[k]));
                    assert(before.to_multiset().count(before[k]) > 0);
                    assert(self.entries().take(i as int).to_multiset().count(before[k]) > 0);
                    assert(self.entries().take(i as int).contains(before[k]));
                    let j = choose|j: int| 0 <= j < i && self.entries().take(i as int)[j] == before[k];
                    assert(self.entries()[j] == before[k]);
                }
                assert forall|a: int, b: int| 0 <= a < after.len() && 0 <= b < after.len() && a != b implies after[a].id != after[b].id by {
                    let a2 = if a < p { a } else { a - 1 };
                    let b2 = if b < p { b } else { b - 1 };
                    if a != p && b != p {
                        assert(after[a] == before[a2] && after[b] == before[b2]);
                    } else if a == p {
                        assert(after[b] == before[b2]);
                    } else {
                        assert(after[a] == before[a2]);
                    }
                }
                assert(self.entries().take(i + 1) =~= self.entries().take(i as int).push(mv));
                vstd::seq_lib::to_multiset_insert(before, p as int, mv);
                vstd::seq_lib::to_multiset_build(self.entries().take(i as int), mv);
            }
            i = i + 1;
        }
        assert(self.entries().take(n as int) =~= self.entries());
        proof {
            let e = self.entries();
            let rv = model_views(list@);
            lemma_registry_size(e);
            rv.to_multiset_ensures();
            e.to_multiset_ensures();
            assert(rv.len() == rv.to_multiset().len());
            assert(e.len() == e.to_multiset().len());
            assert forall|k: int| 0 <= k < list@.len() implies {
                &&& self.models().contains_key(#[trigger] list@[k].id@)
                &&& self.models()[list@[k].id@] == list@[k]@
            } by {
                assert(rv[k] == list@[k]@);
                assert(rv.contains(rv[k]));
                assert(e.to_multiset().count(rv[k]) > 0);
                assert(e.contains(rv[k]));
                let j = choose|j: int| 0 <= j < e.len() && e[j] == rv[k];
                lemma_lookup(e, j);
            }
            assert forall|id: Seq<char>| #[trigger] self.models().contains_key(id) implies exists|k: int| 0 <= k < list@.len() && list@[k].id@ == id by {
                let j = choose|j: int| 0 <= j < e.len() && e[j].id == id;
                assert(e.contains(e[j]));
                assert(rv.to_multiset().count(e[j]) > 0);
                assert(rv.contains(e[j]));
                let k = choose|k: int| 0 <= k < rv.len() && rv[k] == e[j];
                assert(rv[k] == list@[k]@);
            }
        }
        list
    }

    /// Starts the download of model `model_id`: the model is looked up and a
    /// download, not asked to stop, is recorded for it (replacing any other
    /// download of the same model).
    pub fn begin_download(&mut self, model_id: &str) -> (r: Result<ModelInfo, ModelError>)
        ensures
            final(self).models() == old(self).models(),
            final(self).models_dir() == old(self).models_dir(),
            match r {
                Ok(m) => old(self).models().contains_key(model_id@) && m@ == old(self).models()[model_id@]
                    && final(self).downloads() == download_begun(old(self).downloads(), model_id@),
                Err(ModelError::NotFound(id)) => !old(self).models().contains_key(model_id@) && id@ == model_id@
                    && final(self).downloads() == old(self).downloads(),
            },
    {
        proof { use_type_invariant(&*self); }
        let m = match self.get_model_info(model_id) {
            Ok(m) => m,
            Err(e) => return Err(e),
        };
        let key = model_id.to_owned();
        let ghost s = self.flag_entries();
        let ghost f = DownloadFlagView { model_id: model_id@, cancelled: false };
        match self.find_flag(&key) {
            Some(i) => {
                let mut downloads: Vec<(String, bool)> = Vec::new();
                std::mem::swap(&mut downloads, &mut self.downloads);
                downloads.set(i, (key, false));
                proof {
                    assert(flag_views(downloads@) =~= s.update(i as int, f));
                    lemma_flag_update(s, i as int, f);
                }
                self.downloads = downloads;
            },
            None => {
                let mut downloads: Vec<(String, bool)> = Vec::new();
                std::mem::swap(&mut downloads, &mut self.downloads);
                downloads.push((key, false));
                proof {
                    assert(flag_views(downloads@) =~= s.push(f));
                    lemma_flag_push(s, f);
                }
                self.downloads = downloads;
            },
        }
        Ok(m)
    }

    /// Asks the download of model `model_id` to stop, if one is in progress.
    pub fn cancel_download(&mut self, model_id: &str)
        ensures
            final(self).models() == old(self).models(),
            final(self).models_dir() == old(self).models_dir(),
            final(self).downloads() == download_cancelled(old(self).downloads(), model_id@),
    {
        proof { use_type_invariant(&*self); }
        let key = model_id.to_owned();
        let ghost s = self.flag_entries();
        let ghost f = DownloadFlagView { model_id: model_id@, cancelled: true };
        match self.find_flag(&key) {
            Some(i) => {
                let mut downloads: Vec<(String, bool)> = Vec::new();
                std::mem::swap(&mut downloads, &mut self.downloads);
                downloads.set(i, (key, true));
                proof {
                    assert(flag_views(downloads@) =~= s.update(i as int, f));
                    lemma_flag_update(s, i as int, f);
                }
                self.downloads = downloads;
            },
            None => {},
        }
    }

    /// Whether the download of model `model_id` was asked to stop.
    pub fn is_download_cancelled(&self, model_id: &str) -> (r: bool)
        ensures
            r == cancel_requested(self.downloads(), model_id@),
    {
        proof { use_type_invariant(self); }
        let key = model_id.to_owned();
        match self.find_flag(&key) {
            Some(i) => {
                proof { lemma_flag_lookup(self.flag_entries(), i as int); }
                self.downloads[i].1
            },
            None => false,
        }
    }

    /// Ends the download of model `model_id`; if it `succeeded`, the model is
    /// marked as downloaded.
    pub fn finish_download(&mut self, model_id: &str, succeeded: bool)
        ensures
            final(self).downloads() == download_ended(old(self).downloads(), model_id@),
            final(self).models_dir() == old(self).models_dir(),
            final(self).models() == if succeeded { marked(old(self).models(), model_id@, true) } else { old(self).models() },
    {
        proof { use_type_invariant(&*self); }
        let key = model_id.to_owned();
        let ghost s = self.flag_entries();
        match self.find_flag(&key) {
            Some(i) => {
                let mut downloads: Vec<(String, bool)> = Vec::new();
                std::mem::swap(&mut downloads, &mut self.downloads);
                downloads.remove(i);
                proof {
                    assert(flag_views(downloads@) =~= s.remove(i as int));
                    lemma_flag_remove(s, i as int);
                }
                self.downloads = downloads;
            },
            None => {
                assert(self.downloads() =~= old(self).downloads().remove(model_id@));
            },
        }
        if succeeded {
            self.mark_downloaded(model_id, true);
        }
    }

    /// Where `model` is downloaded to: its own path, and, beside it, the
    /// archive (`.tar.gz`) and scratch directory (`.tmp`) used to unpack it.
    pub fn download_paths(&self, model: &ModelInfo) -> (r: DownloadPaths)
        ensures
            r.final_path@ == joined_path(self.models_dir(), model.filename@),
            r.archive_path@ == joined_path(self.models_dir(), model.filename@ + ".tar.gz"@),
            r.tmp_dir@ == joined_path(self.models_dir(), model.filename@ + ".tmp"@),
    {
        let archive_name = model.filename.clone().concat(".tar.gz");
        let tmp_name = model.filename.clone().concat(".tmp");
        DownloadPaths {
            final_path: join_path(self.models_dir.as_str(), model.filename.as_str()),
            archive_path: join_path(self.models_dir.as_str(), archive_name.as_str()),
            tmp_dir: join_path(self.models_dir.as_str(), tmp_name.as_str()),
        }
    }

    /// What to remove to delete `model`, given what was found at its path:
    /// its directory or its file when it is there, nothing otherwise.
    pub fn removal_for(model: &ModelInfo, entry: EntryKind) -> (r: Removal)
        ensures
            r == removal_of(model.is_directory, entry),
    {
        if model.is_directory {
            if entry == EntryKind::Directory { Removal::Directory } else { Removal::Nothing }
        } else if entry == EntryKind::File {
            Removal::File
        } else {
            Removal::Nothing
        }
    }
}

/// Whether an unpacked archive holds a single directory and nothing else,
/// in which case that directory becomes the model rather than the scratch
/// directory around it.
pub fn is_single_directory(entries: &[EntryKind]) -> (r: bool)
    ensures
        r == (entries@.len() == 1 && entries@[0] == EntryKind::Directory),
{
    entries.len() == 1 && entries[0] == EntryKind::Directory
}

} // verus!
