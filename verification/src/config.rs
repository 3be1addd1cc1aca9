//! The settings of the program: types, defaults and presets.
use vstd::prelude::*;

use crate::network::{default_network, NetworkConfig, NetworkView};
use crate::text::{
    copy_list, join, joined, list_contains, lower, same, same_list, texts, to_lower, trim, trimmed,
    Text,
};

verus! {

broadcast use vstd::string::group_string_axioms;

pub const DEFAULT_MODEL: &'static str = "ggml-org/gpt-oss-120b-GGUF";

pub const DEFAULT_UI_HOST: &'static str = "127.0.0.1";

pub const DEFAULT_UI_PORT: u16 = 3920;

pub const DEFAULT_CACHE_TYPE: &'static str = "q8_0";

/// How many models the library remembers.
pub const MAX_RECENT: usize = 8;

/// The size that the default model is taken to have until it is known: 59.1
/// GiB, in bytes rounded up.
pub const DEFAULT_MODEL_BYTES: u64 = 63_458_141_799;

/// Where the model comes from: a repository, or a file.
#[derive(Debug)]
pub enum ModelSource {
    HuggingFace(String),
    Local(String),
}

/// The view of [`ModelSource`].
pub enum SourceView {
    HuggingFace(Text),
    Local(Text),
}

impl View for ModelSource {
    type V = SourceView;

    open spec fn view(&self) -> SourceView {
        match self {
            ModelSource::HuggingFace(s) => SourceView::HuggingFace(s@),
            ModelSource::Local(s) => SourceView::Local(s@),
        }
    }
}

impl Clone for ModelSource {
    fn clone(&self) -> (r: Self)
        ensures
            r@ == self@,
    {
        match self {
            ModelSource::HuggingFace(s) => ModelSource::HuggingFace(s.clone()),
            ModelSource::Local(s) => ModelSource::Local(s.clone()),
        }
    }
}

impl ModelSource {
    /// Whether two sources are the same in kind and text.
    pub fn same(&self, other: &ModelSource) -> (r: bool)
        ensures
            r == (self@ == other@),
    {
        match (self, other) {
            (ModelSource::HuggingFace(a), ModelSource::HuggingFace(b)) => same(
                a.as_str(),
                b.as_str(),
            ),
            (ModelSource::Local(a), ModelSource::Local(b)) => same(a.as_str(), b.as_str()),
            _ => false,
        }
    }

    /// Whether the source names no model: a blank repository or an empty path.
    pub fn is_blank(&self) -> (r: bool)
        ensures
            r == blank(self@),
    {
        match self {
            ModelSource::HuggingFace(s) => trim(s.as_str()).as_str().is_empty(),
            ModelSource::Local(s) => s.as_str().is_empty(),
        }
    }
}

/// Whether a source names no model.
pub open spec fn blank(s: SourceView) -> bool {
    match s {
        SourceView::HuggingFace(t) => trimmed(t).len() == 0,
        SourceView::Local(t) => t.len() == 0,
    }
}

/// The views of a list of sources.
pub open spec fn sources(v: Seq<ModelSource>) -> Seq<SourceView> {
    Seq::new(v.len(), |i: int| v[i]@)
}

/// A copy of a list of sources.
pub fn copy_sources(v: &Vec<ModelSource>) -> (out: Vec<ModelSource>)
    ensures
        sources(out@) == sources(v@),
{
    let mut out: Vec<ModelSource> = Vec::new();
    let mut i: usize = 0;
    while i < v.len()
        invariant
            i <= v.len(),
            out.len() == i,
            forall|k: int| 0 <= k < i ==> (#[trigger] out@[k])@ == v@[k]@,
        decreases v.len() - i,
    {
        out.push(v[i].clone());
        i = i + 1;
    }
    proof {
        assert(sources(out@) =~= sources(v@));
    }
    out
}

fn same_sources(a: &Vec<ModelSource>, b: &Vec<ModelSource>) -> (r: bool)
    ensures
        r == (sources(a@) == sources(b@)),
{
    if a.len() != b.len() {
        proof {
            assert(sources(a@).len() != sources(b@).len());
        }
        return false;
    }
    let mut i: usize = 0;
    while i < a.len()
        invariant
            i <= a.len(),
            a.len() == b.len(),
            forall|k: int| 0 <= k < i ==> a@[k]@ == b@[k]@,
        decreases a.len() - i,
    {
        if !a[i].same(&b[i]) {
            proof {
                assert(sources(a@)[i as int] != sources(b@)[i as int]);
            }
            return false;
        }
        i = i + 1;
    }
    proof {
        assert(sources(a@) =~= sources(b@));
    }
    true
}

/// The control panel's address.
#[derive(Debug)]
pub struct UiConfig {
    pub host: String,
    pub port: u16,
}

/// How the managed server is started.
#[derive(Debug)]
pub struct ServerConfig {
    pub executable: String,
    pub host: String,
    pub port: u16,
    pub api_key: String,
    pub extra_args: Vec<String>,
}

/// The model to load.
#[derive(Debug)]
pub struct ModelConfig {
    pub source: ModelSource,
    /// The size of the model file in bytes, rounded up; `None` for a size that
    /// is no number.
    pub estimated_bytes: Option<u64>,
}

/// How the model is run.
#[derive(Debug)]
pub struct RuntimeConfig {
    pub context_size: u32,
    pub batch_size: u32,
    pub micro_batch_size: u32,
    pub parallel: u16,
    pub cpu_only: bool,
    pub mmap: bool,
    pub fit: bool,
    pub repack: bool,
    pub warmup: bool,
    pub flash_attn: bool,
    pub cache_type_k: String,
    pub cache_type_v: String,
    pub cache_ram_mib: u32,
    pub context_checkpoints: u32,
    pub multimodal_projector: bool,
    pub jinja: bool,
}

/// All settings.
#[derive(Debug)]
pub struct Config {
    pub ui: UiConfig,
    pub server: ServerConfig,
    pub model: ModelConfig,
    pub runtime: RuntimeConfig,
    pub network: NetworkConfig,
    pub recent_models: Vec<ModelSource>,
    /// The certificate of the shared server; not stored.
    pub tls_cert_file: Option<String>,
    /// The private key of the certificate; not stored.
    pub tls_key_file: Option<String>,
}

/// The view of [`UiConfig`].
pub struct UiView {
    pub host: Text,
    pub port: u16,
}

/// The view of [`ServerConfig`].
pub struct ServerView {
    pub executable: Text,
    pub host: Text,
    pub port: u16,
    pub api_key: Text,
    pub extra_args: Seq<Text>,
}

/// The view of [`ModelConfig`].
pub struct ModelView {
    pub source: SourceView,
    pub estimated_bytes: Option<u64>,
}

/// The view of [`RuntimeConfig`].
pub struct RuntimeView {
    pub context_size: u32,
    pub batch_size: u32,
    pub micro_batch_size: u32,
    pub parallel: u16,
    pub cpu_only: bool,
    pub mmap: bool,
    pub fit: bool,
    pub repack: bool,
    pub warmup: bool,
    pub flash_attn: bool,
    pub cache_type_k: Text,
    pub cache_type_v: Text,
    pub cache_ram_mib: u32,
    pub context_checkpoints: u32,
    pub multimodal_projector: bool,
    pub jinja: bool,
}

/// The view of [`Config`].
pub struct ConfigView {
    pub ui: UiView,
    pub server: ServerView,
    pub model: ModelView,
    pub runtime: RuntimeView,
    pub network: NetworkView,
    pub recent_models: Seq<SourceView>,
    pub tls_cert_file: Option<Text>,
    pub tls_key_file: Option<Text>,
}

impl View for UiConfig {
    type V = UiView;

    open spec fn view(&self) -> UiView {
        UiView { host: self.host@, port: self.port }
    }
}

impl View for ServerConfig {
    type V = ServerView;

    open spec fn view(&self) -> ServerView {
        ServerView {
            executable: self.executable@,
            host: self.host@,
            port: self.port,
            api_key: self.api_key@,
            extra_args: texts(self.extra_args@),
        }
    }
}

impl View for ModelConfig {
    type V = ModelView;

    open spec fn view(&self) -> ModelView {
        ModelView { source: self.source@, estimated_bytes: self.estimated_bytes }
    }
}

impl View for RuntimeConfig {
    type V = RuntimeView;

    open spec fn view(&self) -> RuntimeView {
        RuntimeView {
            context_size: self.context_size,
            batch_size: self.batch_size,
            micro_batch_size: self.micro_batch_size,
            parallel: self.parallel,
            cpu_only: self.cpu_only,
            mmap: self.mmap,
            fit: self.fit,
            repack: self.repack,
            warmup: self.warmup,
            flash_attn: self.flash_attn,
            cache_type_k: self.cache_type_k@,
            cache_type_v: self.cache_type_v@,
            cache_ram_mib: self.cache_ram_mib,
            context_checkpoints: self.context_checkpoints,
            multimodal_projector: self.multimodal_projector,
            jinja: self.jinja,
        }
    }
}

impl View for Config {
    type V = ConfigView;

    open spec fn view(&self) -> ConfigView {
        ConfigView {
            ui: self.ui@,
            server: self.server@,
            model: self.model@,
            runtime: self.runtime@,
            network: self.network@,
            recent_models: sources(self.recent_models@),
            tls_cert_file: crate::text::opt_text(self.tls_cert_file),
            tls_key_file: crate::text::opt_text(self.tls_key_file),
        }
    }
}

impl Clone for UiConfig {
    fn clone(&self) -> (r: Self)
        ensures
            r@ == self@,
    {
        UiConfig { host: self.host.clone(), port: self.port }
    }
}

impl Clone for ServerConfig {
    fn clone(&self) -> (r: Self)
        ensures
            r@ == self@,
    {
        ServerConfig {
            executable: self.executable.clone(),
            host: self.host.clone(),
            port: self.port,
            api_key: self.api_key.clone(),
            extra_args: copy_list(&self.extra_args),
        }
    }
}

impl Clone for ModelConfig {
    fn clone(&self) -> (r: Self)
        ensures
            r@ == self@,
    {
        ModelConfig { source: self.source.clone(), estimated_bytes: self.estimated_bytes }
    }
}

impl Clone for RuntimeConfig {
    fn clone(&self) -> (r: Self)
        ensures
            r@ == self@,
    {
        RuntimeConfig {
            context_size: self.context_size,
            batch_size: self.batch_size,
            micro_batch_size: self.micro_batch_size,
            parallel: self.parallel,
            cpu_only: self.cpu_only,
            mmap: self.mmap,
            fit: self.fit,
            repack: self.repack,
            warmup: self.warmup,
            flash_attn: self.flash_attn,
            cache_type_k: self.cache_type_k.clone(),
            cache_type_v: self.cache_type_v.clone(),
            cache_ram_mib: self.cache_ram_mib,
            context_checkpoints: self.context_checkpoints,
            multimodal_projector: self.multimodal_projector,
            jinja: self.jinja,
        }
    }
}

/// A copy of a text that may be missing.
pub fn copy_opt(o: &Option<String>) -> (r: Option<String>)
    ensures
        crate::text::opt_text(r) == crate::text::opt_text(*o),
{
    match o {
        Some(s) => Some(s.clone()),
        None => None,
    }
}

/// Whether two texts that may be missing are the same.
pub fn same_opt(a: &Option<String>, b: &Option<String>) -> (r: bool)
    ensures
        r == (crate::text::opt_text(*a) == crate::text::opt_text(*b)),
{
    match (a, b) {
        (Some(x), Some(y)) => same(x.as_str(), y.as_str()),
        (None, None) => true,
        _ => false,
    }
}

impl Clone for Config {
    fn clone(&self) -> (r: Self)
        ensures
            r@ == self@,
    {
        Config {
            ui: self.ui.clone(),
            server: self.server.clone(),
            model: self.model.clone(),
            runtime: self.runtime.clone(),
            network: self.network.clone(),
            recent_models: copy_sources(&self.recent_models),
            tls_cert_file: copy_opt(&self.tls_cert_file),
            tls_key_file: copy_opt(&self.tls_key_file),
        }
    }
}

/// The control panel's address in new settings.
pub open spec fn default_ui() -> UiView {
    UiView { host: "127.0.0.1"@, port: 3920 }
}

/// How the server is started in new settings.
pub open spec fn default_server() -> ServerView {
    ServerView {
        executable: "llama-server"@,
        host: "127.0.0.1"@,
        port: 8080,
        api_key: Seq::empty(),
        extra_args: Seq::empty(),
    }
}

/// The model in new settings.
pub open spec fn default_model() -> ModelView {
    ModelView {
        source: SourceView::HuggingFace("ggml-org/gpt-oss-120b-GGUF"@),
        estimated_bytes: Some(DEFAULT_MODEL_BYTES),
    }
}

/// How the model is run in new settings: on the CPU with the file mapped.
pub open spec fn default_runtime() -> RuntimeView {
    RuntimeView {
        context_size: 8192,
        batch_size: 8,
        micro_batch_size: 8,
        parallel: 1,
        cpu_only: true,
        mmap: true,
        fit: false,
        repack: false,
        warmup: true,
        flash_attn: true,
        cache_type_k: "q8_0"@,
        cache_type_v: "q8_0"@,
        cache_ram_mib: 0,
        context_checkpoints: 0,
        multimodal_projector: false,
        jinja: true,
    }
}

/// New settings.
pub open spec fn default_config() -> ConfigView {
    ConfigView {
        ui: default_ui(),
        server: default_server(),
        model: default_model(),
        runtime: default_runtime(),
        network: default_network(),
        recent_models: Seq::empty(),
        tls_cert_file: None,
        tls_key_file: None,
    }
}

impl Default for UiConfig {
    fn default() -> (r: Self)
        ensures
            r@ == default_ui(),
    {
        UiConfig { host: "127.0.0.1".to_owned(), port: DEFAULT_UI_PORT }
    }
}

impl Default for ServerConfig {
    fn default() -> (r: Self)
        ensures
            r@ == default_server(),
    {
        let r = ServerConfig {
            executable: "llama-server".to_owned(),
            host: "127.0.0.1".to_owned(),
            port: 8080,
            api_key: String::new(),
            extra_args: Vec::new(),
        };
        proof {
            assert(texts(r.extra_args@) =~= Seq::<Text>::empty());
        }
        r
    }
}

impl Default for ModelConfig {
    fn default() -> (r: Self)
        ensures
            r@ == default_model(),
    {
        ModelConfig {
            source: ModelSource::HuggingFace("ggml-org/gpt-oss-120b-GGUF".to_owned()),
            estimated_bytes: Some(DEFAULT_MODEL_BYTES),
        }
    }
}

impl Default for RuntimeConfig {
    fn default() -> (r: Self)
        ensures
            r@ == default_runtime(),
    {
        RuntimeConfig {
            context_size: 8192,
            batch_size: 8,
            micro_batch_size: 8,
            parallel: 1,
            cpu_only: true,
            mmap: true,
            fit: false,
            repack: false,
            warmup: true,
            flash_attn: true,
            cache_type_k: "q8_0".to_owned(),
            cache_type_v: "q8_0".to_owned(),
            cache_ram_mib: 0,
            context_checkpoints: 0,
            multimodal_projector: false,
            jinja: true,
        }
    }
}

impl Default for Config {
    fn default() -> (r: Self)
        ensures
            r@ == default_config(),
    {
        let r = Config {
            ui: UiConfig::default(),
            server: ServerConfig::default(),
            model: ModelConfig::default(),
            runtime: RuntimeConfig::default(),
            network: NetworkConfig::default(),
            recent_models: Vec::new(),
            tls_cert_file: None,
            tls_key_file: None,
        };
        proof {
            assert(sources(r.recent_models@) =~= Seq::<SourceView>::empty());
        }
        r
    }
}

impl RuntimeConfig {
    /// Whether two ways to run a model are the same.
    pub fn same(&self, o: &RuntimeConfig) -> (r: bool)
        ensures
            r == (self@ == o@),
    {
        self.context_size == o.context_size && self.batch_size == o.batch_size
            && self.micro_batch_size == o.micro_batch_size && self.parallel == o.parallel
            && self.cpu_only == o.cpu_only && self.mmap == o.mmap && self.fit == o.fit
            && self.repack == o.repack && self.warmup == o.warmup && self.flash_attn
            == o.flash_attn && same(self.cache_type_k.as_str(), o.cache_type_k.as_str()) && same(
            self.cache_type_v.as_str(),
            o.cache_type_v.as_str(),
        ) && self.cache_ram_mib == o.cache_ram_mib && self.context_checkpoints
            == o.context_checkpoints && self.multimodal_projector == o.multimodal_projector
            && self.jinja == o.jinja
    }
}

impl ServerConfig {
    fn same(&self, o: &ServerConfig) -> (r: bool)
        ensures
            r == (self@ == o@),
    {
        same(self.executable.as_str(), o.executable.as_str()) && same(
            self.host.as_str(),
            o.host.as_str(),
        ) && self.port == o.port && same(self.api_key.as_str(), o.api_key.as_str()) && same_list(
            &self.extra_args,
            &o.extra_args,
        )
    }
}

impl Config {
    /// Whether two settings are the same.
    pub fn same(&self, o: &Config) -> (r: bool)
        ensures
            r == (self@ == o@),
    {
        same(self.ui.host.as_str(), o.ui.host.as_str()) && self.ui.port == o.ui.port
            && self.server.same(&o.server) && self.model.source.same(&o.model.source)
            && self.model.estimated_bytes == o.model.estimated_bytes && self.runtime.same(
            &o.runtime,
        ) && self.network.same(&o.network) && same_sources(&self.recent_models, &o.recent_models)
            && same_opt(&self.tls_cert_file, &o.tls_cert_file) && same_opt(
            &self.tls_key_file,
            &o.tls_key_file,
        )
    }
}

/// A named way to run a model.
#[derive(Clone, Copy, Debug, PartialEq, Eq, Structural)]
pub enum RuntimePreset {
    /// CPU and a mapped file.
    LowRam,
    /// The GPU as far as it holds the model, the CPU for the rest.
    GpuFit,
}

impl RuntimePreset {
    /// The identifier in requests.
    pub open spec fn name(self) -> Text {
        match self {
            RuntimePreset::LowRam => "low_ram"@,
            RuntimePreset::GpuFit => "gpu_fit"@,
        }
    }

    /// The title in the settings page.
    pub open spec fn title(self) -> Text {
        match self {
            RuntimePreset::LowRam => "Max RAM efficiency (default)"@,
            RuntimePreset::GpuFit => "GPU + CPU spill"@,
        }
    }

    /// The settings that the preset stands for.
    pub open spec fn settings(self) -> RuntimeView {
        match self {
            RuntimePreset::LowRam => default_runtime(),
            RuntimePreset::GpuFit => RuntimeView {
                cpu_only: false,
                fit: true,
                ..default_runtime()
            },
        }
    }

    /// The preset that settings match.
    pub open spec fn of(r: RuntimeView) -> Option<RuntimePreset> {
        if r == RuntimePreset::LowRam.settings() {
            Some(RuntimePreset::LowRam)
        } else if r == RuntimePreset::GpuFit.settings() {
            Some(RuntimePreset::GpuFit)
        } else {
            None
        }
    }

    /// The identifier in requests.
    pub fn id(self) -> (r: &'static str)
        ensures
            r@ == self.name(),
    {
        match self {
            RuntimePreset::LowRam => "low_ram",
            RuntimePreset::GpuFit => "gpu_fit",
        }
    }

    /// The title in the settings page.
    pub fn label(self) -> (r: &'static str)
        ensures
            r@ == self.title(),
    {
        match self {
            RuntimePreset::LowRam => "Max RAM efficiency (default)",
            RuntimePreset::GpuFit => "GPU + CPU spill",
        }
    }

    /// What the preset is for.
    pub fn description(self) -> (r: &'static str)
        ensures
            r@ == (match self {
                RuntimePreset::LowRam => "Max RAM efficiency for low-RAM machines or oversized models. CPU-only + mmap: with enough RAM the working set stays cached at normal speed; otherwise as much as fits stays in RAM and the rest is read from disk. No GPU offload."@,
                RuntimePreset::GpuFit => "Discrete GPU only: auto-fit into VRAM; leftover layers stay on CPU + mmap."@,
            }),
    {
        match self {
            RuntimePreset::LowRam => "Max RAM efficiency for low-RAM machines or oversized models. CPU-only + mmap: with enough RAM the working set stays cached at normal speed; otherwise as much as fits stays in RAM and the rest is read from disk. No GPU offload.",
            RuntimePreset::GpuFit => "Discrete GPU only: auto-fit into VRAM; leftover layers stay on CPU + mmap.",
        }
    }

    /// What to beware of.
    pub fn warning(self) -> (r: Option<&'static str>)
        ensures
            match self {
                RuntimePreset::LowRam => r is None,
                RuntimePreset::GpuFit => r matches Some(t) && t@ == "Unsafe on machines with a unified memory architecture (Apple Silicon and similar). GPU and CPU share one RAM pool, and this preset can immediately exhaust it and crash the machine if there is too little unified memory for the LLM."@,
            },
    {
        match self {
            RuntimePreset::LowRam => None,
            RuntimePreset::GpuFit => Some("Unsafe on machines with a unified memory architecture (Apple Silicon and similar). GPU and CPU share one RAM pool, and this preset can immediately exhaust it and crash the machine if there is too little unified memory for the LLM."),
        }
    }

    /// Whether the preset is refused where GPU and CPU share their memory.
    pub fn blocked_on_unified_memory(self) -> (r: bool)
        ensures
            r == (self == RuntimePreset::GpuFit),
    {
        self == RuntimePreset::GpuFit
    }

    /// The settings that the preset stands for.
    pub fn runtime(self) -> (r: RuntimeConfig)
        ensures
            r@ == self.settings(),
    {
        let mut r = RuntimeConfig::default();
        match self {
            RuntimePreset::LowRam => {},
            RuntimePreset::GpuFit => {
                r.cpu_only = false;
                r.fit = true;
            },
        }
        r
    }

    /// The preset that settings match.
    pub fn matching(runtime: &RuntimeConfig) -> (r: Option<RuntimePreset>)
        ensures
            r == RuntimePreset::of(runtime@),
    {
        if RuntimePreset::LowRam.runtime().same(runtime) {
            Some(RuntimePreset::LowRam)
        } else if RuntimePreset::GpuFit.runtime().same(runtime) {
            Some(RuntimePreset::GpuFit)
        } else {
            None
        }
    }
}

/// Every preset is recognised by its own settings.
pub proof fn law_preset_matches_itself(p: RuntimePreset)
    ensures
        RuntimePreset::of(p.settings()) == Some(p),
{
}

/// The types that the context cache may have.
pub open spec fn cache_types() -> Seq<Text> {
    seq!["f32"@, "f16"@, "bf16"@, "q8_0"@, "q4_0"@, "q4_1"@, "iq4_nl"@, "q5_0"@, "q5_1"@]
}

/// How many types the context cache may have.
pub const CACHE_TYPE_COUNT: usize = 9;

/// One of the types that the context cache may have.
pub fn cache_type(i: usize) -> (r: &'static str)
    requires
        i < CACHE_TYPE_COUNT,
    ensures
        r@ == cache_types()[i as int],
{
    match i {
        0 => "f32",
        1 => "f16",
        2 => "bf16",
        3 => "q8_0",
        4 => "q4_0",
        5 => "q4_1",
        6 => "iq4_nl",
        7 => "q5_0",
        _ => "q5_1",
    }
}

/// What the settings page says of a type of the context cache.
pub fn cache_type_description(i: usize) -> (r: &'static str)
    requires
        i < CACHE_TYPE_COUNT,
    ensures
        r@ == cache_descriptions()[i as int],
{
    match i {
        0 => "full precision; highest RAM",
        1 => "half precision; strong quality baseline",
        2 => "brain float16; similar to f16",
        3 => "~½ of f16 RAM; little quality loss (default)",
        4 => "~¼ of f16 RAM; may drift on long context",
        5 => "4-bit + bias; similar savings, often slightly better",
        6 => "4-bit non-linear; usually better than q4 at similar size",
        7 => "5-bit; between q4 and q8 on RAM/quality",
        _ => "5-bit + bias; similar to q5_0, often slightly better",
    }
}

/// What the settings page says of the types, in their order.
pub open spec fn cache_descriptions() -> Seq<Text> {
    seq![
        "full precision; highest RAM"@,
        "half precision; strong quality baseline"@,
        "brain float16; similar to f16"@,
        "~½ of f16 RAM; little quality loss (default)"@,
        "~¼ of f16 RAM; may drift on long context"@,
        "4-bit + bias; similar savings, often slightly better"@,
        "4-bit non-linear; usually better than q4 at similar size"@,
        "5-bit; between q4 and q8 on RAM/quality"@,
        "5-bit + bias; similar to q5_0, often slightly better"@,
    ]
}

/// All types that the context cache may have, in order.
pub fn all_cache_types() -> (out: Vec<String>)
    ensures
        texts(out@) == cache_types(),
{
    let mut out: Vec<String> = Vec::new();
    let mut i: usize = 0;
    while i < CACHE_TYPE_COUNT
        invariant
            i <= CACHE_TYPE_COUNT,
            out.len() == i,
            forall|k: int| 0 <= k < i ==> (#[trigger] out@[k])@ == cache_types()[k],
        decreases CACHE_TYPE_COUNT - i,
    {
        out.push(cache_type(i).to_owned());
        i = i + 1;
    }
    proof {
        assert(texts(out@) =~= cache_types());
    }
    out
}

/// The type that a text names, or what to say where it names none.
pub open spec fn named_cache_type(value: Text) -> Result<Text, Text> {
    let t = lower(trimmed(value));
    if cache_types().contains(t) {
        Ok(t)
    } else {
        Err("Cache type must be one of: "@ + joined(cache_types(), ", "@) + "."@)
    }
}

/// The type that a text names, without regard to capitals or white space at
/// the ends.
pub fn normalize_cache_type(value: &str) -> (r: Result<String, String>)
    ensures
        crate::listen::res_text(r) == named_cache_type(value@),
{
    let t = to_lower(trim(value).as_str());
    let all = all_cache_types();
    if list_contains(&all, t.as_str()) {
        Ok(t)
    } else {
        let mut e = "Cache type must be one of: ".to_owned();
        e.append(join(&all, ", ").as_str());
        e.append(".");
        Err(e)
    }
}

/// The first preset keeps the model off the GPU and mapped from disk; the other
/// uses the GPU as far as it fits, and differs in nothing else.
pub proof fn law_presets_differ_in_the_gpu()
    ensures
        RuntimePreset::LowRam.settings().cpu_only,
        RuntimePreset::LowRam.settings().mmap,
        !RuntimePreset::LowRam.settings().fit,
        !RuntimePreset::GpuFit.settings().cpu_only,
        RuntimePreset::GpuFit.settings().fit,
        (RuntimeView {
            cpu_only: true,
            fit: false,
            ..RuntimePreset::GpuFit.settings()
        }) == RuntimePreset::LowRam.settings(),
        RuntimePreset::of(RuntimePreset::LowRam.settings()) != RuntimePreset::of(
            RuntimePreset::GpuFit.settings(),
        ),
{
}

/// A type of the context cache is known under its name, in any letters and with
/// white space around it; the name that comes out is the listed one.
pub proof fn law_cache_types_are_known(value: Text)
    ensures
        named_cache_type(value) matches Ok(t) ==> t == lower(trimmed(value))
            && cache_types().contains(t),
        named_cache_type(value) is Err <==> !cache_types().contains(lower(trimmed(value))),
        cache_types().no_duplicates(),
        cache_types().len() == cache_descriptions().len(),
        cache_types().contains(default_runtime().cache_type_k),
        cache_types().contains(default_runtime().cache_type_v),
{
    reveal_strlit("f32");
    reveal_strlit("f16");
    reveal_strlit("bf16");
    reveal_strlit("q8_0");
    reveal_strlit("q4_0");
    reveal_strlit("q4_1");
    reveal_strlit("iq4_nl");
    reveal_strlit("q5_0");
    reveal_strlit("q5_1");
    let c = cache_types();
    assert("f32"@[1] != "f16"@[1]);
    assert("q8_0"@[1] != "q4_0"@[1] && "q8_0"@[1] != "q4_1"@[1] && "q8_0"@[1] != "q5_0"@[1]
        && "q8_0"@[1] != "q5_1"@[1]);
    assert("q4_0"@[3] != "q4_1"@[3] && "q4_0"@[1] != "q5_0"@[1] && "q4_0"@[1] != "q5_1"@[1]);
    assert("q4_1"@[1] != "q5_0"@[1] && "q4_1"@[1] != "q5_1"@[1]);
    assert("q5_0"@[3] != "q5_1"@[3]);
    assert("bf16"@[0] != "q8_0"@[0] && "bf16"@[0] != "q4_0"@[0] && "bf16"@[0] != "q4_1"@[0]
        && "bf16"@[0] != "q5_0"@[0] && "bf16"@[0] != "q5_1"@[0]);
    assert(c[3] == default_runtime().cache_type_k);
    assert(c[3] == default_runtime().cache_type_v);
}

} // verus!
