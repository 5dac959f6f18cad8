//! Model manager: the catalogue, what is installed, and where each file resolves.
//!
//! Models are downloaded on first run under one data root. A file counts as installed when it
//! resolves anywhere: in the data directory, in the directory bundled with the installer, or
//! in the development fallback. What exists on disk is gathered by the caller into a
//! [`Disk`]; the decisions here are made over it.
use vstd::prelude::*;

use crate::asr::{AsrFiles, AsrFilesV, Engine};
use crate::store::Store;
use crate::text::{chars_of, str_eq, string_of};

verus! {

/// The operating system the app runs on. The catalogue is written for Windows; other systems
/// differ in executable names and in the assets of the bundled tools.
#[derive(Clone, Copy, PartialEq, Eq, Structural, Debug)]
pub enum Platform {
    Windows,
    /// macOS on Apple Silicon.
    MacArm,
    /// macOS on Intel.
    MacIntel,
    Linux,
}

/// How a download is laid out.
#[derive(Clone, Copy, PartialEq, Eq, Structural, Debug)]
pub enum Format {
    TarBz2,
    /// One file, placed at the path `check`.
    SingleFile,
    /// The ffmpeg archive: only the executable is taken.
    Zip,
    /// Several files, each at its own relative path (see `files`).
    FileSet,
    /// A zip of files (llama on Windows) placed next to `check`.
    ZipDir,
    /// The same from a `.tar.gz` (llama on macOS).
    TarGzDir,
}

/// A catalogue entry.
pub struct Spec {
    pub id: &'static str,
    pub name: &'static str,
    /// "asr" | "diarization" | "tool" | "llm"
    pub kind: &'static str,
    pub lang: &'static str,
    /// Download address on Windows (see `url_os`).
    pub url: &'static str,
    /// Layout on Windows (see `format_os`).
    pub format: Format,
    /// Path relative to the models directory, Windows form (see `check_path`).
    pub check: &'static str,
    pub size_mb: u32,
    pub required: bool,
    /// (url, relative path) of each file of a `FileSet`.
    pub files: Vec<(&'static str, &'static str)>,
}

/// Mathematical model of a catalogue entry.
pub struct SpecV {
    pub id: Seq<char>,
    pub name: Seq<char>,
    pub kind: Seq<char>,
    pub lang: Seq<char>,
    pub url: Seq<char>,
    pub format: Format,
    pub check: Seq<char>,
    pub size_mb: u32,
    pub required: bool,
    pub files: Seq<(Seq<char>, Seq<char>)>,
}

pub open spec fn files_view(f: Seq<(&'static str, &'static str)>) -> Seq<(Seq<char>, Seq<char>)> {
    f.map_values(|p: (&'static str, &'static str)| (p.0@, p.1@))
}

impl Spec {
    pub open spec fn view(&self) -> SpecV {
        SpecV {
            id: self.id@,
            name: self.name@,
            kind: self.kind@,
            lang: self.lang@,
            url: self.url@,
            format: self.format,
            check: self.check@,
            size_mb: self.size_mb,
            required: self.required,
            files: files_view(self.files@),
        }
    }
}

/// The pinned llama.cpp release of the summary helper.
pub const LLAMA_TAG: &'static str = "b9957";

pub open spec fn entry(
    id: &'static str,
    name: &'static str,
    kind: &'static str,
    lang: &'static str,
    url: &'static str,
    format: Format,
    check: &'static str,
    size_mb: u32,
    required: bool,
) -> SpecV {
    SpecV {
        id: id@,
        name: name@,
        kind: kind@,
        lang: lang@,
        url: url@,
        format,
        check: check@,
        size_mb,
        required,
        files: Seq::empty(),
    }
}

pub open spec fn rupunct_files() -> Seq<(Seq<char>, Seq<char>)> {
    seq![
        ("https://huggingface.co/ekhodzitsky/rupunct-small-onnx/resolve/main/rupunct_small_int8.onnx"@, "rupunct/rupunct_small_int8.onnx"@),
        ("https://huggingface.co/ekhodzitsky/rupunct-small-onnx/resolve/main/tokenizer.json"@, "rupunct/tokenizer.json"@),
        ("https://huggingface.co/ekhodzitsky/rupunct-small-onnx/resolve/main/config.json"@, "rupunct/config.json"@),
    ]
}

/// The catalogue.
pub open spec fn catalog_spec() -> Seq<SpecV> {
    seq![
        entry("gigaam", "Русский (GigaAM)", "asr", "русский",
            "https://github.com/k2-fsa/sherpa-onnx/releases/download/asr-models/sherpa-onnx-nemo-ctc-punct-giga-am-v3-russian-2025-12-16.tar.bz2",
            Format::TarBz2, "sherpa-onnx-nemo-ctc-punct-giga-am-v3-russian-2025-12-16/model.int8.onnx", 160, true),
        entry("diar-seg", "Разделение речи по фразам", "diarization", "—",
            "https://github.com/k2-fsa/sherpa-onnx/releases/download/speaker-segmentation-models/sherpa-onnx-pyannote-segmentation-3-0.tar.bz2",
            Format::TarBz2, "sherpa-onnx-pyannote-segmentation-3-0/model.onnx", 6, true),
        entry("diar-emb", "Различение голосов", "diarization", "—",
            "https://github.com/k2-fsa/sherpa-onnx/releases/download/speaker-recongition-models/3dspeaker_speech_campplus_sv_zh_en_16k-common_advanced.onnx",
            Format::SingleFile, "3dspeaker_speech_campplus_sv_zh_en_16k-common_advanced.onnx", 28, true),
        entry("vad", "Детектор речи (VAD)", "tool", "—",
            "https://github.com/k2-fsa/sherpa-onnx/releases/download/asr-models/silero_vad.onnx",
            Format::SingleFile, "silero_vad.onnx", 2, true),
        SpecV {
            files: rupunct_files(),
            ..entry("punct-ru", "Пунктуация и заглавные буквы", "tool", "русский", "",
                Format::FileSet, "rupunct/rupunct_small_int8.onnx", 32, false)
        },
        entry("ffmpeg", "Конвертер медиа (ffmpeg)", "tool", "—",
            "https://www.gyan.dev/ffmpeg/builds/ffmpeg-release-essentials.zip",
            Format::Zip, "bin/ffmpeg.exe", 98, true),
        entry("llama", "Помощник итогов (движок)", "tool", "—",
            "https://github.com/ggml-org/llama.cpp/releases/download/b9957/llama-b9957-bin-win-vulkan-x64.zip",
            Format::ZipDir, "bin/llama/llama-server.exe", 32, false),
        entry("parakeet", "Мультиязычный (Parakeet)", "asr", "25 языков",
            "https://github.com/k2-fsa/sherpa-onnx/releases/download/asr-models/sherpa-onnx-nemo-parakeet-tdt-0.6b-v3-int8.tar.bz2",
            Format::TarBz2, "sherpa-onnx-nemo-parakeet-tdt-0.6b-v3-int8/encoder.int8.onnx", 640, false),
        entry("whisper-small", "Whisper small", "asr", "98 языков",
            "https://github.com/k2-fsa/sherpa-onnx/releases/download/asr-models/sherpa-onnx-whisper-small.tar.bz2",
            Format::TarBz2, "sherpa-onnx-whisper-small/small-encoder.int8.onnx", 466, false),
        entry("whisper-turbo", "Whisper large-v3 turbo", "asr", "99 языков",
            "https://github.com/k2-fsa/sherpa-onnx/releases/download/asr-models/sherpa-onnx-whisper-turbo.tar.bz2",
            Format::TarBz2, "sherpa-onnx-whisper-turbo/turbo-encoder.int8.onnx", 540, false),
        entry("llm-qwen3-4b", "Стандартная — лучшее качество", "llm", "русский+",
            "https://huggingface.co/unsloth/Qwen3-4B-Instruct-2507-GGUF/resolve/main/Qwen3-4B-Instruct-2507-Q4_K_M.gguf",
            Format::SingleFile, "llm/Qwen3-4B-Instruct-2507-Q4_K_M.gguf", 2382, false),
        entry("llm-qwen3-17b", "Быстрая — для слабых компьютеров", "llm", "русский+",
            "https://huggingface.co/unsloth/Qwen3-1.7B-GGUF/resolve/main/Qwen3-1.7B-Q4_K_M.gguf",
            Format::SingleFile, "llm/Qwen3-1.7B-Q4_K_M.gguf", 1056, false),
    ]
}

fn spec_of(
    id: &'static str,
    name: &'static str,
    kind: &'static str,
    lang: &'static str,
    url: &'static str,
    format: Format,
    check: &'static str,
    size_mb: u32,
    required: bool,
) -> (s: Spec)
    ensures
        s@ == entry(id, name, kind, lang, url, format, check, size_mb, required),
        s.files@.len() == 0,
{
    let s = Spec { id, name, kind, lang, url, format, check, size_mb, required, files: Vec::new() };
    assert(s@.files =~= Seq::<(Seq<char>, Seq<char>)>::empty());
    s
}

/// The catalogue, in order.
pub fn catalog() -> (r: Vec<Spec>)
    ensures
        r@.len() == catalog_spec().len(),
        forall|i: int| 0 <= i < r@.len() ==> (#[trigger] r@[i])@ == catalog_spec()[i],
{
    let mut r: Vec<Spec> = Vec::new();
    r.push(spec_of("gigaam", "Русский (GigaAM)", "asr", "русский",
        "https://github.com/k2-fsa/sherpa-onnx/releases/download/asr-models/sherpa-onnx-nemo-ctc-punct-giga-am-v3-russian-2025-12-16.tar.bz2",
        Format::TarBz2, "sherpa-onnx-nemo-ctc-punct-giga-am-v3-russian-2025-12-16/model.int8.onnx", 160, true));
    r.push(spec_of("diar-seg", "Разделение речи по фразам", "diarization", "—",
        "https://github.com/k2-fsa/sherpa-onnx/releases/download/speaker-segmentation-models/sherpa-onnx-pyannote-segmentation-3-0.tar.bz2",
        Format::TarBz2, "sherpa-onnx-pyannote-segmentation-3-0/model.onnx", 6, true));
    r.push(spec_of("diar-emb", "Различение голосов", "diarization", "—",
        "https://github.com/k2-fsa/sherpa-onnx/releases/download/speaker-recongition-models/3dspeaker_speech_campplus_sv_zh_en_16k-common_advanced.onnx",
        Format::SingleFile, "3dspeaker_speech_campplus_sv_zh_en_16k-common_advanced.onnx", 28, true));
    r.push(spec_of("vad", "Детектор речи (VAD)", "tool", "—",
        "https://github.com/k2-fsa/sherpa-onnx/releases/download/asr-models/silero_vad.onnx",
        Format::SingleFile, "silero_vad.onnx", 2, true));
    let mut punct = spec_of("punct-ru", "Пунктуация и заглавные буквы", "tool", "русский", "",
        Format::FileSet, "rupunct/rupunct_small_int8.onnx", 32, false);
    punct.files.push(("https://huggingface.co/ekhodzitsky/rupunct-small-onnx/resolve/main/rupunct_small_int8.onnx", "rupunct/rupunct_small_int8.onnx"));
    punct.files.push(("https://huggingface.co/ekhodzitsky/rupunct-small-onnx/resolve/main/tokenizer.json", "rupunct/tokenizer.json"));
    punct.files.push(("https://huggingface.co/ekhodzitsky/rupunct-small-onnx/resolve/main/config.json", "rupunct/config.json"));
    proof {
        let f = punct.files@;
        assert(files_view(f)[0] == rupunct_files()[0]);
        assert(files_view(f)[1] == rupunct_files()[1]);
        assert(files_view(f)[2] == rupunct_files()[2]);
        assert(punct@.files =~= rupunct_files());
    }
    r.push(punct);
    r.push(spec_of("ffmpeg", "Конвертер медиа (ffmpeg)", "tool", "—",
        "https://www.gyan.dev/ffmpeg/builds/ffmpeg-release-essentials.zip",
        Format::Zip, "bin/ffmpeg.exe", 98, true));
    r.push(spec_of("llama", "Помощник итогов (движок)", "tool", "—",
        "https://github.com/ggml-org/llama.cpp/releases/download/b9957/llama-b9957-bin-win-vulkan-x64.zip",
        Format::ZipDir, "bin/llama/llama-server.exe", 32, false));
    r.push(spec_of("parakeet", "Мультиязычный (Parakeet)", "asr", "25 языков",
        "https://github.com/k2-fsa/sherpa-onnx/releases/download/asr-models/sherpa-onnx-nemo-parakeet-tdt-0.6b-v3-int8.tar.bz2",
        Format::TarBz2, "sherpa-onnx-nemo-parakeet-tdt-0.6b-v3-int8/encoder.int8.onnx", 640, false));
    r.push(spec_of("whisper-small", "Whisper small", "asr", "98 языков",
        "https://github.com/k2-fsa/sherpa-onnx/releases/download/asr-models/sherpa-onnx-whisper-small.tar.bz2",
        Format::TarBz2, "sherpa-onnx-whisper-small/small-encoder.int8.onnx", 466, false));
    r.push(spec_of("whisper-turbo", "Whisper large-v3 turbo", "asr", "99 языков",
        "https://github.com/k2-fsa/sherpa-onnx/releases/download/asr-models/sherpa-onnx-whisper-turbo.tar.bz2",
        Format::TarBz2, "sherpa-onnx-whisper-turbo/turbo-encoder.int8.onnx", 540, false));
    r.push(spec_of("llm-qwen3-4b", "Стандартная — лучшее качество", "llm", "русский+",
        "https://huggingface.co/unsloth/Qwen3-4B-Instruct-2507-GGUF/resolve/main/Qwen3-4B-Instruct-2507-Q4_K_M.gguf",
        Format::SingleFile, "llm/Qwen3-4B-Instruct-2507-Q4_K_M.gguf", 2382, false));
    r.push(spec_of("llm-qwen3-17b", "Быстрая — для слабых компьютеров", "llm", "русский+",
        "https://huggingface.co/unsloth/Qwen3-1.7B-GGUF/resolve/main/Qwen3-1.7B-Q4_K_M.gguf",
        Format::SingleFile, "llm/Qwen3-1.7B-Q4_K_M.gguf", 1056, false));
    assert(r@.len() == 12);
    r
}

} // verus!

verus! {

pub open spec fn is_mac(p: Platform) -> bool {
    p == Platform::MacArm || p == Platform::MacIntel
}

/// The executable name of a tool: `name.exe` on Windows, `name` elsewhere.
pub open spec fn exe_name(name: Seq<char>, p: Platform) -> Seq<char> {
    if p == Platform::Windows {
        name + ".exe"@
    } else {
        name
    }
}

/// The executable name of a tool on the platform ("ffmpeg" is "ffmpeg.exe" on Windows).
pub fn tool_exe(name: &str, platform: Platform) -> (r: String)
    ensures
        r@ == exe_name(name@, platform),
{
    if platform == Platform::Windows {
        crate::text::concat(name, ".exe")
    } else {
        name.to_owned()
    }
}

/// `s` with every trailing copy of `suf` removed (`str::trim_end_matches`).
pub open spec fn strip_suffixes(s: Seq<char>, suf: Seq<char>) -> Seq<char>
    decreases s.len(),
{
    if suf.len() > 0 && s.len() >= suf.len() && s.subrange(s.len() - suf.len(), s.len() as int) == suf {
        strip_suffixes(s.subrange(0, s.len() - suf.len()), suf)
    } else {
        s
    }
}

fn ends_with_at(s: &Vec<char>, n: usize, suf: &Vec<char>) -> (b: bool)
    requires
        n <= s@.len(),
    ensures
        b == (suf@.len() > 0 && n >= suf@.len() && s@.subrange(n - suf@.len(), n as int) == suf@),
{
    if suf.len() == 0 || n < suf.len() {
        return false;
    }
    let start = n - suf.len();
    let mut i: usize = 0;
    while i < suf.len()
        invariant
            i <= suf@.len(),
            start + suf@.len() == n,
            n <= s@.len(),
            forall|j: int| 0 <= j < i ==> s@[start + j] == suf@[j],
        decreases suf@.len() - i,
    {
        if s[start + i] != suf[i] {
            assert(s@.subrange(start as int, n as int)[i as int] != suf@[i as int]);
            return false;
        }
        i = i + 1;
    }
    assert(s@.subrange(start as int, n as int) =~= suf@);
    true
}

/// `s` without its trailing copies of `suf`.
pub fn trim_suffixes(s: &str, suf: &str) -> (r: String)
    ensures
        r@ == strip_suffixes(s@, suf@),
{
    let c = chars_of(s);
    let x = chars_of(suf);
    let mut n: usize = c.len();
    assert(c@.subrange(0, n as int) =~= c@);
    while ends_with_at(&c, n, &x)
        invariant
            n <= c@.len(),
            strip_suffixes(c@, x@) == strip_suffixes(c@.subrange(0, n as int), x@),
        decreases n,
    {
        let ghost t = c@.subrange(0, n as int);
        assert(t.subrange(t.len() - x@.len(), t.len() as int) =~= c@.subrange(n - x@.len(), n as int));
        assert(t.subrange(0, t.len() - x@.len()) =~= c@.subrange(0, n - x@.len()));
        n = n - x.len();
    }
    let ghost t = c@.subrange(0, n as int);
    assert(!(x@.len() > 0 && t.len() >= x@.len() && t.subrange(t.len() - x@.len(), t.len() as int)
        == x@)) by {
        if x@.len() > 0 && t.len() >= x@.len() {
            assert(t.subrange(t.len() - x@.len(), t.len() as int) =~= c@.subrange(n - x@.len(), n as int));
        }
    }
    let mut out: Vec<char> = Vec::new();
    let mut i: usize = 0;
    while i < n
        invariant
            i <= n,
            n <= c@.len(),
            out@ == c@.subrange(0, i as int),
        decreases n - i,
    {
        out.push(c[i]);
        assert(c@.subrange(0, i + 1) =~= c@.subrange(0, i as int).push(c@[i as int]));
        i = i + 1;
    }
    string_of(&out)
}

/// The `check` path of an entry on the platform: executables lose `.exe` off Windows.
pub open spec fn check_path_spec(s: SpecV, p: Platform) -> Seq<char> {
    if p == Platform::Windows {
        s.check
    } else {
        strip_suffixes(s.check, ".exe"@)
    }
}

/// Download address on the platform. The catalogue holds the Windows assets; on macOS the
/// bundled tools (ffmpeg, llama) come from their macOS builds.
pub open spec fn url_os_spec(s: SpecV, p: Platform) -> Seq<char> {
    if is_mac(p) && s.id == "ffmpeg"@ {
        "https://ffmpeg.martin-riedl.de/redirect/latest/macos/"@ + (if p == Platform::MacArm {
            "arm64"@
        } else {
            "amd64"@
        }) + "/release/ffmpeg.zip"@
    } else if is_mac(p) && s.id == "llama"@ {
        "https://github.com/ggml-org/llama.cpp/releases/download/"@ + LLAMA_TAG@ + "/llama-"@
            + LLAMA_TAG@ + "-bin-macos-arm64.tar.gz"@
    } else {
        s.url
    }
}

/// Layout of the download on the platform (llama: zip on Windows, tar.gz on macOS).
pub open spec fn format_os_spec(s: SpecV, p: Platform) -> Format {
    if s.id == "llama"@ && is_mac(p) {
        Format::TarGzDir
    } else {
        s.format
    }
}

impl Spec {
    pub fn check_path(&self, platform: Platform) -> (r: String)
        ensures
            r@ == check_path_spec(self@, platform),
    {
        if platform == Platform::Windows {
            self.check.to_owned()
        } else {
            trim_suffixes(self.check, ".exe")
        }
    }

    pub fn url_os(&self, platform: Platform) -> (r: String)
        ensures
            r@ == url_os_spec(self@, platform),
    {
        let mac = platform == Platform::MacArm || platform == Platform::MacIntel;
        if mac && str_eq(self.id, "ffmpeg") {
            let arch = if platform == Platform::MacArm { "arm64" } else { "amd64" };
            let a = crate::text::concat("https://ffmpeg.martin-riedl.de/redirect/latest/macos/", arch);
            return crate::text::concat(a.as_str(), "/release/ffmpeg.zip");
        }
        if mac && str_eq(self.id, "llama") {
            let a = crate::text::concat("https://github.com/ggml-org/llama.cpp/releases/download/", LLAMA_TAG);
            let b = crate::text::concat(a.as_str(), "/llama-");
            let c = crate::text::concat(b.as_str(), LLAMA_TAG);
            return crate::text::concat(c.as_str(), "-bin-macos-arm64.tar.gz");
        }
        self.url.to_owned()
    }

    pub fn format_os(&self, platform: Platform) -> (f: Format)
        ensures
            f == format_os_spec(self@, platform),
    {
        if str_eq(self.id, "llama") && (platform == Platform::MacArm || platform == Platform::MacIntel) {
            Format::TarGzDir
        } else {
            self.format
        }
    }
}

} // verus!

verus! {

/// What exists on disk, as found by the caller. `models_dir` is the data directory of the
/// models; `bundled_dir` the models shipped with the installer, `dev_dir` the development
/// fallback (each absent where there is none). `in_*` hold the relative paths, `/`-separated
/// as the catalogue writes them, that exist under each of them.
pub struct Disk {
    pub platform: Platform,
    pub models_dir: String,
    pub bundled_dir: Option<String>,
    pub dev_dir: Option<String>,
    pub in_data: Vec<String>,
    pub in_bundled: Vec<String>,
    pub in_dev: Vec<String>,
}

/// `rel` is among the listed paths.
pub open spec fn listed(v: Seq<String>, rel: Seq<char>) -> bool {
    exists|i: int| 0 <= i < v.len() && (#[trigger] v[i])@ == rel
}

fn is_listed(v: &Vec<String>, rel: &str) -> (b: bool)
    ensures
        b == listed(v@, rel@),
{
    let mut i: usize = 0;
    while i < v.len()
        invariant
            i <= v@.len(),
            forall|j: int| 0 <= j < i ==> (#[trigger] v@[j])@ != rel@,
        decreases v@.len() - i,
    {
        if str_eq(v[i].as_str(), rel) {
            return true;
        }
        i = i + 1;
    }
    false
}

pub open spec fn is_sep(c: char, p: Platform) -> bool {
    c == '/' || (p == Platform::Windows && c == '\\')
}

/// `base` joined with the relative path `rel` (`Path::join`): a separator is put between
/// them unless `base` is empty or already ends with one.
pub open spec fn join_path(base: Seq<char>, rel: Seq<char>, p: Platform) -> Seq<char> {
    if base.len() == 0 || is_sep(base.last(), p) {
        base + rel
    } else {
        base.push(if p == Platform::Windows { '\\' } else { '/' }) + rel
    }
}

pub fn join(base: &str, rel: &str, platform: Platform) -> (r: String)
    ensures
        r@ == join_path(base@, rel@, platform),
{
    let mut v = chars_of(base);
    let n = v.len();
    if n > 0 {
        let last = v[n - 1];
        let sep = last == '/' || (platform == Platform::Windows && last == '\\');
        if !sep {
            v.push(if platform == Platform::Windows { '\\' } else { '/' });
        }
    }
    crate::text::extend_chars(&mut v, &chars_of(rel));
    string_of(&v)
}

/// Where a relative model path resolves: the data directory first, then the installer's
/// bundled models, then the development fallback.
pub open spec fn resolves(d: Disk, rel: Seq<char>) -> Option<Seq<char>> {
    if listed(d.in_data@, rel) {
        Some(join_path(d.models_dir@, rel, d.platform))
    } else if d.bundled_dir is Some && listed(d.in_bundled@, rel) {
        Some(join_path(d.bundled_dir->0@, rel, d.platform))
    } else if d.dev_dir is Some && listed(d.in_dev@, rel) {
        Some(join_path(d.dev_dir->0@, rel, d.platform))
    } else {
        None
    }
}

pub open spec fn opt_str(v: Option<String>) -> Option<Seq<char>> {
    match v {
        Some(s) => Some(s@),
        None => None,
    }
}

pub fn resolve(d: &Disk, rel: &str) -> (r: Option<String>)
    ensures
        opt_str(r) == resolves(*d, rel@),
{
    if is_listed(&d.in_data, rel) {
        return Some(join(d.models_dir.as_str(), rel, d.platform));
    }
    match &d.bundled_dir {
        Some(b) => {
            if is_listed(&d.in_bundled, rel) {
                return Some(join(b.as_str(), rel, d.platform));
            }
        },
        None => {},
    }
    match &d.dev_dir {
        Some(b) => {
            if is_listed(&d.in_dev, rel) {
                return Some(join(b.as_str(), rel, d.platform));
            }
        },
        None => {},
    }
    None
}

/// Installed: the `check` file resolves somewhere (data, bundled or development), so that
/// what ships with the installer is never downloaded again.
pub open spec fn installed_spec(s: SpecV, d: Disk) -> bool {
    resolves(d, check_path_spec(s, d.platform)) is Some
}

pub fn is_installed(spec: &Spec, d: &Disk) -> (b: bool)
    ensures
        b == installed_spec(spec@, *d),
{
    let c = spec.check_path(d.platform);
    resolve(d, c.as_str()).is_some()
}

/// The first catalogue entry with the given id.
pub open spec fn lookup_in(c: Seq<SpecV>, id: Seq<char>) -> Option<SpecV>
    decreases c.len(),
{
    if c.len() == 0 {
        None
    } else if c[0].id == id {
        Some(c[0])
    } else {
        lookup_in(c.drop_first(), id)
    }
}

pub open spec fn lookup(id: Seq<char>) -> Option<SpecV> {
    lookup_in(catalog_spec(), id)
}

/// The position in the catalogue of the entry with the given id.
fn find(cat: &Vec<Spec>, id: &str) -> (r: Option<usize>)
    requires
        cat@.len() == catalog_spec().len(),
        forall|i: int| 0 <= i < cat@.len() ==> (#[trigger] cat@[i])@ == catalog_spec()[i],
    ensures
        match r {
            Some(i) => i < cat@.len() && lookup(id@) == Some(cat@[i as int]@),
            None => lookup(id@) is None,
        },
{
    let ghost c = catalog_spec();
    let mut i: usize = 0;
    assert(c.skip(0) =~= c);
    while i < cat.len()
        invariant
            i <= cat@.len(),
            cat@.len() == c.len(),
            c == catalog_spec(),
            forall|j: int| 0 <= j < cat@.len() ==> (#[trigger] cat@[j])@ == c[j],
            lookup_in(c, id@) == lookup_in(c.skip(i as int), id@),
        decreases cat@.len() - i,
    {
        assert(c.skip(i as int)[0] == c[i as int]);
        if str_eq(cat[i].id, id) {
            return Some(i);
        }
        assert(c.skip(i as int).drop_first() =~= c.skip(i + 1));
        i = i + 1;
    }
    assert(c.skip(i as int).len() == 0);
    None
}

} // verus!

verus! {

/// A catalogue entry as shown to the user.
pub struct ModelInfo {
    pub id: String,
    pub name: String,
    pub kind: String,
    pub lang: String,
    pub size_mb: u32,
    pub required: bool,
    pub installed: bool,
}

pub struct ModelInfoV {
    pub id: Seq<char>,
    pub name: Seq<char>,
    pub kind: Seq<char>,
    pub lang: Seq<char>,
    pub size_mb: u32,
    pub required: bool,
    pub installed: bool,
}

impl ModelInfo {
    pub open spec fn view(&self) -> ModelInfoV {
        ModelInfoV {
            id: self.id@,
            name: self.name@,
            kind: self.kind@,
            lang: self.lang@,
            size_mb: self.size_mb,
            required: self.required,
            installed: self.installed,
        }
    }
}

pub open spec fn info_spec(s: SpecV, d: Disk) -> ModelInfoV {
    ModelInfoV {
        id: s.id,
        name: s.name,
        kind: s.kind,
        lang: s.lang,
        size_mb: s.size_mb,
        required: s.required,
        installed: installed_spec(s, d),
    }
}

fn info_of(s: &Spec, d: &Disk) -> (r: ModelInfo)
    ensures
        r@ == info_spec(s@, *d),
{
    ModelInfo {
        id: s.id.to_owned(),
        name: s.name.to_owned(),
        kind: s.kind.to_owned(),
        lang: s.lang.to_owned(),
        size_mb: s.size_mb,
        required: s.required,
        installed: is_installed(s, d),
    }
}

/// The entries of `c` whose kind is `kind` (every entry when `kind` is `None`), as shown.
pub open spec fn infos(c: Seq<SpecV>, kind: Option<Seq<char>>, d: Disk) -> Seq<ModelInfoV>
    decreases c.len(),
{
    if c.len() == 0 {
        Seq::empty()
    } else {
        let rest = infos(c.drop_last(), kind, d);
        if kind is None || c.last().kind == kind->0 {
            rest.push(info_spec(c.last(), d))
        } else {
            rest
        }
    }
}

pub open spec fn infos_view(v: Seq<ModelInfo>) -> Seq<ModelInfoV> {
    v.map_values(|m: ModelInfo| m@)
}

fn infos_of(d: &Disk, kind: Option<&str>) -> (r: Vec<ModelInfo>)
    ensures
        infos_view(r@) == infos(catalog_spec(), opt_kind(kind), *d),
{
    let cat = catalog();
    let ghost c = catalog_spec();
    let mut out: Vec<ModelInfo> = Vec::new();
    let mut i: usize = 0;
    while i < cat.len()
        invariant
            i <= cat@.len(),
            c == catalog_spec(),
            cat@.len() == c.len(),
            forall|j: int| 0 <= j < cat@.len() ==> (#[trigger] cat@[j])@ == c[j],
            infos_view(out@) == infos(c.take(i as int), opt_kind(kind), *d),
        decreases cat@.len() - i,
    {
        assert(c.take(i + 1).drop_last() =~= c.take(i as int));
        assert(c.take(i + 1).last() == c[i as int]);
        let take = match kind {
            Some(k) => str_eq(cat[i].kind, k),
            None => true,
        };
        if take {
            let m = info_of(&cat[i], d);
            let ghost before = out@;
            out.push(m);
            assert(infos_view(out@) =~= infos_view(before).push(m@));
        }
        i = i + 1;
    }
    assert(c.take(cat@.len() as int) =~= c);
    out
}

pub open spec fn opt_kind(k: Option<&str>) -> Option<Seq<char>> {
    match k {
        Some(s) => Some(s@),
        None => None,
    }
}

/// The whole catalogue with what is installed.
pub fn list(d: &Disk) -> (r: Vec<ModelInfo>)
    ensures
        infos_view(r@) == infos(catalog_spec(), None, *d),
{
    infos_of(d, None)
}

/// The speech-recognition models, for the active-model selector.
pub fn list_asr(d: &Disk) -> (r: Vec<ModelInfo>)
    ensures
        infos_view(r@) == infos(catalog_spec(), Some("asr"@), *d),
{
    infos_of(d, Some("asr"))
}

/// The summary models, for the summary-model selector.
pub fn list_llm(d: &Disk) -> (r: Vec<ModelInfo>)
    ensures
        infos_view(r@) == infos(catalog_spec(), Some("llm"@), *d),
{
    infos_of(d, Some("llm"))
}

/// Required infrastructure (diarization and tools, not recognition models) that is not
/// installed yet: downloaded in the background. Optional infrastructure is not listed.
pub open spec fn missing_core_spec(c: Seq<SpecV>, d: Disk) -> Seq<Seq<char>>
    decreases c.len(),
{
    if c.len() == 0 {
        Seq::empty()
    } else {
        let rest = missing_core_spec(c.drop_last(), d);
        let s = c.last();
        if s.kind != "asr"@ && s.required && !installed_spec(s, d) {
            rest.push(s.id)
        } else {
            rest
        }
    }
}

pub open spec fn strings_view(v: Seq<String>) -> Seq<Seq<char>> {
    v.map_values(|s: String| s@)
}

pub fn missing_core(d: &Disk) -> (r: Vec<String>)
    ensures
        strings_view(r@) == missing_core_spec(catalog_spec(), *d),
{
    let cat = catalog();
    let ghost c = catalog_spec();
    let mut out: Vec<String> = Vec::new();
    let mut i: usize = 0;
    while i < cat.len()
        invariant
            i <= cat@.len(),
            c == catalog_spec(),
            cat@.len() == c.len(),
            forall|j: int| 0 <= j < cat@.len() ==> (#[trigger] cat@[j])@ == c[j],
            strings_view(out@) == missing_core_spec(c.take(i as int), *d),
        decreases cat@.len() - i,
    {
        assert(c.take(i + 1).drop_last() =~= c.take(i as int));
        assert(c.take(i + 1).last() == c[i as int]);
        let s = &cat[i];
        if !str_eq(s.kind, "asr") && s.required && !is_installed(s, d) {
            let id = s.id.to_owned();
            let ghost before = out@;
            out.push(id);
            assert(strings_view(out@) =~= strings_view(before).push(id@));
        }
        i = i + 1;
    }
    assert(c.take(cat@.len() as int) =~= c);
    out
}

} // verus!

verus! {

pub open spec fn setting_or(st: Map<Seq<char>, Seq<char>>, key: Seq<char>, default: Seq<char>) -> Seq<char> {
    if st.contains_key(key) {
        st[key]
    } else {
        default
    }
}

/// The active recognition model: the `active_asr` setting, GigaAM by default.
pub open spec fn active_id_spec(st: Map<Seq<char>, Seq<char>>) -> Seq<char> {
    setting_or(st, "active_asr"@, "gigaam"@)
}

pub fn active_id(store: &Store) -> (r: String)
    requires
        store.wf(),
    ensures
        r@ == active_id_spec(store@.settings),
{
    match store.get_setting("active_asr") {
        Some(v) => v,
        None => "gigaam".to_owned(),
    }
}

/// The catalogue has an entry `id` of the given kind.
pub open spec fn is_kind(id: Seq<char>, kind: Seq<char>) -> bool {
    lookup(id) matches Some(s) && s.kind == kind
}

fn has_kind(id: &str, kind: &str) -> (b: bool)
    ensures
        b == is_kind(id@, kind@),
{
    let cat = catalog();
    match find(&cat, id) {
        Some(i) => str_eq(cat[i].kind, kind),
        None => false,
    }
}

/// Makes `id` the active recognition model; refused unless it is one.
pub fn set_active(store: &mut Store, id: &str) -> (r: Result<(), String>)
    requires
        old(store).wf(),
    ensures
        final(store).wf(),
        r is Ok <==> is_kind(id@, "asr"@),
        r is Ok ==> final(store)@.settings == old(store)@.settings.insert("active_asr"@, id@),
        r matches Err(e) ==> e@ == "not a language model"@ && final(store)@ == old(store)@,
        final(store)@.jobs == old(store)@.jobs,
        final(store)@.dictations == old(store)@.dictations,
        final(store)@.results == old(store)@.results,
{
    if has_kind(id, "asr") {
        store.set_setting("active_asr", id)
    } else {
        Err("not a language model".to_owned())
    }
}

/// The dictation model: the `dict_asr` setting when set and not empty, else the active one.
pub open spec fn dict_asr_id_spec(st: Map<Seq<char>, Seq<char>>) -> Seq<char> {
    if st.contains_key("dict_asr"@) && st["dict_asr"@].len() > 0 {
        st["dict_asr"@]
    } else {
        active_id_spec(st)
    }
}

pub fn dict_asr_id(store: &Store) -> (r: String)
    requires
        store.wf(),
    ensures
        r@ == dict_asr_id_spec(store@.settings),
{
    match store.get_setting("dict_asr") {
        Some(v) => if !v.as_str().is_empty() { v } else { active_id(store) },
        None => active_id(store),
    }
}

/// Chooses the dictation model; the empty id means "follow the active model".
pub fn set_dict_asr(store: &mut Store, id: &str) -> (r: Result<(), String>)
    requires
        old(store).wf(),
    ensures
        final(store).wf(),
        r is Ok <==> (id@.len() == 0 || is_kind(id@, "asr"@)),
        r is Ok ==> final(store)@.settings == old(store)@.settings.insert("dict_asr"@, id@),
        r matches Err(e) ==> e@ == "not a language model"@ && final(store)@ == old(store)@,
        final(store)@.jobs == old(store)@.jobs,
        final(store)@.dictations == old(store)@.dictations,
        final(store)@.results == old(store)@.results,
{
    if id.is_empty() || has_kind(id, "asr") {
        store.set_setting("dict_asr", id)
    } else {
        Err("not a language model".to_owned())
    }
}

/// A Russian model without punctuation of its own needs the external punctuation model.
/// No model of the catalogue is such; the hook stays for older installations.
pub fn needs_ru_punct(id: &str) -> (b: bool)
    ensures
        b == (id@ == "gigaam-v2"@),
{
    str_eq(id, "gigaam-v2")
}

} // verus!

verus! {

pub const GIGAAM_MODEL: &'static str = "sherpa-onnx-nemo-ctc-punct-giga-am-v3-russian-2025-12-16/model.int8.onnx";
pub const GIGAAM_TOKENS: &'static str = "sherpa-onnx-nemo-ctc-punct-giga-am-v3-russian-2025-12-16/tokens.txt";
pub const PARAKEET_ENCODER: &'static str = "sherpa-onnx-nemo-parakeet-tdt-0.6b-v3-int8/encoder.int8.onnx";
pub const PARAKEET_DECODER: &'static str = "sherpa-onnx-nemo-parakeet-tdt-0.6b-v3-int8/decoder.int8.onnx";
pub const PARAKEET_JOINER: &'static str = "sherpa-onnx-nemo-parakeet-tdt-0.6b-v3-int8/joiner.int8.onnx";
pub const PARAKEET_TOKENS: &'static str = "sherpa-onnx-nemo-parakeet-tdt-0.6b-v3-int8/tokens.txt";
pub const WHISPER_SMALL_ENCODER: &'static str = "sherpa-onnx-whisper-small/small-encoder.int8.onnx";
pub const WHISPER_SMALL_DECODER: &'static str = "sherpa-onnx-whisper-small/small-decoder.int8.onnx";
pub const WHISPER_SMALL_TOKENS: &'static str = "sherpa-onnx-whisper-small/small-tokens.txt";
pub const WHISPER_TURBO_ENCODER: &'static str = "sherpa-onnx-whisper-turbo/turbo-encoder.int8.onnx";
pub const WHISPER_TURBO_DECODER: &'static str = "sherpa-onnx-whisper-turbo/turbo-decoder.int8.onnx";
pub const WHISPER_TURBO_TOKENS: &'static str = "sherpa-onnx-whisper-turbo/turbo-tokens.txt";
pub const DIAR_SEGMENTATION: &'static str = "sherpa-onnx-pyannote-segmentation-3-0/model.onnx";
pub const DIAR_EMBEDDING: &'static str = "3dspeaker_speech_campplus_sv_zh_en_16k-common_advanced.onnx";
/// The embedding model of older installations, used until the new one is downloaded.
pub const DIAR_EMBEDDING_OLD: &'static str = "3dspeaker_speech_campplus_sv_zh-cn_16k-common.onnx";
pub const VAD_MODEL: &'static str = "silero_vad.onnx";
pub const PUNCT_MODEL: &'static str = "rupunct/rupunct_small_int8.onnx";
pub const PUNCT_TOKENIZER: &'static str = "rupunct/tokenizer.json";

/// Model files of a transcriber with two or three parts; `None` unless every part resolves.
pub open spec fn files_if(
    engine: Engine,
    model: Option<Seq<char>>,
    decoder: Option<Seq<char>>,
    joiner: Option<Seq<char>>,
    tokens: Option<Seq<char>>,
    language: Seq<char>,
) -> Option<AsrFilesV> {
    if model is Some && decoder is Some && joiner is Some && tokens is Some {
        Some(
            AsrFilesV {
                engine,
                model: model->0,
                decoder: decoder->0,
                joiner: joiner->0,
                tokens: tokens->0,
                language,
            },
        )
    } else {
        None
    }
}

/// The files of a recognition model, when all of them resolve. Parts an engine does not use
/// are empty; Whisper is told the language "ru".
pub open spec fn asr_files_spec(id: Seq<char>, d: Disk) -> Option<AsrFilesV> {
    let none = Some(Seq::<char>::empty());
    if id == "gigaam"@ {
        files_if(Engine::NemoCtc, resolves(d, GIGAAM_MODEL@), none, none, resolves(d, GIGAAM_TOKENS@), ""@)
    } else if id == "parakeet"@ {
        files_if(
            Engine::Transducer,
            resolves(d, PARAKEET_ENCODER@),
            resolves(d, PARAKEET_DECODER@),
            resolves(d, PARAKEET_JOINER@),
            resolves(d, PARAKEET_TOKENS@),
            ""@,
        )
    } else if id == "whisper-small"@ {
        files_if(
            Engine::Whisper,
            resolves(d, WHISPER_SMALL_ENCODER@),
            resolves(d, WHISPER_SMALL_DECODER@),
            none,
            resolves(d, WHISPER_SMALL_TOKENS@),
            "ru"@,
        )
    } else if id == "whisper-turbo"@ {
        files_if(
            Engine::Whisper,
            resolves(d, WHISPER_TURBO_ENCODER@),
            resolves(d, WHISPER_TURBO_DECODER@),
            none,
            resolves(d, WHISPER_TURBO_TOKENS@),
            "ru"@,
        )
    } else {
        None
    }
}

pub open spec fn opt_files(v: Option<AsrFiles>) -> Option<AsrFilesV> {
    match v {
        Some(f) => Some(f@),
        None => None,
    }
}

fn make_files(
    engine: Engine,
    model: Option<String>,
    decoder: Option<String>,
    joiner: Option<String>,
    tokens: Option<String>,
    language: &str,
) -> (r: Option<AsrFiles>)
    ensures
        opt_files(r) == files_if(engine, opt_str(model), opt_str(decoder), opt_str(joiner), opt_str(tokens), language@),
{
    match (model, decoder, joiner, tokens) {
        (Some(m), Some(dd), Some(j), Some(t)) => Some(
            AsrFiles { engine, model: m, decoder: dd, joiner: j, tokens: t, language: language.to_owned() },
        ),
        _ => None,
    }
}

pub fn asr_files(id: &str, d: &Disk) -> (r: Option<AsrFiles>)
    ensures
        opt_files(r) == asr_files_spec(id@, *d),
{
    proof { reveal_strlit(""); }
    if str_eq(id, "gigaam") {
        make_files(
            Engine::NemoCtc,
            resolve(d, GIGAAM_MODEL),
            Some(String::new()),
            Some(String::new()),
            resolve(d, GIGAAM_TOKENS),
            "",
        )
    } else if str_eq(id, "parakeet") {
        make_files(
            Engine::Transducer,
            resolve(d, PARAKEET_ENCODER),
            resolve(d, PARAKEET_DECODER),
            resolve(d, PARAKEET_JOINER),
            resolve(d, PARAKEET_TOKENS),
            "",
        )
    } else if str_eq(id, "whisper-small") {
        make_files(
            Engine::Whisper,
            resolve(d, WHISPER_SMALL_ENCODER),
            resolve(d, WHISPER_SMALL_DECODER),
            Some(String::new()),
            resolve(d, WHISPER_SMALL_TOKENS),
            "ru",
        )
    } else if str_eq(id, "whisper-turbo") {
        make_files(
            Engine::Whisper,
            resolve(d, WHISPER_TURBO_ENCODER),
            resolve(d, WHISPER_TURBO_DECODER),
            Some(String::new()),
            resolve(d, WHISPER_TURBO_TOKENS),
            "ru",
        )
    } else {
        None
    }
}

/// The files of the active model, falling back to GigaAM when it is not installed.
pub open spec fn active_asr_files_spec(st: Map<Seq<char>, Seq<char>>, d: Disk) -> Option<AsrFilesV> {
    match asr_files_spec(active_id_spec(st), d) {
        Some(f) => Some(f),
        None => asr_files_spec("gigaam"@, d),
    }
}

pub fn active_asr_files(store: &Store, d: &Disk) -> (r: Option<AsrFiles>)
    requires
        store.wf(),
    ensures
        opt_files(r) == active_asr_files_spec(store@.settings, *d),
{
    match asr_files(active_id(store).as_str(), d) {
        Some(f) => Some(f),
        None => asr_files("gigaam", d),
    }
}

/// The files of the dictation model, falling back to the active model, then to GigaAM.
pub open spec fn dict_asr_files_spec(st: Map<Seq<char>, Seq<char>>, d: Disk) -> Option<AsrFilesV> {
    match asr_files_spec(dict_asr_id_spec(st), d) {
        Some(f) => Some(f),
        None => active_asr_files_spec(st, d),
    }
}

pub fn dict_asr_files(store: &Store, d: &Disk) -> (r: Option<AsrFiles>)
    requires
        store.wf(),
    ensures
        opt_files(r) == dict_asr_files_spec(store@.settings, *d),
{
    match asr_files(dict_asr_id(store).as_str(), d) {
        Some(f) => Some(f),
        None => active_asr_files(store, d),
    }
}

pub open spec fn pair_if(a: Option<Seq<char>>, b: Option<Seq<char>>) -> Option<(Seq<char>, Seq<char>)> {
    if a is Some && b is Some {
        Some((a->0, b->0))
    } else {
        None
    }
}

pub open spec fn opt_pair(v: Option<(String, String)>) -> Option<(Seq<char>, Seq<char>)> {
    match v {
        Some(p) => Some((p.0@, p.1@)),
        None => None,
    }
}

fn make_pair(a: Option<String>, b: Option<String>) -> (r: Option<(String, String)>)
    ensures
        opt_pair(r) == pair_if(opt_str(a), opt_str(b)),
{
    match (a, b) {
        (Some(x), Some(y)) => Some((x, y)),
        _ => None,
    }
}

/// Diarization models (segmentation, embedding). The multilingual embedding model is
/// preferred; an older installation may still hold the earlier one, used meanwhile.
pub open spec fn diarization_spec(d: Disk) -> Option<(Seq<char>, Seq<char>)> {
    pair_if(
        resolves(d, DIAR_SEGMENTATION@),
        match resolves(d, DIAR_EMBEDDING@) {
            Some(e) => Some(e),
            None => resolves(d, DIAR_EMBEDDING_OLD@),
        },
    )
}

pub fn diarization(d: &Disk) -> (r: Option<(String, String)>)
    ensures
        opt_pair(r) == diarization_spec(*d),
{
    let emb = match resolve(d, DIAR_EMBEDDING) {
        Some(e) => Some(e),
        None => resolve(d, DIAR_EMBEDDING_OLD),
    };
    make_pair(resolve(d, DIAR_SEGMENTATION), emb)
}

/// The voice-activity model; without it recognition cuts blind windows.
pub fn vad(d: &Disk) -> (r: Option<String>)
    ensures
        opt_str(r) == resolves(*d, VAD_MODEL@),
{
    resolve(d, VAD_MODEL)
}

/// The punctuation model and its tokenizer; without them the step is skipped.
pub fn punct(d: &Disk) -> (r: Option<(String, String)>)
    ensures
        opt_pair(r) == pair_if(resolves(*d, PUNCT_MODEL@), resolves(*d, PUNCT_TOKENIZER@)),
{
    make_pair(resolve(d, PUNCT_MODEL), resolve(d, PUNCT_TOKENIZER))
}

/// The ffmpeg executable installed by the manager.
/// Like every tool of the manager it lives in the data directory only, never bundled.
pub open spec fn ffmpeg_spec(d: Disk) -> Option<Seq<char>> {
    let exe = exe_name("ffmpeg"@, d.platform);
    if listed(d.in_data@, "bin/"@ + exe) {
        Some(join_path(join_path(d.models_dir@, "bin"@, d.platform), exe, d.platform))
    } else {
        None
    }
}

pub fn ffmpeg(d: &Disk) -> (r: Option<String>)
    ensures
        opt_str(r) == ffmpeg_spec(*d),
{
    let exe = tool_exe("ffmpeg", d.platform);
    let rel = crate::text::concat("bin/", exe.as_str());
    if is_listed(&d.in_data, rel.as_str()) {
        let dir = join(d.models_dir.as_str(), "bin", d.platform);
        Some(join(dir.as_str(), exe.as_str(), d.platform))
    } else {
        None
    }
}

/// The llama-server executable installed by the manager.
pub open spec fn llama_server_spec(d: Disk) -> Option<Seq<char>> {
    let exe = exe_name("llama-server"@, d.platform);
    if listed(d.in_data@, "bin/llama/"@ + exe) {
        Some(
            join_path(
                join_path(join_path(d.models_dir@, "bin"@, d.platform), "llama"@, d.platform),
                exe,
                d.platform,
            ),
        )
    } else {
        None
    }
}

pub fn llama_server(d: &Disk) -> (r: Option<String>)
    ensures
        opt_str(r) == llama_server_spec(*d),
{
    let exe = tool_exe("llama-server", d.platform);
    let rel = crate::text::concat("bin/llama/", exe.as_str());
    if is_listed(&d.in_data, rel.as_str()) {
        let dir = join(d.models_dir.as_str(), "bin", d.platform);
        let dir2 = join(dir.as_str(), "llama", d.platform);
        Some(join(dir2.as_str(), exe.as_str(), d.platform))
    } else {
        None
    }
}

} // verus!

verus! {

/// Bytes of RAM from which a machine without a usable GPU still counts as strong (12 GB).
pub const STRONG_RAM_BYTES: u64 = 12_000_000_000;

/// A machine gets the quality model by default when it offloads to a GPU, or has at least
/// 12 GB of RAM and more than four physical cores (four assumed when unknown).
pub open spec fn strong_spec(offload: bool, total_memory: u64, physical_cores: Option<usize>) -> bool {
    offload || (total_memory >= STRONG_RAM_BYTES && (match physical_cores {
        Some(n) => n,
        None => 4,
    }) > 4)
}

pub fn strong_machine(offload: bool, total_memory: u64, physical_cores: Option<usize>) -> (b: bool)
    ensures
        b == strong_spec(offload, total_memory, physical_cores),
{
    let cores = match physical_cores {
        Some(n) => n,
        None => 4,
    };
    offload || (total_memory >= STRONG_RAM_BYTES && cores > 4)
}

/// The summary model: the `active_llm` setting, else chosen by the hardware (the quality
/// model on a strong machine, the fast one otherwise).
pub open spec fn active_llm_id_spec(st: Map<Seq<char>, Seq<char>>, strong: bool) -> Seq<char> {
    setting_or(st, "active_llm"@, if strong { "llm-qwen3-4b"@ } else { "llm-qwen3-17b"@ })
}

pub fn active_llm_id(store: &Store, strong: bool) -> (r: String)
    requires
        store.wf(),
    ensures
        r@ == active_llm_id_spec(store@.settings, strong),
{
    match store.get_setting("active_llm") {
        Some(v) => v,
        None => if strong { "llm-qwen3-4b".to_owned() } else { "llm-qwen3-17b".to_owned() },
    }
}

/// Chooses the summary model; refused unless `id` is one.
pub fn set_active_llm(store: &mut Store, id: &str) -> (r: Result<(), String>)
    requires
        old(store).wf(),
    ensures
        final(store).wf(),
        r is Ok <==> is_kind(id@, "llm"@),
        r is Ok ==> final(store)@.settings == old(store)@.settings.insert("active_llm"@, id@),
        r matches Err(e) ==> e@ == "not a summary model"@ && final(store)@ == old(store)@,
        final(store)@.jobs == old(store)@.jobs,
        final(store)@.dictations == old(store)@.dictations,
        final(store)@.results == old(store)@.results,
{
    if has_kind(id, "llm") {
        store.set_setting("active_llm", id)
    } else {
        Err("not a summary model".to_owned())
    }
}

/// The file of a catalogue entry, where it resolves.
pub open spec fn model_file_spec(id: Seq<char>, d: Disk) -> Option<Seq<char>> {
    match lookup(id) {
        Some(s) => resolves(d, check_path_spec(s, d.platform)),
        None => None,
    }
}

fn model_file(id: &str, d: &Disk) -> (r: Option<String>)
    ensures
        opt_str(r) == model_file_spec(id@, *d),
{
    let cat = catalog();
    match find(&cat, id) {
        Some(i) => {
            let c = cat[i].check_path(d.platform);
            resolve(d, c.as_str())
        },
        None => None,
    }
}

/// (llama-server, model file): all that local summaries need; `None` until both are there.
pub open spec fn llm_files_spec(st: Map<Seq<char>, Seq<char>>, d: Disk, strong: bool) -> Option<(Seq<char>, Seq<char>)> {
    pair_if(llama_server_spec(d), model_file_spec(active_llm_id_spec(st, strong), d))
}

pub fn llm_files(store: &Store, d: &Disk, strong: bool) -> (r: Option<(String, String)>)
    requires
        store.wf(),
    ensures
        opt_pair(r) == llm_files_spec(store@.settings, *d, strong),
{
    let server = match llama_server(d) {
        Some(s) => s,
        None => return None,
    };
    let id = active_llm_id(store, strong);
    make_pair(Some(server), model_file(id.as_str(), d))
}

pub const VULKAN_BACKEND: &'static str = "bin/llama/ggml-vulkan.dll";

/// On Windows, an installed llama-server without the Vulkan backend on a machine with a
/// usable GPU is downloaded again (earlier installations had the CPU build).
pub open spec fn needs_gpu_upgrade_spec(d: Disk, offload: bool) -> bool {
    d.platform == Platform::Windows && llama_server_spec(d) is Some && offload && !listed(
        d.in_data@,
        VULKAN_BACKEND@,
    )
}

pub fn llama_needs_gpu_upgrade(d: &Disk, offload: bool) -> (b: bool)
    ensures
        b == needs_gpu_upgrade_spec(*d, offload),
{
    d.platform == Platform::Windows && llama_server(d).is_some() && offload && !is_listed(
        &d.in_data,
        VULKAN_BACKEND,
    )
}

/// What local summaries lack: the engine (or its GPU upgrade), then the active model.
pub open spec fn missing_llm_spec(st: Map<Seq<char>, Seq<char>>, d: Disk, offload: bool, strong: bool) -> Seq<Seq<char>> {
    let engine: Seq<Seq<char>> = if llama_server_spec(d) is None || needs_gpu_upgrade_spec(d, offload) {
        seq!["llama"@]
    } else {
        Seq::empty()
    };
    let id = active_llm_id_spec(st, strong);
    if lookup(id) matches Some(s) && installed_spec(s, d) {
        engine
    } else {
        engine.push(id)
    }
}

pub fn missing_llm(store: &Store, d: &Disk, offload: bool, strong: bool) -> (r: Vec<String>)
    requires
        store.wf(),
    ensures
        strings_view(r@) == missing_llm_spec(store@.settings, *d, offload, strong),
{
    let mut v: Vec<String> = Vec::new();
    if llama_server(d).is_none() || llama_needs_gpu_upgrade(d, offload) {
        v.push("llama".to_owned());
    }
    let ghost engine = strings_view(v@);
    let id = active_llm_id(store, strong);
    let cat = catalog();
    let present = match find(&cat, id.as_str()) {
        Some(i) => is_installed(&cat[i], d),
        None => false,
    };
    if !present {
        let ghost before = v@;
        v.push(id);
        assert(strings_view(v@) =~= strings_view(before).push(v@.last()@));
    }
    assert(engine =~= (if llama_server_spec(*d) is None || needs_gpu_upgrade_spec(*d, offload) {
        seq!["llama"@]
    } else {
        Seq::<Seq<char>>::empty()
    }));
    v
}

} // verus!

verus! {

/// Name of the partial download of an entry in the models directory: `.{id}.part`.
pub fn part_file_name(id: &str) -> (r: String)
    ensures
        r@ == "."@ + id@ + ".part"@,
{
    let a = crate::text::concat(".", id);
    crate::text::concat(a.as_str(), ".part")
}

/// An archive entry name with `\` read as `/`.
pub open spec fn slashes(s: Seq<char>) -> Seq<char> {
    s.map_values(|c: char| if c == '\\' { '/' } else { c })
}

pub fn normalize_entry(name: &str) -> (r: String)
    ensures
        r@ == slashes(name@),
{
    let c = chars_of(name);
    let mut out: Vec<char> = Vec::new();
    let mut i: usize = 0;
    while i < c.len()
        invariant
            i <= c@.len(),
            out@ == slashes(c@.take(i as int)),
        decreases c@.len() - i,
    {
        out.push(if c[i] == '\\' { '/' } else { c[i] });
        assert(slashes(c@.take(i + 1)) =~= slashes(c@.take(i as int)).push(
            if c@[i as int] == '\\' { '/' } else { c@[i as int] },
        ));
        i = i + 1;
    }
    assert(c@.take(c@.len() as int) =~= c@);
    string_of(&out)
}

/// The last component of a `/`-separated name (`rsplit('/').next()`).
pub open spec fn base_name_spec(s: Seq<char>) -> Seq<char>
    decreases s.len(),
{
    if s.len() == 0 {
        s
    } else if s.last() == '/' {
        Seq::empty()
    } else {
        base_name_spec(s.drop_last()).push(s.last())
    }
}

pub fn base_name(name: &str) -> (r: String)
    ensures
        r@ == base_name_spec(name@),
{
    let c = chars_of(name);
    let mut cur: Vec<char> = Vec::new();
    let mut i: usize = 0;
    while i < c.len()
        invariant
            i <= c@.len(),
            cur@ == base_name_spec(c@.take(i as int)),
        decreases c@.len() - i,
    {
        assert(c@.take(i + 1).drop_last() =~= c@.take(i as int));
        if c[i] == '/' {
            cur = Vec::new();
            assert(cur@ =~= Seq::<char>::empty());
        } else {
            cur.push(c[i]);
        }
        i = i + 1;
    }
    assert(c@.take(c@.len() as int) =~= c@);
    string_of(&cur)
}

pub open spec fn ends_with_spec(s: Seq<char>, suf: Seq<char>) -> bool {
    s.len() >= suf.len() && s.subrange(s.len() - suf.len(), s.len() as int) == suf
}

fn ends_with(s: &str, suf: &str) -> (b: bool)
    ensures
        b == ends_with_spec(s@, suf@),
{
    let c = chars_of(s);
    let x = chars_of(suf);
    if x.len() == 0 {
        assert(c@.subrange(c@.len() as int, c@.len() as int) =~= x@);
        return true;
    }
    ends_with_at(&c, c.len(), &x)
}

/// The ffmpeg archive entry that is taken: the executable itself, wherever it lies.
pub open spec fn ffmpeg_entry_spec(name: Seq<char>, p: Platform) -> bool {
    let n = slashes(name);
    base_name_spec(n) == exe_name("ffmpeg"@, p) && !ends_with_spec(n, "/"@)
}

pub fn is_ffmpeg_entry(name: &str, platform: Platform) -> (b: bool)
    ensures
        b == ffmpeg_entry_spec(name@, platform),
{
    let n = normalize_entry(name);
    let base = base_name(n.as_str());
    let want = tool_exe("ffmpeg", platform);
    str_eq(base.as_str(), want.as_str()) && !ends_with(n.as_str(), "/")
}

/// Files of the llama archive that are kept (flat, in `bin/llama`): the server, its
/// libraries and the licence.
pub open spec fn keep_llama_spec(base: Seq<char>, p: Platform) -> bool {
    ||| base == exe_name("llama-server"@, p)
    ||| base == "LICENSE"@
    ||| ends_with_spec(base, ".dll"@)
    ||| ends_with_spec(base, ".dylib"@)
    ||| ends_with_spec(base, ".so"@)
}

pub fn keep_llama_file(base: &str, platform: Platform) -> (b: bool)
    ensures
        b == keep_llama_spec(base@, platform),
{
    let exe = tool_exe("llama-server", platform);
    str_eq(base, exe.as_str()) || str_eq(base, "LICENSE") || ends_with(base, ".dll") || ends_with(
        base,
        ".dylib",
    ) || ends_with(base, ".so")
}

} // verus!

verus! {

/// The relative paths whose presence the decisions of this module read: the `check` file of
/// every entry, then each further model file and tool.
pub open spec fn known_paths_spec(p: Platform) -> Seq<Seq<char>> {
    catalog_spec().map_values(|s: SpecV| check_path_spec(s, p)) + seq![
        GIGAAM_TOKENS@,
        PARAKEET_DECODER@,
        PARAKEET_JOINER@,
        PARAKEET_TOKENS@,
        WHISPER_SMALL_DECODER@,
        WHISPER_SMALL_TOKENS@,
        WHISPER_TURBO_DECODER@,
        WHISPER_TURBO_TOKENS@,
        DIAR_EMBEDDING_OLD@,
        PUNCT_TOKENIZER@,
        "bin/"@ + exe_name("ffmpeg"@, p),
        "bin/llama/"@ + exe_name("llama-server"@, p),
        VULKAN_BACKEND@,
    ]
}

pub fn known_paths(platform: Platform) -> (r: Vec<String>)
    ensures
        strings_view(r@) == known_paths_spec(platform),
{
    let cat = catalog();
    let ghost c = catalog_spec();
    let mut out: Vec<String> = Vec::new();
    let mut i: usize = 0;
    while i < cat.len()
        invariant
            i <= cat@.len(),
            c == catalog_spec(),
            cat@.len() == c.len(),
            forall|j: int| 0 <= j < cat@.len() ==> (#[trigger] cat@[j])@ == c[j],
            strings_view(out@) == c.take(i as int).map_values(|s: SpecV| check_path_spec(s, platform)),
        decreases cat@.len() - i,
    {
        let x = cat[i].check_path(platform);
        let ghost before = out@;
        out.push(x);
        assert(strings_view(out@) =~= strings_view(before).push(x@));
        assert(c.take(i + 1).map_values(|s: SpecV| check_path_spec(s, platform)) =~= c.take(
            i as int,
        ).map_values(|s: SpecV| check_path_spec(s, platform)).push(check_path_spec(c[i as int], platform)));
        i = i + 1;
    }
    assert(c.take(cat@.len() as int) =~= c);
    let ghost head = strings_view(out@);
    let extra: [&'static str; 10] = [
        GIGAAM_TOKENS,
        PARAKEET_DECODER,
        PARAKEET_JOINER,
        PARAKEET_TOKENS,
        WHISPER_SMALL_DECODER,
        WHISPER_SMALL_TOKENS,
        WHISPER_TURBO_DECODER,
        WHISPER_TURBO_TOKENS,
        DIAR_EMBEDDING_OLD,
        PUNCT_TOKENIZER,
    ];
    let mut k: usize = 0;
    while k < 10
        invariant
            k <= 10,
            strings_view(out@) == head + extra@.take(k as int).map_values(|s: &'static str| s@),
        decreases 10 - k,
    {
        let ghost before = out@;
        out.push(extra[k].to_owned());
        assert(strings_view(out@) =~= strings_view(before).push(extra@[k as int]@));
        assert(extra@.take(k + 1).map_values(|s: &'static str| s@) =~= extra@.take(k as int).map_values(
            |s: &'static str| s@,
        ).push(extra@[k as int]@));
        k = k + 1;
    }
    let ff = crate::text::concat("bin/", tool_exe("ffmpeg", platform).as_str());
    let ll = crate::text::concat("bin/llama/", tool_exe("llama-server", platform).as_str());
    let ghost mid = out@;
    out.push(ff);
    out.push(ll);
    out.push(VULKAN_BACKEND.to_owned());
    assert(strings_view(out@) =~= strings_view(mid) + seq![ff@, ll@, VULKAN_BACKEND@]);
    assert(extra@.take(10).map_values(|s: &'static str| s@) =~= seq![
        GIGAAM_TOKENS@,
        PARAKEET_DECODER@,
        PARAKEET_JOINER@,
        PARAKEET_TOKENS@,
        WHISPER_SMALL_DECODER@,
        WHISPER_SMALL_TOKENS@,
        WHISPER_TURBO_DECODER@,
        WHISPER_TURBO_TOKENS@,
        DIAR_EMBEDDING_OLD@,
        PUNCT_TOKENIZER@,
    ]);
    assert(strings_view(out@) =~= known_paths_spec(platform));
    out
}

} // verus!

verus! {

proof fn lemma_missing_core(c: Seq<SpecV>, d: Disk, x: Seq<char>)
    ensures
        missing_core_spec(c, d).contains(x) <==> exists|i: int| 0 <= i < c.len() && (#[trigger] c[i]).id == x
            && c[i].kind != "asr"@ && c[i].required && !installed_spec(c[i], d),
    decreases c.len(),
{
    if c.len() > 0 {
        let u = c.drop_last();
        lemma_missing_core(u, d, x);
        let rest = missing_core_spec(u, d);
        let s = c.last();
        if exists|i: int| 0 <= i < c.len() && (#[trigger] c[i]).id == x && c[i].kind != "asr"@ && c[i].required
            && !installed_spec(c[i], d) {
            let i = choose|i: int| 0 <= i < c.len() && (#[trigger] c[i]).id == x && c[i].kind != "asr"@ && c[i].required
                && !installed_spec(c[i], d);
            if i < u.len() {
                assert(u[i] == c[i]);
                let j = choose|j: int| 0 <= j < rest.len() && rest[j] == x;
                if s.kind != "asr"@ && s.required && !installed_spec(s, d) {
                    assert(rest.push(s.id)[j] == x);
                }
            } else {
                assert(rest.push(s.id)[rest.len() as int] == x);
            }
        }
        if missing_core_spec(c, d).contains(x) {
            if s.kind != "asr"@ && s.required && !installed_spec(s, d) && x == s.id {
                assert(c[c.len() - 1] == s);
            } else {
                let m = missing_core_spec(c, d);
                let j = choose|j: int| 0 <= j < m.len() && m[j] == x;
                if s.kind != "asr"@ && s.required && !installed_spec(s, d) {
                    if j < rest.len() {
                        assert(rest[j] == x);
                    }
                }
                assert(rest.contains(x));
                let i = choose|i: int| 0 <= i < u.len() && (#[trigger] u[i]).id == x && u[i].kind != "asr"@ && u[i].required
                    && !installed_spec(u[i], d);
                assert(c[i] == u[i]);
            }
        }
    }
}

/// What is downloaded in the background is exactly the required infrastructure that does
/// not resolve anywhere: a model bundled with the installer is never downloaded again.
pub proof fn law_missing_core_exact(d: Disk, x: Seq<char>)
    ensures
        missing_core_spec(catalog_spec(), d).contains(x) <==> exists|i: int| 0 <= i < catalog_spec().len()
            && (#[trigger] catalog_spec()[i]).id == x && catalog_spec()[i].kind != "asr"@ && catalog_spec()[i].required
            && !installed_spec(catalog_spec()[i], d),
{
    lemma_missing_core(catalog_spec(), d, x);
}

/// The model just made active is the active model; an empty dictation model follows it.
pub proof fn law_active_model_read_back(st: Map<Seq<char>, Seq<char>>, id: Seq<char>)
    ensures
        active_id_spec(st.insert("active_asr"@, id)) == id,
        dict_asr_id_spec(st.insert("dict_asr"@, Seq::empty())) == active_id_spec(st),
        active_llm_id_spec(st.insert("active_llm"@, id), true) == id,
        active_llm_id_spec(st.insert("active_llm"@, id), false) == id,
{
    reveal_strlit("dict_asr");
    reveal_strlit("active_asr");
    assert("dict_asr"@[0] != "active_asr"@[0]);
    assert(st.insert("dict_asr"@, Seq::empty())["dict_asr"@].len() == 0);
}

} // verus!

verus! {

/// `rel` lies in the directory of `check`: they share a prefix that ends with `/`.
pub open spec fn in_dir_of(rel: Seq<char>, check: Seq<char>) -> bool {
    exists|k: int| 0 < k <= check.len() && k <= rel.len() && check[k - 1] == '/' && #[trigger] rel.take(k) == check.take(k)
}

proof fn lemma_in_dir(rel: Seq<char>, check: Seq<char>, k: int)
    requires
        0 < k <= check.len(),
        k <= rel.len(),
        check[k - 1] == '/',
        rel.take(k) =~= check.take(k),
    ensures
        in_dir_of(rel, check),
{
    assert(rel.take(k) == check.take(k));
}

proof fn lemma_not_exe(s: Seq<char>)
    requires
        s.len() > 0,
        s.last() == 'x',
    ensures
        strip_suffixes(s, ".exe"@) == s,
{
    reveal_strlit(".exe");
    if s.len() >= 4 && s.subrange(s.len() - 4, s.len() as int) == ".exe"@ {
        assert(s.subrange(s.len() - 4, s.len() as int)[3] == s.last());
    }
}

proof fn lemma_asr_entry(e: SpecV, d: Disk, model: Seq<char>, tokens: Seq<char>, k: int, f: Option<AsrFilesV>)
    requires
        e.check == model,
        model.len() > 0,
        model.last() == 'x',
        0 < k <= model.len(),
        k <= tokens.len(),
        model[k - 1] == '/',
        tokens.take(k) =~= model.take(k),
        f is Some ==> resolves(d, model) == Some(f->0.model) && resolves(d, tokens) == Some(f->0.tokens),
        resolves(d, model) is None ==> f is None,
    ensures
        resolves(d, check_path_spec(e, d.platform)) is None ==> f is None,
        f matches Some(x) ==> resolves(d, check_path_spec(e, d.platform)) == Some(x.model),
        f matches Some(x) ==> exists|rel: Seq<char>| in_dir_of(rel, e.check) && resolves(d, rel) == Some(x.tokens),
{
    lemma_not_exe(model);
    assert(check_path_spec(e, d.platform) == model);
    lemma_in_dir(tokens, model, k);
}

/// A recognition model uses the files of its own catalogue entry: for each entry of kind
/// "asr", its files are found only when the entry's `check` file resolves; the model file is
/// then that check file as resolved, and the tokens file resolves from the same directory.
pub proof fn law_asr_files_of_entry(i: int, d: Disk)
    requires
        0 <= i < catalog_spec().len(),
        catalog_spec()[i].kind == "asr"@,
    ensures
        ({
            let e = catalog_spec()[i];
            let f = asr_files_spec(e.id, d);
            &&& resolves(d, check_path_spec(e, d.platform)) is None ==> f is None
            &&& f matches Some(x) ==> resolves(d, check_path_spec(e, d.platform)) == Some(x.model)
            &&& f matches Some(x) ==> exists|rel: Seq<char>| in_dir_of(rel, e.check) && resolves(d, rel) == Some(x.tokens)
        }),
{
    reveal_strlit("asr");
    reveal_strlit("diarization");
    reveal_strlit("tool");
    reveal_strlit("llm");
    reveal_strlit("gigaam");
    reveal_strlit("parakeet");
    reveal_strlit("whisper-small");
    reveal_strlit("whisper-turbo");
    let c = catalog_spec();
    let e = c[i];
    let f = asr_files_spec(e.id, d);
    if i == 0 {
        reveal_strlit("sherpa-onnx-nemo-ctc-punct-giga-am-v3-russian-2025-12-16/model.int8.onnx");
        reveal_strlit("sherpa-onnx-nemo-ctc-punct-giga-am-v3-russian-2025-12-16/tokens.txt");
        lemma_asr_entry(e, d, GIGAAM_MODEL@, GIGAAM_TOKENS@, 57, f);
    } else if i == 7 {
        reveal_strlit("sherpa-onnx-nemo-parakeet-tdt-0.6b-v3-int8/encoder.int8.onnx");
        reveal_strlit("sherpa-onnx-nemo-parakeet-tdt-0.6b-v3-int8/tokens.txt");
        assert("parakeet"@.len() != "gigaam"@.len());
        assert(f == files_if(
            Engine::Transducer,
            resolves(d, PARAKEET_ENCODER@),
            resolves(d, PARAKEET_DECODER@),
            resolves(d, PARAKEET_JOINER@),
            resolves(d, PARAKEET_TOKENS@),
            ""@,
        ));
        lemma_asr_entry(e, d, PARAKEET_ENCODER@, PARAKEET_TOKENS@, 43, f);
    } else if i == 8 {
        reveal_strlit("sherpa-onnx-whisper-small/small-encoder.int8.onnx");
        reveal_strlit("sherpa-onnx-whisper-small/small-tokens.txt");
        assert("whisper-small"@.len() != "gigaam"@.len());
        assert("whisper-small"@.len() != "parakeet"@.len());
        lemma_asr_entry(e, d, WHISPER_SMALL_ENCODER@, WHISPER_SMALL_TOKENS@, 26, f);
    } else if i == 9 {
        reveal_strlit("sherpa-onnx-whisper-turbo/turbo-encoder.int8.onnx");
        reveal_strlit("sherpa-onnx-whisper-turbo/turbo-tokens.txt");
        assert("whisper-turbo"@.len() != "gigaam"@.len());
        assert("whisper-turbo"@.len() != "parakeet"@.len());
        assert("whisper-turbo"@[8] != "whisper-small"@[8]);
        lemma_asr_entry(e, d, WHISPER_TURBO_ENCODER@, WHISPER_TURBO_TOKENS@, 26, f);
    } else {
        assert("diarization"@.len() != "asr"@.len());
        assert("tool"@.len() != "asr"@.len());
        assert("llm"@[0] != "asr"@[0]);
        assert(e.kind != "asr"@);
    }
}

} // verus!
