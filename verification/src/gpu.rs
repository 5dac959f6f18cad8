//! GPU choice for the summary helper (Vulkan backend of llama-server). What the machine has
//! is found by the caller; the choices are made here.
use vstd::prelude::*;

use crate::models::{Platform, join};

verus! {

/// A hardware graphics adapter.
pub struct GpuInfo {
    pub name: String,
    pub vram_bytes: u64,
}

impl GpuInfo {
    /// A copy of the adapter.
    pub fn copy(&self) -> (r: GpuInfo)
        ensures
            r.name@ == self.name@,
            r.vram_bytes == self.vram_bytes,
    {
        GpuInfo { name: self.name.clone(), vram_bytes: self.vram_bytes }
    }
}

/// Video memory needed to offload the 4B model with its context; it also keeps out the
/// integrated GPUs, which are slower than the CPU on Vulkan (4 GiB).
pub const MIN_VRAM_BYTES: u64 = 4294967296;

/// Adapters found without platform support (every system but Windows): none.
pub fn detect_gpus() -> (r: Vec<GpuInfo>)
    ensures
        r@.len() == 0,
{
    Vec::new()
}

/// Whether the Vulkan loader is there, without platform support: no.
pub fn vulkan_available() -> (b: bool)
    ensures
        !b,
{
    false
}

/// An adapter as reported by the system: software renderers are left out, and the name
/// loses its trailing NUL padding.
pub open spec fn adapter_spec(name: Seq<char>, software: bool, vram: u64) -> Option<(Seq<char>, u64)> {
    if software {
        None
    } else {
        Some((crate::text::strip_char_end(name, '\0'), vram))
    }
}

pub fn adapter(name: &str, software: bool, vram_bytes: u64) -> (r: Option<GpuInfo>)
    ensures
        match r {
            Some(g) => adapter_spec(name@, software, vram_bytes) == Some((g.name@, g.vram_bytes)),
            None => adapter_spec(name@, software, vram_bytes) is None,
        },
{
    if software {
        return None;
    }
    let c = crate::text::chars_of(name);
    let mut n: usize = c.len();
    assert(c@.take(n as int) =~= c@);
    while n > 0 && c[n - 1] == '\0'
        invariant
            n <= c@.len(),
            crate::text::strip_char_end(c@, '\0') == crate::text::strip_char_end(c@.take(n as int), '\0'),
        decreases n,
    {
        assert(c@.take(n as int).drop_last() =~= c@.take(n - 1));
        n = n - 1;
    }
    let t = crate::text::slice_chars(&c, 0, n);
    assert(t@ =~= c@.take(n as int));
    Some(GpuInfo { name: crate::text::string_of(&t), vram_bytes })
}

/// The Vulkan loader's path: `System32\vulkan-1.dll` under the system root (`C:\Windows`
/// when unknown).
pub fn vulkan_dll_path(system_root: Option<&str>) -> (r: String)
    ensures
        r@ == crate::models::join_path(
            crate::models::join_path(
                match system_root {
                    Some(s) => s@,
                    None => "C:\\Windows"@,
                },
                "System32"@,
                Platform::Windows,
            ),
            "vulkan-1.dll"@,
            Platform::Windows,
        ),
{
    let root = match system_root {
        Some(s) => s,
        None => "C:\\Windows",
    };
    let sys = join(root, "System32", Platform::Windows);
    join(sys.as_str(), "vulkan-1.dll", Platform::Windows)
}

/// Position of the adapter with the most video memory among those with at least `min`
/// bytes (the last of equals, as `max_by_key` picks).
pub open spec fn best_index(v: Seq<u64>, min: u64) -> Option<int>
    decreases v.len(),
{
    if v.len() == 0 {
        None
    } else {
        let i = v.len() - 1;
        match best_index(v.drop_last(), min) {
            Some(j) => if v[i] >= v[j] { Some(i) } else { Some(j) },
            None => if v[i] >= min { Some(i) } else { None },
        }
    }
}

proof fn lemma_best_in_range(v: Seq<u64>, min: u64)
    ensures
        best_index(v, min) matches Some(i) ==> 0 <= i < v.len(),
    decreases v.len(),
{
    if v.len() > 0 {
        lemma_best_in_range(v.drop_last(), min);
    }
}

pub open spec fn vrams(g: Seq<GpuInfo>) -> Seq<u64> {
    g.map_values(|x: GpuInfo| x.vram_bytes)
}

fn pick(gpus: &Vec<GpuInfo>, min: u64) -> (r: Option<usize>)
    ensures
        match r {
            Some(i) => best_index(vrams(gpus@), min) == Some(i as int) && i < gpus@.len(),
            None => best_index(vrams(gpus@), min) is None,
        },
{
    let mut best: Option<usize> = None;
    let mut i: usize = 0;
    while i < gpus.len()
        invariant
            i <= gpus@.len(),
            match best {
                Some(j) => best_index(vrams(gpus@.take(i as int)), min) == Some(j as int) && j < i,
                None => best_index(vrams(gpus@.take(i as int)), min) is None,
            },
        decreases gpus@.len() - i,
    {
        let ghost pre = vrams(gpus@.take(i as int));
        assert(vrams(gpus@.take(i + 1)).drop_last() =~= pre);
        assert(vrams(gpus@.take(i + 1))[i as int] == gpus@[i as int].vram_bytes);
        let v = gpus[i].vram_bytes;
        match best {
            Some(j) => {
                assert(pre[j as int] == gpus@[j as int].vram_bytes);
                if v >= gpus[j].vram_bytes {
                    best = Some(i);
                }
            },
            None => {
                if v >= min {
                    best = Some(i);
                }
            },
        }
        i = i + 1;
    }
    assert(gpus@.take(gpus@.len() as int) =~= gpus@);
    proof { lemma_best_in_range(vrams(gpus@), min); }
    best
}

/// The adapter shown in the system line: the one with the most video memory. On macOS there
/// are no discrete adapters; the Metal accelerator (if any) is shown instead.
pub fn best_gpu(platform: Platform, gpus: &Vec<GpuInfo>, metal: Option<GpuInfo>) -> (r: Option<GpuInfo>)
    ensures
        platform == Platform::MacArm || platform == Platform::MacIntel ==> r == metal,
        !(platform == Platform::MacArm || platform == Platform::MacIntel) ==> match best_index(
            vrams(gpus@),
            0,
        ) {
            Some(i) => r matches Some(g) && g.name@ == gpus@[i].name@ && g.vram_bytes
                == gpus@[i].vram_bytes,
            None => r is None,
        },
{
    if platform == Platform::MacArm || platform == Platform::MacIntel {
        return metal;
    }
    match pick(gpus, 0) {
        Some(i) => Some(gpus[i].copy()),
        None => None,
    }
}

/// The GPU the language model is offloaded to; `None` computes on the CPU.
/// Windows: the adapter with the most video memory among those with at least
/// `MIN_VRAM_BYTES`, provided Vulkan is there. Apple Silicon: Metal is always there and may
/// use `unified_vram` bytes of the unified memory. Elsewhere: none.
pub fn should_offload(
    platform: Platform,
    vulkan: bool,
    gpus: &Vec<GpuInfo>,
    unified_vram: u64,
) -> (r: Option<GpuInfo>)
    ensures
        platform == Platform::Windows ==> (if !vulkan {
            r is None
        } else {
            match best_index(vrams(gpus@), MIN_VRAM_BYTES) {
                Some(i) => r matches Some(g) && g.name@ == gpus@[i].name@ && g.vram_bytes
                    == gpus@[i].vram_bytes,
                None => r is None,
            }
        }),
        platform == Platform::MacArm ==> (r matches Some(g) && g.name@ == "Apple Silicon"@
            && g.vram_bytes == unified_vram),
        platform == Platform::MacIntel || platform == Platform::Linux ==> r is None,
{
    match platform {
        Platform::Windows => {
            if !vulkan {
                return None;
            }
            match pick(gpus, MIN_VRAM_BYTES) {
                Some(i) => Some(gpus[i].copy()),
                None => None,
            }
        },
        Platform::MacArm => Some(GpuInfo { name: "Apple Silicon".to_owned(), vram_bytes: unified_vram }),
        _ => None,
    }
}

} // verus!

verus! {

/// The chosen adapter has at least the minimum and the most video memory; none is chosen
/// only when no adapter reaches the minimum.
pub proof fn law_best_is_largest(v: Seq<u64>, min: u64)
    ensures
        match best_index(v, min) {
            Some(i) => 0 <= i < v.len() && v[i] >= min && forall|j: int| 0 <= j < v.len() && v[j] >= min ==> v[j] <= v[i],
            None => forall|j: int| 0 <= j < v.len() ==> v[j] < min,
        },
    decreases v.len(),
{
    if v.len() > 0 {
        let u = v.drop_last();
        law_best_is_largest(u, min);
        assert forall|j: int| 0 <= j < u.len() implies u[j] == v[j] by {}
    }
}

} // verus!
