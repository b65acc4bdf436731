//! Graphics backends and adapters: which of them a program may use, and how it lists them.
use vstd::prelude::*;
use vstd::string::StringExecFns;
use crate::text::same_str;

verus! {

/// A graphics API, as `wgpu::Backend` enumerates them.
#[derive(Clone, Copy, Debug, PartialEq, Eq, Structural)]
pub enum BackendKind {
    Noop,
    Vulkan,
    Metal,
    Dx12,
    Gl,
    BrowserWebGpu,
}

impl BackendKind {
    /// The bit that stands for the API in a set of APIs.
    pub open spec fn bit(self) -> u32 {
        match self {
            BackendKind::Noop => 1,
            BackendKind::Vulkan => 2,
            BackendKind::Metal => 4,
            BackendKind::Dx12 => 8,
            BackendKind::Gl => 16,
            BackendKind::BrowserWebGpu => 32,
        }
    }

    /// The name under which an adapter of the API is listed.
    pub open spec fn spec_name(self) -> Seq<char> {
        match self {
            BackendKind::Noop => "Noop"@,
            BackendKind::Vulkan => "Vulkan"@,
            BackendKind::Metal => "Metal"@,
            BackendKind::Dx12 => "Dx12"@,
            BackendKind::Gl => "Gl"@,
            BackendKind::BrowserWebGpu => "BrowserWebGpu"@,
        }
    }

    /// The name under which an adapter of the API is listed.
    pub fn name(self) -> (name: &'static str)
        ensures
            name@ == self.spec_name(),
    {
        match self {
            BackendKind::Noop => "Noop",
            BackendKind::Vulkan => "Vulkan",
            BackendKind::Metal => "Metal",
            BackendKind::Dx12 => "Dx12",
            BackendKind::Gl => "Gl",
            BackendKind::BrowserWebGpu => "BrowserWebGpu",
        }
    }
}

/// Calls `<wgpu::Backends as From<wgpu::Backend>>::from` and reads the bits of the result.
///
/// The contract claims that the set of one API holds one bit: bit number `n` for the variant
/// with discriminant `n`.
#[verifier::external_body]
fn backends_from(kind: BackendKind) -> (bits: u32)
    ensures
        bits == kind.bit(),
{
    wgpu::Backends::from(
        match kind {
            BackendKind::Noop => wgpu::Backend::Noop,
            BackendKind::Vulkan => wgpu::Backend::Vulkan,
            BackendKind::Metal => wgpu::Backend::Metal,
            BackendKind::Dx12 => wgpu::Backend::Dx12,
            BackendKind::Gl => wgpu::Backend::Gl,
            BackendKind::BrowserWebGpu => wgpu::Backend::BrowserWebGpu,
        },
    ).bits()
}

/// Calls `wgpu::Backends::intersects` on two sets of APIs given by their bits.
///
/// The contract claims that two sets intersect when they share a bit.
#[verifier::external_body]
fn backends_intersect(a: u32, b: u32) -> (shared: bool)
    ensures
        shared == (a & b != 0),
{
    wgpu::Backends::from_bits_retain(a).intersects(wgpu::Backends::from_bits_retain(b))
}

/// Calls `wgpu::Features::contains` on a set of features and `wgpu::Features::SHADER_INT64`.
///
/// The set is given by its two words, those of `wgpu::FeaturesWGPU` and of
/// `wgpu::FeaturesWebGPU`. The contract claims that 64-bit shader integers are bit 37 of the
/// first word.
#[verifier::external_body]
fn features_contain_int64(features: [u64; 2]) -> (contained: bool)
    ensures
        contained == (features[0] & 0x20_0000_0000 != 0),
{
    wgpu::Features::from_internal_flags(
        wgpu::FeaturesWGPU::from_bits_retain(features[0]),
        wgpu::FeaturesWebGPU::from_bits_retain(features[1]),
    ).contains(wgpu::Features::SHADER_INT64)
}

/// A set of features offers 64-bit integers to shaders.
pub open spec fn offers_int64(features: [u64; 2]) -> bool {
    features[0] & 0x20_0000_0000 != 0
}

/// Whether a set of features offers 64-bit integers to shaders.
pub fn has_int64(features: [u64; 2]) -> (has: bool)
    ensures
        has == offers_int64(features),
{
    features_contain_int64(features)
}

/// Whether an adapter with these features can serve a variant: only the native one needs 64-bit
/// integers.
pub fn can_serve(native: bool, features: [u64; 2]) -> (can: bool)
    ensures
        can == (native ==> offers_int64(features)),
{
    !native || features_contain_int64(features)
}

/// The APIs that a benchmark can be told to run on, as a set.
pub open spec fn selected(name: Seq<char>) -> Option<u32> {
    if name == "vulkan"@ {
        Some(BackendKind::Vulkan.bit())
    } else if name == "dx12"@ {
        Some(BackendKind::Dx12.bit())
    } else {
        None
    }
}

/// The APIs that a benchmark runs on, by the name of the one that was asked for.
pub fn backend(name: &str) -> (bits: Option<u32>)
    ensures
        bits == selected(name@),
{
    if same_str(name, "vulkan") {
        Some(backends_from(BackendKind::Vulkan))
    } else if same_str(name, "dx12") {
        Some(backends_from(BackendKind::Dx12))
    } else {
        None
    }
}

/// The name of the API that a benchmark was asked for. Without a request it is Vulkan.
pub fn backend_name(requested: Option<&str>) -> (name: String)
    ensures
        name@ == match requested {
            Some(request) => request@,
            None => "vulkan"@,
        },
{
    match requested {
        Some(request) => request.to_owned(),
        None => "vulkan".to_owned(),
    }
}

/// What is known of an adapter.
pub struct AdapterEntry {
    pub backend: BackendKind,
    pub name: String,
    /// The words of its features.
    pub features: [u64; 2],
}

/// The line that lists an adapter.
pub open spec fn adapter_line(entry: AdapterEntry) -> Seq<char> {
    "  "@ + entry.backend.spec_name() + ": "@ + entry.name@ + " (SHADER_INT64: "@ + (
    if offers_int64(entry.features) {
        "true"@
    } else {
        "false"@
    }) + ")"@
}

/// Writes the line that lists an adapter.
fn write_adapter_line(entry: &AdapterEntry) -> (line: String)
    ensures
        line@ == adapter_line(*entry),
{
    let mut line: String = "  ".to_owned();
    line.append(entry.backend.name());
    line.append(": ");
    line.append(entry.name.as_str());
    line.append(" (SHADER_INT64: ");
    if features_contain_int64(entry.features) {
        line.append("true");
    } else {
        line.append("false");
    }
    line.append(")");
    line
}

/// A list of adapters, and whether one of them is of use.
pub struct Listing {
    pub lines: Vec<String>,
    /// Whether an adapter belongs to the API that was asked for. There is no answer when there
    /// are adapters but the name that was asked for is that of no API.
    pub found: Option<bool>,
}

/// The lines of a list of adapters: a remark when there is none, a line for each, a blank line.
pub open spec fn listing_lines(adapters: Seq<AdapterEntry>) -> Seq<Seq<char>> {
    let remark = if adapters.len() == 0 {
        seq!["no adapter on any backend: install a GPU driver"@]
    } else {
        Seq::empty()
    };
    (remark + adapters.map_values(|entry: AdapterEntry| adapter_line(entry))).push(""@)
}

/// An adapter of one of the selected APIs is among `adapters`.
pub open spec fn any_selected(adapters: Seq<AdapterEntry>, selected: u32) -> bool {
    exists|i: int| 0 <= i < adapters.len() && (#[trigger] adapters[i]).backend.bit() & selected != 0
}

/// The contents of a list of strings.
pub open spec fn texts(list: Seq<String>) -> Seq<Seq<char>> {
    list.map_values(|s: String| s@)
}

/// Lists the adapters of a machine, and tells whether one belongs to the API of the given name.
///
/// The name is looked up with the first adapter. When it is that of no API, the list ends there.
pub fn list_adapters(adapters: &Vec<AdapterEntry>, name: &str) -> (listing: Listing)
    ensures
        match selected(name@) {
            Some(bits) => {
                &&& texts(listing.lines@) == listing_lines(adapters@)
                &&& listing.found == Some(any_selected(adapters@, bits))
            },
            None => if adapters@.len() == 0 {
                &&& texts(listing.lines@) == listing_lines(adapters@)
                &&& listing.found == Some(false)
            } else {
                &&& texts(listing.lines@) == seq![adapter_line(adapters@[0])]
                &&& listing.found is None
            },
        },
{
    let ghost listed = adapters@.map_values(|entry: AdapterEntry| adapter_line(entry));
    let ghost remark: Seq<Seq<char>> = if adapters@.len() == 0 {
        seq!["no adapter on any backend: install a GPU driver"@]
    } else {
        Seq::empty()
    };
    let mut lines: Vec<String> = Vec::new();
    if adapters.len() == 0 {
        lines.push("no adapter on any backend: install a GPU driver".to_owned());
    }
    assert(texts(lines@) =~= remark + listed.take(0));
    let mut found: bool = false;
    let mut i: usize = 0;
    while i < adapters.len()
        invariant
            i <= adapters@.len(),
            i > 0 ==> selected(name@) is Some,
            adapters@.len() > 0 ==> remark.len() == 0,
            listed == adapters@.map_values(|entry: AdapterEntry| adapter_line(entry)),
            texts(lines@) =~= remark + listed.take(i as int),
            found == exists|k: int|
                0 <= k < i && (#[trigger] adapters@[k]).backend.bit() & selected(name@)->0 != 0,
        decreases adapters@.len() - i,
    {
        let entry: &AdapterEntry = &adapters[i];
        let ghost before = texts(lines@);
        let line: String = write_adapter_line(entry);
        let ghost text = line@;
        lines.push(line);
        assert(texts(lines@) =~= before.push(text));
        assert(listed.take(i + 1) =~= listed.take(i as int).push(listed[i as int]));
        match backend(name) {
            Some(bits) => {
                if backends_intersect(backends_from(entry.backend), bits) {
                    assert(adapters@[i as int].backend.bit() & bits != 0);
                    found = true;
                }
            },
            None => {
                assert(texts(lines@) =~= seq![adapter_line(adapters@[0])]);
                return Listing { lines, found: None };
            },
        }
        i = i + 1;
    }
    assert(listed.take(adapters@.len() as int) =~= listed);
    let ghost before = texts(lines@);
    lines.push("".to_owned());
    assert(texts(lines@) =~= before.push(""@));
    Listing { lines, found: Some(found) }
}

/// The entry points that a benchmark measures when none is asked for.
pub open spec fn default_entries() -> Seq<Seq<char>> {
    seq!["div16"@, "mul16"@, "sqrt16"@, "add48"@, "to16_48"@]
}

/// The entry points to measure: none without an adapter, the one that was asked for, or the
/// default ones.
pub fn entries_to_measure(found: bool, requested: Option<&str>) -> (entries: Vec<String>)
    ensures
        texts(entries@) == if !found {
            Seq::empty()
        } else {
            match requested {
                Some(entry) => seq![entry@],
                None => default_entries(),
            }
        },
{
    let mut entries: Vec<String> = Vec::new();
    if found {
        match requested {
            Some(entry) => {
                entries.push(entry.to_owned());
                assert(texts(entries@) =~= seq![entry@]);
            },
            None => {
                entries.push("div16".to_owned());
                entries.push("mul16".to_owned());
                entries.push("sqrt16".to_owned());
                entries.push("add48".to_owned());
                entries.push("to16_48".to_owned());
                assert(texts(entries@) =~= default_entries());
            },
        }
    } else {
        assert(texts(entries@) =~= Seq::empty());
    }
    entries
}

/// The sets of two APIs share a bit exactly when the APIs are the same.
proof fn lemma_bits_are_distinct(p: BackendKind, q: BackendKind)
    ensures
        (p.bit() & q.bit() != 0) == (p == q),
{
    let a = p.bit();
    let b = q.bit();
    assert((a & b != 0) == (a == b)) by (bit_vector)
        requires
            a == 1 || a == 2 || a == 4 || a == 8 || a == 16 || a == 32,
            b == 1 || b == 2 || b == 4 || b == 8 || b == 16 || b == 32,
    ;
}

/// Selecting one API finds exactly the adapters of that API.
pub proof fn selecting_an_api_finds_its_adapters(adapters: Seq<AdapterEntry>, kind: BackendKind)
    ensures
        any_selected(adapters, kind.bit()) == exists|i: int|
            0 <= i < adapters.len() && (#[trigger] adapters[i]).backend == kind,
{
    assert forall|i: int| 0 <= i < adapters.len() implies ((
    #[trigger] adapters[i]).backend.bit() & kind.bit() != 0) == (adapters[i].backend == kind) by {
        lemma_bits_are_distinct(adapters[i].backend, kind);
    }
}

} // verus!
