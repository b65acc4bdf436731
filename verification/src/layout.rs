//! Where a shader finds its source, its buffers and its elements.
use vstd::prelude::*;
use vstd::string::StringExecFns;
use crate::batch::Variant;
use crate::number::div_ceil;
use crate::text::{chars_of, same_chars};

verus! {

/// How many elements one workgroup handles.
pub const WORKGROUP_SIZE: u32 = 256;

/// The binding of the telemetry counters, in every module.
pub const SAT_BINDING: u32 = 3;

/// The bytes of the telemetry counters: a word of saturations and a word of faults.
pub const SAT_BYTES: u64 = 8;

/// The type of a column of a trace.
#[derive(Clone, Copy, Debug, PartialEq, Eq, Structural)]
pub enum Kind {
    Q16,
    Q32,
    Q48,
    Mask,
    Sat,
}

/// The two shader modules, by the elements that they work on.
#[derive(Clone, Copy, Debug, PartialEq, Eq, Structural)]
pub enum Module {
    Batch16,
    Batch48,
}

impl Kind {
    /// How a trace writes the type.
    pub open spec fn spec_name(self) -> Seq<char> {
        match self {
            Kind::Q16 => "q16"@,
            Kind::Q32 => "q32"@,
            Kind::Q48 => "q48"@,
            Kind::Mask => "mask"@,
            Kind::Sat => "sat"@,
        }
    }

    /// How many 32-bit words a value occupies in a storage buffer.
    pub open spec fn spec_words(self) -> nat {
        match self {
            Kind::Q16 | Kind::Mask => 1,
            Kind::Q32 | Kind::Q48 => 2,
            Kind::Sat => 0,
        }
    }

    /// The type of a name.
    pub fn parse(name: &Vec<char>) -> (kind: Option<Kind>)
        ensures
            match kind {
                Some(kind) => name@ == kind.spec_name(),
                None => forall|kind: Kind| name@ != #[trigger] kind.spec_name(),
            },
    {
        if same_chars(name, &chars_of("q16")) {
            Some(Kind::Q16)
        } else if same_chars(name, &chars_of("q32")) {
            Some(Kind::Q32)
        } else if same_chars(name, &chars_of("q48")) {
            Some(Kind::Q48)
        } else if same_chars(name, &chars_of("mask")) {
            Some(Kind::Mask)
        } else if same_chars(name, &chars_of("sat")) {
            Some(Kind::Sat)
        } else {
            None
        }
    }

    /// How many 32-bit words a value occupies in a storage buffer.
    pub fn words(self) -> (n: usize)
        ensures
            n == self.spec_words(),
    {
        match self {
            Kind::Q16 | Kind::Mask => 1,
            Kind::Q32 | Kind::Q48 => 2,
            Kind::Sat => 0,
        }
    }
}

/// Two types with one name are one type.
pub proof fn lemma_kind_names_are_distinct(p: Kind, q: Kind)
    requires
        p.spec_name() == q.spec_name(),
    ensures
        p == q,
{
    reveal_strlit("q16");
    reveal_strlit("q32");
    reveal_strlit("q48");
    reveal_strlit("mask");
    reveal_strlit("sat");
    let s = p.spec_name();
    let t = q.spec_name();
    assert("q16"@[1] == '1' && "q32"@[1] == '3' && "q48"@[1] == '4');
    assert("mask"@[0] == 'm' && "sat"@[0] == 's' && "q16"@[0] == 'q');
    assert(s[0] == t[0] && s[1] == t[1]);
}

/// The bindings of the inputs of one type, in the order in which a trace lists them.
pub open spec fn input_slots(module: Module, kind: Kind) -> Seq<u32> {
    match (module, kind) {
        (Module::Batch16, Kind::Q16) => seq![1u32, 2u32],
        (Module::Batch48, Kind::Q48) => seq![1u32, 2u32],
        (Module::Batch48, Kind::Q16) => seq![5u32, 6u32],
        (Module::Batch48, Kind::Q32) => seq![8u32],
        _ => Seq::empty(),
    }
}

/// The binding of the `nth` input of a type, if the module declares one.
pub fn input_binding(module: Module, kind: Kind, nth: usize) -> (binding: Option<u32>)
    ensures
        match binding {
            Some(slot) => nth < input_slots(module, kind).len() && slot == input_slots(
                module,
                kind,
            )[nth as int],
            None => nth >= input_slots(module, kind).len(),
        },
{
    match (module, kind) {
        (Module::Batch16, Kind::Q16) | (Module::Batch48, Kind::Q48) => {
            if nth == 0 {
                Some(1)
            } else if nth == 1 {
                Some(2)
            } else {
                None
            }
        },
        (Module::Batch48, Kind::Q16) => {
            if nth == 0 {
                Some(5)
            } else if nth == 1 {
                Some(6)
            } else {
                None
            }
        },
        (Module::Batch48, Kind::Q32) => {
            if nth == 0 {
                Some(8)
            } else {
                None
            }
        },
        _ => None,
    }
}

/// The binding of the destination for results of a type.
pub open spec fn output_slot(module: Module, kind: Kind) -> Option<u32> {
    match (module, kind) {
        (Module::Batch16, Kind::Q16) => Some(0u32),
        (Module::Batch16, Kind::Mask) => Some(0u32),
        (Module::Batch48, Kind::Q48) => Some(0u32),
        (Module::Batch48, Kind::Q16) => Some(4u32),
        (Module::Batch48, Kind::Mask) => Some(4u32),
        (Module::Batch48, Kind::Q32) => Some(7u32),
        _ => None,
    }
}

/// The binding of the destination for results of a type, if the module declares one.
pub fn output_binding(module: Module, kind: Kind) -> (binding: Option<u32>)
    ensures
        binding == output_slot(module, kind),
{
    match (module, kind) {
        (Module::Batch16, Kind::Q16) | (Module::Batch16, Kind::Mask) => Some(0),
        (Module::Batch48, Kind::Q48) => Some(0),
        (Module::Batch48, Kind::Q16) | (Module::Batch48, Kind::Mask) => Some(4),
        (Module::Batch48, Kind::Q32) => Some(7),
        _ => None,
    }
}

/// No two buffers of a module share a binding: inputs, destinations and telemetry are disjoint.
pub proof fn bindings_are_disjoint(
    module: Module,
    p: Kind,
    i: int,
    q: Kind,
    j: int,
    out: Kind,
)
    requires
        0 <= i < input_slots(module, p).len(),
        0 <= j < input_slots(module, q).len(),
    ensures
        input_slots(module, p)[i] == input_slots(module, q)[j] ==> p == q && i == j,
        input_slots(module, p)[i] != SAT_BINDING,
        output_slot(module, out) != Some(SAT_BINDING),
        output_slot(module, out) != Some(input_slots(module, p)[i]),
{
}

/// The files whose concatenation is the source of a module: what both variants share, the
/// arithmetic of the variant, and the entry points.
pub open spec fn spec_shader_files(module: Module, variant: Variant) -> Seq<Seq<char>> {
    seq![
        "fixed_core.wgsl"@,
        match variant {
            Variant::Portable => "fixed_portable.wgsl"@,
            Variant::Native => "fixed_int64.wgsl"@,
        },
        match module {
            Module::Batch16 => "batch16.wgsl"@,
            Module::Batch48 => "batch48.wgsl"@,
        },
    ]
}

/// The files whose concatenation is the source of a module.
pub fn shader_files(module: Module, variant: Variant) -> (files: [&'static str; 3])
    ensures
        files@.map_values(|file: &'static str| file@) == spec_shader_files(module, variant),
{
    let arithmetic: &'static str = match variant {
        Variant::Portable => "fixed_portable.wgsl",
        Variant::Native => "fixed_int64.wgsl",
    };
    let batch: &'static str = match module {
        Module::Batch16 => "batch16.wgsl",
        Module::Batch48 => "batch48.wgsl",
    };
    let files: [&'static str; 3] = ["fixed_core.wgsl", arithmetic, batch];
    assert(files@.map_values(|file: &'static str| file@) =~= spec_shader_files(module, variant));
    files
}

/// The source of a module, out of its three parts: one line break between parts.
pub fn source(core: &str, arithmetic: &str, batch: &str) -> (text: String)
    ensures
        text@ == core@ + seq!['\n'] + arithmetic@ + seq!['\n'] + batch@,
{
    proof {
        reveal_strlit("\n");
        assert("\n"@ =~= seq!['\n']);
    }
    let mut text: String = core.to_owned();
    text.append("\n");
    text.append(arithmetic);
    text.append("\n");
    text.append(batch);
    text
}

/// How many workgroups a dispatch over `elements` elements needs.
pub fn workgroups(elements: u32) -> (groups: u32)
    ensures
        groups == (elements + 255) / 256,
        groups * 256 >= elements,
        groups > 0 ==> (groups - 1) * 256 < elements,
{
    div_ceil(elements, WORKGROUP_SIZE)
}

/// The workgroups of a dispatch cover every element, and no workgroup is idle.
pub proof fn workgroups_cover(elements: u32)
    ensures
        (elements + 255) / 256 * WORKGROUP_SIZE >= elements,
        elements > 0 ==> ((elements + 255) / 256 - 1) * WORKGROUP_SIZE < elements,
{
}

} // verus!
