//! The device as the graph sees it: its kernels by name, its buffers by length.

use vstd::prelude::*;

use crate::bench::GemmShape;
use crate::launch::lowered;
use crate::launch::tabled_call;
use crate::launch::Addresses;
use crate::launch::ConvChoice;
use crate::launch::KernelCall;
use crate::layout::Layout;
use crate::program::DeviceOp;
use crate::program::Extent;
use crate::shape::ConvShape;
use crate::shape::Launch;
use crate::shape::Operands;
use crate::shape::DIRECT;
use crate::shape::GEMM;
use crate::shape::WINOGRAD;
use crate::text::decimal;
use crate::text::push_decimal;

verus! {

/// Device information reported at startup.
#[derive(Debug)]
pub struct DeviceInfo {
    pub name: String,
    pub cc_major: i32,
    pub cc_minor: i32,
    pub sm_count: i32,
    pub smem_per_block: i32,
    pub free_vram: usize,
}

impl Clone for DeviceInfo {
    fn clone(&self) -> (r: Self)
        ensures
            r == *self,
    {
        DeviceInfo {
            name: self.name.clone(),
            cc_major: self.cc_major,
            cc_minor: self.cc_minor,
            sm_count: self.sm_count,
            smem_per_block: self.smem_per_block,
            free_vram: self.free_vram,
        }
    }
}

/// The two modules that kernels come from.
#[derive(Clone, Copy, PartialEq, Eq, Structural, Debug)]
pub enum Module {
    /// The project's own kernels.
    Project,
    /// The toolkit's kernels.
    Toolkit,
}

/// Is this the name of a kernel that the engine launches?
pub open spec fn is_kernel(name: Seq<char>) -> bool {
    ||| name == DIRECT@
    ||| name == "lg_add"@
    ||| name == "lg_copy"@
    ||| name == "lg_scale"@
    ||| name == "lg_noop"@
    ||| name == "lg_add_scaled"@
    ||| name == "lg_lrelu"@
    ||| name == "lg_upsample2x_nearest"@
    ||| name == "lg_pixel_unshuffle2"@
    ||| name == WINOGRAD@
    ||| name == GEMM@
}

/// Every kernel that the engine launches. They are resolved at startup, so that a
/// renamed or mis-filed kernel fails there and not in the middle of a pass.
pub fn kernel_names() -> (r: Vec<&'static str>)
    ensures
        forall|i: int| 0 <= i < r@.len() ==> is_kernel((#[trigger] r@[i])@),
        forall|name: Seq<char>|
            #[trigger] is_kernel(name) ==> exists|i: int|
                0 <= i < r@.len() && (#[trigger] r@[i])@ == name,
{
    let r = vec![
        DIRECT,
        "lg_add",
        "lg_copy",
        "lg_scale",
        "lg_noop",
        "lg_add_scaled",
        "lg_lrelu",
        "lg_upsample2x_nearest",
        "lg_pixel_unshuffle2",
        WINOGRAD,
        GEMM,
    ];
    assert(r@[0]@ == DIRECT@);
    assert(r@[1]@ == "lg_add"@);
    assert(r@[2]@ == "lg_copy"@);
    assert(r@[3]@ == "lg_scale"@);
    assert(r@[4]@ == "lg_noop"@);
    assert(r@[5]@ == "lg_add_scaled"@);
    assert(r@[6]@ == "lg_lrelu"@);
    assert(r@[7]@ == "lg_upsample2x_nearest"@);
    assert(r@[8]@ == "lg_pixel_unshuffle2"@);
    assert(r@[9]@ == WINOGRAD@);
    assert(r@[10]@ == GEMM@);
    r
}

/// Every kernel that a pass launches was resolved at startup.
pub proof fn launched_kernels_are_resolved(
    e: &Extent,
    a: &Addresses,
    lay: &Layout,
    choice: &ConvChoice,
    op: DeviceOp,
    call: &KernelCall,
)
    requires
        lowered(e, a, lay, choice, op, call),
    ensures
        is_kernel(call.name@),
{
}

/// Every convolution that is launched from the table, by a pass, a comparison or a
/// measurement, was resolved at startup.
pub proof fn tabled_kernels_are_resolved(
    s: &ConvShape,
    o: Operands,
    asked: i32,
    call: &KernelCall,
)
    requires
        s.tabled(),
        tabled_call(s, o, asked, call),
    ensures
        is_kernel(call.name@),
{
}

/// The matrix product that a measurement launches was resolved at startup.
pub proof fn measured_kernels_are_resolved(
    s: &GemmShape,
    w: u64,
    x: u64,
    y: u64,
    call: &KernelCall,
)
    requires
        s.launched(w, x, y, call),
    ensures
        is_kernel(call.name@),
{
}

/// The message for a kernel that neither module has.
pub open spec fn no_kernel(name: Seq<char>) -> Seq<char> {
    "kernel "@ + name + " is in neither module"@
}

/// Which module a kernel is launched from: the project's is asked first.
pub fn module_of(name: &str, in_project: bool, in_toolkit: bool) -> (r: Result<Module, String>)
    ensures
        match r {
            Ok(Module::Project) => in_project,
            Ok(Module::Toolkit) => !in_project && in_toolkit,
            Err(t) => !in_project && !in_toolkit && t@ == no_kernel(name@),
        },
{
    if in_project {
        return Ok(Module::Project);
    }
    if in_toolkit {
        return Ok(Module::Toolkit);
    }
    let mut t = "kernel ".to_owned();
    t.append(name);
    t.append(" is in neither module");
    Err(t)
}

/// The message for a transfer of `got` values to or from a buffer of `len`.
pub open spec fn size_text(verb: Seq<char>, got: nat, len: nat) -> Seq<char> {
    verb + " size "@ + decimal(got) + " != buffer "@ + decimal(len)
}

/// Checks a transfer: it has to have the length of the buffer.
pub fn check_size(verb: &str, got: usize, len: usize) -> (r: Result<(), String>)
    ensures
        match r {
            Ok(()) => got == len,
            Err(t) => got != len && t@ == size_text(verb@, got as nat, len as nat),
        },
{
    if got == len {
        return Ok(());
    }
    let mut t = verb.to_owned();
    t.append(" size ");
    push_decimal(&mut t, got as u64);
    t.append(" != buffer ");
    push_decimal(&mut t, len as u64);
    Err(t)
}

/// The text under which the time of a launch is kept: one kernel serves very
/// different geometries, so the grid and the block are part of it.
pub open spec fn profile_text(name: Seq<char>, l: Launch) -> Seq<char> {
    name + " g"@ + decimal(l.grid.0 as nat) + "x"@ + decimal(l.grid.1 as nat) + "x"@ + decimal(
        l.grid.2 as nat,
    ) + " b"@ + decimal(l.block.0 as nat) + "x"@ + decimal(l.block.1 as nat)
}

/// The text under which the time of a launch is kept.
pub fn profile_key(name: &str, l: &Launch) -> (r: String)
    ensures
        r@ == profile_text(name@, *l),
{
    let mut t = name.to_owned();
    t.append(" g");
    push_decimal(&mut t, l.grid.0 as u64);
    t.append("x");
    push_decimal(&mut t, l.grid.1 as u64);
    t.append("x");
    push_decimal(&mut t, l.grid.2 as u64);
    t.append(" b");
    push_decimal(&mut t, l.block.0 as u64);
    t.append("x");
    push_decimal(&mut t, l.block.1 as u64);
    t
}

} // verus!
