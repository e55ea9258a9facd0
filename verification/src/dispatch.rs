//! Launches, spelled out: which kernel is launched, on which grid, with which
//! arguments, and what the device's messages say.

use vstd::prelude::*;

use crate::device::check_size;
use crate::device::is_kernel;
use crate::device::kernel_names;
use crate::device::module_of;
use crate::device::profile_key;
use crate::device::Module;
use crate::launch::conv_launch;
use crate::launch::over_elements;
use crate::launch::over_plane;
use crate::launch::tabled_call;
use crate::launch::ConvChoice;
use crate::launch::KernelCall;
use crate::shape::lemma_ceil;
use crate::shape::lemma_names_differ;
use crate::shape::Arg;
use crate::shape::ConvShape;
use crate::shape::Launch;
use crate::shape::Operands;
use crate::text::decimal;

verus! {

/// The Winograd launch of a convolution: blocks of 256 threads that cover 16 by 16
/// pixels and 16 channels each, and a chunk of channels whose 4608 bytes each fit into
/// shared memory: as many as asked for, but at least one and at most ten.
pub open spec fn winograd_launch(o: Operands, asked: int, call: KernelCall) -> bool {
    let (l, args) = (call.launch, call.args@);
    let chunk = if asked < 1 {
        1
    } else if asked > 10 {
        10
    } else {
        asked
    };
    &&& call.name@ == "lg_conv3x3_winograd"@
    &&& l.block == (256u32, 1u32, 1u32)
    &&& 16 * (l.grid.0 - 1) < o.w <= 16 * l.grid.0
    &&& 16 * (l.grid.1 - 1) < o.h <= 16 * l.grid.1
    &&& o.c_out <= u32::MAX ==> 16 * (l.grid.2 - 1) < o.c_out <= 16 * l.grid.2
    &&& l.shared == 4608 * chunk
    &&& args.len() == 12
    &&& args[0] == Arg::Ptr(o.src) && args[1] == Arg::Ptr(o.weights) && args[2] == Arg::Ptr(o.bias)
        && args[3] == Arg::Ptr(o.dst)
    &&& args[4] == Arg::I32(o.c_in as i32) && args[5] == Arg::I32(o.c_out as i32)
    &&& args[6] == Arg::I32(o.h as i32) && args[7] == Arg::I32(o.w as i32)
    &&& args[8] == Arg::I32(chunk as i32) && args[9] == Arg::I32(16)
    &&& args[10] == (if o.act {
        Arg::I32(2)
    } else {
        Arg::I32(0)
    })
    &&& args[11] == Arg::F32(0x3E4C_CCCD)
}

/// The arguments of the direct convolution.
pub open spec fn direct_operands(o: Operands, args: Seq<Arg>) -> bool {
    &&& args.len() == 9
    &&& args[0] == Arg::Ptr(o.src) && args[1] == Arg::Ptr(o.weights) && args[2] == Arg::Ptr(o.bias)
        && args[3] == Arg::Ptr(o.dst)
    &&& args[4] == Arg::I32(o.c_in as i32) && args[5] == Arg::I32(o.c_out as i32)
    &&& args[6] == Arg::I32(o.h as i32) && args[7] == Arg::I32(o.w as i32)
    &&& args[8] == (if o.act {
        Arg::I32(1)
    } else {
        Arg::I32(0)
    })
}

/// The direct launch of a convolution from the table: blocks of 32 by 8 threads, one
/// pixel each, and eight channels; a chunk of channels takes 1360 bytes each, and at most
/// 36 fit.
pub open spec fn direct_launch(o: Operands, asked: int, call: KernelCall) -> bool {
    let l = call.launch;
    let chunk = if asked < 1 {
        1
    } else if asked > 36 {
        36
    } else {
        asked
    };
    &&& call.name@ == "lg_conv3x3_res"@
    &&& l.block == (32u32, 8u32, 1u32)
    &&& 32 * (l.grid.0 - 1) < o.w <= 32 * l.grid.0
    &&& 8 * (l.grid.1 - 1) < o.h <= 8 * l.grid.1
    &&& o.c_out <= u32::MAX ==> 8 * (l.grid.2 - 1) < o.c_out <= 8 * l.grid.2
    &&& l.shared == 1360 * chunk
    &&& direct_operands(o, call.args@)
}

/// The launch of a convolution on an image that is too small for the table: the direct
/// kernel, all channels in one layer of blocks, and no shared memory.
pub open spec fn small_launch(o: Operands, call: KernelCall) -> bool {
    let l = call.launch;
    &&& call.name@ == "lg_conv3x3_res"@
    &&& l.block == (32u32, 8u32, 1u32)
    &&& l.grid.0 >= 1 && o.w <= 32 * l.grid.0 && (l.grid.0 > 1 ==> 32 * (l.grid.0 - 1) < o.w)
    &&& l.grid.1 >= 1 && o.h <= 8 * l.grid.1 && (l.grid.1 > 1 ==> 8 * (l.grid.1 - 1) < o.h)
    &&& l.grid.2 == 1
    &&& l.shared == 0
    &&& direct_operands(o, call.args@)
}

/// The launches of the table's rows.
pub(crate) proof fn lemma_tabled_launch(s: &ConvShape, o: Operands, asked: i32, call: KernelCall)
    requires
        tabled_call(s, o, asked, &call),
        o.w <= 0x7fff_ffff,
        o.h <= 0x7fff_ffff,
    ensures
        s.winograd_row() ==> winograd_launch(o, asked as int, call),
        s.direct_row() ==> direct_launch(o, asked as int, call),
{
    lemma_names_differ();
    let (w, h, c) = (o.w as int, o.h as int, (o.c_out as u32) as int);
    lemma_ceil(w, 16);
    lemma_ceil(w, 32);
    lemma_ceil(h, 16);
    lemma_ceil(h, 8);
    lemma_ceil(c, 16);
    lemma_ceil(c, 8);
    if s.winograd_row() {
        assert(s.chunk_bytes() == 4608);
        assert(49152int / 4608 == 10);
        assert(call.launch.shared == s.chunk(asked as int) * 4608);
    }
    if s.direct_row() {
        assert(s.tx * s.cx == 32 && (s.tx * s.cx + 2) * (s.ty + 2) == 340) by (nonlinear_arith)
            requires
                s.tx == 32,
                s.cx == 1,
                s.ty == 8,
        ;
        assert(s.chunk_bytes() == 1360);
        assert(49152int / 1360 == 36);
        assert(call.launch.shared == s.chunk(asked as int) * 1360);
    }
}

/// How a convolution is launched. The row is the one that was named, the Winograd row
/// where none was; a name that the table does not have is refused. An image under 16
/// columns or 8 rows is always convolved directly.
pub proof fn convolutions_are_launched_so(
    choice: &ConvChoice,
    o: &Operands,
    r: Result<KernelCall, String>,
)
    requires
        call_ensures(conv_launch, (choice, o), r),
        o.w <= 0x7fff_ffff,
        o.h <= 0x7fff_ffff,
    ensures
        ({
            let name = match choice.variant {
                Some(v) => v@,
                None => "wg"@,
            };
            let asked = match choice.c_chunk {
                Some(c) => c as int,
                None => 16,
            };
            if name == "wg"@ || name == "direct"@ {
                r matches Ok(call) && if o.w < 16 || o.h < 8 {
                    small_launch(*o, call)
                } else if name == "wg"@ {
                    winograd_launch(*o, asked, call)
                } else {
                    direct_launch(*o, asked, call)
                }
            } else {
                r matches Err(t) && t@ == "unknown LA_CONV `"@ + name
                    + "` (see ConvShape::by_name: \"wg\" or \"direct\")"@
            }
        }),
{
    reveal_strlit("wg");
    reveal_strlit("direct");
    assert("wg"@.len() != "direct"@.len());
    lemma_ceil(o.w as int, 32);
    lemma_ceil(o.h as int, 8);
    if choice.known() && o.w >= 16 && o.h >= 8 {
        let call = r->Ok_0;
        let s = choose|s: ConvShape|
            {
                &&& if choice.row_name() == "wg"@ {
                    s.winograd_row()
                } else {
                    s.direct_row()
                }
                &&& #[trigger] tabled_call(&s, *o, choice.chunk(), &call)
            };
        lemma_tabled_launch(&s, *o, choice.chunk(), call);
    }
}

/// Blocks of 256 threads, as many as `n` elements take and one at least.
pub open spec fn covers_elements(l: Launch, n: int) -> bool {
    &&& l.block == (256u32, 1u32, 1u32)
    &&& l.grid.1 == 1 && l.grid.2 == 1 && l.shared == 0
    &&& l.grid.0 >= 1
    &&& n <= 256 * l.grid.0
    &&& l.grid.0 > 1 ==> 256 * (l.grid.0 - 1) < n
}

/// Blocks of 32 by 8 threads, as many as a `w` by `h` plane takes and one at least.
pub open spec fn covers_plane(l: Launch, w: int, h: int) -> bool {
    &&& l.block == (32u32, 8u32, 1u32)
    &&& l.grid.2 == 1 && l.shared == 0
    &&& l.grid.0 >= 1 && l.grid.1 >= 1
    &&& w <= 32 * l.grid.0 && h <= 8 * l.grid.1
    &&& l.grid.0 > 1 ==> 32 * (l.grid.0 - 1) < w
    &&& l.grid.1 > 1 ==> 8 * (l.grid.1 - 1) < h
}

/// A launch over elements covers them, and no block lies wholly outside but the first.
pub proof fn elements_are_launched_so(n: usize, l: Launch)
    requires
        call_ensures(over_elements, (n,), l),
        n <= 256 * 0xffff_ffff,
    ensures
        covers_elements(l, n as int),
{
    lemma_ceil(n as int, 256);
}

/// A launch over a plane covers it, and no block lies wholly outside but the first.
pub proof fn planes_are_launched_so(w: usize, h: usize, l: Launch)
    requires
        call_ensures(over_plane, (w, h), l),
        w <= 0x7fff_ffff,
        h <= 0x7fff_ffff,
    ensures
        covers_plane(l, w as int, h as int),
{
    lemma_ceil(w as int, 32);
    lemma_ceil(h as int, 8);
}

/// The chunk that is launched is what was asked for as far as shared memory of 49152
/// bytes has room, and one at least: no larger chunk up to the asked-for one fits.
pub proof fn chunks_fill_shared_memory(s: &ConvShape, asked: i32, r: (i32, u32), k: int)
    requires
        call_ensures(ConvShape::chunk_and_smem, (s, asked), r),
        0 < s.smem_per_chunk * 4 * s.buffers <= 49152,
    ensures
        1 <= r.0,
        r.1 == r.0 * (s.smem_per_chunk * 4 * s.buffers),
        r.1 <= 49152,
        asked >= 1 ==> r.0 <= asked,
        asked < 1 ==> r.0 == 1,
        r.0 < k <= asked ==> k * (s.smem_per_chunk * 4 * s.buffers) > 49152,
{
    let n = s.smem_per_chunk * 4 * s.buffers;
    let cap = 49152int / n;
    vstd::arithmetic::div_mod::lemma_fundamental_div_mod(49152, n);
    if cap < k {
        assert(k * n >= n * cap + n) by (nonlinear_arith)
            requires
                k >= cap + 1,
                0 < n,
        ;
    }
}

/// The rows of the table, by name and by number.
pub proof fn rows_of_the_table(
    name: &str,
    named: Option<ConvShape>,
    number: usize,
    numbered: ConvShape,
)
    requires
        call_ensures(ConvShape::by_name, (name,), named),
        call_ensures(ConvShape::by_index, (number,), numbered),
    ensures
        named is Some <==> name@ == "wg"@ || name@ == "direct"@,
        name@ == "wg"@ ==> is_winograd_row(named->0),
        name@ == "direct"@ ==> is_direct_row(named->0),
        number == 0 ==> is_direct_row(numbered),
        number != 0 ==> is_winograd_row(numbered),
{
    reveal_strlit("wg");
    reveal_strlit("direct");
    assert("wg"@.len() != "direct"@.len());
    assert((32 * 1 + 2) * (8 + 2) == 340) by (nonlinear_arith);
}

/// The Winograd row's numbers.
pub open spec fn is_winograd_row(s: ConvShape) -> bool {
    &&& s.name@ == "lg_conv3x3_winograd"@
    &&& s.ty == 16 && s.cx == 4 && s.tx == 16 && s.buffers == 1
    &&& s.smem_per_chunk == 1152 && s.ocb == 16 && s.oc_per_cta == 16
}

/// The direct row's numbers.
pub open spec fn is_direct_row(s: ConvShape) -> bool {
    &&& s.name@ == "lg_conv3x3_res"@
    &&& s.ty == 8 && s.cx == 1 && s.tx == 32 && s.buffers == 1
    &&& s.smem_per_chunk == 340 && s.ocb == 8 && s.oc_per_cta == 8
}

/// The kernels that are resolved at startup are these eleven, in any order.
pub proof fn kernels_are_these(r: Vec<&'static str>, name: Seq<char>)
    requires
        call_ensures(kernel_names, (), r),
    ensures
        (exists|i: int| 0 <= i < r@.len() && (#[trigger] r@[i])@ == name) <==> {
            ||| name == "lg_conv3x3_res"@
            ||| name == "lg_conv3x3_winograd"@
            ||| name == "lg_f32_gemm_tiled"@
            ||| name == "lg_add"@
            ||| name == "lg_copy"@
            ||| name == "lg_scale"@
            ||| name == "lg_noop"@
            ||| name == "lg_add_scaled"@
            ||| name == "lg_lrelu"@
            ||| name == "lg_upsample2x_nearest"@
            ||| name == "lg_pixel_unshuffle2"@
        },
{
    if exists|i: int| 0 <= i < r@.len() && (#[trigger] r@[i])@ == name {
        let i = choose|i: int| 0 <= i < r@.len() && (#[trigger] r@[i])@ == name;
        assert(is_kernel(r@[i]@));
    } else {
        assert(!is_kernel(name));
    }
}

/// A kernel comes from the project's module if that has it, else from the toolkit's.
pub proof fn modules_are_asked_in_order(
    name: &str,
    in_project: bool,
    in_toolkit: bool,
    r: Result<Module, String>,
)
    requires
        call_ensures(module_of, (name, in_project, in_toolkit), r),
    ensures
        in_project ==> r == Ok::<Module, String>(Module::Project),
        !in_project && in_toolkit ==> r == Ok::<Module, String>(Module::Toolkit),
        !in_project && !in_toolkit ==> (r matches Err(t) && t@ == "kernel "@ + name@
            + " is in neither module"@),
{
}

/// A transfer is refused unless it has the length of the buffer, and the message names
/// both lengths.
pub proof fn transfers_have_the_buffers_length(
    verb: &str,
    got: usize,
    len: usize,
    r: Result<(), String>,
)
    requires
        call_ensures(check_size, (verb, got, len), r),
    ensures
        r is Ok <==> got == len,
        r matches Err(t) ==> t@ == verb@ + " size "@ + decimal(got as nat) + " != buffer "@
            + decimal(len as nat),
{
}

/// The text under which a launch is timed has the kernel's name, the grid and the block.
pub proof fn launches_are_timed_under(name: &str, l: &Launch, r: String)
    requires
        call_ensures(profile_key, (name, l), r),
    ensures
        r@ == name@ + " g"@ + decimal(l.grid.0 as nat) + "x"@ + decimal(l.grid.1 as nat) + "x"@
            + decimal(l.grid.2 as nat) + " b"@ + decimal(l.block.0 as nat) + "x"@ + decimal(
            l.block.1 as nat,
        ),
{
}

} // verus!
