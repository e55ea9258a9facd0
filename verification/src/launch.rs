//! Kernel launches: each operation of the device program, as the call of a
//! kernel.

use vstd::prelude::*;

use crate::layout::launch_finds_its_weights;
use crate::layout::located;
use crate::layout::ConvLoc;
use crate::layout::Layout;
use crate::model::Model;
use crate::program::Buf;
use crate::program::DeviceOp;
use crate::program::Extent;
use crate::shape::ceil_div;
use crate::shape::ceil_of;
use crate::shape::direct_args;
use crate::shape::direct_arguments;
use crate::shape::lemma_ceil;
use crate::shape::tabled_chunk_fits;
use crate::shape::Arg;
use crate::shape::ConvShape;
use crate::shape::Launch;
use crate::shape::Operands;
use crate::shape::DIRECT;
use crate::shape::FIFTH_BITS;
use crate::shape::ONE_BITS;
use crate::shape::SMEM_CAP;

verus! {

/// The call of a kernel.
pub struct KernelCall {
    pub name: &'static str,
    pub launch: Launch,
    pub args: Vec<Arg>,
}

impl KernelCall {
    /// This is the call of kernel `name` with this launch and these arguments.
    pub open spec fn is(&self, name: Seq<char>, launch: Launch, args: Seq<Arg>) -> bool {
        self.name@ == name && self.launch == launch && self.args@ == args
    }
}

/// The addresses of the device's buffers, and of the weight buffer.
#[derive(Clone, Copy)]
pub struct Addresses {
    pub stage: u64,
    pub feat: u64,
    pub ws: u64,
    pub cur: u64,
    pub x5: u64,
    pub rdb: u64,
    pub save: u64,
    pub skip: u64,
    pub body: u64,
    pub up1: u64,
    pub up2: u64,
    pub hr: u64,
    pub out: u64,
    pub weights: u64,
}

impl Addresses {
    /// The address of a buffer.
    pub open spec fn of(&self, b: Buf) -> u64 {
        match b {
            Buf::Stage => self.stage,
            Buf::Feat => self.feat,
            Buf::Ws => self.ws,
            Buf::Cur => self.cur,
            Buf::X5 => self.x5,
            Buf::Rdb => self.rdb,
            Buf::Save => self.save,
            Buf::Skip => self.skip,
            Buf::Body => self.body,
            Buf::Up1 => self.up1,
            Buf::Up2 => self.up2,
            Buf::Hr => self.hr,
            Buf::Out => self.out,
        }
    }

    /// The address of a buffer.
    pub fn get(&self, b: Buf) -> (r: u64)
        ensures
            r == self.of(b),
    {
        match b {
            Buf::Stage => self.stage,
            Buf::Feat => self.feat,
            Buf::Ws => self.ws,
            Buf::Cur => self.cur,
            Buf::X5 => self.x5,
            Buf::Rdb => self.rdb,
            Buf::Save => self.save,
            Buf::Skip => self.skip,
            Buf::Body => self.body,
            Buf::Up1 => self.up1,
            Buf::Up2 => self.up2,
            Buf::Hr => self.hr,
            Buf::Out => self.out,
        }
    }

    /// The buffer, with four bytes to a value, lies in the address space.
    pub open spec fn lies(&self, e: &Extent, b: Buf) -> bool {
        self.of(b) + 4 * e.len(b) <= u64::MAX && 4 * e.len(b) <= usize::MAX
    }

    /// Every buffer lies in the address space.
    pub open spec fn hold(&self, e: &Extent, floats: usize) -> bool {
        &&& forall|b: Buf| #[trigger] self.lies(e, b)
        &&& self.weights + 4 * floats <= u64::MAX
        &&& 4 * floats <= usize::MAX
    }
}

/// How the convolutions are launched: the row that the user named, and the
/// channel chunk they asked for.
pub struct ConvChoice {
    pub variant: Option<String>,
    pub c_chunk: Option<i32>,
}

impl ConvChoice {
    /// The row's name: the Winograd convolution by default.
    pub open spec fn row_name(&self) -> Seq<char> {
        match self.variant {
            Some(v) => v@,
            None => "wg"@,
        }
    }

    /// The channel chunk asked for.
    pub open spec fn chunk(&self) -> i32 {
        match self.c_chunk {
            Some(c) => c,
            None => 16,
        }
    }

    /// The table has the row.
    pub open spec fn known(&self) -> bool {
        self.row_name() == "wg"@ || self.row_name() == "direct"@
    }
}

/// The launch over a `w` by `h` plane in blocks of 32 by 8 threads.
pub open spec fn plane_launch(w: int, h: int) -> Launch {
    Launch {
        grid: (at_least_one(ceil_of(w, 32)) as u32, at_least_one(ceil_of(h, 8)) as u32, 1u32),
        block: (32u32, 8u32, 1u32),
        shared: 0,
    }
}

/// `n`, but not less than one.
pub open spec fn at_least_one(n: int) -> int {
    if n < 1 {
        1
    } else {
        n
    }
}

/// The launch over a `w` by `h` plane in blocks of 32 by 8 threads.
pub fn over_plane(w: usize, h: usize) -> (r: Launch)
    requires
        w <= 0x7fff_ffff,
        h <= 0x7fff_ffff,
    ensures
        r == plane_launch(w as int, h as int),
{
    let (gx, gy) = (ceil_div(w as u32, 32), ceil_div(h as u32, 8));
    let grid_x = if gx < 1 {
        1
    } else {
        gx
    };
    let grid_y = if gy < 1 {
        1
    } else {
        gy
    };
    Launch { grid: (grid_x, grid_y, 1), block: (32, 8, 1), shared: 0 }
}

/// The launch over `n` elements in blocks of 256 threads.
pub open spec fn element_launch(n: int) -> Launch {
    Launch {
        grid: (at_least_one(ceil_of(n, 256)) as u32, 1u32, 1u32),
        block: (256u32, 1u32, 1u32),
        shared: 0,
    }
}

/// The launch over `n` elements in blocks of 256 threads: the shape of every
/// elementwise kernel.
pub fn over_elements(n: usize) -> (r: Launch)
    requires
        n + 255 <= u64::MAX,
    ensures
        r == element_launch(n as int),
{
    let blocks = (n as u64 + 255) / 256;
    let grid: u64 = if blocks < 1 {
        1
    } else {
        blocks
    };
    Launch { grid: (grid as u32, 1, 1), block: (256, 1, 1), shared: 0 }
}

/// The elementwise grid covers the elements: every element has a thread, as long
/// as the grid can be counted.
pub proof fn elements_are_covered(n: int)
    requires
        0 <= n <= 256 * 0xffff_ffff,
    ensures
        n <= element_launch(n).grid.0 * 256,
        1 <= element_launch(n).grid.0,
{
    lemma_ceil(n, 256);
}

/// The plane's grid covers the plane: every pixel has a thread.
pub proof fn plane_is_covered(w: int, h: int)
    requires
        0 <= w <= 0x7fff_ffff,
        0 <= h <= 0x7fff_ffff,
    ensures
        w <= plane_launch(w, h).grid.0 * 32,
        h <= plane_launch(w, h).grid.1 * 8,
        1 <= plane_launch(w, h).grid.0,
        1 <= plane_launch(w, h).grid.1,
{
    lemma_ceil(w, 32);
    lemma_ceil(h, 8);
}

/// The operands of a convolution's launch: its source from the first channel on,
/// its destination from its own channel on, and its parameters at their place in
/// the weight buffer, four bytes to a value.
pub open spec fn operands(a: &Addresses, loc: ConvLoc, op: DeviceOp) -> Operands {
    match op {
        DeviceOp::Conv { layer, src, dst, dst_ch, c_in, c_out, h, w, act } => Operands {
            src: a.of(src),
            weights: (a.weights + 4 * loc.w) as u64,
            bias: (a.weights + 4 * loc.b) as u64,
            dst: (a.of(dst) + 4 * (dst_ch * (w * h))) as u64,
            c_in,
            c_out,
            h,
            w,
            act,
        },
        _ => arbitrary(),
    }
}

/// The launch of a convolution `o` from the table's row `s`.
pub open spec fn tabled_call(s: &ConvShape, o: Operands, asked: i32, call: &KernelCall) -> bool {
    let chunk = s.chunk(asked as int);
    let l = call.launch;
    &&& call.name@ == s.name@
    &&& l.grid.0 == ceil_of((o.w as u32) as int, s.covers().0)
    &&& l.grid.1 == ceil_of((o.h as u32) as int, s.covers().1)
    &&& l.grid.2 == ceil_of((o.c_out as u32) as int, s.oc_per_cta as int)
    &&& l.block == if s.is_winograd() {
        (256u32, 1u32, 1u32)
    } else {
        (s.tx, s.ty, 1u32)
    }
    &&& l.shared == chunk * s.chunk_bytes()
    &&& call.args@ == s.arguments(o, chunk as i32)
}

/// The launch of a convolution from the table's row.
pub fn tabled(s: &ConvShape, o: &Operands, asked: i32) -> (call: KernelCall)
    requires
        s.tabled(),
    ensures
        tabled_call(s, *o, asked, &call),
        call.launch.shared <= SMEM_CAP,
{
    proof {
        tabled_chunk_fits(s);
    }
    let (c_chunk, smem) = s.chunk_and_smem(asked);
    let launch = s.launch(o.w, o.h, o.c_out, smem);
    KernelCall { name: s.name, launch, args: s.args(o, c_chunk) }
}

/// `call` is the launch of a convolution `o`: from the table's row that was
/// chosen, unless the image is too small for it, when it is the direct
/// convolution with all channels in one layer of blocks.
pub open spec fn conv_call(choice: &ConvChoice, o: Operands, call: &KernelCall) -> bool {
    if o.w >= 16 && o.h >= 8 {
        exists|s: ConvShape|
            {
                &&& if choice.row_name() == "wg"@ {
                    s.winograd_row()
                } else {
                    s.direct_row()
                }
                &&& #[trigger] tabled_call(&s, o, choice.chunk(), call)
            }
    } else {
        call.is(DIRECT@, plane_launch(o.w as int, o.h as int), direct_arguments(o))
    }
}

/// `call` is the kernel call of an operation.
pub open spec fn lowered(
    e: &Extent,
    a: &Addresses,
    lay: &Layout,
    choice: &ConvChoice,
    op: DeviceOp,
    call: &KernelCall,
) -> bool {
    match op {
        DeviceOp::Unshuffle { c, h, w } => call.is(
            "lg_pixel_unshuffle2"@,
            plane_launch(e.w as int, e.h as int),
            seq![
                Arg::Ptr(a.stage),
                Arg::Ptr(a.feat),
                Arg::I32(c as i32),
                Arg::I32(h as i32),
                Arg::I32(w as i32),
            ],
        ),
        DeviceOp::Conv { layer, src, dst, dst_ch, c_in, c_out, h, w, act } => conv_call(
            choice,
            operands(a, lay.loc(layer as int), op),
            call,
        ),
        DeviceOp::Copy { src, dst, n } => call.is(
            "lg_copy"@,
            element_launch(n as int),
            seq![Arg::Ptr(a.of(src)), Arg::Ptr(a.of(dst)), Arg::I64(n as i64)],
        ),
        DeviceOp::AddScaled { a: x, b: y, dst, n, fifth } => call.is(
            "lg_add_scaled"@,
            element_launch(n as int),
            seq![
                Arg::Ptr(a.of(x)),
                Arg::Ptr(a.of(y)),
                Arg::Ptr(a.of(dst)),
                Arg::I64(n as i64),
                Arg::F32(
                    if fifth {
                        FIFTH_BITS
                    } else {
                        ONE_BITS
                    },
                ),
            ],
        ),
        DeviceOp::Upsample { src, dst, c, h, w } => call.is(
            "lg_upsample2x_nearest"@,
            plane_launch(w * 2, h * 2),
            seq![
                Arg::Ptr(a.of(src)),
                Arg::Ptr(a.of(dst)),
                Arg::I32(c as i32),
                Arg::I32(h as i32),
                Arg::I32(w as i32),
            ],
        ),
    }
}

/// The message for a row that the table does not have.
pub open spec fn unknown_row(name: Seq<char>) -> Seq<char> {
    "unknown LA_CONV `"@ + name + "` (see ConvShape::by_name: \"wg\" or \"direct\")"@
}

/// The message for a row that the table does not have.
pub fn unknown_text(name: &str) -> (t: String)
    ensures
        t@ == unknown_row(name@),
{
    let mut t = "unknown LA_CONV `".to_owned();
    t.append(name);
    t.append("` (see ConvShape::by_name: \"wg\" or \"direct\")");
    t
}

/// The launch of a convolution. A row that the table does not have is an error,
/// and not replaced by another.
pub fn conv_launch(choice: &ConvChoice, o: &Operands) -> (r: Result<KernelCall, String>)
    requires
        o.w <= 0x7fff_ffff,
        o.h <= 0x7fff_ffff,
    ensures
        match r {
            Ok(call) => choice.known() && conv_call(choice, *o, &call),
            Err(t) => !choice.known() && t@ == unknown_row(choice.row_name()),
        },
{
    let name = match &choice.variant {
        Some(v) => v.as_str(),
        None => "wg",
    };
    let asked = match choice.c_chunk {
        Some(c) => c,
        None => 16,
    };
    proof {
        reveal_strlit("wg");
        reveal_strlit("direct");
        assert("wg"@.len() != "direct"@.len());
    }
    match ConvShape::by_name(name) {
        None => Err(unknown_text(name)),
        Some(s) => {
            if o.w >= 16 && o.h >= 8 {
                let call = tabled(&s, o, asked);
                assert(tabled_call(&s, *o, choice.chunk(), &call));
                assert(name@ == choice.row_name());
                Ok(call)
            } else {
                Ok(KernelCall { name: DIRECT, launch: over_plane(o.w, o.h), args: direct_args(o) })
            }
        },
    }
}

/// The kernel call of an operation.
pub fn lower(
    e: &Extent,
    a: &Addresses,
    lay: &Layout,
    choice: &ConvChoice,
    op: &DeviceOp,
) -> (r: Result<KernelCall, String>)
    requires
        e.wf(),
        e.ok(*op),
        e.h * 4 <= 0x7fff_ffff,
        e.w * 4 <= 0x7fff_ffff,
        a.hold(e, lay.floats),
        lay.nested(),
        lay.blocks@.len() == e.g.num_block,
        forall|l: int|
            0 <= l < e.g.layers() ==> (#[trigger] lay.loc(l)).w <= lay.floats && lay.loc(l).b
                <= lay.floats,
    ensures
        match r {
            Ok(call) => lowered(e, a, lay, choice, *op, &call) && (op is Conv ==> choice.known()),
            Err(t) => op is Conv && !choice.known() && t@ == unknown_row(choice.row_name()),
        },
{
    match op {
        DeviceOp::Unshuffle { c, h, w } => {
            let args = vec![
                Arg::Ptr(a.stage),
                Arg::Ptr(a.feat),
                Arg::I32(*c as i32),
                Arg::I32(*h as i32),
                Arg::I32(*w as i32),
            ];
            let call = KernelCall {
                name: "lg_pixel_unshuffle2",
                launch: over_plane(e.w, e.h),
                args,
            };
            assert(lowered(e, a, lay, choice, *op, &call));
            Ok(call)
        },
        DeviceOp::Conv { layer, src, dst, dst_ch, c_in, c_out, h, w, act } => {
            let loc = lay.at(*layer);
            proof {
                let (h, w, n, c) = (*h as int, *w as int, *dst_ch as int, *c_out as int);
                assert(a.lies(e, *dst));
                assert(0 <= n * (w * h) <= (n + c) * h * w) by (nonlinear_arith)
                    requires
                        0 <= n,
                        0 <= c,
                        0 < h,
                        0 < w,
                ;
                assert(w * h <= (e.h * 4) * (e.w * 4)) by (nonlinear_arith)
                    requires
                        0 < h <= e.h * 4,
                        0 < w <= e.w * 4,
                ;
                assert(lay.loc(*layer as int).w <= lay.floats);
            }
            let area = *w * *h;
            let o = Operands {
                src: a.get(*src),
                weights: a.weights + (loc.w * 4) as u64,
                bias: a.weights + (loc.b * 4) as u64,
                dst: a.get(*dst) + (*dst_ch * area * 4) as u64,
                c_in: *c_in,
                c_out: *c_out,
                h: *h,
                w: *w,
                act: *act,
            };
            assert(o == operands(a, lay.loc(*layer as int), *op));
            conv_launch(choice, &o)
        },
        DeviceOp::Copy { src, dst, n } => {
            let args = vec![Arg::Ptr(a.get(*src)), Arg::Ptr(a.get(*dst)), Arg::I64(*n as i64)];
            assert(a.lies(e, *src));
            let call = KernelCall { name: "lg_copy", launch: over_elements(*n), args };
            assert(lowered(e, a, lay, choice, *op, &call));
            Ok(call)
        },
        DeviceOp::AddScaled { a: x, b: y, dst, n, fifth } => {
            let scale = if *fifth {
                FIFTH_BITS
            } else {
                ONE_BITS
            };
            let args = vec![
                Arg::Ptr(a.get(*x)),
                Arg::Ptr(a.get(*y)),
                Arg::Ptr(a.get(*dst)),
                Arg::I64(*n as i64),
                Arg::F32(scale),
            ];
            assert(a.lies(e, *dst));
            let call = KernelCall { name: "lg_add_scaled", launch: over_elements(*n), args };
            assert(lowered(e, a, lay, choice, *op, &call));
            Ok(call)
        },
        DeviceOp::Upsample { src, dst, c, h, w } => {
            let args = vec![
                Arg::Ptr(a.get(*src)),
                Arg::Ptr(a.get(*dst)),
                Arg::I32(*c as i32),
                Arg::I32(*h as i32),
                Arg::I32(*w as i32),
            ];
            let call = KernelCall {
                name: "lg_upsample2x_nearest",
                launch: over_plane(*w * 2, *h * 2),
                args,
            };
            assert(lowered(e, a, lay, choice, *op, &call));
            Ok(call)
        },
    }
}

/// Does a buffer of `len` values at `ptr` lie in the address space, with four
/// bytes to a value?
fn lies(ptr: u64, len: usize) -> (r: bool)
    ensures
        r == (ptr + 4 * len <= u64::MAX && 4 * len <= usize::MAX),
{
    match len.checked_mul(4) {
        None => false,
        Some(bytes) => ptr.checked_add(bytes as u64).is_some(),
    }
}

impl Addresses {
    /// Do all buffers lie in the address space?
    pub fn holds(&self, e: &Extent, floats: usize) -> (r: bool)
        requires
            e.wf(),
        ensures
            r == self.hold(e, floats),
    {
        let stage = lies(self.stage, e.buffer_len(Buf::Stage));
        let feat = lies(self.feat, e.buffer_len(Buf::Feat));
        let ws = lies(self.ws, e.buffer_len(Buf::Ws));
        let cur = lies(self.cur, e.buffer_len(Buf::Cur));
        let x5 = lies(self.x5, e.buffer_len(Buf::X5));
        let rdb = lies(self.rdb, e.buffer_len(Buf::Rdb));
        let save = lies(self.save, e.buffer_len(Buf::Save));
        let skip = lies(self.skip, e.buffer_len(Buf::Skip));
        let body = lies(self.body, e.buffer_len(Buf::Body));
        let up1 = lies(self.up1, e.buffer_len(Buf::Up1));
        let up2 = lies(self.up2, e.buffer_len(Buf::Up2));
        let hr = lies(self.hr, e.buffer_len(Buf::Hr));
        let out = lies(self.out, e.buffer_len(Buf::Out));
        let weights = lies(self.weights, floats);
        let r = stage && feat && ws && cur && x5 && rdb && save && skip && body && up1 && up2 && hr
            && out && weights;
        proof {
            if self.hold(e, floats) {
                assert(self.lies(e, Buf::Stage) && self.lies(e, Buf::Feat) && self.lies(e, Buf::Ws));
                assert(self.lies(e, Buf::Cur) && self.lies(e, Buf::X5) && self.lies(e, Buf::Rdb));
                assert(self.lies(e, Buf::Save) && self.lies(e, Buf::Skip));
                assert(self.lies(e, Buf::Body) && self.lies(e, Buf::Up1) && self.lies(e, Buf::Up2));
                assert(self.lies(e, Buf::Hr) && self.lies(e, Buf::Out));
            }
            if r {
                assert forall|b: Buf| #[trigger] self.lies(e, b) by {
                    match b {
                        Buf::Stage => {},
                        Buf::Feat => {},
                        Buf::Ws => {},
                        _ => {},
                    }
                }
            }
        }
        r
    }
}

/// The kernel calls of a whole pass, in order.
pub fn forward_calls<T>(
    e: &Extent,
    a: &Addresses,
    model: &Model<T>,
    lay: &Layout,
    choice: &ConvChoice,
) -> (r: Result<Vec<KernelCall>, String>)
    requires
        e.wf(),
        e.g == model.geom,
        model.blocks@.len() == model.geom.num_block,
        e.h * 4 <= 0x7fff_ffff,
        e.w * 4 <= 0x7fff_ffff,
        lay.lays(model),
        a.hold(e, lay.floats),
    ensures
        match r {
            Ok(calls) => {
                &&& choice.known()
                &&& calls@.len() == e.program().len()
                &&& forall|i: int|
                    0 <= i < calls@.len() ==> lowered(
                        e,
                        a,
                        lay,
                        choice,
                        e.program()[i],
                        &#[trigger] calls@[i],
                    )
            },
            Err(t) => !choice.known() && t@ == unknown_row(choice.row_name()),
        },
{
    let ops = e.forward_ops();
    proof {
        e.program_stays_in_bounds();
        assert forall|l: int| 0 <= l < e.g.layers() implies (#[trigger] lay.loc(l)).w <= lay.floats
            && lay.loc(l).b <= lay.floats by {
            launch_finds_its_weights(model, lay, l);
            assert(located(model, l, lay.loc(l)));
        }
    }
    let mut calls: Vec<KernelCall> = Vec::new();
    let mut i: usize = 0;
    while i < ops.len()
        invariant
            e.wf(),
            e.h * 4 <= 0x7fff_ffff,
            e.w * 4 <= 0x7fff_ffff,
            a.hold(e, lay.floats),
            lay.nested(),
            lay.blocks@.len() == e.g.num_block,
            forall|l: int|
                0 <= l < e.g.layers() ==> (#[trigger] lay.loc(l)).w <= lay.floats && lay.loc(l).b
                    <= lay.floats,
            ops@ == e.program(),
            e.all_ok(ops@),
            i <= ops@.len(),
            calls@.len() == i,
            forall|j: int|
                0 <= j < i ==> lowered(e, a, lay, choice, e.program()[j], &#[trigger] calls@[j]),
            forall|j: int| 0 <= j < i && #[trigger] ops@[j] is Conv ==> choice.known(),
        decreases ops@.len() - i,
    {
        match lower(e, a, lay, choice, &ops[i]) {
            Ok(call) => {
                calls.push(call);
            },
            Err(t) => {
                return Err(t);
            },
        }
        i += 1;
    }
    proof {
        let k = e.head_ops().len() - 2;
        assert(ops@[k] == e.head_ops()[k]);
        assert(ops@[k] is Conv);
    }
    Ok(calls)
}

} // verus!
