//! Elementwise operations, reductions and conversions of arrays.

use vstd::prelude::*;

use crate::array::{contiguous_s, err, fresh, seen, with_room, Array, ArrayV, Outcome};
use crate::codegen::{inst3, inst4, inst5, template_def};
use crate::dtype::{metal_text, tag_text, width, Dtype};
use crate::error::Error;
use crate::tape::{
    ceil_div, div_up, fresh_program, max_int, max_usize, program, Arg, ArgV, CmdV, Dispatch,
    DispatchV, Grid, Math, MetalFile, Tape, TapeV,
};
use crate::text::{cat2, cat3};

verus! {

// ---- unary ----

/// The elements that one thread handles: one below 65536 elements, else eight
/// bytes' worth.
pub open spec fn per_thread(dt: Dtype, size: nat) -> int {
    if size < 65536 {
        1
    } else {
        max_int(8int / (width(dt) as int), 1)
    }
}

/// The elements that one thread handles.
pub fn work_per_thread(dt: Dtype, size: usize) -> (w: usize)
    ensures
        w == per_thread(dt, size as nat),
        w >= 1,
{
    if size < 65536 {
        1
    } else {
        max_usize(8 / dt.size_of(), 1)
    }
}

/// The instantiations that a unary kernel's program holds.
pub open spec fn unary_defs(lib: Seq<char>, ty: Seq<char>, op: Seq<char>, wide: bool) -> Seq<char> {
    template_def("v_"@ + lib, "unary_v"@, seq![ty, ty, op, "1"@]) + (if wide {
        template_def("vn_"@ + lib, "unary_v"@, seq![ty, ty, op])
    } else {
        Seq::empty()
    }) + template_def("v2_"@ + lib, "unary_v2"@, seq![ty, ty, op]) + template_def(
        "gn1_"@ + lib,
        "unary_g"@,
        seq![ty, ty, op, "1"@, "int"@],
    ) + template_def("gn4large_"@ + lib, "unary_g"@, seq![ty, ty, op, "4"@])
}

/// The instantiations that a unary kernel's program holds.
pub fn unary_text(lib: &str, ty: &str, op: &str, wide: bool) -> (s: String)
    ensures
        s@ == unary_defs(lib@, ty@, op@, wide),
{
    let mut s = inst4(&cat2("v_", lib), "unary_v", ty, ty, op, "1");
    if wide {
        let d = inst3(&cat2("vn_", lib), "unary_v", ty, ty, op);
        s.append(&d);
    } else {
        s.append("");
        proof {
            reveal_strlit("");
            assert(""@ =~= Seq::<char>::empty());
        }
    }
    let d = inst3(&cat2("v2_", lib), "unary_v2", ty, ty, op);
    s.append(&d);
    let d = inst5(&cat2("gn1_", lib), "unary_g", ty, ty, op, "1", "int");
    s.append(&d);
    let d = inst4(&cat2("gn4large_", lib), "unary_g", ty, ty, op, "4");
    s.append(&d);
    s
}

/// The run of a unary kernel from the row-major `x` to `out`.
pub open spec fn unary_run(x: ArrayV, out: ArrayV, op: Seq<char>) -> DispatchV {
    let wpt = per_thread(x.dtype, x.count());
    let lib = op + tag_text(x.dtype) + tag_text(x.dtype);
    DispatchV {
        program: fresh_program(
            (if wpt > 1 {
                "vn_"@
            } else {
                "v_"@
            }) + lib,
            seq![MetalFile::Utils, MetalFile::UnaryOps, MetalFile::Unary],
            unary_defs(lib, metal_text(x.dtype), op, wpt > 1),
            Math::SafeNoLang,
            Seq::empty(),
        ),
        args: seq![
            (0usize, x.as_input()),
            (1usize, ArgV::Output(out.buf, 0)),
            (2usize, ArgV::I32(x.count() as usize as i32)),
        ],
        grid: Grid::Line(ceil_div(x.count() as int, wpt) as usize),
    }
}

/// An elementwise operation on the row-major `x`.
pub open spec fn unary_of(t: TapeV, x: ArrayV, op: Seq<char>, empty: Seq<char>) -> (TapeV, Outcome) {
    if x.count() == 0 {
        (t, Err(empty))
    } else {
        let out = fresh(t, x.shape(), x.dtype);
        (
            with_room(t, x.shape(), x.dtype, "unary_out"@).then_do(
                CmdV::Launch(unary_run(x, out, op)),
            ),
            Ok(out),
        )
    }
}

/// An elementwise operation, by its kernel identifier.
pub open spec fn unary_s(t: TapeV, a: ArrayV, op: Seq<char>) -> (TapeV, Outcome) {
    match contiguous_s(t, a) {
        (t1, Ok(x)) => unary_of(t1, x, op, "unary: empty input"@),
        (t1, Err(e)) => (t1, Err(e)),
    }
}

/// Records a unary kernel over the row-major `x`.
pub fn record_unary(tape: &mut Tape, x: &Array, op: &str, empty: &str) -> (r: Result<Array, Error>)
    requires
        x@.wf(),
        x@.layout.dense(),
    ensures
        (final(tape)@, seen(r)) == unary_of(old(tape)@, x@, op@, empty@),
        r matches Ok(a) ==> a@.wf(),
{
    let size = x.size();
    if size == 0 {
        return err(empty);
    }
    let in_t = x.dtype.metal_name();
    let ty = x.dtype.mlx_name();
    let wpt = work_per_thread(x.dtype, size);
    let lib = cat3(op, ty, ty);
    let name = cat2(
        if wpt > 1 {
            "vn_"
        } else {
            "v_"
        },
        &lib,
    );
    let text = unary_text(&lib, in_t, op, wpt > 1);
    let files = vec![MetalFile::Utils, MetalFile::UnaryOps, MetalFile::Unary];
    let out = Array::make(tape, &x.layout.shape, x.dtype, "unary_out");
    let mut d = Dispatch::new(program(name, files, text, Math::SafeNoLang));
    d.bind(0, x.input());
    d.bind(1, Arg::Output(out.buf, 0));
    d.bind(2, Arg::I32(size as i32));
    let n = div_up(size, wpt);
    tape.launch(d, Grid::Line(n));
    proof {
        let run = unary_run(x@, out@, op@);
        assert(files@ =~= seq![MetalFile::Utils, MetalFile::UnaryOps, MetalFile::Unary]);
        assert(d@.args =~= run.args);
    }
    Ok(out)
}

impl Array {
    /// An elementwise operation, by its kernel identifier.
    pub fn unary(&self, tape: &mut Tape, op: &str) -> (r: Result<Array, Error>)
        requires
            self@.wf(),
        ensures
            (final(tape)@, seen(r)) == unary_s(old(tape)@, self@, op@),
            r matches Ok(a) ==> a@.wf() && a@.shape() == self@.shape() && a@.dtype == self@.dtype,
    {
        match self.contiguous(tape) {
            Ok(x) => record_unary(tape, &x, op, "unary: empty input"),
            Err(e) => Err(e),
        }
    }
}

} // verus!
