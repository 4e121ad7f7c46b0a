//! The built-in elementwise kernels.

use vstd::prelude::*;

use crate::array::{contiguous_s, err, fresh, same_sizes, seen, with_room, Array, ArrayV, Outcome};
use crate::codegen::{inst3, inst4, template_def};
use crate::dtype::{compilable, metal_text, tag_text, type_string, variant_text};
use crate::elementwise::{binary_s, broadcasting_is_idempotent};
use crate::error::Error;
use crate::named::chain;
use crate::ops::{per_thread, record_unary, unary_of, work_per_thread};
use crate::tape::{
    ceil_div, div_up, fresh_program, program, Arg, ArgV, CmdV, Dispatch, DispatchV, Grid, Math,
    MetalFile, Tape, TapeV,
};
use crate::text::cat2;

verus! {

// ---- one operand ----

/// A built-in operation of one operand, by its identifier.
pub open spec fn unary_op_s(t: TapeV, a: ArrayV, op: Seq<char>) -> (TapeV, Outcome) {
    chain(
        contiguous_s(t, a),
        |t1: TapeV, x: ArrayV|
            if x.count() == 0 {
                (t1, Err("unary_op: empty input"@))
            } else if !compilable(x.dtype) {
                (t1, Err("unsupported compilation type "@ + variant_text(x.dtype)))
            } else {
                unary_of(t1, x, op, "unary_op: empty input"@)
            },
    )
}

/// A built-in operation of one operand, by its identifier.
pub fn unary_op(tape: &mut Tape, x: &Array, op: &str) -> (r: Result<Array, Error>)
    requires
        x@.wf(),
    ensures
        (final(tape)@, seen(r)) == unary_op_s(old(tape)@, x@, op@),
        r matches Ok(a) ==> a@.wf() && a@.shape() == x@.shape() && a@.dtype == x@.dtype,
{
    let x = match x.contiguous(tape) {
        Ok(x) => x,
        Err(e) => {
            return Err(e);
        },
    };
    if x.size() == 0 {
        return err("unary_op: empty input");
    }
    match type_string(x.dtype) {
        Ok(_) => record_unary(tape, &x, op, "unary_op: empty input"),
        Err(e) => Err(e),
    }
}

/// The logistic function of each element.
pub fn sigmoid(tape: &mut Tape, x: &Array) -> (r: Result<Array, Error>)
    requires
        x@.wf(),
    ensures
        (final(tape)@, seen(r)) == unary_op_s(old(tape)@, x@, "Sigmoid"@),
        r matches Ok(a) ==> a@.wf() && a@.shape() == x@.shape() && a@.dtype == x@.dtype,
{
    unary_op(tape, x, "Sigmoid")
}

/// The exponential of each element.
pub fn exp(tape: &mut Tape, x: &Array) -> (r: Result<Array, Error>)
    requires
        x@.wf(),
    ensures
        (final(tape)@, seen(r)) == unary_op_s(old(tape)@, x@, "Exp"@),
        r matches Ok(a) ==> a@.wf() && a@.shape() == x@.shape() && a@.dtype == x@.dtype,
{
    unary_op(tape, x, "Exp")
}

/// The natural logarithm of each element.
pub fn log(tape: &mut Tape, x: &Array) -> (r: Result<Array, Error>)
    requires
        x@.wf(),
    ensures
        (final(tape)@, seen(r)) == unary_op_s(old(tape)@, x@, "Log"@),
        r matches Ok(a) ==> a@.wf() && a@.shape() == x@.shape() && a@.dtype == x@.dtype,
{
    unary_op(tape, x, "Log")
}

/// The natural logarithm of one more than each element.
pub fn log1p(tape: &mut Tape, x: &Array) -> (r: Result<Array, Error>)
    requires
        x@.wf(),
    ensures
        (final(tape)@, seen(r)) == unary_op_s(old(tape)@, x@, "Log1p"@),
        r matches Ok(a) ==> a@.wf() && a@.shape() == x@.shape() && a@.dtype == x@.dtype,
{
    unary_op(tape, x, "Log1p")
}

/// The sine of each element.
pub fn sin(tape: &mut Tape, x: &Array) -> (r: Result<Array, Error>)
    requires
        x@.wf(),
    ensures
        (final(tape)@, seen(r)) == unary_op_s(old(tape)@, x@, "Sin"@),
        r matches Ok(a) ==> a@.wf() && a@.shape() == x@.shape() && a@.dtype == x@.dtype,
{
    unary_op(tape, x, "Sin")
}

/// The cosine of each element.
pub fn cos(tape: &mut Tape, x: &Array) -> (r: Result<Array, Error>)
    requires
        x@.wf(),
    ensures
        (final(tape)@, seen(r)) == unary_op_s(old(tape)@, x@, "Cos"@),
        r matches Ok(a) ==> a@.wf() && a@.shape() == x@.shape() && a@.dtype == x@.dtype,
{
    unary_op(tape, x, "Cos")
}

/// The square root of each element.
pub fn sqrt(tape: &mut Tape, x: &Array) -> (r: Result<Array, Error>)
    requires
        x@.wf(),
    ensures
        (final(tape)@, seen(r)) == unary_op_s(old(tape)@, x@, "Sqrt"@),
        r matches Ok(a) ==> a@.wf() && a@.shape() == x@.shape() && a@.dtype == x@.dtype,
{
    unary_op(tape, x, "Sqrt")
}

/// One over the square root of each element.
pub fn rsqrt(tape: &mut Tape, x: &Array) -> (r: Result<Array, Error>)
    requires
        x@.wf(),
    ensures
        (final(tape)@, seen(r)) == unary_op_s(old(tape)@, x@, "Rsqrt"@),
        r matches Ok(a) ==> a@.wf() && a@.shape() == x@.shape() && a@.dtype == x@.dtype,
{
    unary_op(tape, x, "Rsqrt")
}

/// Each element without its sign.
pub fn abs(tape: &mut Tape, x: &Array) -> (r: Result<Array, Error>)
    requires
        x@.wf(),
    ensures
        (final(tape)@, seen(r)) == unary_op_s(old(tape)@, x@, "Abs"@),
        r matches Ok(a) ==> a@.wf() && a@.shape() == x@.shape() && a@.dtype == x@.dtype,
{
    unary_op(tape, x, "Abs")
}

/// The sign of each element.
pub fn sign(tape: &mut Tape, x: &Array) -> (r: Result<Array, Error>)
    requires
        x@.wf(),
    ensures
        (final(tape)@, seen(r)) == unary_op_s(old(tape)@, x@, "Sign"@),
        r matches Ok(a) ==> a@.wf() && a@.shape() == x@.shape() && a@.dtype == x@.dtype,
{
    unary_op(tape, x, "Sign")
}

/// Each element with the other sign.
pub fn negative(tape: &mut Tape, x: &Array) -> (r: Result<Array, Error>)
    requires
        x@.wf(),
    ensures
        (final(tape)@, seen(r)) == unary_op_s(old(tape)@, x@, "Negative"@),
        r matches Ok(a) ==> a@.wf() && a@.shape() == x@.shape() && a@.dtype == x@.dtype,
{
    unary_op(tape, x, "Negative")
}

/// Each element times itself.
pub fn square(tape: &mut Tape, x: &Array) -> (r: Result<Array, Error>)
    requires
        x@.wf(),
    ensures
        (final(tape)@, seen(r)) == unary_op_s(old(tape)@, x@, "Square"@),
        r matches Ok(a) ==> a@.wf() && a@.shape() == x@.shape() && a@.dtype == x@.dtype,
{
    unary_op(tape, x, "Square")
}

/// Each element times its logistic function.
pub open spec fn silu_op_s(t: TapeV, x: ArrayV) -> (TapeV, Outcome) {
    chain(unary_op_s(t, x, "Sigmoid"@), |t1: TapeV, s: ArrayV| binary_s(t1, x, s, "bmul"@))
}

/// Each element times its logistic function.
pub fn silu(tape: &mut Tape, x: &Array) -> (r: Result<Array, Error>)
    requires
        x@.wf(),
    ensures
        (final(tape)@, seen(r)) == silu_op_s(old(tape)@, x@),
        r matches Ok(a) ==> a@.wf() && a@.shape() == x@.shape(),
{
    match sigmoid(tape, x) {
        Ok(s) => {
            proof {
                broadcasting_is_idempotent(x@.shape());
            }
            x.mul(tape, &s)
        },
        Err(e) => Err(e),
    }
}

// ---- two operands ----

/// The instantiations that a kernel of two operands needs.
pub open spec fn pair_defs(lib: Seq<char>, ty: Seq<char>, op: Seq<char>, wide: bool) -> Seq<char> {
    template_def("vv_"@ + lib, "binary_vv"@, seq![ty, ty, op, "1"@]) + (if wide {
        template_def("vvn_"@ + lib, "binary_vv"@, seq![ty, ty, op])
    } else {
        Seq::empty()
    })
}

fn pair_text(lib: &str, ty: &str, op: &str, wide: bool) -> (s: String)
    ensures
        s@ == pair_defs(lib@, ty@, op@, wide),
{
    let mut s = inst4(&cat2("vv_", lib), "binary_vv", ty, ty, op, "1");
    if wide {
        let d = inst3(&cat2("vvn_", lib), "binary_vv", ty, ty, op);
        s.append(&d);
    } else {
        assert(s@ + Seq::<char>::empty() =~= s@);
    }
    s
}

/// The run of a kernel of two row-major operands.
pub open spec fn pair_run(a: ArrayV, b: ArrayV, out: ArrayV, op: Seq<char>) -> DispatchV {
    let wpt = per_thread(a.dtype, a.count());
    let lib = op + tag_text(a.dtype);
    DispatchV {
        program: fresh_program(
            (if wpt > 1 {
                "vvn_"@
            } else {
                "vv_"@
            }) + lib,
            seq![MetalFile::Utils, MetalFile::BinaryOps, MetalFile::Binary],
            pair_defs(lib, metal_text(a.dtype), op, wpt > 1),
            Math::SafeNoLang,
            Seq::empty(),
        ),
        args: seq![
            (0usize, a.as_input()),
            (1usize, b.as_input()),
            (2usize, ArgV::Output(out.buf, 0)),
            (3usize, ArgV::I32(a.count() as usize as i32)),
        ],
        grid: Grid::Line(ceil_div(a.count() as int, wpt) as usize),
    }
}

/// A built-in operation of two row-major operands of one shape and type.
pub open spec fn pair_of(t: TapeV, a: ArrayV, b: ArrayV, op: Seq<char>) -> (TapeV, Outcome) {
    if a.count() == 0 {
        (t, Err("binary_op: empty input"@))
    } else if !compilable(a.dtype) {
        (t, Err("unsupported compilation type "@ + variant_text(a.dtype)))
    } else {
        let out = fresh(t, a.shape(), a.dtype);
        (
            with_room(t, a.shape(), a.dtype, "binary_out"@).then_do(
                CmdV::Launch(pair_run(a, b, out, op)),
            ),
            Ok(out),
        )
    }
}

/// A built-in operation of two operands, by its identifier.
pub open spec fn binary_op_s(t: TapeV, a: ArrayV, b: ArrayV, op: Seq<char>) -> (TapeV, Outcome) {
    if a.shape() != b.shape() || a.dtype != b.dtype {
        (t, Err("binary_op: operands must match in shape and dtype"@))
    } else {
        chain(
            contiguous_s(t, a),
            |t1: TapeV, x: ArrayV|
                chain(contiguous_s(t1, b), |t2: TapeV, y: ArrayV| pair_of(t2, x, y, op)),
        )
    }
}

/// A built-in operation of two operands, by its identifier.
pub fn binary_op(tape: &mut Tape, a: &Array, b: &Array, op: &str) -> (r: Result<Array, Error>)
    requires
        a@.wf(),
        b@.wf(),
    ensures
        (final(tape)@, seen(r)) == binary_op_s(old(tape)@, a@, b@, op@),
        r matches Ok(x) ==> x@.wf() && x@.shape() == a@.shape() && x@.dtype == a@.dtype,
{
    if !same_sizes(a.dims(), b.dims()) || a.dtype != b.dtype {
        return err("binary_op: operands must match in shape and dtype");
    }
    let x = match a.contiguous(tape) {
        Ok(x) => x,
        Err(e) => {
            return Err(e);
        },
    };
    let y = match b.contiguous(tape) {
        Ok(y) => y,
        Err(e) => {
            return Err(e);
        },
    };
    let size = x.size();
    if size == 0 {
        return err("binary_op: empty input");
    }
    let ty = match type_string(x.dtype) {
        Ok(t) => t,
        Err(e) => {
            return Err(e);
        },
    };
    let tag = x.dtype.mlx_name();
    let wpt = work_per_thread(x.dtype, size);
    let lib = cat2(op, tag);
    let name = cat2(
        if wpt > 1 {
            "vvn_"
        } else {
            "vv_"
        },
        &lib,
    );
    let text = pair_text(&lib, ty, op, wpt > 1);
    let files = vec![MetalFile::Utils, MetalFile::BinaryOps, MetalFile::Binary];
    let out = Array::make(tape, &x.layout.shape, x.dtype, "binary_out");
    let mut d = Dispatch::new(program(name, files, text, Math::SafeNoLang));
    d.bind(0, x.input());
    d.bind(1, y.input());
    d.bind(2, Arg::Output(out.buf, 0));
    d.bind(3, Arg::I32(size as i32));
    let n = div_up(size, wpt);
    tape.launch(d, Grid::Line(n));
    proof {
        let run = pair_run(x@, y@, out@, op@);
        assert(files@ =~= seq![MetalFile::Utils, MetalFile::BinaryOps, MetalFile::Binary]);
        assert(d@.args =~= run.args);
    }
    Ok(out)
}

/// The logarithm of the sum of two exponentials.
pub fn logaddexp(tape: &mut Tape, a: &Array, b: &Array) -> (r: Result<Array, Error>)
    requires
        a@.wf(),
        b@.wf(),
    ensures
        (final(tape)@, seen(r)) == binary_op_s(old(tape)@, a@, b@, "LogAddExp"@),
        r matches Ok(x) ==> x@.wf() && x@.shape() == a@.shape() && x@.dtype == a@.dtype,
{
    binary_op(tape, a, b, "LogAddExp")
}

} // verus!
