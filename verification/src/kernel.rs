//! Custom kernels: a body of Metal source, wrapped in a generated signature.

use vstd::prelude::*;

use std::collections::HashMap;

use vstd::utf8::encode_utf8;

use crate::array::{fresh, roomy, with_room, Array, ArrayV};
use crate::dtype::{code_of, compilable, metal_text, type_string, variant_text, Dtype};
use crate::error::Error;
use crate::join::{array_views, Outcomes};
use crate::tape::{
    dim3, max_int, min_int, Arg, ArgV, CmdV, Dim3, Dispatch, DispatchV, Grid, Math, MetalFile,
    Program, ProgramV, Source, SourceV, Tape, TapeV,
};
use crate::text::{
    cat2, cat3, cat4, cat5, chars_of, contains, dec, dec_int, decimal_i32, decimal_usize, join,
    join_strings, occurs, str_views, views,
};
use crate::words::{i32_words, i64_words, to_i32s, to_i64s};

verus! {

// ---- template arguments ----

/// An argument of a kernel's template, by its name.
pub enum TemplateArg {
    Dtype(&'static str, Dtype),
    Int(&'static str, i32),
    Bool(&'static str, bool),
}

/// The view of a template argument.
pub ghost enum TemplateArgV {
    Dtype(Seq<char>, Dtype),
    Int(Seq<char>, i32),
    Bool(Seq<char>, bool),
}

impl View for TemplateArg {
    type V = TemplateArgV;

    open spec fn view(&self) -> TemplateArgV {
        match self {
            TemplateArg::Dtype(n, d) => TemplateArgV::Dtype(n@, *d),
            TemplateArg::Int(n, v) => TemplateArgV::Int(n@, *v),
            TemplateArg::Bool(n, v) => TemplateArgV::Bool(n@, *v),
        }
    }
}

impl TemplateArgV {
    pub open spec fn label(self) -> Seq<char> {
        match self {
            TemplateArgV::Dtype(n, _) => n,
            TemplateArgV::Int(n, _) => n,
            TemplateArgV::Bool(n, _) => n,
        }
    }

    /// The kind of the parameter in Metal source.
    pub open spec fn kind(self) -> Seq<char> {
        match self {
            TemplateArgV::Dtype(_, _) => "typename"@,
            TemplateArgV::Int(_, _) => "int"@,
            TemplateArgV::Bool(_, _) => "bool"@,
        }
    }

    /// The argument in Metal source.
    pub open spec fn value(self) -> Seq<char> {
        match self {
            TemplateArgV::Dtype(_, d) => metal_text(d),
            TemplateArgV::Int(_, v) => dec_int(v as int),
            TemplateArgV::Bool(_, v) => if v {
                "1"@
            } else {
                "0"@
            },
        }
    }

    /// The type that has no spelling, when the argument is one.
    pub open spec fn unspelled(self) -> Option<Dtype> {
        match self {
            TemplateArgV::Dtype(_, d) => if compilable(d) {
                None
            } else {
                Some(d)
            },
            _ => None,
        }
    }
}

impl TemplateArg {
    /// The argument's name.
    pub fn name(&self) -> (n: &'static str)
        ensures
            n@ == self@.label(),
    {
        match self {
            TemplateArg::Dtype(n, _) => n,
            TemplateArg::Int(n, _) => n,
            TemplateArg::Bool(n, _) => n,
        }
    }

    /// The kind of the parameter in Metal source.
    fn kind_name(&self) -> (n: &'static str)
        ensures
            n@ == self@.kind(),
    {
        match self {
            TemplateArg::Dtype(_, _) => "typename",
            TemplateArg::Int(_, _) => "int",
            TemplateArg::Bool(_, _) => "bool",
        }
    }
}

/// An output of a kernel: its shape and type.
pub struct OutputArg {
    pub shape: Vec<i32>,
    pub dtype: Dtype,
}

/// The view of an output of a kernel.
#[verifier::ext_equal]
pub ghost struct OutputArgV {
    pub shape: Seq<i32>,
    pub dtype: Dtype,
}

impl View for OutputArg {
    type V = OutputArgV;

    open spec fn view(&self) -> OutputArgV {
        OutputArgV { shape: self.shape@, dtype: self.dtype }
    }
}

pub open spec fn arg_list(v: Seq<TemplateArg>) -> Seq<TemplateArgV> {
    v.map_values(|a: TemplateArg| a@)
}

pub open spec fn out_list(v: Seq<OutputArg>) -> Seq<OutputArgV> {
    v.map_values(|a: OutputArg| a@)
}

/// The message about a type that has no spelling.
pub open spec fn unspelled_message(d: Dtype) -> Seq<char> {
    "unsupported compilation type "@ + variant_text(d)
}

/// The first type without a spelling among the first `k` arguments.
pub open spec fn unspelled_arg(args: Seq<TemplateArgV>, k: int) -> Option<Dtype>
    decreases k,
{
    if k <= 0 {
        None
    } else {
        match unspelled_arg(args, k - 1) {
            Some(d) => Some(d),
            None => args[k - 1].unspelled(),
        }
    }
}

/// The arguments in Metal source.
pub open spec fn arg_values(args: Seq<TemplateArgV>) -> Seq<Seq<char>> {
    args.map_values(|a: TemplateArgV| a.value())
}

/// The template's arguments in angle brackets.
pub open spec fn template_text(args: Seq<TemplateArgV>) -> Seq<char> {
    "<"@ + join(arg_values(args), ", "@) + ">"@
}

proof fn lemma_unspelled_stays(args: Seq<TemplateArgV>, k: int, n: int)
    requires
        0 <= k <= n,
        unspelled_arg(args, k) is Some,
    ensures
        unspelled_arg(args, n) == unspelled_arg(args, k),
    decreases n - k,
{
    if k < n {
        lemma_unspelled_stays(args, k, n - 1);
    }
}

/// The template's arguments in angle brackets.
pub fn write_template(args: &[TemplateArg]) -> (r: Result<String, Error>)
    ensures
        match r {
            Ok(s) => unspelled_arg(arg_list(args@), args@.len() as int) is None && s@
                == template_text(arg_list(args@)),
            Err(e) => unspelled_arg(arg_list(args@), args@.len() as int) matches Some(d)
                && e.text() == unspelled_message(d),
        },
{
    let ghost v = arg_list(args@);
    let ghost vals = arg_values(v);
    let mut s = "<".to_owned();
    let mut i: usize = 0;
    assert(s@ =~= "<"@ + join(vals.take(0), ", "@));
    while i < args.len()
        invariant
            i <= args.len(),
            v == arg_list(args@),
            vals == arg_values(v),
            unspelled_arg(v, i as int) is None,
            s@ == "<"@ + join(vals.take(i as int), ", "@),
        decreases args.len() - i,
    {
        let ghost after = vals.take(i + 1);
        assert(after.drop_last() =~= vals.take(i as int));
        assert(v[i as int] == args@[i as int]@);
        if i > 0 {
            s.append(", ");
        }
        match &args[i] {
            TemplateArg::Int(_, x) => {
                let d = decimal_i32(*x);
                s.append(&d);
            },
            TemplateArg::Bool(_, x) => {
                s.append(
                    if *x {
                        "1"
                    } else {
                        "0"
                    },
                );
            },
            TemplateArg::Dtype(_, dt) => match type_string(*dt) {
                Ok(t) => {
                    s.append(t);
                },
                Err(e) => {
                    proof {
                        lemma_unspelled_stays(v, i + 1, v.len() as int);
                    }
                    return Err(e);
                },
            },
        }
        assert(s@ =~= "<"@ + join(after, ", "@));
        i += 1;
    }
    assert(vals.take(vals.len() as int) =~= vals);
    s.append(">");
    Ok(s)
}

/// The arguments as part of a name: angle brackets, and each comma with its
/// space, become underscores.
pub open spec fn underscored(b: Seq<u8>, i: int) -> Seq<char>
    decreases b.len() - i,
{
    if i >= b.len() || i < 0 {
        Seq::empty()
    } else if b[i] == 60 || b[i] == 62 {
        seq!['_'] + underscored(b, i + 1)
    } else if b[i] == 44 && i + 1 < b.len() && b[i + 1] == 32 {
        seq!['_'] + underscored(b, i + 2)
    } else {
        seq![b[i] as char] + underscored(b, i + 1)
    }
}

/// The arguments as part of a name, without the last underscore.
pub open spec fn template_tag(b: Seq<u8>) -> Seq<char> {
    let u = underscored(b, 0);
    if u.len() == 0 {
        u
    } else {
        u.drop_last()
    }
}

/// The arguments of a template as part of a name.
pub fn make_template_hash(template_def: &str) -> (s: String)
    ensures
        s@ == template_tag(encode_utf8(template_def@)),
{
    let bytes = template_def.as_bytes();
    let ghost b = bytes@;
    let mut v: Vec<char> = Vec::new();
    let mut i: usize = 0;
    while i < bytes.len()
        invariant
            i <= bytes.len(),
            b == bytes@,
            v@ + underscored(b, i as int) == underscored(b, 0),
        decreases bytes.len() - i,
    {
        let c = bytes[i];
        let ghost before = v@;
        if c == 60 || c == 62 {
            v.push('_');
            assert(v@ + underscored(b, i + 1) =~= before + (seq!['_'] + underscored(b, i + 1)));
            i += 1;
        } else if c == 44 && i + 1 < bytes.len() && bytes[i + 1] == 32 {
            v.push('_');
            assert(v@ + underscored(b, i + 2) =~= before + (seq!['_'] + underscored(b, i + 2)));
            i += 2;
        } else {
            v.push(c as char);
            assert(v@ + underscored(b, i + 1) =~= before + (seq![c as char] + underscored(
                b,
                i + 1,
            )));
            i += 1;
        }
    }
    assert(v@ =~= underscored(b, 0));
    v.pop();
    assert(v@ =~= template_tag(b));
    crate::text::string_of(&v)
}

// ---- signatures ----

/// What is known of an input: its type, its number of axes and of elements.
#[derive(Clone, Copy, PartialEq, Eq, Structural, Debug)]
pub struct InputInfo {
    pub dtype: Dtype,
    pub ndim: usize,
    pub size: usize,
}

/// Which of an input's shape, strides and number of axes the body reads.
#[derive(Clone, Copy, PartialEq, Eq, Structural, Debug)]
pub struct ShapeInfo {
    pub shape: bool,
    pub strides: bool,
    pub ndim: bool,
}

/// A number of a flag.
pub open spec fn one_if(b: bool) -> int {
    if b {
        1
    } else {
        0
    }
}

/// The argument slots that an input takes.
pub open spec fn input_slots(x: InputInfo, info: ShapeInfo) -> int {
    1 + (if x.ndim > 0 {
        one_if(info.shape) + one_if(info.strides) + one_if(info.ndim)
    } else {
        0
    })
}

/// The first slot after the first `k` inputs.
pub open spec fn slots_before(xs: Seq<InputInfo>, infos: Seq<ShapeInfo>, k: int) -> int
    decreases k,
{
    if k <= 0 {
        0
    } else {
        slots_before(xs, infos, k - 1) + input_slots(xs[k - 1], infos[k - 1])
    }
}

pub open spec fn slot_text(i: int) -> Seq<char> {
    " [[buffer("@ + dec(i as nat) + ")]]"@
}

/// The parameters of an input, from a slot on. Inputs of fewer than eight
/// elements are passed as constants.
pub open spec fn input_text(name: Seq<char>, x: InputInfo, info: ShapeInfo, slot: int) -> Seq<char> {
    let own = "  const "@ + (if x.size < 8 {
        "constant"@
    } else {
        "device"@
    }) + " "@ + metal_text(x.dtype) + (if x.ndim == 0 {
        "&"@
    } else {
        "*"@
    }) + " "@ + name + slot_text(slot) + ",\n"@;
    if x.ndim == 0 {
        own
    } else {
        let s1 = slot + 1;
        let s2 = s1 + one_if(info.shape);
        let s3 = s2 + one_if(info.strides);
        own + (if info.shape {
            "  const constant int* "@ + name + "_shape"@ + slot_text(s1) + ",\n"@
        } else {
            ""@
        }) + (if info.strides {
            "  const constant int64_t* "@ + name + "_strides"@ + slot_text(s2) + ",\n"@
        } else {
            ""@
        }) + (if info.ndim {
            "  const constant int& "@ + name + "_ndim"@ + slot_text(s3) + ",\n"@
        } else {
            ""@
        })
    }
}

/// The parameters of the first `k` inputs.
pub open spec fn inputs_text(
    names: Seq<Seq<char>>,
    xs: Seq<InputInfo>,
    infos: Seq<ShapeInfo>,
    k: int,
) -> Seq<char>
    decreases k,
{
    if k <= 0 {
        Seq::empty()
    } else {
        inputs_text(names, xs, infos, k - 1) + input_text(
            names[k - 1],
            xs[k - 1],
            infos[k - 1],
            slots_before(xs, infos, k - 1),
        )
    }
}

/// The parameter of an output, at a slot; it ends the list when `last`.
pub open spec fn output_text(
    name: Seq<char>,
    dtype: Dtype,
    slot: int,
    atomic: bool,
    last: bool,
) -> Seq<char> {
    "  device "@ + (if atomic {
        "atomic<"@
    } else {
        ""@
    }) + metal_text(dtype) + (if atomic {
        ">"@
    } else {
        ""@
    }) + "* "@ + name + slot_text(slot) + (if last {
        ") {\n"@
    } else {
        ",\n"@
    })
}

/// The parameters of the first `k` outputs, from a slot on. An output ends the
/// list once its slot reaches the number of inputs and outputs and there are
/// no attributes.
pub open spec fn outputs_text(
    names: Seq<Seq<char>>,
    dtypes: Seq<Dtype>,
    first: int,
    inputs: int,
    atomic: bool,
    attributes: bool,
    k: int,
) -> Seq<char>
    decreases k,
{
    if k <= 0 {
        Seq::empty()
    } else {
        let slot = first + k - 1;
        outputs_text(names, dtypes, first, inputs, atomic, attributes, k - 1) + output_text(
            names[k - 1],
            dtypes[k - 1],
            slot,
            atomic,
            !(slot < inputs + names.len() - 1 || attributes),
        )
    }
}

/// The attribute parameters; the last ends the list.
pub open spec fn attributes_text(attrs: Seq<Seq<char>>, k: int) -> Seq<char>
    decreases k,
{
    if k <= 0 {
        Seq::empty()
    } else {
        attributes_text(attrs, k - 1) + attrs[k - 1] + (if k < attrs.len() {
            ",\n"@
        } else {
            ") {\n"@
        })
    }
}

/// The template parameters.
pub open spec fn params_text(args: Seq<TemplateArgV>) -> Seq<char> {
    if args.len() == 0 {
        ""@
    } else {
        "template <"@ + join(
            args.map_values(|a: TemplateArgV| a.kind() + " "@ + a.label()),
            ", "@,
        ) + ">\n"@
    }
}

/// The kernel: the header, the template parameters, the signature and the body.
pub open spec fn signature_text(
    func: Seq<char>,
    header: Seq<char>,
    source: Seq<char>,
    input_names: Seq<Seq<char>>,
    inputs: Seq<InputInfo>,
    output_names: Seq<Seq<char>>,
    outputs: Seq<Dtype>,
    args: Seq<TemplateArgV>,
    attributes: Seq<Seq<char>>,
    infos: Seq<ShapeInfo>,
    atomic: bool,
) -> Seq<char> {
    header + params_text(args) + "[[kernel]] void "@ + func + "(\n"@ + inputs_text(
        input_names,
        inputs,
        infos,
        input_names.len() as int,
    ) + outputs_text(
        output_names,
        outputs,
        slots_before(inputs, infos, input_names.len() as int),
        input_names.len() as int,
        atomic,
        attributes.len() > 0,
        output_names.len() as int,
    ) + attributes_text(attributes, attributes.len() as int) + source + "\n}\n"@
}

/// The types that a kernel's inputs and outputs can have; truth values are
/// bound as bytes.
pub open spec fn spellable(d: Dtype) -> bool {
    compilable(d) || d == Dtype::Bool
}

fn bound_type(d: Dtype) -> (r: Result<&'static str, Error>)
    ensures
        r is Ok <==> spellable(d),
        r matches Ok(s) ==> s@ == metal_text(d),
        r matches Err(e) ==> e.text() == unspelled_message(d),
{
    if d == Dtype::Bool {
        Ok(d.metal_name())
    } else {
        type_string(d)
    }
}

/// The first type without a spelling among the first `k` inputs.
pub open spec fn unspelled_input(xs: Seq<InputInfo>, k: int) -> Option<Dtype>
    decreases k,
{
    if k <= 0 {
        None
    } else {
        match unspelled_input(xs, k - 1) {
            Some(d) => Some(d),
            None => if spellable(xs[k - 1].dtype) {
                None
            } else {
                Some(xs[k - 1].dtype)
            },
        }
    }
}

/// The first type without a spelling among the first `k` outputs.
pub open spec fn unspelled_output(ds: Seq<Dtype>, k: int) -> Option<Dtype>
    decreases k,
{
    if k <= 0 {
        None
    } else {
        match unspelled_output(ds, k - 1) {
            Some(d) => Some(d),
            None => if spellable(ds[k - 1]) {
                None
            } else {
                Some(ds[k - 1])
            },
        }
    }
}

/// The first type without a spelling among the inputs and the first `n` outputs.
pub open spec fn unspelled_io(xs: Seq<InputInfo>, ds: Seq<Dtype>, n: int) -> Option<Dtype> {
    match unspelled_input(xs, xs.len() as int) {
        Some(d) => Some(d),
        None => unspelled_output(ds, n),
    }
}

proof fn lemma_unspelled_input_stays(xs: Seq<InputInfo>, k: int, n: int)
    requires
        0 <= k <= n,
        unspelled_input(xs, k) is Some,
    ensures
        unspelled_input(xs, n) == unspelled_input(xs, k),
    decreases n - k,
{
    if k < n {
        lemma_unspelled_input_stays(xs, k, n - 1);
    }
}

proof fn lemma_unspelled_output_stays(ds: Seq<Dtype>, k: int, n: int)
    requires
        0 <= k <= n,
        unspelled_output(ds, k) is Some,
    ensures
        unspelled_output(ds, n) == unspelled_output(ds, k),
    decreases n - k,
{
    if k < n {
        lemma_unspelled_output_stays(ds, k, n - 1);
    }
}

fn slot_str(i: usize) -> (s: String)
    ensures
        s@ == slot_text(i as int),
{
    let d = decimal_usize(i);
    cat3(" [[buffer(", &d, ")]]")
}

fn input_param(name: &str, x: InputInfo, info: ShapeInfo, slot: usize) -> (s: String)
    requires
        slot + 4 <= usize::MAX,
    ensures
        s@ == input_text(name@, x, info, slot as int),
{
    let mut s = cat4(
        "  const ",
        if x.size < 8 {
            "constant"
        } else {
            "device"
        },
        " ",
        x.dtype.metal_name(),
    );
    s.append(
        if x.ndim == 0 {
            "&"
        } else {
            "*"
        },
    );
    s.append(" ");
    s.append(name);
    let d = slot_str(slot);
    s.append(&d);
    s.append(",\n");
    if x.ndim == 0 {
        return s;
    }
    let mut at: usize = slot + 1;
    if info.shape {
        let d = slot_str(at);
        let p = cat5("  const constant int* ", name, "_shape", &d, ",\n");
        s.append(&p);
        at += 1;
    } else {
        s.append("");
    }
    if info.strides {
        let d = slot_str(at);
        let p = cat5("  const constant int64_t* ", name, "_strides", &d, ",\n");
        s.append(&p);
        at += 1;
    } else {
        s.append("");
    }
    if info.ndim {
        let d = slot_str(at);
        let p = cat5("  const constant int& ", name, "_ndim", &d, ",\n");
        s.append(&p);
    } else {
        s.append("");
    }
    s
}

fn output_param(name: &str, dtype: Dtype, slot: usize, atomic: bool, last: bool) -> (s: String)
    ensures
        s@ == output_text(name@, dtype, slot as int, atomic, last),
{
    let mut s = cat4(
        "  device ",
        if atomic {
            "atomic<"
        } else {
            ""
        },
        dtype.metal_name(),
        if atomic {
            ">"
        } else {
            ""
        },
    );
    s.append("* ");
    s.append(name);
    let d = slot_str(slot);
    s.append(&d);
    s.append(
        if last {
            ") {\n"
        } else {
            ",\n"
        },
    );
    s
}

fn template_params(args: &[TemplateArg]) -> (s: String)
    ensures
        s@ == params_text(arg_list(args@)),
{
    let ghost v = arg_list(args@);
    let ghost parts = v.map_values(|a: TemplateArgV| a.kind() + " "@ + a.label());
    if args.len() == 0 {
        return "".to_owned();
    }
    let mut list: Vec<String> = Vec::new();
    let mut i: usize = 0;
    while i < args.len()
        invariant
            i <= args.len(),
            v == arg_list(args@),
            parts == v.map_values(|a: TemplateArgV| a.kind() + " "@ + a.label()),
            views(list@) == parts.take(i as int),
        decreases args.len() - i,
    {
        let p = cat3(args[i].kind_name(), " ", args[i].name());
        assert(v[i as int] == args@[i as int]@);
        let ghost before = views(list@);
        list.push(p);
        assert(views(list@) =~= before.push(p@));
        i += 1;
        assert(views(list@) =~= parts.take(i as int));
    }
    assert(parts.take(parts.len() as int) =~= parts);
    let j = join_strings(&list, ", ");
    cat3("template <", &j, ">\n")
}

/// The slots of the inputs fit.
pub proof fn lemma_slots(xs: Seq<InputInfo>, infos: Seq<ShapeInfo>, k: int)
    requires
        0 <= k,
    ensures
        0 <= slots_before(xs, infos, k) <= 4 * k,
    decreases k,
{
    if k > 0 {
        lemma_slots(xs, infos, k - 1);
    }
}

/// The kernel: the header, the template parameters, the signature and the body.
pub fn write_signature(
    func_name: &str,
    header: &str,
    source: &str,
    input_names: &Vec<String>,
    inputs: &Vec<InputInfo>,
    output_names: &Vec<String>,
    outputs: &Vec<Dtype>,
    args: &[TemplateArg],
    attributes: &Vec<String>,
    infos: &Vec<ShapeInfo>,
    atomic: bool,
) -> (r: Result<String, Error>)
    requires
        inputs@.len() == input_names@.len(),
        infos@.len() == input_names@.len(),
        outputs@.len() >= output_names@.len(),
        input_names@.len() * 4 + output_names@.len() + 8 <= usize::MAX,
    ensures
        match r {
            Ok(s) => unspelled_io(inputs@, outputs@, output_names@.len() as int) is None && s@ == signature_text(
                func_name@,
                header@,
                source@,
                views(input_names@),
                inputs@,
                views(output_names@),
                outputs@,
                arg_list(args@),
                views(attributes@),
                infos@,
                atomic,
            ),
            Err(e) => unspelled_io(inputs@, outputs@, output_names@.len() as int) matches Some(d) && e.text()
                == unspelled_message(d),
        },
{
    let p = template_params(args);
    let mut s = cat4(header, &p, "[[kernel]] void ", func_name);
    s.append("(\n");
    let ghost base = s@;
    let ghost inn = views(input_names@);
    let n_in = input_names.len();
    let n_out = output_names.len();
    let mut slot: usize = 0;
    let mut i: usize = 0;
    assert(s@ =~= base + inputs_text(inn, inputs@, infos@, 0));
    while i < n_in
        invariant
            i <= n_in,
            n_in == input_names@.len(),
            inn == views(input_names@),
            inputs@.len() == n_in,
            infos@.len() == n_in,
            n_in * 4 + 8 <= usize::MAX,
            slot == slots_before(inputs@, infos@, i as int),
            unspelled_input(inputs@, i as int) is None,
            s@ == base + inputs_text(inn, inputs@, infos@, i as int),
        decreases n_in - i,
    {
        proof {
            lemma_slots(inputs@, infos@, i as int);
            lemma_slots(inputs@, infos@, i + 1);
        }
        let x = inputs[i];
        let info = infos[i];
        match bound_type(x.dtype) {
            Ok(_) => {},
            Err(e) => {
                proof {
                    lemma_unspelled_input_stays(inputs@, i + 1, n_in as int);
                }
                return Err(e);
            },
        }
        let t = input_param(&input_names[i], x, info, slot);
        assert(inn[i as int] == input_names@[i as int]@);
        s.append(&t);
        slot = slot + 1;
        if x.ndim > 0 {
            if info.shape {
                slot = slot + 1;
            }
            if info.strides {
                slot = slot + 1;
            }
            if info.ndim {
                slot = slot + 1;
            }
        }
        i += 1;
        assert(s@ =~= base + inputs_text(inn, inputs@, infos@, i as int));
    }
    let first = slot;
    let ghost base2 = s@;
    let ghost onn = views(output_names@);
    let has = attributes.len() > 0;
    let mut k: usize = 0;
    proof {
        lemma_slots(inputs@, infos@, n_in as int);
        assert(s@ =~= base2 + outputs_text(onn, outputs@, first as int, n_in as int, atomic, has, 0));
    }
    while k < n_out
        invariant
            k <= n_out,
            n_out == output_names@.len(),
            onn == views(output_names@),
            outputs@.len() >= n_out,
            inputs@.len() == n_in,
            first + n_out <= usize::MAX,
            n_in + n_out <= usize::MAX,
            unspelled_input(inputs@, n_in as int) is None,
            unspelled_output(outputs@, k as int) is None,
            s@ == base2 + outputs_text(
                onn,
                outputs@,
                first as int,
                n_in as int,
                atomic,
                has,
                k as int,
            ),
        decreases n_out - k,
    {
        match bound_type(outputs[k]) {
            Ok(_) => {},
            Err(e) => {
                proof {
                    lemma_unspelled_output_stays(outputs@, k + 1, n_out as int);
                }
                return Err(e);
            },
        }
        let at: usize = first + k;
        let last = !(at < n_in + n_out - 1 || has);
        let t = output_param(&output_names[k], outputs[k], at, atomic, last);
        assert(onn[k as int] == output_names@[k as int]@);
        s.append(&t);
        k += 1;
        assert(s@ =~= base2 + outputs_text(
            onn,
            outputs@,
            first as int,
            n_in as int,
            atomic,
            has,
            k as int,
        ));
    }
    let ghost base3 = s@;
    let ghost ann = views(attributes@);
    let mut j: usize = 0;
    assert(s@ =~= base3 + attributes_text(ann, 0));
    while j < attributes.len()
        invariant
            j <= attributes.len(),
            ann == views(attributes@),
            s@ == base3 + attributes_text(ann, j as int),
        decreases attributes.len() - j,
    {
        s.append(&attributes[j]);
        assert(ann[j as int] == attributes@[j as int]@);
        s.append(
            if j + 1 < attributes.len() {
                ",\n"
            } else {
                ") {\n"
            },
        );
        j += 1;
        assert(s@ =~= base3 + attributes_text(ann, j as int));
    }
    s.append(source);
    s.append("\n}\n");
    Ok(s)
}

// ---- attributes ----

/// The attributes that a body may name, in the order of declaration, each with
/// its type.
pub open spec fn attribute_table() -> Seq<(Seq<char>, Seq<char>)> {
    seq![
        ("dispatch_quadgroups_per_threadgroup"@, "uint"@),
        ("dispatch_simdgroups_per_threadgroup"@, "uint"@),
        ("dispatch_threads_per_threadgroup"@, "uint3"@),
        ("grid_origin"@, "uint3"@),
        ("grid_size"@, "uint3"@),
        ("quadgroup_index_in_threadgroup"@, "uint"@),
        ("quadgroups_per_threadgroup"@, "uint"@),
        ("simdgroup_index_in_threadgroup"@, "uint"@),
        ("simdgroups_per_threadgroup"@, "uint"@),
        ("thread_execution_width"@, "uint"@),
        ("thread_index_in_quadgroup"@, "uint"@),
        ("thread_index_in_simdgroup"@, "uint"@),
        ("thread_index_in_threadgroup"@, "uint"@),
        ("thread_position_in_grid"@, "uint3"@),
        ("thread_position_in_threadgroup"@, "uint3"@),
        ("threadgroup_position_in_grid"@, "uint3"@),
        ("threadgroups_per_grid"@, "uint3"@),
        ("threads_per_grid"@, "uint3"@),
        ("threads_per_simdgroup"@, "uint"@),
        ("threads_per_threadgroup"@, "uint3"@),
    ]
}

/// The attribute in place `i` of the table, with its type.
fn attribute_entry(i: usize) -> (p: (&'static str, &'static str))
    requires
        i < 20,
    ensures
        (p.0@, p.1@) == attribute_table()[i as int],
{
    match i {
        0 => ("dispatch_quadgroups_per_threadgroup", "uint"),
        1 => ("dispatch_simdgroups_per_threadgroup", "uint"),
        2 => ("dispatch_threads_per_threadgroup", "uint3"),
        3 => ("grid_origin", "uint3"),
        4 => ("grid_size", "uint3"),
        5 => ("quadgroup_index_in_threadgroup", "uint"),
        6 => ("quadgroups_per_threadgroup", "uint"),
        7 => ("simdgroup_index_in_threadgroup", "uint"),
        8 => ("simdgroups_per_threadgroup", "uint"),
        9 => ("thread_execution_width", "uint"),
        10 => ("thread_index_in_quadgroup", "uint"),
        11 => ("thread_index_in_simdgroup", "uint"),
        12 => ("thread_index_in_threadgroup", "uint"),
        13 => ("thread_position_in_grid", "uint3"),
        14 => ("thread_position_in_threadgroup", "uint3"),
        15 => ("threadgroup_position_in_grid", "uint3"),
        16 => ("threadgroups_per_grid", "uint3"),
        17 => ("threads_per_grid", "uint3"),
        18 => ("threads_per_simdgroup", "uint"),
        _ => ("threads_per_threadgroup", "uint3"),
    }
}

/// The declaration of an attribute.
pub open spec fn attribute_text(entry: (Seq<char>, Seq<char>)) -> Seq<char> {
    "  "@ + entry.1 + " "@ + entry.0 + (" [["@ + entry.0 + "]]"@)
}

/// The declarations of those of the first `k` attributes that the body names.
pub open spec fn attributes_of(source: Seq<char>, k: int) -> Seq<Seq<char>>
    decreases k,
{
    if k <= 0 {
        Seq::empty()
    } else {
        let before = attributes_of(source, k - 1);
        let entry = attribute_table()[k - 1];
        if occurs(source, entry.0) {
            before.push(attribute_text(entry))
        } else {
            before
        }
    }
}

fn named_attributes(source: &[char]) -> (v: Vec<String>)
    ensures
        views(v@) == attributes_of(source@, 20),
{
    let mut v: Vec<String> = Vec::new();
    let mut i: usize = 0;
    assert(views(v@) =~= Seq::empty());
    while i < 20
        invariant
            i <= 20,
            views(v@) == attributes_of(source@, i as int),
        decreases 20 - i,
    {
        let entry = attribute_entry(i);
        let pat = chars_of(entry.0);
        let ghost before = views(v@);
        if contains(source, &pat) {
            let tail = cat3(" [[", entry.0, "]]");
            let s = cat5("  ", entry.1, " ", entry.0, &tail);
            v.push(s);
            assert(views(v@) =~= before.push(s@));
        }
        i += 1;
    }
    v
}

/// What the body reads of an input of the given name.
pub open spec fn reads_of(source: Seq<char>, name: Seq<char>) -> ShapeInfo {
    ShapeInfo {
        shape: occurs(source, name + "_shape"@),
        strides: occurs(source, name + "_strides"@),
        ndim: occurs(source, name + "_ndim"@),
    }
}

fn shape_reads(source: &[char], name: &str) -> (r: ShapeInfo)
    ensures
        r == reads_of(source@, name@),
{
    let a = cat2(name, "_shape");
    let b = cat2(name, "_strides");
    let c = cat2(name, "_ndim");
    let a = chars_of(&a);
    let b = chars_of(&b);
    let c = chars_of(&c);
    ShapeInfo {
        shape: contains(source, &a),
        strides: contains(source, &b),
        ndim: contains(source, &c),
    }
}

// ---- kernels ----

/// A custom kernel and what it has been compiled for. A key stands for a
/// choice of template arguments and of argument types.
pub struct MetalKernel {
    pub name: String,
    pub input_names: Vec<String>,
    pub output_names: Vec<String>,
    pub source: String,
    pub header: String,
    pub atomic_outputs: bool,
    pub shape_infos: Vec<ShapeInfo>,
    pub attributes: Vec<String>,
    /// The names of the compiled programs.
    pub pipelines: Vec<String>,
    /// The program's name for each key.
    pub apply_keys: HashMap<u64, String>,
}

/// The view of a custom kernel.
#[verifier::ext_equal]
pub ghost struct KernelV {
    pub name: Seq<char>,
    pub input_names: Seq<Seq<char>>,
    pub output_names: Seq<Seq<char>>,
    pub source: Seq<char>,
    pub header: Seq<char>,
    pub atomic_outputs: bool,
    pub shape_infos: Seq<ShapeInfo>,
    pub attributes: Seq<Seq<char>>,
    pub pipelines: Seq<Seq<char>>,
    pub apply_keys: Map<u64, Seq<char>>,
}

impl View for MetalKernel {
    type V = KernelV;

    open spec fn view(&self) -> KernelV {
        KernelV {
            name: self.name@,
            input_names: views(self.input_names@),
            output_names: views(self.output_names@),
            source: self.source@,
            header: self.header@,
            atomic_outputs: self.atomic_outputs,
            shape_infos: self.shape_infos@,
            attributes: views(self.attributes@),
            pipelines: views(self.pipelines@),
            apply_keys: self.apply_keys@.map_values(|s: String| s@),
        }
    }
}

impl KernelV {
    /// One record of what the body reads per input, and names that can be
    /// numbered.
    pub open spec fn wf(self) -> bool {
        &&& self.shape_infos.len() == self.input_names.len()
        &&& self.output_names.len() > 0
        &&& self.input_names.len() * 4 + self.output_names.len() + 8 <= usize::MAX
    }
}

/// A kernel before its first use.
pub open spec fn new_kernel(
    name: Seq<char>,
    input_names: Seq<Seq<char>>,
    output_names: Seq<Seq<char>>,
    source: Seq<char>,
    header: Seq<char>,
    atomic_outputs: bool,
) -> KernelV {
    KernelV {
        name,
        input_names,
        output_names,
        source,
        header,
        atomic_outputs,
        shape_infos: input_names.map_values(|n: Seq<char>| reads_of(source, n)),
        attributes: attributes_of(source, 20),
        pipelines: Seq::empty(),
        apply_keys: Map::empty(),
    }
}

fn owned(names: &[&str]) -> (v: Vec<String>)
    ensures
        views(v@) == str_views(names@),
{
    let mut v: Vec<String> = Vec::new();
    let mut i: usize = 0;
    while i < names.len()
        invariant
            i <= names.len(),
            views(v@) == str_views(names@).take(i as int),
        decreases names.len() - i,
    {
        let s = names[i].to_owned();
        let ghost before = views(v@);
        v.push(s);
        assert(views(v@) =~= before.push(s@));
        i += 1;
        assert(views(v@) =~= str_views(names@).take(i as int));
    }
    assert(views(v@) =~= str_views(names@));
    v
}

impl MetalKernel {
    /// A kernel with the given body; it must have an output.
    pub fn new(
        name: &str,
        input_names: &[&str],
        output_names: &[&str],
        source: &str,
        header: &str,
        _ensure_row_contiguous: bool,
        atomic_outputs: bool,
    ) -> (r: Result<MetalKernel, Error>)
        ensures
            match r {
                Ok(k) => output_names@.len() > 0 && k@ == new_kernel(
                    name@,
                    str_views(input_names@),
                    str_views(output_names@),
                    source@,
                    header@,
                    atomic_outputs,
                ),
                Err(e) => output_names@.len() == 0 && e.text()
                    == "[metal_kernel] must specify at least one output"@,
            },
    {
        broadcast use vstd::std_specs::hash::group_hash_axioms;

        if output_names.len() == 0 {
            return Err(Error::msg("[metal_kernel] must specify at least one output"));
        }
        let chars = chars_of(source);
        let ins = owned(input_names);
        let outs = owned(output_names);
        let mut infos: Vec<ShapeInfo> = Vec::new();
        let ghost want = views(ins@).map_values(|n: Seq<char>| reads_of(source@, n));
        let mut i: usize = 0;
        while i < ins.len()
            invariant
                i <= ins.len(),
                chars@ == source@,
                want == views(ins@).map_values(|n: Seq<char>| reads_of(source@, n)),
                infos@ == want.take(i as int),
            decreases ins.len() - i,
        {
            let r = shape_reads(&chars, &ins[i]);
            infos.push(r);
            assert(views(ins@)[i as int] == ins@[i as int]@);
            i += 1;
            assert(infos@ =~= want.take(i as int));
        }
        assert(infos@ =~= want);
        let attributes = named_attributes(&chars);
        let k = MetalKernel {
            name: name.to_owned(),
            input_names: ins,
            output_names: outs,
            source: source.to_owned(),
            header: header.to_owned(),
            atomic_outputs,
            shape_infos: infos,
            attributes,
            pipelines: Vec::new(),
            apply_keys: HashMap::new(),
        };
        assert(k@.pipelines =~= Seq::empty());
        assert(k@.apply_keys =~= Map::empty());
        Ok(k)
    }
}

// ---- keys and names ----

/// A key with one more word mixed in.
pub open spec fn mixed(key: u64, word: u64) -> u64 {
    (key ^ word).wrapping_mul(0x100000001b3u64)
}

/// A key with the first `k` bytes mixed in.
pub open spec fn mixed_bytes(key: u64, b: Seq<u8>, k: int) -> u64
    decreases k,
{
    if k <= 0 {
        key
    } else {
        mixed(mixed_bytes(key, b, k - 1), b[k - 1] as u64)
    }
}

/// A key with a text mixed in.
pub open spec fn mixed_text(key: u64, s: Seq<char>) -> u64 {
    mixed_bytes(key, encode_utf8(s), encode_utf8(s).len() as int)
}

/// A key with a template argument mixed in.
pub open spec fn mixed_arg(key: u64, a: TemplateArgV) -> u64 {
    match a {
        TemplateArgV::Dtype(n, d) => mixed(mixed_text(key, n), code_of(d) as u64),
        TemplateArgV::Int(n, v) => mixed(mixed_text(key, n), v as u64),
        TemplateArgV::Bool(n, v) => mixed(mixed_text(key, n), if v {
            1
        } else {
            0
        }),
    }
}

/// A key with the first `k` template arguments mixed in.
pub open spec fn mixed_args(key: u64, args: Seq<TemplateArgV>, k: int) -> u64
    decreases k,
{
    if k <= 0 {
        key
    } else {
        mixed_arg(mixed_args(key, args, k - 1), args[k - 1])
    }
}

/// A key with an input mixed in: its type, and whether it is a single value or
/// a short list.
pub open spec fn mixed_input(key: u64, x: InputInfo) -> u64 {
    let k = mixed(key, code_of(x.dtype) as u64);
    if x.ndim == 0 {
        mixed(k, 0x11)
    } else if x.size < 8 {
        mixed(k, 0x22)
    } else {
        k
    }
}

/// A key with the first `k` inputs mixed in.
pub open spec fn mixed_inputs(key: u64, xs: Seq<InputInfo>, k: int) -> u64
    decreases k,
{
    if k <= 0 {
        key
    } else {
        mixed_input(mixed_inputs(key, xs, k - 1), xs[k - 1])
    }
}

/// A key with the first `k` types mixed in.
pub open spec fn mixed_types(key: u64, ds: Seq<Dtype>, k: int) -> u64
    decreases k,
{
    if k <= 0 {
        key
    } else {
        mixed(mixed_types(key, ds, k - 1), code_of(ds[k - 1]) as u64)
    }
}

/// The key of an application.
pub open spec fn key_of(
    name: Seq<char>,
    args: Seq<TemplateArgV>,
    xs: Seq<InputInfo>,
    ds: Seq<Dtype>,
) -> u64 {
    let a = mixed_text(0xcbf29ce484222325, name);
    let b = mixed_args(a, args, args.len() as int);
    let c = mixed_inputs(b, xs, xs.len() as int);
    mixed_types(c, ds, ds.len() as int)
}

fn mix(key: u64, word: u64) -> (r: u64)
    ensures
        r == mixed(key, word),
{
    (key ^ word).wrapping_mul(0x100000001b3u64)
}

fn mix_text(key: u64, s: &str) -> (r: u64)
    ensures
        r == mixed_text(key, s@),
{
    let b = s.as_bytes();
    let mut r: u64 = key;
    let mut i: usize = 0;
    while i < b.len()
        invariant
            i <= b.len(),
            r == mixed_bytes(key, b@, i as int),
        decreases b.len() - i,
    {
        r = mix(r, b[i] as u64);
        i += 1;
    }
    r
}

fn apply_key(name: &str, args: &[TemplateArg], xs: &Vec<InputInfo>, ds: &Vec<Dtype>) -> (r: u64)
    ensures
        r == key_of(name@, arg_list(args@), xs@, ds@),
{
    let ghost v = arg_list(args@);
    let base = mix_text(0xcbf29ce484222325, name);
    let mut key: u64 = base;
    let mut i: usize = 0;
    while i < args.len()
        invariant
            i <= args.len(),
            v == arg_list(args@),
            key == mixed_args(base, v, i as int),
        decreases args.len() - i,
    {
        assert(v[i as int] == args@[i as int]@);
        match &args[i] {
            TemplateArg::Dtype(n, d) => {
                let k = mix_text(key, n);
                key = mix(k, d.code() as u64);
            },
            TemplateArg::Int(n, x) => {
                let k = mix_text(key, n);
                key = mix(k, *x as u64);
            },
            TemplateArg::Bool(n, x) => {
                let k = mix_text(key, n);
                key = mix(
                    k,
                    if *x {
                        1
                    } else {
                        0
                    },
                );
            },
        }
        i += 1;
    }
    let base = key;
    let mut i: usize = 0;
    while i < xs.len()
        invariant
            i <= xs.len(),
            key == mixed_inputs(base, xs@, i as int),
        decreases xs.len() - i,
    {
        let x = xs[i];
        key = mix(key, x.dtype.code() as u64);
        if x.ndim == 0 {
            key = mix(key, 0x11);
        } else if x.size < 8 {
            key = mix(key, 0x22);
        }
        i += 1;
    }
    let base = key;
    let mut i: usize = 0;
    while i < ds.len()
        invariant
            i <= ds.len(),
            key == mixed_types(base, ds@, i as int),
        decreases ds.len() - i,
    {
        key = mix(key, ds[i].code() as u64);
        i += 1;
    }
    key
}

/// An input as part of a name.
pub open spec fn input_tag(x: InputInfo) -> Seq<char> {
    "_"@ + metal_text(x.dtype) + (if x.ndim == 0 {
        "s"@
    } else if x.size < 8 {
        "c"@
    } else {
        ""@
    })
}

/// The first `k` inputs as part of a name.
pub open spec fn input_tags(xs: Seq<InputInfo>, k: int) -> Seq<char>
    decreases k,
{
    if k <= 0 {
        Seq::empty()
    } else {
        input_tags(xs, k - 1) + input_tag(xs[k - 1])
    }
}

/// The first `k` output types as part of a name.
pub open spec fn output_tags(ds: Seq<Dtype>, k: int) -> Seq<char>
    decreases k,
{
    if k <= 0 {
        Seq::empty()
    } else {
        output_tags(ds, k - 1) + ("_"@ + metal_text(ds[k - 1]))
    }
}

/// The name of the program of an application.
pub open spec fn program_name(
    name: Seq<char>,
    args: Seq<TemplateArgV>,
    xs: Seq<InputInfo>,
    ds: Seq<Dtype>,
) -> Seq<char> {
    "custom_kernel_"@ + name + (if args.len() == 0 {
        ""@
    } else {
        "_"@ + template_tag(encode_utf8(template_text(args)))
    }) + input_tags(xs, xs.len() as int) + output_tags(ds, ds.len() as int)
}

/// The first type without a spelling in an application.
pub open spec fn unspelled(args: Seq<TemplateArgV>, xs: Seq<InputInfo>, ds: Seq<Dtype>) -> Option<
    Dtype,
> {
    match unspelled_arg(args, args.len() as int) {
        Some(d) => Some(d),
        None => unspelled_io(xs, ds, ds.len() as int),
    }
}

/// The name of the program of an application.
fn kernel_name(name: &str, args: &[TemplateArg], xs: &Vec<InputInfo>, ds: &Vec<Dtype>) -> (r: Result<
    String,
    Error,
>)
    ensures
        match r {
            Ok(s) => unspelled(arg_list(args@), xs@, ds@) is None && s@ == program_name(
                name@,
                arg_list(args@),
                xs@,
                ds@,
            ),
            Err(e) => unspelled(arg_list(args@), xs@, ds@) matches Some(d) && e.text()
                == unspelled_message(d),
        },
{
    let ghost v = arg_list(args@);
    let mut s = cat2("custom_kernel_", name);
    if args.len() > 0 {
        match write_template(args) {
            Ok(t) => {
                let h = make_template_hash(&t);
                let tail = cat2("_", &h);
                s.append(&tail);
            },
            Err(e) => {
                return Err(e);
            },
        }
    } else {
        s.append("");
    }
    assert(unspelled_arg(v, v.len() as int) is None);
    let ghost base = s@;
    let mut i: usize = 0;
    assert(s@ =~= base + input_tags(xs@, 0));
    while i < xs.len()
        invariant
            i <= xs.len(),
            v == arg_list(args@),
            unspelled_arg(v, v.len() as int) is None,
            unspelled_input(xs@, i as int) is None,
            s@ == base + input_tags(xs@, i as int),
        decreases xs.len() - i,
    {
        let x = xs[i];
        match bound_type(x.dtype) {
            Ok(_) => {},
            Err(e) => {
                proof {
                    lemma_unspelled_input_stays(xs@, i + 1, xs@.len() as int);
                }
                return Err(e);
            },
        }
        let t = cat3(
            "_",
            x.dtype.metal_name(),
            if x.ndim == 0 {
                "s"
            } else if x.size < 8 {
                "c"
            } else {
                ""
            },
        );
        s.append(&t);
        i += 1;
        assert(s@ =~= base + input_tags(xs@, i as int));
    }
    let ghost base2 = s@;
    let mut i: usize = 0;
    assert(s@ =~= base2 + output_tags(ds@, 0));
    while i < ds.len()
        invariant
            i <= ds.len(),
            v == arg_list(args@),
            unspelled_arg(v, v.len() as int) is None,
            unspelled_input(xs@, xs@.len() as int) is None,
            unspelled_output(ds@, i as int) is None,
            s@ == base2 + output_tags(ds@, i as int),
        decreases ds.len() - i,
    {
        match bound_type(ds[i]) {
            Ok(_) => {},
            Err(e) => {
                proof {
                    lemma_unspelled_output_stays(ds@, i + 1, ds@.len() as int);
                }
                return Err(e);
            },
        }
        let t = cat2("_", ds[i].metal_name());
        s.append(&t);
        i += 1;
        assert(s@ =~= base2 + output_tags(ds@, i as int));
    }
    Ok(s)
}

/// The text that a program is compiled from: the kernel and, for a template,
/// its instantiation under the program's name.
pub open spec fn program_text(
    k: KernelV,
    pname: Seq<char>,
    args: Seq<TemplateArgV>,
    xs: Seq<InputInfo>,
    ds: Seq<Dtype>,
) -> Seq<char> {
    signature_text(
        pname,
        k.header,
        k.source,
        k.input_names,
        xs,
        k.output_names,
        ds,
        args,
        k.attributes,
        k.shape_infos,
        k.atomic_outputs,
    ) + (if args.len() == 0 {
        ""@
    } else {
        let def = pname + template_text(args);
        "\ntemplate [[host_name(\""@ + pname + "\")]] [[kernel]] decltype("@ + def + (") "@ + def
            + ";\n"@)
    })
}

// ---- application ----

pub open spec fn info_of(a: ArrayV) -> InputInfo {
    InputInfo { dtype: a.dtype, ndim: a.rank() as usize, size: a.count() as usize }
}

pub open spec fn infos_of(v: Seq<ArrayV>) -> Seq<InputInfo> {
    v.map_values(|a: ArrayV| info_of(a))
}

pub open spec fn types_of(v: Seq<OutputArgV>) -> Seq<Dtype> {
    v.map_values(|o: OutputArgV| o.dtype)
}

pub open spec fn ref_views(v: Seq<&Array>) -> Seq<ArrayV> {
    v.map_values(|a: &Array| a@)
}

pub open spec fn all_wf(v: Seq<ArrayV>) -> bool {
    forall|i: int| 0 <= i < v.len() ==> (#[trigger] v[i]).wf()
}

/// The sizes of an output.
pub open spec fn sizes_of(shape: Seq<i32>) -> Seq<usize> {
    shape.map_values(|d: i32| d as usize)
}

/// Sizes that an output can have.
pub open spec fn sound_output(o: OutputArgV) -> bool {
    &&& forall|i: int| 0 <= i < o.shape.len() ==> #[trigger] o.shape[i] >= 0
    &&& roomy(sizes_of(o.shape))
}

pub open spec fn sound_outputs(v: Seq<OutputArgV>) -> bool {
    forall|i: int| 0 <= i < v.len() ==> sound_output(#[trigger] v[i])
}

/// The tape after making the first `k` outputs, and the outputs.
pub open spec fn outputs_made(t: TapeV, outs: Seq<OutputArgV>, label: Seq<char>, k: int) -> (
    TapeV,
    Seq<ArrayV>,
)
    decreases k,
{
    if k <= 0 {
        (t, Seq::empty())
    } else {
        let (t1, v) = outputs_made(t, outs, label, k - 1);
        let shape = sizes_of(outs[k - 1].shape);
        let d = outs[k - 1].dtype;
        (with_room(t1, shape, d, label), v.push(fresh(t1, shape, d)))
    }
}

pub proof fn lemma_outputs_made_len(t: TapeV, outs: Seq<OutputArgV>, label: Seq<char>, k: int)
    requires
        0 <= k,
    ensures
        outputs_made(t, outs, label, k).1.len() == k,
    decreases k,
{
    if k > 0 {
        lemma_outputs_made_len(t, outs, label, k - 1);
    }
}

/// Every output is packed, and has its shape and its type.
pub proof fn outputs_have_their_shapes(
    t: TapeV,
    outs: Seq<OutputArgV>,
    label: Seq<char>,
    k: int,
    i: int,
)
    requires
        0 <= i < k,
    ensures
        outputs_made(t, outs, label, k).1[i].layout == crate::layout::packed(
            sizes_of(outs[i].shape),
        ),
        outputs_made(t, outs, label, k).1[i].dtype == outs[i].dtype,
    decreases k,
{
    lemma_outputs_made_len(t, outs, label, k - 1);
    if i < k - 1 {
        outputs_have_their_shapes(t, outs, label, k - 1, i);
    }
}

/// The first of the first `k` inputs that cannot be bound: it is not dense and
/// the body reads no strides.
pub open spec fn unbindable(k: KernelV, xs: Seq<ArrayV>, n: int) -> Option<int>
    decreases n,
{
    if n <= 0 {
        None
    } else {
        match unbindable(k, xs, n - 1) {
            Some(i) => Some(i),
            None => if !xs[n - 1].layout.dense() && !k.shape_infos[n - 1].strides {
                Some(n - 1)
            } else {
                None
            },
        }
    }
}

/// The arguments of an input from a slot on.
pub open spec fn input_args(a: ArrayV, info: ShapeInfo, slot: int) -> Seq<(usize, ArgV)> {
    let own = seq![(slot as usize, a.as_input())];
    if a.rank() == 0 {
        own
    } else {
        let s1 = slot + 1;
        let s2 = s1 + one_if(info.shape);
        let s3 = s2 + one_if(info.strides);
        own + (if info.shape {
            seq![(s1 as usize, ArgV::I32s(i32_words(a.shape())))]
        } else {
            Seq::empty()
        }) + (if info.strides {
            seq![(s2 as usize, ArgV::I64s(i64_words(a.strides())))]
        } else {
            Seq::empty()
        }) + (if info.ndim {
            seq![(s3 as usize, ArgV::I32(a.rank() as i32))]
        } else {
            Seq::empty()
        })
    }
}

/// The arguments of the first `n` inputs.
pub open spec fn inputs_args(k: KernelV, xs: Seq<ArrayV>, n: int) -> Seq<(usize, ArgV)>
    decreases n,
{
    if n <= 0 {
        Seq::empty()
    } else {
        inputs_args(k, xs, n - 1) + input_args(
            xs[n - 1],
            k.shape_infos[n - 1],
            slots_before(infos_of(xs), k.shape_infos, n - 1),
        )
    }
}

/// The arguments of the first `n` outputs, from a slot on.
pub open spec fn outputs_args(outs: Seq<ArrayV>, first: int, n: int) -> Seq<(usize, ArgV)>
    decreases n,
{
    if n <= 0 {
        Seq::empty()
    } else {
        outputs_args(outs, first, n - 1).push(
            ((first + n - 1) as usize, ArgV::Output(outs[n - 1].buf, 0)),
        )
    }
}

/// The product, or the largest size when it is larger.
pub open spec fn saturated(a: int, b: int) -> int {
    min_int(a * b, usize::MAX as int)
}

/// The geometry of an application: no extent below zero, no group extent
/// beyond the grid's, and the group checked against the pipeline's limit.
pub open spec fn kernel_grid(grid: (i32, i32, i32), group: (i32, i32, i32)) -> Grid {
    Grid::Checked(
        Dim3 {
            x: max_int(grid.0 as int, 0) as usize,
            y: max_int(grid.1 as int, 0) as usize,
            z: max_int(grid.2 as int, 0) as usize,
        },
        Dim3 {
            x: (if group.0 <= grid.0 {
                group.0
            } else {
                grid.0
            }) as usize,
            y: (if group.1 <= grid.1 {
                group.1
            } else {
                grid.1
            }) as usize,
            z: (if group.2 <= grid.2 {
                group.2
            } else {
                grid.2
            }) as usize,
        },
        saturated(
            saturated((group.0 as usize) as int, (group.1 as usize) as int),
            (group.2 as usize) as int,
        ) as usize,
    )
}

pub open spec fn seen_all(r: Result<Vec<Array>, Error>) -> Outcomes {
    match r {
        Ok(v) => Ok(array_views(v@)),
        Err(e) => Err(e.text()),
    }
}

/// The last steps of an application: the outputs, the arguments, the run.
pub open spec fn run_s(
    k: KernelV,
    t: TapeV,
    xs: Seq<ArrayV>,
    grid: (i32, i32, i32),
    group: (i32, i32, i32),
    outs: Seq<OutputArgV>,
    prealloc: Option<Seq<ArrayV>>,
    program: ProgramV,
) -> (TapeV, Outcomes) {
    let n = outs.len() as int;
    if t.idle {
        let (t1, made) = outputs_made(t, outs, "noop"@, n);
        (t1, Ok(made))
    } else {
        let (t1, made) = match prealloc {
            Some(p) => (t, p.take(n)),
            None => outputs_made(t, outs, "lisa_kernel_out"@, n),
        };
        match unbindable(k, xs, xs.len() as int) {
            Some(i) => (
                t1,
                Err(
                    "kernel "@ + k.name + ": input "@ + k.input_names[i]
                        + " is not contiguous and the kernel declares no strides"@,
                ),
            ),
            None => {
                let args = inputs_args(k, xs, xs.len() as int) + outputs_args(
                    made,
                    slots_before(infos_of(xs), k.shape_infos, xs.len() as int),
                    n,
                );
                (
                    t1.then_do(
                        CmdV::Launch(DispatchV { program, args, grid: kernel_grid(grid, group) }),
                    ),
                    Ok(made),
                )
            },
        }
    }
}

/// The kernel after an application's program is known, and the program. The
/// text goes along only when no program of that name was compiled before.
pub open spec fn program_s(
    k: KernelV,
    args: Seq<TemplateArgV>,
    xs: Seq<InputInfo>,
    ds: Seq<Dtype>,
) -> (KernelV, Result<ProgramV, Seq<char>>) {
    let key = key_of(k.name, args, xs, ds);
    if k.apply_keys.contains_key(key) {
        (k, Ok(known_program(k.name, k.apply_keys[key])))
    } else {
        match unspelled(args, xs, ds) {
            Some(d) => (k, Err(unspelled_message(d))),
            None => {
                let pname = program_name(k.name, args, xs, ds);
                let keys = k.apply_keys.insert(key, pname);
                if k.pipelines.contains(pname) {
                    (KernelV { apply_keys: keys, ..k }, Ok(known_program(k.name, pname)))
                } else {
                    (
                        KernelV { apply_keys: keys, pipelines: k.pipelines.push(pname), ..k },
                        Ok(
                            ProgramV {
                                source: Some(
                                    SourceV {
                                        files: seq![MetalFile::Utils],
                                        text: program_text(k, pname, args, xs, ds),
                                    },
                                ),
                                ..known_program(k.name, pname)
                            },
                        ),
                    )
                }
            },
        }
    }
}

/// A program that was compiled before.
pub open spec fn known_program(owner: Seq<char>, name: Seq<char>) -> ProgramV {
    ProgramV { owner, name, source: None, math: Math::Jit, consts: Seq::empty() }
}

/// An application of a kernel.
pub open spec fn apply_s(
    k: KernelV,
    t: TapeV,
    xs: Seq<ArrayV>,
    args: Seq<TemplateArgV>,
    grid: (i32, i32, i32),
    group: (i32, i32, i32),
    outs: Seq<OutputArgV>,
    prealloc: Option<Seq<ArrayV>>,
) -> (KernelV, TapeV, Outcomes) {
    if xs.len() != k.input_names.len() {
        (
            k,
            t,
            Err(
                "kernel "@ + k.name + ": expected "@ + dec(k.input_names.len()) + (" inputs, got "@
                    + dec(xs.len())),
            ),
        )
    } else {
        let (k1, p) = program_s(k, args, infos_of(xs), types_of(outs));
        match p {
            Err(m) => (k1, t, Err(m)),
            Ok(program) => {
                let (t1, r) = run_s(k1, t, xs, grid, group, outs, prealloc, program);
                (k1, t1, r)
            },
        }
    }
}

fn input_infos(inputs: &[&Array]) -> (v: Vec<InputInfo>)
    requires
        all_wf(ref_views(inputs@)),
    ensures
        v@ == infos_of(ref_views(inputs@)),
{
    let ghost xs = ref_views(inputs@);
    let mut v: Vec<InputInfo> = Vec::new();
    let mut i: usize = 0;
    while i < inputs.len()
        invariant
            i <= inputs.len(),
            xs == ref_views(inputs@),
            all_wf(xs),
            v@ == infos_of(xs).take(i as int),
        decreases inputs.len() - i,
    {
        assert(xs[i as int] == inputs@[i as int]@);
        assert(xs[i as int].wf());
        let a = inputs[i];
        v.push(InputInfo { dtype: a.dtype(), ndim: a.rank(), size: a.elem_count() });
        i += 1;
        assert(v@ =~= infos_of(xs).take(i as int));
    }
    assert(v@ =~= infos_of(xs));
    v
}

fn output_types(outputs: &[OutputArg]) -> (v: Vec<Dtype>)
    ensures
        v@ == types_of(out_list(outputs@)),
{
    let mut v: Vec<Dtype> = Vec::new();
    let mut i: usize = 0;
    while i < outputs.len()
        invariant
            i <= outputs.len(),
            v@ == types_of(out_list(outputs@)).take(i as int),
        decreases outputs.len() - i,
    {
        v.push(outputs[i].dtype);
        i += 1;
        assert(v@ =~= types_of(out_list(outputs@)).take(i as int));
    }
    assert(v@ =~= types_of(out_list(outputs@)));
    v
}

fn to_sizes(shape: &Vec<i32>) -> (v: Vec<usize>)
    ensures
        v@ == sizes_of(shape@),
{
    let mut v: Vec<usize> = Vec::new();
    let mut i: usize = 0;
    while i < shape.len()
        invariant
            i <= shape.len(),
            v@ == sizes_of(shape@).take(i as int),
        decreases shape.len() - i,
    {
        v.push(shape[i] as usize);
        i += 1;
        assert(v@ =~= sizes_of(shape@).take(i as int));
    }
    assert(v@ =~= sizes_of(shape@));
    v
}

fn make_outputs(tape: &mut Tape, outputs: &[OutputArg], label: &'static str) -> (v: Vec<Array>)
    requires
        sound_outputs(out_list(outputs@)),
    ensures
        (final(tape)@, array_views(v@)) == outputs_made(
            old(tape)@,
            out_list(outputs@),
            label@,
            outputs@.len() as int,
        ),
        all_wf(array_views(v@)),
{
    let ghost outs = out_list(outputs@);
    let mut v: Vec<Array> = Vec::new();
    let mut i: usize = 0;
    assert(array_views(v@) =~= Seq::empty());
    while i < outputs.len()
        invariant
            i <= outputs.len(),
            outs == out_list(outputs@),
            sound_outputs(outs),
            (tape@, array_views(v@)) == outputs_made(old(tape)@, outs, label@, i as int),
            all_wf(array_views(v@)),
        decreases outputs.len() - i,
    {
        assert(outs[i as int] == outputs@[i as int]@);
        assert(sound_output(outs[i as int]));
        let shape = to_sizes(&outputs[i].shape);
        let ghost before = array_views(v@);
        let a = Array::make(tape, &shape, outputs[i].dtype, label);
        v.push(a);
        assert(array_views(v@) =~= before.push(a@));
        i += 1;
    }
    v
}

fn copies(v: &[Array], n: usize) -> (r: Vec<Array>)
    requires
        n <= v@.len(),
    ensures
        array_views(r@) == array_views(v@).take(n as int),
{
    let mut r: Vec<Array> = Vec::new();
    let mut i: usize = 0;
    while i < n
        invariant
            i <= n <= v@.len(),
            array_views(r@) == array_views(v@).take(i as int),
        decreases n - i,
    {
        let a = v[i].duplicate();
        let ghost before = array_views(r@);
        r.push(a);
        assert(array_views(r@) =~= before.push(a@));
        i += 1;
        assert(array_views(r@) =~= array_views(v@).take(i as int));
    }
    r
}

/// The product, or the largest size when it is larger.
fn saturate(a: usize, b: usize) -> (r: usize)
    ensures
        r == saturated(a as int, b as int),
{
    match a.checked_mul(b) {
        Some(x) => x,
        None => usize::MAX,
    }
}

fn low(a: i32, b: i32) -> (r: usize)
    ensures
        r == (if a <= b {
            a
        } else {
            b
        }) as usize,
{
    if a <= b {
        a as usize
    } else {
        b as usize
    }
}

fn up_to_zero(a: i32) -> (r: usize)
    ensures
        r == max_int(a as int, 0) as usize,
{
    if a >= 0 {
        a as usize
    } else {
        0
    }
}

fn geometry(grid: (i32, i32, i32), group: (i32, i32, i32)) -> (g: Grid)
    ensures
        g == kernel_grid(grid, group),
{
    let size = saturate(saturate(group.0 as usize, group.1 as usize), group.2 as usize);
    Grid::Checked(
        dim3(up_to_zero(grid.0), up_to_zero(grid.1), up_to_zero(grid.2)),
        dim3(low(group.0, grid.0), low(group.1, grid.1), low(group.2, grid.2)),
        size,
    )
}

proof fn lemma_unbindable_stays(k: KernelV, xs: Seq<ArrayV>, a: int, n: int)
    requires
        0 <= a <= n,
        unbindable(k, xs, a) is Some,
    ensures
        unbindable(k, xs, n) == unbindable(k, xs, a),
    decreases n - a,
{
    if a < n {
        lemma_unbindable_stays(k, xs, a, n - 1);
    }
}

/// Binds an input and what the body reads of its layout; returns the next slot.
fn bind_input(d: &mut Dispatch, a: &Array, info: ShapeInfo, slot: usize) -> (next: usize)
    requires
        a@.wf(),
        slot + 4 <= usize::MAX,
    ensures
        final(d)@ == (DispatchV {
            args: old(d)@.args + input_args(a@, info, slot as int),
            ..old(d)@
        }),
        next == slot + input_slots(info_of(a@), info),
{
    let ghost before = d@.args;
    d.bind(slot, a.input());
    let mut at: usize = slot + 1;
    let rank = a.rank();
    if rank == 0 {
        assert(d@.args =~= before + input_args(a@, info, slot as int));
        return at;
    }
    if info.shape {
        d.bind(at, Arg::I32s(to_i32s(a.shape())));
        at += 1;
    }
    if info.strides {
        d.bind(at, Arg::I64s(to_i64s(a.stride())));
        at += 1;
    }
    if info.ndim {
        d.bind(at, Arg::I32(rank as i32));
        at += 1;
    }
    assert(d@.args =~= before + input_args(a@, info, slot as int));
    at
}

impl MetalKernel {
    /// The program of an application; its text goes along only when no program
    /// of that name was compiled before.
    pub fn pipeline(&mut self, template: &[TemplateArg], xs: &Vec<InputInfo>, ds: &Vec<Dtype>) -> (r:
        Result<Program, Error>)
        requires
            old(self)@.wf(),
            xs@.len() == old(self)@.input_names.len(),
            ds@.len() >= old(self)@.output_names.len(),
        ensures
            final(self)@ == program_s(old(self)@, arg_list(template@), xs@, ds@).0,
            match r {
                Ok(p) => program_s(old(self)@, arg_list(template@), xs@, ds@).1 == Ok::<
                    ProgramV,
                    Seq<char>,
                >(p@),
                Err(e) => program_s(old(self)@, arg_list(template@), xs@, ds@).1 == Err::<
                    ProgramV,
                    Seq<char>,
                >(e.text()),
            },
    {
        broadcast use vstd::std_specs::hash::group_hash_axioms;

        let ghost k = self@;
        let ghost args = arg_list(template@);
        let key = apply_key(&self.name, template, xs, ds);
        match self.apply_keys.get(&key) {
            Some(n) => {
                let p = Program {
                    owner: self.name.clone(),
                    name: n.clone(),
                    source: None,
                    math: Math::Jit,
                    consts: Vec::new(),
                };
                assert(p@ =~= known_program(k.name, k.apply_keys[key]));
                return Ok(p);
            },
            None => {},
        }
        assert(!k.apply_keys.contains_key(key));
        let name = match kernel_name(&self.name, template, xs, ds) {
            Ok(s) => s,
            Err(e) => {
                return Err(e);
            },
        };
        let known = listed(&self.pipelines, &name);
        let source = if known {
            None
        } else {
            match self.program_source(&name, template, xs, ds) {
                Ok(s) => {
                    self.pipelines.push(name.clone());
                    assert(views(self.pipelines@) =~= k.pipelines.push(name@));
                    Some(s)
                },
                Err(e) => {
                    return Err(e);
                },
            }
        };
        self.apply_keys.insert(key, name.clone());
        assert(self@.apply_keys =~= k.apply_keys.insert(key, name@));
        let p = Program {
            owner: self.name.clone(),
            name,
            source,
            math: Math::Jit,
            consts: Vec::new(),
        };
        assert(p@.consts =~= Seq::empty());
        Ok(p)
    }

    /// The text that a program is compiled from.
    fn program_source(
        &self,
        name: &str,
        template: &[TemplateArg],
        xs: &Vec<InputInfo>,
        ds: &Vec<Dtype>,
    ) -> (r: Result<Source, Error>)
        requires
            self@.wf(),
            xs@.len() == self@.input_names.len(),
            ds@.len() >= self@.output_names.len(),
            unspelled(arg_list(template@), xs@, ds@) is None,
        ensures
            r matches Ok(s) && s@ == (SourceV {
                files: seq![MetalFile::Utils],
                text: program_text(self@, name@, arg_list(template@), xs@, ds@),
            }),
    {
        proof {
            if unspelled_output(ds@, self@.output_names.len() as int) is Some {
                lemma_unspelled_output_stays(
                    ds@,
                    self@.output_names.len() as int,
                    ds@.len() as int,
                );
            }
        }
        let mut text = match write_signature(
            name,
            &self.header,
            &self.source,
            &self.input_names,
            xs,
            &self.output_names,
            ds,
            template,
            &self.attributes,
            &self.shape_infos,
            self.atomic_outputs,
        ) {
            Ok(s) => s,
            Err(e) => {
                return Err(e);
            },
        };
        if template.len() > 0 {
            match write_template(template) {
                Ok(t) => {
                    let def = cat2(name, &t);
                    let tail = cat3(") ", &def, ";\n");
                    let line = cat5(
                        "\ntemplate [[host_name(\"",
                        name,
                        "\")]] [[kernel]] decltype(",
                        &def,
                        &tail,
                    );
                    text.append(&line);
                },
                Err(e) => {
                    return Err(e);
                },
            }
        } else {
            text.append("");
        }
        let files = vec![MetalFile::Utils];
        assert(files@ =~= seq![MetalFile::Utils]);
        Ok(Source { files, text })
    }

    /// Applies the kernel: its outputs are made unless they are given, its
    /// arguments bound, and the run recorded.
    pub fn apply(
        &mut self,
        tape: &mut Tape,
        inputs: &[&Array],
        template: &[TemplateArg],
        grid: (i32, i32, i32),
        thread_group: (i32, i32, i32),
        outputs: &[OutputArg],
        prealloc: Option<&[Array]>,
    ) -> (r: Result<Vec<Array>, Error>)
        requires
            old(self)@.wf(),
            all_wf(ref_views(inputs@)),
            outputs@.len() >= old(self)@.output_names.len(),
            inputs@.len() * 4 + outputs@.len() <= usize::MAX,
            sound_outputs(out_list(outputs@)),
            prealloc matches Some(p) ==> p@.len() >= outputs@.len(),
        ensures
            (final(self)@, final(tape)@, seen_all(r)) == apply_s(
                old(self)@,
                old(tape)@,
                ref_views(inputs@),
                arg_list(template@),
                grid,
                thread_group,
                out_list(outputs@),
                match prealloc {
                    Some(p) => Some(array_views(p@)),
                    None => None,
                },
            ),
            final(self)@.wf(),
            (prealloc matches Some(p) ==> all_wf(array_views(p@))) ==> (r matches Ok(v) ==> all_wf(
                array_views(v@),
            )),
    {
        if inputs.len() != self.input_names.len() {
            let n = decimal_usize(self.input_names.len());
            let m = decimal_usize(inputs.len());
            let tail = cat2(" inputs, got ", &m);
            return Err(Error::Msg(cat5("kernel ", &self.name, ": expected ", &n, &tail)));
        }
        let xs = input_infos(inputs);
        let ds = output_types(outputs);
        let program = match self.pipeline(template, &xs, &ds) {
            Ok(p) => p,
            Err(e) => {
                return Err(e);
            },
        };
        self.apply_with_pipeline(tape, inputs, grid, thread_group, outputs, prealloc, program)
    }

    /// The last steps of an application, once its program is known: the
    /// outputs, the arguments, the run.
    pub fn apply_with_pipeline(
        &self,
        tape: &mut Tape,
        inputs: &[&Array],
        grid: (i32, i32, i32),
        thread_group: (i32, i32, i32),
        outputs: &[OutputArg],
        prealloc: Option<&[Array]>,
        program: Program,
    ) -> (r: Result<Vec<Array>, Error>)
        requires
            self@.wf(),
            inputs@.len() == self@.input_names.len(),
            inputs@.len() * 4 + outputs@.len() <= usize::MAX,
            all_wf(ref_views(inputs@)),
            sound_outputs(out_list(outputs@)),
            prealloc matches Some(p) ==> p@.len() >= outputs@.len(),
        ensures
            (final(tape)@, seen_all(r)) == run_s(
                self@,
                old(tape)@,
                ref_views(inputs@),
                grid,
                thread_group,
                out_list(outputs@),
                match prealloc {
                    Some(p) => Some(array_views(p@)),
                    None => None,
                },
                program@,
            ),
            (prealloc matches Some(p) ==> all_wf(array_views(p@))) ==> (r matches Ok(v) ==> all_wf(
                array_views(v@),
            )),
    {
        let ghost xs = ref_views(inputs@);
        let ghost k = self@;
        let ghost infos = infos_of(xs);
        if tape.idle {
            return Ok(make_outputs(tape, outputs, "noop"));
        }
        let made = match prealloc {
            Some(p) => copies(p, outputs.len()),
            None => make_outputs(tape, outputs, "lisa_kernel_out"),
        };
        let ghost t1 = tape@;
        let ghost mv = array_views(made@);
        assert(mv.len() == made@.len());
        proof {
            lemma_outputs_made_len(
                old(tape)@,
                out_list(outputs@),
                "lisa_kernel_out"@,
                outputs@.len() as int,
            );
        }
        let mut d = Dispatch::new(program);
        let mut slot: usize = 0;
        let mut i: usize = 0;
        while i < inputs.len()
            invariant
                i <= inputs.len(),
                xs == ref_views(inputs@),
                k == self@,
                infos == infos_of(xs),
                k.wf(),
                inputs@.len() == k.input_names.len(),
                all_wf(xs),
                slot == slots_before(infos, k.shape_infos, i as int),
                unbindable(k, xs, i as int) is None,
                d@ == (DispatchV {
                    program: program@,
                    args: inputs_args(k, xs, i as int),
                    grid: Grid::Line(0),
                }),
                tape@ == t1,
                !old(tape)@.idle,
                (t1, mv) == (match prealloc {
                    Some(p) => (old(tape)@, array_views(p@).take(outputs@.len() as int)),
                    None => outputs_made(
                        old(tape)@,
                        out_list(outputs@),
                        "lisa_kernel_out"@,
                        outputs@.len() as int,
                    ),
                }),
            decreases inputs.len() - i,
        {
            let a = inputs[i];
            assert(xs[i as int] == a@);
            assert(xs[i as int].wf());
            assert(infos[i as int] == info_of(a@));
            assert(k.input_names[i as int] == self.input_names@[i as int]@);
            proof {
                lemma_slots(infos, k.shape_infos, i as int);
            }
            if !a.is_contiguous() && !self.shape_infos[i].strides {
                proof {
                    lemma_unbindable_stays(k, xs, i + 1, xs.len() as int);
                }
                return Err(
                    Error::Msg(
                        cat5(
                            "kernel ",
                            &self.name,
                            ": input ",
                            &self.input_names[i],
                            " is not contiguous and the kernel declares no strides",
                        ),
                    ),
                );
            }
            slot = bind_input(&mut d, a, self.shape_infos[i], slot);
            i += 1;
        }
        proof {
            lemma_slots(infos, k.shape_infos, xs.len() as int);
        }
        let first = slot;
        let mut j: usize = 0;
        let ghost head = d@.args;
        assert(d@.args =~= head + outputs_args(mv, first as int, 0));
        while j < made.len()
            invariant
                j <= made@.len(),
                mv == array_views(made@),
                first + made@.len() <= usize::MAX,
                made@.len() == outputs@.len(),
                d@ == (DispatchV {
                    program: program@,
                    args: head + outputs_args(mv, first as int, j as int),
                    grid: Grid::Line(0),
                }),
            decreases made.len() - j,
        {
            let ghost before = d@.args;
            assert(mv[j as int] == made@[j as int]@);
            d.bind(first + j, Arg::Output(made[j].buf, 0));
            j += 1;
            assert(d@.args =~= head + outputs_args(mv, first as int, j as int));
        }
        tape.launch(d, geometry(grid, thread_group));
        Ok(made)
    }
}

/// Whether a name is in a list of names.
fn listed(v: &Vec<String>, name: &String) -> (b: bool)
    ensures
        b == views(v@).contains(name@),
{
    let mut i: usize = 0;
    while i < v.len()
        invariant
            i <= v.len(),
            forall|j: int| 0 <= j < i ==> #[trigger] v@[j]@ != name@,
        decreases v.len() - i,
    {
        if v[i] == *name {
            assert(views(v@)[i as int] == name@);
            return true;
        }
        i += 1;
    }
    assert forall|j: int| 0 <= j < views(v@).len() implies views(v@)[j] != name@ by {
        assert(v@[j]@ != name@);
    }
    false
}

/// Once an application has been set up, the same application sends no text and
/// leaves the kernel as it is.
pub proof fn second_application_is_compiled(
    k: KernelV,
    args: Seq<TemplateArgV>,
    xs: Seq<InputInfo>,
    ds: Seq<Dtype>,
)
    requires
        program_s(k, args, xs, ds).1 is Ok,
    ensures
        ({
            let k1 = program_s(k, args, xs, ds).0;
            let again = program_s(k1, args, xs, ds);
            &&& again.0 == k1
            &&& again.1 == Ok::<ProgramV, Seq<char>>(
                ProgramV { source: None, ..program_s(k, args, xs, ds).1->Ok_0 },
            )
        }),
{
}

/// A name is compiled once: the text goes along exactly when the name is new,
/// and from then on the name is known.
pub proof fn text_goes_along_once(
    k: KernelV,
    args: Seq<TemplateArgV>,
    xs: Seq<InputInfo>,
    ds: Seq<Dtype>,
)
    requires
        program_s(k, args, xs, ds).1 is Ok,
        forall|key: u64| #[trigger]
            k.apply_keys.contains_key(key) ==> k.pipelines.contains(k.apply_keys[key]),
    ensures
        ({
            let (k1, p) = program_s(k, args, xs, ds);
            &&& p->Ok_0.source is Some <==> !k.pipelines.contains(p->Ok_0.name)
            &&& k1.pipelines.contains(p->Ok_0.name)
            &&& forall|key: u64| #[trigger]
                k1.apply_keys.contains_key(key) ==> k1.pipelines.contains(k1.apply_keys[key])
        }),
{
    let (k1, p) = program_s(k, args, xs, ds);
    let key = key_of(k.name, args, xs, ds);
    if !k.apply_keys.contains_key(key) {
        let pname = program_name(k.name, args, xs, ds);
        if !k.pipelines.contains(pname) {
            assert(k1.pipelines[k.pipelines.len() as int] == pname);
            assert forall|s: Seq<char>| k.pipelines.contains(s) implies k1.pipelines.contains(
                s,
            ) by {
                let i = choose|i: int| 0 <= i < k.pipelines.len() && k.pipelines[i] == s;
                assert(k1.pipelines[i] == s);
            }
        }
        assert forall|key2: u64| #[trigger]
            k1.apply_keys.contains_key(key2) implies k1.pipelines.contains(
            k1.apply_keys[key2],
        ) by {
            if key2 != key {
                assert(k.apply_keys.contains_key(key2));
            }
        }
    }
}

} // verus!
