//! Small argument fields, kept in the order in which they were written.

use vstd::prelude::*;

use crate::collapse::{
    collapse_contiguous_dims, collapse_default_cap, collapsed_shape, collapsed_strides,
    collapsible, stride_views,
};
use crate::tape::{Arg, ArgV, Dispatch, DispatchV};
use crate::words::{
    i32_words, i64_words, le32, le32s, le64s, push_le32, push_le32s, push_le64s, to_i32s, to_i64s,
};

verus! {

/// Fields of bytes that are bound to consecutive argument slots.
pub struct ByteBlob {
    buf: Vec<u8>,
    fields: Vec<(usize, usize)>,
}

impl View for ByteBlob {
    type V = Seq<Seq<u8>>;

    /// The contents of each field.
    closed spec fn view(&self) -> Seq<Seq<u8>> {
        self.fields@.map_values(|f: (usize, usize)| self.buf@.subrange(f.0 as int, f.0 + f.1))
    }
}

/// The arguments that bind fields to consecutive slots.
pub open spec fn field_args(fields: Seq<Seq<u8>>, base: usize) -> Seq<(usize, ArgV)> {
    Seq::new(fields.len(), |i: int| ((base + i) as usize, ArgV::Bytes(fields[i])))
}

/// A copy of a stretch of bytes.
fn copy_bytes(v: &Vec<u8>, from: usize, len: usize) -> (r: Vec<u8>)
    requires
        from + len <= v@.len(),
    ensures
        r@ == v@.subrange(from as int, from + len),
{
    let mut r: Vec<u8> = Vec::new();
    let mut i: usize = 0;
    while i < len
        invariant
            i <= len,
            from + len <= v.len(),
            r@ == v@.subrange(from as int, from + i),
        decreases len - i,
    {
        r.push(v[from + i]);
        i += 1;
        assert(r@ =~= v@.subrange(from as int, from + i));
    }
    r
}

impl ByteBlob {
    /// The fields lie one after the other and fill the buffer.
    pub closed spec fn wf(self) -> bool {
        let n = self.fields@.len() as int;
        &&& forall|i: int|
            0 <= i < n ==> (#[trigger] self.fields@[i]).0 + self.fields@[i].1 <= self.buf@.len()
        &&& n == 0 ==> self.buf@.len() == 0
        &&& n > 0 ==> self.fields@[0].0 == 0 && self.fields@[n - 1].0 + self.fields@[n - 1].1
            == self.buf@.len()
        &&& forall|i: int, j: int|
            0 <= i && j == i + 1 && j < n ==> (#[trigger] self.fields@[i]).0 + self.fields@[i].1
                == (#[trigger] self.fields@[j]).0
    }

    /// No fields.
    pub fn new() -> (b: ByteBlob)
        ensures
            b.wf(),
            b@ == Seq::<Seq<u8>>::empty(),
    {
        let b = ByteBlob { buf: Vec::new(), fields: Vec::new() };
        assert(b@ =~= Seq::<Seq<u8>>::empty());
        b
    }

    /// Appends a field.
    fn push(&mut self, bytes: Vec<u8>)
        requires
            old(self).wf(),
        ensures
            final(self).wf(),
            final(self)@ == old(self)@.push(bytes@),
    {
        let start = self.buf.len();
        let len = bytes.len();
        let mut b = bytes;
        self.fields.push((start, len));
        self.buf.append(&mut b);
        proof {
            let o = *old(self);
            assert(self.buf@ =~= o.buf@ + bytes@);
            assert forall|i: int| 0 <= i < self@.len() implies self@[i] =~= old(self)@.push(
                bytes@,
            )[i] by {
                if i < o.fields@.len() {
                    assert(self.fields@[i] == o.fields@[i]);
                    assert(o.fields@[i].0 + o.fields@[i].1 <= o.buf@.len());
                }
            }
            assert(self@ =~= old(self)@.push(bytes@));
            assert forall|i: int| 0 <= i < self.fields@.len() implies (#[trigger] self.fields@[i]).0
                + self.fields@[i].1 <= self.buf@.len() by {
                if i < o.fields@.len() {
                    assert(o.fields@[i].0 + o.fields@[i].1 <= o.buf@.len());
                }
            }
            assert forall|i: int, j: int|
                0 <= i && j == i + 1 && j < self.fields@.len() implies (#[trigger] self.fields@[i]).0
                + self.fields@[i].1 == (#[trigger] self.fields@[j]).0 by {
                if j < o.fields@.len() {
                    assert(o.fields@[i].0 + o.fields@[i].1 == o.fields@[j].0);
                }
            }
            if o.fields@.len() > 0 {
                assert(self.fields@[0] == o.fields@[0]);
            }
        }
    }

    /// Appends a 32-bit word.
    pub fn i32(&mut self, v: i32)
        requires
            old(self).wf(),
        ensures
            final(self).wf(),
            final(self)@ == old(self)@.push(le32(v)),
    {
        let mut b: Vec<u8> = Vec::new();
        push_le32(&mut b, v);
        assert(b@ =~= le32(v));
        self.push(b);
    }

    /// Appends a list of 32-bit words as one field.
    pub fn i32s(&mut self, vs: &[i32])
        requires
            old(self).wf(),
        ensures
            final(self).wf(),
            final(self)@ == old(self)@.push(le32s(vs@)),
    {
        let mut b: Vec<u8> = Vec::new();
        push_le32s(&mut b, vs);
        assert(b@ =~= le32s(vs@));
        self.push(b);
    }

    /// Appends a list of 64-bit words as one field.
    pub fn i64s(&mut self, vs: &[i64])
        requires
            old(self).wf(),
        ensures
            final(self).wf(),
            final(self)@ == old(self)@.push(le64s(vs@)),
    {
        let mut b: Vec<u8> = Vec::new();
        push_le64s(&mut b, vs);
        assert(b@ =~= le64s(vs@));
        self.push(b);
    }

    /// The number of fields.
    pub fn len_fields(&self) -> (n: usize)
        ensures
            n == self@.len(),
    {
        self.fields.len()
    }

    /// Binds the fields to the slots from `base` on.
    pub fn bind(&self, d: &mut Dispatch, base: usize)
        requires
            self.wf(),
            base + self@.len() <= usize::MAX,
        ensures
            final(d)@ == (DispatchV { args: old(d)@.args + field_args(self@, base), ..old(d)@ }),
    {
        let mut i: usize = 0;
        assert(d@.args =~= old(d)@.args + field_args(self@, base).take(0));
        while i < self.fields.len()
            invariant
                i <= self.fields.len(),
                self.wf(),
                base + self@.len() <= usize::MAX,
                self@.len() == self.fields@.len(),
                d@ == (DispatchV {
                    args: old(d)@.args + field_args(self@, base).take(i as int),
                    ..old(d)@
                }),
            decreases self.fields.len() - i,
        {
            let (off, len) = self.fields[i];
            assert(self.fields@[i as int].0 + self.fields@[i as int].1 <= self.buf@.len());
            let field = copy_bytes(&self.buf, off, len);
            assert(field@ == self@[i as int]);
            d.bind(base + i, Arg::Bytes(field));
            assert(d@.args =~= old(d)@.args + field_args(self@, base).take(i + 1));
            i += 1;
        }
        assert(field_args(self@, base).take(self@.len() as int) =~= field_args(self@, base));
    }
}

impl Default for ByteBlob {
    fn default() -> (b: ByteBlob)
        ensures
            b.wf(),
            b@ == Seq::<Seq<u8>>::empty(),
    {
        ByteBlob::new()
    }
}

/// A shape and its strides as fields: the number of axes but two, the sizes,
/// the strides.
pub open spec fn operand_fields(shape: Seq<usize>, strides: Seq<usize>) -> Seq<Seq<u8>> {
    seq![
        le32((shape.len() as i32 - 2) as i32),
        le32s(i32_words(shape)),
        le64s(i64_words(strides)),
    ]
}

/// The fields of a quantized product: those of the input and of the weight,
/// then the strides of the scales and of the biases.
pub fn add_strides_and_shapes(
    x: (&[usize], &[usize]),
    w: (&[usize], &[usize]),
    scales_strides: &[usize],
    biases_strides: Option<&[usize]>,
) -> (b: ByteBlob)
    requires
        x.0@.len() <= i32::MAX,
        w.0@.len() <= i32::MAX,
    ensures
        b.wf(),
        b@ == operand_fields(x.0@, x.1@) + operand_fields(w.0@, w.1@) + seq![
            le64s(i64_words(scales_strides@)),
        ] + (match biases_strides {
            Some(bs) => seq![le64s(i64_words(bs@))],
            None => Seq::empty(),
        }),
{
    let mut b = ByteBlob::new();
    b.i32(x.0.len() as i32 - 2);
    b.i32s(&to_i32s(x.0));
    b.i64s(&to_i64s(x.1));
    assert(b@ =~= operand_fields(x.0@, x.1@));
    b.i32(w.0.len() as i32 - 2);
    b.i32s(&to_i32s(w.0));
    b.i64s(&to_i64s(w.1));
    b.i64s(&to_i64s(scales_strides));
    assert(b@ =~= operand_fields(x.0@, x.1@) + operand_fields(w.0@, w.1@) + seq![
        le64s(i64_words(scales_strides@)),
    ]);
    match biases_strides {
        Some(bs) => {
            b.i64s(&to_i64s(bs));
        },
        None => {},
    }
    assert(b@ =~= operand_fields(x.0@, x.1@) + operand_fields(w.0@, w.1@) + seq![
        le64s(i64_words(scales_strides@)),
    ] + (match biases_strides {
        Some(bs) => seq![le64s(i64_words(bs@))],
        None => Seq::empty(),
    }));
    b
}

/// The two layouts of gather indices.
pub open spec fn gather_layouts(lhs: Seq<usize>, rhs: Seq<usize>) -> Seq<Seq<i64>> {
    seq![i64_words(lhs), i64_words(rhs)]
}

/// The fields of gather indices: the shape of the left side, collapsed along
/// both layouts and preceded by its number of axes, and the collapsed strides of
/// both.
pub open spec fn gather_fields(shape: Seq<usize>, lhs: Seq<usize>, rhs: Seq<usize>) -> Seq<Seq<u8>> {
    let s = i32_words(shape);
    let both = gather_layouts(lhs, rhs);
    let c = collapsed_shape(s, both, 0x7fff_ffff);
    seq![
        le32(c.len() as i32),
        le32s(c),
        le64s(collapsed_strides(s, both, 0x7fff_ffff, 0)),
        le64s(collapsed_strides(s, both, 0x7fff_ffff, 1)),
    ]
}

/// The fields of gather indices are four: of what the shape and the two layouts
/// collapse to, the number of axes, the sizes, and the strides of either side, in
/// this order.
pub proof fn gather_fields_hold_what_collapses(
    shape: Seq<usize>,
    lhs: Seq<usize>,
    rhs: Seq<usize>,
    s: Seq<i32>,
    t: Seq<Seq<i64>>,
)
    requires
        s == collapsed_shape(i32_words(shape), gather_layouts(lhs, rhs), 0x7fff_ffff),
        t.len() == 2,
        forall|j: int|
            0 <= j < 2 ==> #[trigger] t[j] == collapsed_strides(
                i32_words(shape),
                gather_layouts(lhs, rhs),
                0x7fff_ffff,
                j,
            ),
    ensures
        gather_fields(shape, lhs, rhs) == seq![
            le32(s.len() as i32),
            le32s(s),
            le64s(t[0]),
            le64s(t[1]),
        ],
        gather_fields(shape, lhs, rhs)[1].len() == 4 * s.len(),
        gather_fields(shape, lhs, rhs)[2].len() == 8 * t[0].len(),
        gather_fields(shape, lhs, rhs)[3].len() == 8 * t[1].len(),
{
    crate::words::le32s_len(s);
    crate::words::le64s_len(t[0]);
    crate::words::le64s_len(t[1]);
}

/// Writes the fields of gather indices; the shape of the right side does not
/// matter.
pub fn add_gather_strides_and_shapes(
    lhs: (&[usize], &[usize]),
    rhs: (&[usize], &[usize]),
) -> (b: ByteBlob)
    requires
        lhs.0@.len() <= i32::MAX,
        collapsible(i32_words(lhs.0@), gather_layouts(lhs.1@, rhs.1@), 0x7fff_ffff),
    ensures
        b.wf(),
        b@ == gather_fields(lhs.0@, lhs.1@, rhs.1@),
{
    let shape = to_i32s(lhs.0);
    let mut both: Vec<Vec<i64>> = Vec::new();
    both.push(to_i64s(lhs.1));
    both.push(to_i64s(rhs.1));
    assert(stride_views(both@) =~= gather_layouts(lhs.1@, rhs.1@));
    let (shape, strides) = collapse_contiguous_dims(&shape, &both, collapse_default_cap());
    let mut b = ByteBlob::new();
    b.i32(shape.len() as i32);
    b.i32s(&shape);
    b.i64s(&strides[0]);
    b.i64s(&strides[1]);
    proof {
        assert(b@ =~= gather_fields(lhs.0@, lhs.1@, rhs.1@));
    }
    b
}

} // verus!
