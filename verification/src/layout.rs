//! Shapes, strides and what a strided view addresses.

use vstd::prelude::*;

verus! {

// ---- sizes ----

/// The number of elements of a shape.
pub open spec fn numel(s: Seq<usize>) -> nat
    decreases s.len(),
{
    if s.len() == 0 {
        1
    } else {
        numel(s.drop_last()) * (s.last() as nat)
    }
}

/// A size as a factor of the volume: an empty axis counts as one.
pub open spec fn at_least_one(d: usize) -> nat {
    if d == 0 {
        1
    } else {
        d as nat
    }
}

/// The number of elements of a shape when every empty axis is taken as one
/// long; it bounds every partial product of the sizes.
pub open spec fn volume(s: Seq<usize>) -> nat
    decreases s.len(),
{
    if s.len() == 0 {
        1
    } else {
        volume(s.drop_last()) * at_least_one(s.last())
    }
}

/// The products of the leading sizes are numbers of the machine.
pub open spec fn heads_fit(s: Seq<usize>) -> bool {
    forall|i: int| 0 <= i <= s.len() ==> #[trigger] numel(s.take(i)) <= usize::MAX
}

/// The products of the trailing sizes are numbers of the machine.
pub open spec fn tails_fit(s: Seq<usize>) -> bool {
    forall|i: int| 0 <= i <= s.len() ==> #[trigger] numel(s.skip(i)) <= usize::MAX
}

/// The row-major strides of a shape.
pub open spec fn row_major(s: Seq<usize>) -> Seq<nat> {
    Seq::new(s.len(), |i: int| numel(s.skip(i + 1)))
}

// ---- addressing ----

/// A position in an array of the shape.
pub open spec fn in_shape(idx: Seq<int>, shape: Seq<usize>) -> bool {
    &&& idx.len() == shape.len()
    &&& forall|i: int| 0 <= i < idx.len() ==> 0 <= #[trigger] idx[i] < shape[i]
}

/// The sum of the products of positions and strides.
pub open spec fn dot(idx: Seq<int>, strides: Seq<usize>) -> int
    decreases idx.len(),
{
    if idx.len() == 0 || strides.len() == 0 {
        0
    } else {
        dot(idx.drop_last(), strides.drop_last()) + idx.last() * strides.last()
    }
}

/// The distance from the first to the furthest element of a view.
pub open spec fn reach(shape: Seq<usize>, strides: Seq<usize>) -> nat
    decreases shape.len(),
{
    if shape.len() == 0 || strides.len() == 0 {
        0
    } else {
        reach(shape.drop_last(), strides.drop_last()) + ((at_least_one(shape.last()) - 1)
            * strides.last()) as nat
    }
}

/// The position of the `k`-th element in row-major order.
pub open spec fn unravel(shape: Seq<usize>, k: int) -> Seq<int>
    decreases shape.len(),
{
    if shape.len() == 0 {
        Seq::empty()
    } else {
        unravel(shape.drop_last(), k / (shape.last() as int)).push(k % (shape.last() as int))
    }
}

/// Whether some axis of the shape is empty.
pub open spec fn is_void(shape: Seq<usize>) -> bool {
    exists|i: int| 0 <= i < shape.len() && #[trigger] shape[i] == 0
}

/// What a layout is: a shape, a stride per axis and the first element's place,
/// all in elements.
#[verifier::ext_equal]
pub ghost struct LayoutV {
    pub shape: Seq<usize>,
    pub strides: Seq<usize>,
    pub offset: usize,
}

impl LayoutV {
    /// One stride per axis.
    pub open spec fn wf(self) -> bool {
        self.shape.len() == self.strides.len()
    }

    /// The place of the element at a position.
    pub open spec fn at(self, idx: Seq<int>) -> int {
        self.offset + dot(idx, self.strides)
    }

    /// Every element lies in a store of `cap` elements.
    pub open spec fn inside(self, cap: int) -> bool {
        is_void(self.shape) || self.offset + reach(self.shape, self.strides) < cap
    }

    /// Row-major, with the stride of an axis of size one left open.
    pub open spec fn dense(self) -> bool {
        forall|i: int|
            0 <= i < self.shape.len() ==> #[trigger] self.shape[i] == 1 || self.strides[i]
                == row_major(self.shape)[i]
    }
}

/// The row-major layout of a shape.
pub open spec fn packed(shape: Seq<usize>) -> LayoutV {
    LayoutV {
        shape,
        strides: Seq::new(shape.len(), |i: int| row_major(shape)[i] as usize),
        offset: 0,
    }
}

// ---- lemmas on sizes ----

pub proof fn lemma_numel_front(s: Seq<usize>)
    requires
        s.len() > 0,
    ensures
        numel(s) == (s[0] as nat) * numel(s.skip(1)),
    decreases s.len(),
{
    if s.len() == 1 {
        assert(s.drop_last() =~= Seq::<usize>::empty());
        assert(s.skip(1) =~= Seq::<usize>::empty());
        assert(numel(s.drop_last()) == 1);
        assert(1 * (s[0] as nat) == (s[0] as nat) * 1) by (nonlinear_arith);
    } else {
        lemma_numel_front(s.drop_last());
        assert(s.drop_last().skip(1) =~= s.skip(1).drop_last());
        let a = s[0] as nat;
        let b = numel(s.skip(1).drop_last());
        let c = s.last() as nat;
        assert((a * b) * c == a * (b * c)) by (nonlinear_arith);
    }
}

pub proof fn lemma_volume_front(s: Seq<usize>)
    requires
        s.len() > 0,
    ensures
        volume(s) == at_least_one(s[0]) * volume(s.skip(1)),
    decreases s.len(),
{
    if s.len() == 1 {
        assert(s.drop_last() =~= Seq::<usize>::empty());
        assert(s.skip(1) =~= Seq::<usize>::empty());
        let a = at_least_one(s[0]);
        assert(1 * a == a * 1) by (nonlinear_arith);
    } else {
        lemma_volume_front(s.drop_last());
        assert(s.drop_last().skip(1) =~= s.skip(1).drop_last());
        let a = at_least_one(s[0]);
        let b = volume(s.skip(1).drop_last());
        let c = at_least_one(s.last());
        assert((a * b) * c == a * (b * c)) by (nonlinear_arith);
    }
}

/// The volume is positive and bounds the number of elements.
pub proof fn lemma_volume_bounds(s: Seq<usize>)
    ensures
        volume(s) >= 1,
        numel(s) <= volume(s),
    decreases s.len(),
{
    if s.len() > 0 {
        lemma_volume_bounds(s.drop_last());
        let a = numel(s.drop_last());
        let v = volume(s.drop_last());
        let d = s.last() as nat;
        let w = at_least_one(s.last());
        assert(a * d <= v * w && v * w >= 1) by (nonlinear_arith)
            requires
                a <= v,
                d <= w,
                v >= 1,
                w >= 1,
        ;
    }
}

/// The volume of a tail is no larger than that of the whole.
pub proof fn lemma_volume_skip(s: Seq<usize>, i: int)
    requires
        0 <= i <= s.len(),
    ensures
        volume(s.skip(i)) <= volume(s),
    decreases i,
{
    if i > 0 {
        lemma_volume_skip(s, i - 1);
        let t = s.skip(i - 1);
        lemma_volume_front(t);
        assert(t.skip(1) =~= s.skip(i));
        let a = at_least_one(t[0]);
        let b = volume(s.skip(i));
        assert(b <= a * b) by (nonlinear_arith)
            requires
                a >= 1,
        ;
    } else {
        assert(s.skip(0) =~= s);
    }
}

/// The volume of a head is no larger than that of the whole.
pub proof fn lemma_volume_take(s: Seq<usize>, i: int)
    requires
        0 <= i <= s.len(),
    ensures
        volume(s.take(i)) <= volume(s),
    decreases s.len() - i,
{
    if i < s.len() {
        lemma_volume_take(s, i + 1);
        assert(s.take(i + 1).drop_last() =~= s.take(i));
        let a = at_least_one(s[i]);
        let b = volume(s.take(i));
        assert(b <= b * a) by (nonlinear_arith)
            requires
                a >= 1,
        ;
    } else {
        assert(s.take(i) =~= s);
    }
}

/// Where the volume is a number of the machine, so is every partial product.
pub proof fn lemma_small_volume(s: Seq<usize>)
    requires
        volume(s) <= usize::MAX,
    ensures
        heads_fit(s),
        tails_fit(s),
{
    assert forall|i: int| 0 <= i <= s.len() implies #[trigger] numel(s.take(i)) <= usize::MAX by {
        lemma_volume_take(s, i);
        lemma_volume_bounds(s.take(i));
    }
    assert forall|i: int| 0 <= i <= s.len() implies #[trigger] numel(s.skip(i)) <= usize::MAX by {
        lemma_volume_skip(s, i);
        lemma_volume_bounds(s.skip(i));
    }
}

/// No axis is longer than the volume.
pub proof fn lemma_axis_bound(s: Seq<usize>, i: int)
    requires
        0 <= i < s.len(),
    ensures
        s[i] <= volume(s),
{
    lemma_volume_take(s, i + 1);
    assert(s.take(i + 1).drop_last() =~= s.take(i));
    lemma_volume_bounds(s.take(i));
    let a = volume(s.take(i));
    let b = at_least_one(s[i]);
    assert(b <= a * b) by (nonlinear_arith)
        requires
            a >= 1,
    ;
}

pub proof fn lemma_numel_skip_step(s: Seq<usize>, i: int)
    requires
        0 <= i < s.len(),
    ensures
        numel(s.skip(i)) == (s[i] as nat) * numel(s.skip(i + 1)),
{
    lemma_numel_front(s.skip(i));
    assert(s.skip(i).skip(1) =~= s.skip(i + 1));
}

pub proof fn lemma_numel_take_step(s: Seq<usize>, i: int)
    requires
        0 <= i < s.len(),
    ensures
        numel(s.take(i + 1)) == numel(s.take(i)) * (s[i] as nat),
{
    assert(s.take(i + 1).drop_last() =~= s.take(i));
}

/// A shape has no elements exactly when some axis is empty; otherwise its
/// volume is its number of elements.
pub proof fn lemma_numel_zero(s: Seq<usize>)
    ensures
        numel(s) == 0 <==> is_void(s),
        !is_void(s) ==> numel(s) == volume(s),
    decreases s.len(),
{
    if s.len() > 0 {
        let t = s.drop_last();
        lemma_numel_zero(t);
        let a = numel(t);
        let d = s.last() as nat;
        assert(a * d == 0 <==> a == 0 || d == 0) by (nonlinear_arith);
        if is_void(t) {
            let i = choose|i: int| 0 <= i < t.len() && #[trigger] t[i] == 0;
            assert(s[i] == 0);
        }
        if s.last() == 0 {
            assert(s[s.len() - 1] == 0);
        }
        if is_void(s) && s.last() != 0 {
            let i = choose|i: int| 0 <= i < s.len() && #[trigger] s[i] == 0;
            assert(t[i] == 0);
        }
    }
}

pub proof fn lemma_numel_one(d: usize)
    ensures
        numel(seq![d]) == d,
        volume(seq![d]) == at_least_one(d),
{
    let s = seq![d];
    assert(s.drop_last() =~= Seq::<usize>::empty());
    assert(numel(Seq::<usize>::empty()) == 1);
    assert(volume(Seq::<usize>::empty()) == 1);
    let n = d as nat;
    assert(1 * n == n) by (nonlinear_arith);
    let w = at_least_one(d);
    assert(1 * w == w) by (nonlinear_arith);
}

// ---- the executable layout ----

/// Shape, element strides and element offset.
pub struct Layout {
    pub shape: Vec<usize>,
    pub strides: Vec<usize>,
    pub offset: usize,
}

impl View for Layout {
    type V = LayoutV;

    open spec fn view(&self) -> LayoutV {
        LayoutV { shape: self.shape@, strides: self.strides@, offset: self.offset }
    }
}

/// A copy of a list of sizes.
pub fn copy_sizes(v: &[usize]) -> (r: Vec<usize>)
    ensures
        r@ == v@,
{
    let mut r: Vec<usize> = Vec::new();
    let mut i: usize = 0;
    while i < v.len()
        invariant
            i <= v.len(),
            r@ == v@.take(i as int),
        decreases v.len() - i,
    {
        r.push(v[i]);
        assert(v@.take(i + 1) =~= v@.take(i as int).push(v@[i as int]));
        i += 1;
    }
    assert(v@.take(v@.len() as int) =~= v@);
    r
}

/// The product of the sizes.
pub fn product(s: &[usize]) -> (n: usize)
    requires
        heads_fit(s@),
    ensures
        n == numel(s@),
{
    let mut n: usize = 1;
    let mut i: usize = 0;
    while i < s.len()
        invariant
            i <= s.len(),
            heads_fit(s@),
            n == numel(s@.take(i as int)),
        decreases s.len() - i,
    {
        proof {
            lemma_numel_take_step(s@, i as int);
            assert(numel(s@.take(i + 1)) <= usize::MAX);
        }
        n = n * s[i];
        i += 1;
    }
    assert(s@.take(s@.len() as int) =~= s@);
    n
}

impl Layout {
    /// The row-major layout of `shape`.
    pub fn contiguous(shape: &[usize]) -> (l: Layout)
        requires
            tails_fit(shape@),
        ensures
            l@ == packed(shape@),
            l@.wf(),
            forall|i: int| 0 <= i < shape@.len() ==> #[trigger] l@.strides[i] == row_major(shape@)[i],
    {
        let mut strides: Vec<usize> = Vec::new();
        let mut j: usize = 0;
        while j < shape.len()
            invariant
                j <= shape.len(),
                strides.len() == j,
            decreases shape.len() - j,
        {
            strides.push(0);
            j += 1;
        }
        let mut acc: usize = 1;
        let mut i: usize = shape.len();
        assert(shape@.skip(shape@.len() as int) =~= Seq::<usize>::empty());
        while i > 0
            invariant
                i <= shape.len(),
                strides.len() == shape.len(),
                tails_fit(shape@),
                acc == numel(shape@.skip(i as int)),
                forall|k: int| i <= k < shape@.len() ==> #[trigger] strides@[k] == row_major(shape@)[k],
            decreases i,
        {
            i -= 1;
            strides.set(i, acc);
            proof {
                lemma_numel_skip_step(shape@, i as int);
                assert(numel(shape@.skip(i as int)) <= usize::MAX);
                assert(shape@[i as int] as nat * numel(shape@.skip(i + 1)) == acc * shape@[i as int])
                    by (nonlinear_arith)
                    requires
                        acc == numel(shape@.skip(i + 1)),
                ;
            }
            acc = acc * shape[i];
        }
        let l = Layout { shape: copy_sizes(shape), strides, offset: 0 };
        assert(l@.strides =~= packed(shape@).strides);
        l
    }

    /// The number of elements.
    pub fn size(&self) -> (n: usize)
        requires
            heads_fit(self@.shape),
        ensures
            n == numel(self@.shape),
    {
        product(&self.shape)
    }

    /// The number of axes.
    pub fn rank(&self) -> (n: usize)
        ensures
            n == self@.shape.len(),
    {
        self.shape.len()
    }

    /// The element strides.
    pub fn stride(&self) -> (s: &[usize])
        ensures
            s@ == self@.strides,
    {
        &self.strides
    }

    /// The shape.
    pub fn shape(&self) -> (s: &[usize])
        ensures
            s@ == self@.shape,
    {
        &self.shape
    }

    /// The place of the first element.
    pub fn start_offset(&self) -> (n: usize)
        ensures
            n == self@.offset,
    {
        self.offset
    }

    /// Whether the layout is row-major; the stride of an axis of size one does
    /// not matter.
    pub fn is_contiguous(&self) -> (b: bool)
        requires
            self@.wf(),
            tails_fit(self@.shape),
        ensures
            b == self@.dense(),
    {
        let ghost s = self.shape@;
        let mut expected: usize = 1;
        let mut i: usize = self.shape.len();
        assert(s.skip(s.len() as int) =~= Seq::<usize>::empty());
        while i > 0
            invariant
                i <= self.shape.len(),
                s == self.shape@,
                self@.wf(),
                tails_fit(s),
                expected == numel(s.skip(i as int)),
                forall|k: int|
                    i <= k < s.len() ==> #[trigger] s[k] == 1 || self.strides@[k] == row_major(s)[k],
            decreases i,
        {
            i -= 1;
            let d = self.shape[i];
            if d != 1 && self.strides[i] != expected {
                assert(s[i as int] != 1 && self.strides@[i as int] != row_major(s)[i as int]);
                return false;
            }
            proof {
                lemma_numel_skip_step(s, i as int);
                assert(numel(s.skip(i as int)) <= usize::MAX);
                assert(s[i as int] as nat * numel(s.skip(i + 1)) == expected * d) by (nonlinear_arith)
                    requires
                        expected == numel(s.skip(i + 1)),
                        d == s[i as int],
                ;
            }
            expected = expected * d;
        }
        true
    }

    /// A copy of the layout.
    pub fn duplicate(&self) -> (l: Layout)
        ensures
            l@ == self@,
    {
        Layout {
            shape: copy_sizes(&self.shape),
            strides: copy_sizes(&self.strides),
            offset: self.offset,
        }
    }
}

} // verus!
