//! Logical row schemas and the physical byte layout derived from them.
//!
//! A [`RowLayout`] is an ordered list of columns, each with a [`ColumnType`]
//! and a nullability flag.  A [`NativeLayout`] gives every column a byte
//! offset inside a row buffer, every nullable column a null-flag byte, and
//! the buffer an overall size and alignment.  Offsets respect each column
//! type's alignment, never overlap, and stay inside the buffer; those facts
//! are the layout contract that the row marshalling code builds on.

use vstd::prelude::*;

verus! {

/// Identifier of a row schema inside a [`LayoutCache`].  Two distinct
/// schemas never share an id, and an id is stable for the cache's lifetime.
pub type LayoutId = usize;

/// The type of one column of a row.
#[derive(Clone, Copy, Debug, PartialEq, Eq, Structural)]
pub enum ColumnType {
    Unit,
    U8,
    I8,
    U16,
    I16,
    U32,
    I32,
    U64,
    I64,
    Usize,
    Isize,
    F32,
    F64,
    Bool,
    Date,
    Timestamp,
    String,
    Decimal,
    Ptr,
}

/// Size in bytes of a column's value payload inside a row buffer.
pub open spec fn spec_col_size(t: ColumnType) -> nat {
    match t {
        ColumnType::Unit => 0,
        ColumnType::U8 | ColumnType::I8 | ColumnType::Bool => 1,
        ColumnType::U16 | ColumnType::I16 => 2,
        ColumnType::U32 | ColumnType::I32 | ColumnType::F32 | ColumnType::Date => 4,
        ColumnType::U64 | ColumnType::I64 | ColumnType::Usize | ColumnType::Isize
            | ColumnType::F64 | ColumnType::Timestamp | ColumnType::String
            | ColumnType::Ptr => 8,
        ColumnType::Decimal => 16,
    }
}

/// Alignment in bytes of a column's value payload.
pub open spec fn spec_col_align(t: ColumnType) -> nat {
    match t {
        ColumnType::Unit => 1,
        ColumnType::U8 | ColumnType::I8 | ColumnType::Bool => 1,
        ColumnType::U16 | ColumnType::I16 => 2,
        ColumnType::U32 | ColumnType::I32 | ColumnType::F32 | ColumnType::Date => 4,
        _ => 8,
    }
}

/// Byte size of a column's payload.
pub fn col_size(t: ColumnType) -> (r: usize)
    ensures
        r == spec_col_size(t),
{
    match t {
        ColumnType::Unit => 0,
        ColumnType::U8 | ColumnType::I8 | ColumnType::Bool => 1,
        ColumnType::U16 | ColumnType::I16 => 2,
        ColumnType::U32 | ColumnType::I32 | ColumnType::F32 | ColumnType::Date => 4,
        ColumnType::Decimal => 16,
        _ => 8,
    }
}

/// Byte alignment of a column's payload.
pub fn col_align(t: ColumnType) -> (r: usize)
    ensures
        r == spec_col_align(t),
{
    match t {
        ColumnType::Unit | ColumnType::U8 | ColumnType::I8 | ColumnType::Bool => 1,
        ColumnType::U16 | ColumnType::I16 => 2,
        ColumnType::U32 | ColumnType::I32 | ColumnType::F32 | ColumnType::Date => 4,
        _ => 8,
    }
}

/// A logical row schema: an ordered list of `(column type, nullable)` pairs.
#[derive(Clone, Debug)]
pub struct RowLayout {
    pub cols: Vec<(ColumnType, bool)>,
}

impl RowLayout {
    pub fn new() -> (r: RowLayout)
        ensures
            r.cols@.len() == 0,
    {
        RowLayout { cols: Vec::new() }
    }

    /// Appends one column to the schema.
    pub fn with_column(self, ty: ColumnType, nullable: bool) -> (r: RowLayout)
        ensures
            r.cols@ == self.cols@.push((ty, nullable)),
    {
        let mut cols = self.cols;
        cols.push((ty, nullable));
        RowLayout { cols }
    }

    pub fn len(&self) -> (r: usize)
        ensures
            r == self.cols@.len(),
    {
        self.cols.len()
    }

    pub fn column_type(&self, column: usize) -> (r: ColumnType)
        requires
            column < self.cols@.len(),
        ensures
            r == self.cols@[column as int].0,
    {
        self.cols[column].0
    }

    pub fn column_nullable(&self, column: usize) -> (r: bool)
        requires
            column < self.cols@.len(),
        ensures
            r == self.cols@[column as int].1,
    {
        self.cols[column].1
    }
}

/// `x` rounded up to the next multiple of `a`.
pub open spec fn spec_round_up(x: int, a: int) -> int {
    if x % a == 0 {
        x
    } else {
        x + (a - x % a)
    }
}

proof fn lemma_round_up(x: int, a: int)
    requires
        0 <= x,
        1 <= a,
    ensures
        x <= spec_round_up(x, a) < x + a,
        spec_round_up(x, a) % a == 0,
{
    let r = x % a;
    assert(0 <= r < a) by {
        vstd::arithmetic::div_mod::lemma_mod_bound(x, a);
    }
    if r != 0 {
        assert((x + (a - r)) % a == 0) by {
            vstd::arithmetic::div_mod::lemma_add_mod_noop(x, a - r, a);
            vstd::arithmetic::div_mod::lemma_small_mod((a - r) as nat, a as nat);
            vstd::arithmetic::div_mod::lemma_mod_self_0(a);
            assert((x % a + (a - r) % a) % a == a % a);
        }
    }
}

/// Data offset just past the first `n` columns, with each column placed at
/// its aligned offset in declaration order.
pub open spec fn spec_data_end(cols: Seq<(ColumnType, bool)>, n: int) -> int
    decreases n,
{
    if n <= 0 {
        0
    } else {
        let prev = spec_data_end(cols, n - 1);
        let t = cols[n - 1].0;
        spec_round_up(prev, spec_col_align(t) as int) + spec_col_size(t)
    }
}

/// Aligned payload offset of column `i`.
pub open spec fn spec_offset_of(cols: Seq<(ColumnType, bool)>, i: int) -> int {
    spec_round_up(spec_data_end(cols, i), spec_col_align(cols[i].0) as int)
}

/// How many of the first `n` columns are nullable; also the index of the
/// null-flag byte assigned to column `n` when column `n` is nullable.
pub open spec fn spec_nulls_before(cols: Seq<(ColumnType, bool)>, n: int) -> int
    decreases n,
{
    if n <= 0 {
        0
    } else {
        spec_nulls_before(cols, n - 1) + if cols[n - 1].1 {
            1int
        } else {
            0int
        }
    }
}

proof fn lemma_data_end_nonneg(cols: Seq<(ColumnType, bool)>, n: int)
    ensures
        0 <= spec_data_end(cols, n),
    decreases n,
{
    if n > 0 {
        lemma_data_end_nonneg(cols, n - 1);
        lemma_round_up(spec_data_end(cols, n - 1), spec_col_align(cols[n - 1].0) as int);
    }
}

proof fn lemma_data_end_monotone(cols: Seq<(ColumnType, bool)>, i: int, j: int)
    requires
        0 <= i <= j,
    ensures
        spec_data_end(cols, i) <= spec_data_end(cols, j),
    decreases j - i,
{
    if i < j {
        lemma_data_end_monotone(cols, i, j - 1);
        lemma_data_end_nonneg(cols, j - 1);
        lemma_round_up(spec_data_end(cols, j - 1), spec_col_align(cols[j - 1].0) as int)
    }
}

proof fn lemma_nulls_before_monotone(cols: Seq<(ColumnType, bool)>, i: int, j: int)
    requires
        0 <= i <= j,
    ensures
        spec_nulls_before(cols, i) <= spec_nulls_before(cols, j),
        spec_nulls_before(cols, j) <= spec_nulls_before(cols, i) + (j - i),
    decreases j - i,
{
    if i < j {
        lemma_nulls_before_monotone(cols, i, j - 1);
    }
}

/// The physical layout of a row buffer for one row schema: per-column
/// payload offsets, per-nullable-column null-flag bytes, total size and
/// alignment.
#[derive(Clone, Debug)]
pub struct NativeLayout {
    pub offsets: Vec<usize>,
    /// Offset of the null-flag byte of each column; meaningful only for
    /// nullable columns.
    pub null_offsets: Vec<usize>,
    /// Offset where the null-flag region starts (end of the payload region).
    pub data_end: usize,
    pub size: usize,
    pub align: usize,
}

impl NativeLayout {
    /// The layout contract: offsets are the canonical aligned offsets for
    /// the schema, payloads precede the null-flag region, and everything
    /// fits inside `size`.
    pub open spec fn wf(&self, cols: Seq<(ColumnType, bool)>) -> bool {
        &&& self.offsets@.len() == cols.len()
        &&& self.null_offsets@.len() == cols.len()
        &&& forall|i: int|
            0 <= i < cols.len() ==> #[trigger] self.offsets@[i] == spec_offset_of(cols, i)
        &&& forall|i: int|
            0 <= i < cols.len() && cols[i].1 ==> #[trigger] self.null_offsets@[i]
                == self.data_end + spec_nulls_before(cols, i)
        &&& self.data_end == spec_data_end(cols, cols.len() as int)
        &&& 1 <= self.align
        &&& self.data_end + spec_nulls_before(cols, cols.len() as int) <= self.size
    }

    /// Payload offset of one column.
    pub fn offset_of(&self, column: usize) -> (r: usize)
        requires
            column < self.offsets@.len(),
        ensures
            r == self.offsets@[column as int],
    {
        self.offsets[column]
    }

    /// Null-flag position of a nullable column, as a byte offset and a bit
    /// mask; a set bit means the column is null.
    pub fn is_null_bit(&self, column: usize) -> (r: (usize, u8))
        requires
            column < self.null_offsets@.len(),
        ensures
            r.0 == self.null_offsets@[column as int],
            r.1 == 1u8,
    {
        (self.null_offsets[column], 1u8)
    }

    pub fn size_of(&self) -> (r: usize)
        ensures
            r == self.size,
    {
        self.size
    }

    pub fn align_of(&self) -> (r: usize)
        ensures
            r == self.align,
    {
        self.align
    }
}

/// Every column's payload lies inside the payload region, and payloads of
/// distinct columns never overlap.  These facts follow from `wf` and are
/// what the row readers and writers rely on.
pub proof fn lemma_layout_disjoint(nl: NativeLayout, cols: Seq<(ColumnType, bool)>, i: int, j: int)
    requires
        nl.wf(cols),
        0 <= i < cols.len(),
        0 <= j < cols.len(),
        i != j,
    ensures
        nl.offsets@[i] + spec_col_size(cols[i].0) <= nl.data_end,
        i < j ==> nl.offsets@[i] + spec_col_size(cols[i].0) <= nl.offsets@[j],
{
    lemma_data_end_nonneg(cols, i);
    lemma_round_up(spec_data_end(cols, i), spec_col_align(cols[i].0) as int);
    assert(spec_offset_of(cols, i) + spec_col_size(cols[i].0) == spec_data_end(cols, i + 1));
    lemma_data_end_monotone(cols, i + 1, cols.len() as int);
    if i < j {
        lemma_data_end_monotone(cols, i + 1, j);
        lemma_data_end_nonneg(cols, j);
        lemma_round_up(spec_data_end(cols, j), spec_col_align(cols[j].0) as int);
    }
}

/// Column payloads end before the null-flag region, which ends within the
/// buffer; one byte per nullable column.
pub proof fn lemma_layout_bounds(nl: NativeLayout, cols: Seq<(ColumnType, bool)>, i: int)
    requires
        nl.wf(cols),
        0 <= i < cols.len(),
    ensures
        0 <= nl.offsets@[i],
        nl.offsets@[i] + spec_col_size(cols[i].0) <= nl.data_end <= nl.size,
        cols[i].1 ==> nl.data_end <= nl.null_offsets@[i] && nl.null_offsets@[i] < nl.size,
{
    lemma_data_end_nonneg(cols, i);
    lemma_round_up(spec_data_end(cols, i), spec_col_align(cols[i].0) as int);
    assert(spec_offset_of(cols, i) + spec_col_size(cols[i].0) == spec_data_end(cols, i + 1));
    lemma_data_end_monotone(cols, i + 1, cols.len() as int);
    lemma_nulls_before_monotone(cols, 0, i);
    lemma_nulls_before_monotone(cols, i, cols.len() as int);
    if cols[i].1 {
        assert(spec_nulls_before(cols, i + 1) == spec_nulls_before(cols, i) + 1);
        lemma_nulls_before_monotone(cols, i + 1, cols.len() as int);
    }
}

/// Distinct nullable columns use distinct null-flag bytes.
pub proof fn lemma_null_flags_disjoint(
    nl: NativeLayout,
    cols: Seq<(ColumnType, bool)>,
    i: int,
    j: int,
)
    requires
        nl.wf(cols),
        0 <= i < j < cols.len(),
        cols[i].1,
        cols[j].1,
    ensures
        nl.null_offsets@[i] < nl.null_offsets@[j],
{
    assert(spec_nulls_before(cols, i + 1) == spec_nulls_before(cols, i) + 1);
    lemma_nulls_before_monotone(cols, i + 1, j);
}

/// The buffer alignment of a schema: the largest column alignment among
/// its first `n` columns.
pub open spec fn spec_max_align(cols: Seq<(ColumnType, bool)>, n: int) -> int
    decreases n,
{
    if n <= 0 {
        1
    } else {
        let prev = spec_max_align(cols, n - 1);
        if spec_col_align(cols[n - 1].0) > prev {
            spec_col_align(cols[n - 1].0) as int
        } else {
            prev
        }
    }
}

/// The canonical buffer size of a schema: payloads, null flags, and the
/// final alignment padding.
pub open spec fn spec_layout_size(cols: Seq<(ColumnType, bool)>) -> int {
    spec_round_up(
        spec_data_end(cols, cols.len() as int) + spec_nulls_before(cols, cols.len() as int),
        spec_max_align(cols, cols.len() as int),
    )
}

/// Does the canonical buffer of a schema fit in a `usize`-addressed
/// machine?  The exact success condition of layout computation.
pub open spec fn layout_fits(cols: Seq<(ColumnType, bool)>) -> bool {
    spec_layout_size(cols) <= usize::MAX
}

proof fn lemma_max_align_pos(cols: Seq<(ColumnType, bool)>, n: int)
    ensures
        1 <= spec_max_align(cols, n),
    decreases n,
{
    if n > 0 {
        lemma_max_align_pos(cols, n - 1);
    }
}

/// A lower bound of the canonical size: payload end plus null flags.
proof fn lemma_layout_size_lower(cols: Seq<(ColumnType, bool)>)
    ensures
        spec_layout_size(cols) >= spec_data_end(cols, cols.len() as int) + spec_nulls_before(
            cols,
            cols.len() as int,
        ),
{
    lemma_max_align_pos(cols, cols.len() as int);
    lemma_data_end_nonneg(cols, cols.len() as int);
    lemma_nulls_before_monotone(cols, 0, cols.len() as int);
    lemma_round_up(
        spec_data_end(cols, cols.len() as int) + spec_nulls_before(cols, cols.len() as int),
        spec_max_align(cols, cols.len() as int),
    );
}

/// Computes the physical layout of a schema.  Returns `None` exactly when
/// the layout would not fit in a `usize`-addressed buffer.
#[verifier::loop_isolation(false)]
pub fn compute_native_layout(layout: &RowLayout) -> (r: Option<NativeLayout>)
    ensures
        (r is Some) == layout_fits(layout.cols@),
        r matches Some(nl) ==> nl.wf(layout.cols@),
{
    let cols_len = layout.cols.len();
    let mut offsets: Vec<usize> = Vec::new();
    let mut align: usize = 1;
    let mut off: usize = 0;
    let mut idx: usize = 0;
    while idx < cols_len
        invariant
            idx <= cols_len,
            cols_len == layout.cols@.len(),
            offsets@.len() == idx,
            off == spec_data_end(layout.cols@, idx as int),
            1 <= align,
            align == spec_max_align(layout.cols@, idx as int),
            forall|i: int|
                0 <= i < idx ==> #[trigger] offsets@[i] == spec_offset_of(layout.cols@, i),
        decreases cols_len - idx,
    {
        let t = layout.cols[idx].0;
        let a = col_align(t);
        let s = col_size(t);
        let rem = off % a;
        let pad: usize = if rem == 0 { 0 } else { a - rem };
        proof {
            lemma_round_up(off as int, a as int);
        }
        if off > usize::MAX - pad {
            proof {
                lemma_overflow_means_unfit(layout.cols@, idx as int + 1);
            }
            return None;
        }
        let aligned = off + pad;
        if aligned > usize::MAX - s {
            proof {
                lemma_overflow_means_unfit(layout.cols@, idx as int + 1);
            }
            return None;
        }
        offsets.push(aligned);
        off = aligned + s;
        if a > align {
            align = a;
        }
        idx = idx + 1;
    }

    // One null-flag byte per nullable column, after the payload region.
    let mut null_offsets: Vec<usize> = Vec::new();
    let mut nulls: usize = 0;
    let mut idx2: usize = 0;
    while idx2 < cols_len
        invariant
            idx2 <= cols_len,
            cols_len == layout.cols@.len(),
            off == spec_data_end(layout.cols@, cols_len as int),
            null_offsets@.len() == idx2,
            nulls == spec_nulls_before(layout.cols@, idx2 as int),
            off + nulls <= usize::MAX,
            forall|i: int|
                0 <= i < idx2 && layout.cols@[i].1 ==> #[trigger] null_offsets@[i] == off
                    + spec_nulls_before(layout.cols@, i),
        decreases cols_len - idx2,
    {
        proof {
            lemma_nulls_before_monotone(layout.cols@, 0, idx2 as int);
        }
        null_offsets.push(off + nulls);
        if layout.cols[idx2].1 {
            if nulls >= usize::MAX - off {
                proof {
                    assert(spec_nulls_before(layout.cols@, idx2 as int + 1) == nulls + 1);
                    lemma_nulls_before_monotone(layout.cols@, idx2 as int + 1, cols_len as int);
                    lemma_layout_size_lower(layout.cols@);
                }
                return None;
            }
            nulls = nulls + 1;
        }
        idx2 = idx2 + 1;
    }

    let rem = (off + nulls) % align;
    let pad: usize = if rem == 0 { 0 } else { align - rem };
    proof {
        lemma_round_up((off + nulls) as int, align as int);
        lemma_nulls_before_monotone(layout.cols@, 0, cols_len as int);
    }
    if off + nulls > usize::MAX - pad {
        return None;
    }
    let size = off + nulls + pad;
    Some(NativeLayout { offsets, null_offsets, data_end: off, size, align })
}

/// A payload region past the machine word makes the whole schema unfit.
proof fn lemma_overflow_means_unfit(cols: Seq<(ColumnType, bool)>, m: int)
    requires
        0 <= m <= cols.len(),
        spec_data_end(cols, m) > usize::MAX,
    ensures
        !layout_fits(cols),
{
    lemma_data_end_monotone(cols, m, cols.len() as int);
    lemma_nulls_before_monotone(cols, 0, cols.len() as int);
    lemma_layout_size_lower(cols);
}

/// Resolves layout ids to logical schemas and their physical layouts, for
/// the lifetime of a circuit.
#[derive(Clone, Debug)]
pub struct LayoutCache {
    pub layouts: Vec<RowLayout>,
    pub natives: Vec<NativeLayout>,
}

impl LayoutCache {
    /// Every cached physical layout satisfies the layout contract for its
    /// schema.
    pub open spec fn wf(&self) -> bool {
        &&& self.natives@.len() == self.layouts@.len()
        &&& forall|i: int|
            0 <= i < self.layouts@.len() ==> (#[trigger] self.natives@[i]).wf(
                self.layouts@[i].cols@,
            )
    }

    pub open spec fn contains(&self, id: LayoutId) -> bool {
        id < self.layouts@.len()
    }

    pub fn new() -> (r: LayoutCache)
        ensures
            r.wf(),
            r.layouts@.len() == 0,
    {
        LayoutCache { layouts: Vec::new(), natives: Vec::new() }
    }

    /// Registers a schema and returns its id.  Returns `None` exactly when
    /// the physical layout would overflow a `usize`-addressed buffer.
    pub fn add(&mut self, layout: RowLayout) -> (r: Option<LayoutId>)
        requires
            old(self).wf(),
        ensures
            final(self).wf(),
            (r is Some) == layout_fits(layout.cols@),
            r matches Some(id) ==> {
                &&& id == old(self).layouts@.len()
                &&& final(self).layouts@ == old(self).layouts@.push(layout)
                &&& final(self).contains(id)
                &&& final(self).layouts@[id as int].cols@ == layout.cols@
            },
            r is None ==> *final(self) == *old(self),
    {
        match compute_native_layout(&layout) {
            Some(native) => {
                let id = self.layouts.len();
                self.layouts.push(layout);
                self.natives.push(native);
                Some(id)
            },
            None => None,
        }
    }

    pub fn len(&self) -> (r: usize)
        ensures
            r == self.layouts@.len(),
    {
        self.layouts.len()
    }

    /// The logical schema of a layout id.
    pub fn layout_of(&self, id: LayoutId) -> (r: &RowLayout)
        requires
            self.contains(id),
        ensures
            r == &self.layouts@[id as int],
    {
        &self.layouts[id]
    }

    /// The physical layout of a layout id.
    pub fn native_of(&self, id: LayoutId) -> (r: &NativeLayout)
        requires
            self.wf(),
            self.contains(id),
        ensures
            r == &self.natives@[id as int],
            r.wf(self.layouts@[id as int].cols@),
    {
        &self.natives[id]
    }
}

} // verus!

verus! {

/// Decides the layout contract at run time: exactly [`NativeLayout::wf`].
pub fn check_native(nl: &NativeLayout, layout: &RowLayout) -> (r: bool)
    ensures
        r == nl.wf(layout.cols@),
{
    let ghost cols = layout.cols@;
    let n = layout.cols.len();
    if nl.offsets.len() != n || nl.null_offsets.len() != n || nl.align == 0 {
        return false;
    }
    let mut off: usize = 0;
    let mut i: usize = 0;
    while i < n
        invariant
            i <= n,
            n == layout.cols@.len(),
            n == nl.offsets@.len(),
            off == spec_data_end(layout.cols@, i as int),
            forall|k: int|
                0 <= k < i ==> #[trigger] nl.offsets@[k] == spec_offset_of(layout.cols@, k),
        decreases n - i,
    {
        let t = layout.cols[i].0;
        let a = col_align(t);
        let s = col_size(t);
        let stored: usize = nl.offsets[i];
        let de: usize = nl.data_end;
        let rem = off % a;
        let pad: usize = if rem == 0 { 0 } else { a - rem };
        proof {
            lemma_round_up(off as int, a as int);
        }
        if off > usize::MAX - pad {
            // The canonical offset exceeds the machine word, so no stored
            // offset can equal it.
            proof {
                assert(off as int % (a as int) == rem as int);
                assert(spec_round_up(off as int, a as int) == off + pad);
                assert(spec_offset_of(layout.cols@, i as int) == spec_round_up(
                    off as int,
                    a as int,
                ));
                assert(spec_offset_of(layout.cols@, i as int) > usize::MAX);
            }
            return false;
        }
        let aligned = off + pad;
        if stored != aligned {
            return false;
        }
        if aligned > usize::MAX - s {
            proof {
                assert(spec_data_end(layout.cols@, i as int + 1) > usize::MAX);
                lemma_data_end_monotone(layout.cols@, i as int + 1, n as int);
                assert(spec_data_end(layout.cols@, n as int) > usize::MAX);
                assert(de == nl.data_end && de <= usize::MAX);
                assert(nl.data_end != spec_data_end(layout.cols@, layout.cols@.len() as int));
                assert(!nl.wf(layout.cols@));
            }
            return false;
        }
        off = aligned + s;
        i = i + 1;
    }
    if nl.data_end != off {
        return false;
    }
    // Null-flag bytes: one per nullable column, in order, after the
    // payload region.
    let mut nulls: usize = 0;
    let mut j: usize = 0;
    while j < n
        invariant
            j <= n,
            n == layout.cols@.len(),
            n == nl.null_offsets@.len(),
            off == spec_data_end(layout.cols@, n as int),
            off == nl.data_end,
            nulls == spec_nulls_before(layout.cols@, j as int),
            nulls <= j,
            off + nulls <= usize::MAX,
            forall|k: int|
                0 <= k < j && layout.cols@[k].1 ==> #[trigger] nl.null_offsets@[k] == nl.data_end
                    + spec_nulls_before(layout.cols@, k),
        decreases n - j,
    {
        proof {
            lemma_nulls_before_monotone(layout.cols@, 0, j as int);
        }
        if layout.cols[j].1 {
            let stored: usize = nl.null_offsets[j];
            let sz: usize = nl.size;
            if nulls >= usize::MAX - off {
                proof {
                    assert(spec_nulls_before(layout.cols@, j as int + 1) == nulls + 1);
                    lemma_nulls_before_monotone(layout.cols@, j as int + 1, n as int);
                    assert(nl.data_end + spec_nulls_before(layout.cols@, n as int) > usize::MAX);
                    assert(sz == nl.size && sz <= usize::MAX);
                    assert(!nl.wf(layout.cols@));
                }
                return false;
            }
            if stored != off + nulls {
                return false;
            }
            nulls = nulls + 1;
        }
        j = j + 1;
    }
    if nl.size < off || nl.size - off < nulls {
        return false;
    }
    true
}

/// Decides the cache invariant at run time: exactly [`LayoutCache::wf`].
pub fn check_cache_wf(cache: &LayoutCache) -> (r: bool)
    ensures
        r == cache.wf(),
{
    let n = cache.layouts.len();
    if cache.natives.len() != n {
        return false;
    }
    let mut i: usize = 0;
    while i < n
        invariant
            i <= n,
            n == cache.layouts@.len(),
            n == cache.natives@.len(),
            forall|k: int|
                0 <= k < i ==> (#[trigger] cache.natives@[k]).wf(cache.layouts@[k].cols@),
        decreases n - i,
    {
        if !check_native(&cache.natives[i], &cache.layouts[i]) {
            return false;
        }
        i = i + 1;
    }
    true
}

} // verus!

verus! {

/// An exact copy of a schema.
pub fn clone_layout(l: &RowLayout) -> (r: RowLayout)
    ensures
        r.cols@ == l.cols@,
{
    let n = l.cols.len();
    let mut cols: Vec<(ColumnType, bool)> = Vec::new();
    let mut i: usize = 0;
    while i < n
        invariant
            i <= n,
            n == l.cols@.len(),
            cols@ == l.cols@.subrange(0, i as int),
        decreases n - i,
    {
        cols.push(l.cols[i]);
        proof {
            assert(cols@ =~= l.cols@.subrange(0, i as int + 1));
        }
        i = i + 1;
    }
    proof {
        assert(cols@ =~= l.cols@);
    }
    RowLayout { cols }
}

/// The per-layout operation table of the native row format: its size and
/// alignment pin the buffer shape, while cloning, equality and ordering of
/// rows are the row module's `clone_row` and the canonical comparator.
/// One table per layout id, stable for the circuit's lifetime.
#[derive(Clone, Copy, Debug, PartialEq, Eq, Structural)]
pub struct VTable {
    pub layout: LayoutId,
    pub size: usize,
    pub align: usize,
}

impl LayoutCache {
    /// The operation table of a layout.
    pub fn vtable(&self, id: LayoutId) -> (r: VTable)
        requires
            self.wf(),
            self.contains(id),
        ensures
            r.layout == id,
            r.size == self.natives@[id as int].size,
            r.align == self.natives@[id as int].align,
    {
        let native = self.native_of(id);
        VTable { layout: id, size: native.size_of(), align: native.align_of() }
    }
}

/// Do two physical layouts agree on every observable field?  Two such
/// layouts lay rows out identically.
pub open spec fn native_equiv(a: NativeLayout, b: NativeLayout) -> bool {
    &&& a.offsets@ == b.offsets@
    &&& a.null_offsets@ == b.null_offsets@
    &&& a.data_end == b.data_end
    &&& a.size == b.size
    &&& a.align == b.align
}

/// An exact copy of a physical layout.
pub fn clone_native(nl: &NativeLayout) -> (r: NativeLayout)
    ensures
        native_equiv(r, *nl),
        forall|cols: Seq<(ColumnType, bool)>| #[trigger] r.wf(cols) == nl.wf(cols),
{
    let n = nl.offsets.len();
    let mut offsets: Vec<usize> = Vec::new();
    let mut i: usize = 0;
    while i < n
        invariant
            i <= n,
            n == nl.offsets@.len(),
            offsets@ == nl.offsets@.subrange(0, i as int),
        decreases n - i,
    {
        offsets.push(nl.offsets[i]);
        proof {
            assert(offsets@ =~= nl.offsets@.subrange(0, i as int + 1));
        }
        i = i + 1;
    }
    let m = nl.null_offsets.len();
    let mut null_offsets: Vec<usize> = Vec::new();
    let mut j: usize = 0;
    while j < m
        invariant
            j <= m,
            m == nl.null_offsets@.len(),
            null_offsets@ == nl.null_offsets@.subrange(0, j as int),
        decreases m - j,
    {
        null_offsets.push(nl.null_offsets[j]);
        proof {
            assert(null_offsets@ =~= nl.null_offsets@.subrange(0, j as int + 1));
        }
        j = j + 1;
    }
    proof {
        assert(offsets@ =~= nl.offsets@);
        assert(null_offsets@ =~= nl.null_offsets@);
    }
    let r = NativeLayout {
        offsets,
        null_offsets,
        data_end: nl.data_end,
        size: nl.size,
        align: nl.align,
    };
    proof {
        assert(r.offsets@ == nl.offsets@ && r.null_offsets@ == nl.null_offsets@);
    }
    r
}

} // verus!
