//! The per-version snapshots (modules) computed from the resolved ranges of
//! every declared item.
use crate::range::Version;
use vstd::prelude::*;

verus! {

/// The largest version number the compiler accepts in an annotation; it
/// bounds the number of modules a run allocates.
pub const MAX_VERSION: u32 = 4096;

/// An active field of a type in one module: its index, and for an enum
/// variant with struct shape, the indices of its active struct fields.
#[derive(Clone, Debug, PartialEq, Eq)]
pub enum FieldIndex {
    Index(usize),
    EnumStruct(usize, Vec<usize>),
}

/// An active type of one module: its declaration index and its active
/// fields in declaration order.
#[derive(Clone, Debug, PartialEq, Eq)]
pub struct TypeIndex {
    pub index: usize,
    pub fields: Vec<FieldIndex>,
}

/// The snapshot of the schema at one version: its active types in
/// declaration order.
#[derive(Clone, Debug, PartialEq, Eq)]
pub struct Module {
    pub types: Vec<TypeIndex>,
}

impl View for FieldIndex {
    type V = (usize, Option<Seq<usize>>);

    open spec fn view(&self) -> (usize, Option<Seq<usize>>) {
        match self {
            FieldIndex::Index(i) => (*i, None),
            FieldIndex::EnumStruct(i, inner) => (*i, Some(inner@)),
        }
    }
}

impl View for TypeIndex {
    type V = (usize, Seq<(usize, Option<Seq<usize>>)>);

    open spec fn view(&self) -> (usize, Seq<(usize, Option<Seq<usize>>)>) {
        (self.index, self.fields@.map_values(|f: FieldIndex| f@))
    }
}

impl View for Module {
    type V = Seq<(usize, Seq<(usize, Option<Seq<usize>>)>)>;

    open spec fn view(&self) -> Seq<(usize, Seq<(usize, Option<Seq<usize>>)>)> {
        self.types@.map_values(|t: TypeIndex| t@)
    }
}

impl Module {
    pub fn new() -> (r: Module)
        ensures
            r@ == Seq::<(usize, Seq<(usize, Option<Seq<usize>>)>)>::empty(),
    {
        Module { types: Vec::new() }
    }
}

impl TypeIndex {
    pub fn new(index: usize) -> (r: TypeIndex)
        ensures
            r@ == (index, Seq::<(usize, Option<Seq<usize>>)>::empty()),
    {
        TypeIndex { index, fields: Vec::new() }
    }
}

/// The resolved range of a field, and for an enum variant with struct shape,
/// those of its struct fields.
#[derive(Clone, Debug, PartialEq, Eq)]
pub struct ResolvedField {
    pub range: Version,
    pub is_struct_variant: bool,
    pub inner: Vec<Version>,
}

/// The resolved range of a type and of each of its fields.
#[derive(Clone, Debug, PartialEq, Eq)]
pub struct ResolvedType {
    pub range: Version,
    pub fields: Vec<ResolvedField>,
}

/// The last version whose module an item's range makes the timeline hold:
/// the version it is removed in, or the one it is added in.
pub open spec fn bound(r: Version) -> int {
    match r.removed {
        Some(x) => x as int,
        None => r.added as int,
    }
}

pub open spec fn max(a: int, b: int) -> int {
    if a < b { b } else { a }
}

pub open spec fn ranges_bound(rs: Seq<Version>, n: int) -> int
    decreases n,
{
    if n <= 0 { 0 } else { max(ranges_bound(rs, n - 1), bound(rs[n - 1])) }
}

pub open spec fn field_bound(f: ResolvedField) -> int {
    max(bound(f.range), ranges_bound(f.inner@, f.inner@.len() as int))
}

pub open spec fn fields_bound(fs: Seq<ResolvedField>, n: int) -> int
    decreases n,
{
    if n <= 0 { 0 } else { max(fields_bound(fs, n - 1), field_bound(fs[n - 1])) }
}

pub open spec fn type_bound(t: ResolvedType) -> int {
    max(bound(t.range), fields_bound(t.fields@, t.fields@.len() as int))
}

pub open spec fn types_bound(ts: Seq<ResolvedType>, n: int) -> int
    decreases n,
{
    if n <= 0 { 0 } else { max(types_bound(ts, n - 1), type_bound(ts[n - 1])) }
}

/// The number of modules: the largest version that any `add` or `rem` of
/// the file names.
pub open spec fn module_count(ts: Seq<ResolvedType>) -> int {
    types_bound(ts, ts.len() as int)
}

/// The indices below `n` of the ranges that hold version `v`, in order.
pub open spec fn active_ranges(rs: Seq<Version>, v: int, n: int) -> Seq<usize>
    decreases n,
{
    if n <= 0 {
        Seq::empty()
    } else if rs[n - 1].contains(v) {
        active_ranges(rs, v, n - 1).push((n - 1) as usize)
    } else {
        active_ranges(rs, v, n - 1)
    }
}

pub open spec fn field_slot(f: ResolvedField, index: int, v: int) -> (usize, Option<Seq<usize>>) {
    if f.is_struct_variant {
        (index as usize, Some(active_ranges(f.inner@, v, f.inner@.len() as int)))
    } else {
        (index as usize, None)
    }
}

/// The slots of the fields below `n` that are active at version `v`.
pub open spec fn active_fields(fs: Seq<ResolvedField>, v: int, n: int) -> Seq<(usize, Option<Seq<usize>>)>
    decreases n,
{
    if n <= 0 {
        Seq::empty()
    } else if fs[n - 1].range.contains(v) {
        active_fields(fs, v, n - 1).push(field_slot(fs[n - 1], n - 1, v))
    } else {
        active_fields(fs, v, n - 1)
    }
}

/// The slots of the types below `n` that are active at version `v`.
pub open spec fn active_types(ts: Seq<ResolvedType>, v: int, n: int) -> Seq<(usize, Seq<(usize, Option<Seq<usize>>)>)>
    decreases n,
{
    if n <= 0 {
        Seq::empty()
    } else if ts[n - 1].range.contains(v) {
        active_types(ts, v, n - 1).push(
            ((n - 1) as usize, active_fields(ts[n - 1].fields@, v, ts[n - 1].fields@.len() as int)),
        )
    } else {
        active_types(ts, v, n - 1)
    }
}

/// The snapshot at version `v`: every type whose range holds `v`, with every
/// field (and variant struct field) whose range holds `v`.
pub open spec fn snapshot(ts: Seq<ResolvedType>, v: int) -> Seq<(usize, Seq<(usize, Option<Seq<usize>>)>)> {
    active_types(ts, v, ts.len() as int)
}

/// The timeline: one snapshot for each version from 1 to the module count.
pub open spec fn timeline(ts: Seq<ResolvedType>) -> Seq<Seq<(usize, Seq<(usize, Option<Seq<usize>>)>)>> {
    Seq::new(module_count(ts) as nat, |i: int| snapshot(ts, i + 1))
}

pub open spec fn range_in_bounds(r: Version) -> bool {
    &&& r.added <= MAX_VERSION
    &&& r.removed matches Some(x) ==> x <= MAX_VERSION
}

/// Every range of the resolved file lies within the accepted versions.
pub open spec fn all_in_bounds(ts: Seq<ResolvedType>) -> bool {
    forall|t: int| 0 <= t < ts.len() ==> {
        &&& range_in_bounds(#[trigger] ts[t].range)
        &&& forall|f: int| 0 <= f < ts[t].fields@.len() ==> {
            &&& range_in_bounds(#[trigger] ts[t].fields@[f].range)
            &&& forall|s: int| 0 <= s < ts[t].fields@[f].inner@.len() ==> range_in_bounds(#[trigger] ts[t].fields@[f].inner@[s])
        }
    }
}

fn bound_of(r: Version) -> (b: u32)
    ensures
        b == bound(r),
{
    match r.removed {
        Some(x) => x,
        None => r.added,
    }
}

/// The number of modules the timeline of `ts` holds.
pub fn count_modules(ts: &Vec<ResolvedType>) -> (r: usize)
    requires
        all_in_bounds(ts@),
    ensures
        r == module_count(ts@),
        r <= MAX_VERSION,
{
    let mut acc: u32 = 0;
    let mut t: usize = 0;
    while t < ts.len()
        invariant
            t <= ts@.len(),
            all_in_bounds(ts@),
            acc == types_bound(ts@, t as int),
            acc <= MAX_VERSION,
        decreases ts@.len() - t,
    {
        let ty = &ts[t];
        assert(range_in_bounds(ts@[t as int].range));
        let mut acc_t: u32 = bound_of(ty.range);
        let mut f: usize = 0;
        while f < ty.fields.len()
            invariant
                t < ts@.len(),
                ty == ts@[t as int],
                f <= ty.fields@.len(),
                all_in_bounds(ts@),
                acc_t == max(bound(ty.range), fields_bound(ty.fields@, f as int)),
                acc_t <= MAX_VERSION,
            decreases ty.fields@.len() - f,
        {
            let field = &ty.fields[f];
            assert(range_in_bounds(ts@[t as int].fields@[f as int].range));
            let mut acc_f: u32 = bound_of(field.range);
            let mut s: usize = 0;
            while s < field.inner.len()
                invariant
                    t < ts@.len(),
                    f < ty.fields@.len(),
                    ty == ts@[t as int],
                    field == ty.fields@[f as int],
                    s <= field.inner@.len(),
                    all_in_bounds(ts@),
                    acc_f == max(bound(field.range), ranges_bound(field.inner@, s as int)),
                    acc_f <= MAX_VERSION,
                decreases field.inner@.len() - s,
            {
                assert(range_in_bounds(ts@[t as int].range));
                assert(range_in_bounds(ts@[t as int].fields@[f as int].range));
                assert(range_in_bounds(ts@[t as int].fields@[f as int].inner@[s as int]));
                let b = bound_of(field.inner[s]);
                if acc_f < b {
                    acc_f = b;
                }
                s += 1;
            }
            if acc_t < acc_f {
                acc_t = acc_f;
            }
            f += 1;
        }
        if acc < acc_t {
            acc = acc_t;
        }
        t += 1;
    }
    acc as usize
}

fn active_inner(inner: &Vec<Version>, v: u32) -> (r: Vec<usize>)
    ensures
        r@ == active_ranges(inner@, v as int, inner@.len() as int),
{
    let mut out: Vec<usize> = Vec::new();
    let mut s: usize = 0;
    while s < inner.len()
        invariant
            s <= inner@.len(),
            out@ == active_ranges(inner@, v as int, s as int),
        decreases inner@.len() - s,
    {
        if inner[s].holds(v) {
            out.push(s);
        }
        s += 1;
    }
    out
}

fn type_slot(ty: &ResolvedType, index: usize, v: u32) -> (r: TypeIndex)
    ensures
        r@ == (index, active_fields(ty.fields@, v as int, ty.fields@.len() as int)),
{
    let mut slot = TypeIndex::new(index);
    let mut f: usize = 0;
    while f < ty.fields.len()
        invariant
            f <= ty.fields@.len(),
            slot.index == index,
            slot.fields@.map_values(|x: FieldIndex| x@) == active_fields(ty.fields@, v as int, f as int),
        decreases ty.fields@.len() - f,
    {
        let field = &ty.fields[f];
        if field.range.holds(v) {
            let entry = if field.is_struct_variant {
                FieldIndex::EnumStruct(f, active_inner(&field.inner, v))
            } else {
                FieldIndex::Index(f)
            };
            assert(entry@ == field_slot(ty.fields@[f as int], f as int, v as int));
            let ghost before = slot.fields@;
            slot.fields.push(entry);
            assert(slot.fields@.map_values(|x: FieldIndex| x@) =~= before.map_values(|x: FieldIndex| x@).push(entry@));
        }
        f += 1;
    }
    slot
}

/// Whether every type's range is well formed.
pub open spec fn types_wf(ts: Seq<ResolvedType>) -> bool {
    forall|t: int| 0 <= t < ts.len() ==> (#[trigger] ts[t]).range.wf()
}

/// Builds one module for every version from 1 to the largest version that
/// the resolved ranges name, in one pass over the types: each type is added,
/// with its fields active at that version, to the modules of its own range
/// only.
pub fn build_modules(ts: &Vec<ResolvedType>) -> (r: Vec<Module>)
    requires
        all_in_bounds(ts@),
        types_wf(ts@),
    ensures
        r@.map_values(|m: Module| m@) == timeline(ts@),
{
    let count = count_modules(ts);
    let mut modules: Vec<Module> = Vec::new();
    let mut i: usize = 0;
    while i < count
        invariant
            i <= count,
            modules@.len() == i,
            forall|k: int| 0 <= k < i ==> (#[trigger] modules@[k])@ == active_types(ts@, k + 1, 0),
        decreases count - i,
    {
        modules.push(Module::new());
        i += 1;
    }
    let mut t: usize = 0;
    while t < ts.len()
        invariant
            t <= ts@.len(),
            count == module_count(ts@),
            count <= MAX_VERSION,
            modules@.len() == count,
            types_wf(ts@),
            all_in_bounds(ts@),
            forall|k: int| 0 <= k < count ==> (#[trigger] modules@[k])@ == active_types(ts@, k + 1, t as int),
        decreases ts@.len() - t,
    {
        let range = ts[t].range;
        assert(range.wf());
        assert(range_in_bounds(ts@[t as int].range));
        proof {
            lemma_types_bound_ge(ts@, ts@.len() as int, t as int);
        }
        let begin = (range.added - 1) as usize;
        let end = match range.removed {
            Some(x) => (x - 1) as usize,
            None => count,
        };
        assert(end <= count);
        assert forall|v: int| 1 <= v <= count implies (#[trigger] ts@[t as int].range.contains(v) <==> begin < v <= end) by {}
        let mut i: usize = begin;
        while i < end
            invariant
                begin <= i <= end,
                end <= count,
                count <= MAX_VERSION,
                t < ts@.len(),
                modules@.len() == count,
                forall|v: int| 1 <= v <= count ==> (#[trigger] ts@[t as int].range.contains(v) <==> begin < v <= end),
                forall|k: int|
                    0 <= k < count ==> (#[trigger] modules@[k])@ == if begin <= k < i {
                        active_types(ts@, k + 1, t + 1)
                    } else {
                        active_types(ts@, k + 1, t as int)
                    },
            decreases end - i,
        {
            let slot = type_slot(&ts[t], t, (i + 1) as u32);
            assert(ts@[t as int].range.contains(i + 1));
            assert(active_types(ts@, i + 1, t + 1) == active_types(ts@, i + 1, t as int).push(slot@));
            let ghost before = modules@[i as int].types@;
            let ghost whole = modules@;
            modules[i].types.push(slot);
            assert(modules@[i as int].types@.map_values(|x: TypeIndex| x@) =~= before.map_values(|x: TypeIndex| x@).push(slot@));
            assert(forall|k: int| 0 <= k < count && k != i ==> modules@[k] == whole[k]);
            i += 1;
        }
        t += 1;
    }
    assert(modules@.map_values(|m: Module| m@) =~= timeline(ts@));
    modules
}

proof fn lemma_ranges_bound_ge(rs: Seq<Version>, n: int, s: int)
    requires
        0 <= s < n <= rs.len(),
    ensures
        ranges_bound(rs, n) >= bound(rs[s]),
    decreases n,
{
    if s < n - 1 {
        lemma_ranges_bound_ge(rs, n - 1, s);
    }
}

proof fn lemma_fields_bound_ge(fs: Seq<ResolvedField>, n: int, f: int)
    requires
        0 <= f < n <= fs.len(),
    ensures
        fields_bound(fs, n) >= field_bound(fs[f]),
    decreases n,
{
    if f < n - 1 {
        lemma_fields_bound_ge(fs, n - 1, f);
    }
}

proof fn lemma_types_bound_ge(ts: Seq<ResolvedType>, n: int, t: int)
    requires
        0 <= t < n <= ts.len(),
    ensures
        types_bound(ts, n) >= type_bound(ts[t]),
    decreases n,
{
    if t < n - 1 {
        lemma_types_bound_ge(ts, n - 1, t);
    }
}

/// Whether version `v` is one that the range `r` names, by its `add` or by
/// its `rem`.
pub open spec fn names_version(r: Version, v: int) -> bool {
    v == r.added || (r.removed matches Some(x) && x == v)
}

/// Every version that a type's, field's or variant struct field's `add` or
/// `rem` names has a module in the timeline, and that module is the
/// snapshot of the items whose range holds that version. The item is type
/// `t` where `f` is -1, else its field `f` where `s` is -1, else that
/// field's struct field `s`.
pub proof fn lemma_timeline_complete(ts: Seq<ResolvedType>, t: int, f: int, s: int, v: int)
    requires
        0 <= t < ts.len(),
        ts[t].range.wf(),
        f >= -1,
        s >= -1,
        f == -1 ==> names_version(ts[t].range, v),
        f >= 0 ==> {
            &&& f < ts[t].fields@.len()
            &&& ts[t].fields@[f].range.wf()
            &&& s == -1 ==> names_version(ts[t].fields@[f].range, v)
            &&& s >= 0 ==> s < ts[t].fields@[f].inner@.len() && ts[t].fields@[f].inner@[s].wf() && names_version(
                ts[t].fields@[f].inner@[s],
                v,
            )
        },
    ensures
        1 <= v <= timeline(ts).len(),
        timeline(ts)[v - 1] == snapshot(ts, v),
{
    lemma_types_bound_ge(ts, ts.len() as int, t);
    let ty = ts[t];
    assert(type_bound(ty) >= bound(ty.range));
    let r = if f >= 0 {
        let fr = ty.fields@[f];
        lemma_fields_bound_ge(ty.fields@, ty.fields@.len() as int, f);
        assert(type_bound(ty) >= field_bound(fr));
        assert(field_bound(fr) >= bound(fr.range));
        if s >= 0 {
            lemma_ranges_bound_ge(fr.inner@, fr.inner@.len() as int, s);
            assert(field_bound(fr) >= bound(fr.inner@[s]));
            fr.inner@[s]
        } else {
            fr.range
        }
    } else {
        ty.range
    };
    assert(names_version(r, v) && r.wf());
    assert(bound(r) >= v);
    assert(module_count(ts) >= v);
}

/// A type is in the snapshot of version `v` exactly when its range holds
/// `v`.
pub proof fn lemma_snapshot_types(ts: Seq<ResolvedType>, v: int, n: int, t: int)
    requires
        0 <= t < n <= ts.len(),
        ts.len() <= usize::MAX,
    ensures
        (exists|k: int| 0 <= k < active_types(ts, v, n).len() && #[trigger] active_types(ts, v, n)[k].0 == t)
            <==> ts[t].range.contains(v),
    decreases n,
{
    lemma_active_types_below(ts, v, n);
    if t < n - 1 {
        lemma_snapshot_types(ts, v, n - 1, t);
        let prev = active_types(ts, v, n - 1);
        if ts[n - 1].range.contains(v) {
            let cur = active_types(ts, v, n);
            if exists|k: int| 0 <= k < cur.len() && #[trigger] cur[k].0 == t {
                let k = choose|k: int| 0 <= k < cur.len() && #[trigger] cur[k].0 == t;
                if k == prev.len() {
                    assert(cur[k].0 == (n - 1) as usize);
                } else {
                    assert(prev[k].0 == t);
                }
            }
            if ts[t].range.contains(v) {
                let k = choose|k: int| 0 <= k < prev.len() && #[trigger] prev[k].0 == t;
                assert(cur[k].0 == t);
            }
        }
    } else {
        let prev = active_types(ts, v, n - 1);
        lemma_active_types_below(ts, v, n - 1);
        if ts[t].range.contains(v) {
            assert(active_types(ts, v, n)[prev.len() as int].0 == t);
        } else {
            assert forall|k: int| 0 <= k < prev.len() implies #[trigger] prev[k].0 != t by {}
        }
    }
}

/// A field is in its type's slot of the snapshot of version `v` exactly
/// when its range holds `v`.
pub proof fn lemma_snapshot_fields(fs: Seq<ResolvedField>, v: int, n: int, f: int)
    requires
        0 <= f < n <= fs.len(),
        fs.len() <= usize::MAX,
    ensures
        (exists|k: int| 0 <= k < active_fields(fs, v, n).len() && #[trigger] active_fields(fs, v, n)[k].0 == f)
            <==> fs[f].range.contains(v),
    decreases n,
{
    lemma_active_fields_below(fs, v, n);
    let cur = active_fields(fs, v, n);
    let prev = active_fields(fs, v, n - 1);
    lemma_active_fields_below(fs, v, n - 1);
    if f < n - 1 {
        lemma_snapshot_fields(fs, v, n - 1, f);
        if fs[n - 1].range.contains(v) {
            if exists|k: int| 0 <= k < cur.len() && #[trigger] cur[k].0 == f {
                let k = choose|k: int| 0 <= k < cur.len() && #[trigger] cur[k].0 == f;
                if k == prev.len() {
                    assert(cur[k].0 == (n - 1) as usize);
                } else {
                    assert(prev[k].0 == f);
                }
            }
            if fs[f].range.contains(v) {
                let k = choose|k: int| 0 <= k < prev.len() && #[trigger] prev[k].0 == f;
                assert(cur[k].0 == f);
            }
        }
    } else {
        if fs[f].range.contains(v) {
            assert(cur[prev.len() as int].0 == f);
        } else {
            assert forall|k: int| 0 <= k < prev.len() implies #[trigger] prev[k].0 != f by {}
        }
    }
}

proof fn lemma_active_fields_below(fs: Seq<ResolvedField>, v: int, n: int)
    requires
        0 <= n <= fs.len(),
        fs.len() <= usize::MAX,
    ensures
        forall|k: int| 0 <= k < active_fields(fs, v, n).len() ==> #[trigger] active_fields(fs, v, n)[k].0 < n,
    decreases n,
{
    if n > 0 {
        lemma_active_fields_below(fs, v, n - 1);
        let prev = active_fields(fs, v, n - 1);
        let cur = active_fields(fs, v, n);
        assert forall|k: int| 0 <= k < cur.len() implies #[trigger] cur[k].0 < n by {
            if k < prev.len() {
                assert(cur[k] == prev[k]);
            }
        }
    }
}

proof fn lemma_active_types_below(ts: Seq<ResolvedType>, v: int, n: int)
    requires
        0 <= n <= ts.len(),
        ts.len() <= usize::MAX,
    ensures
        forall|k: int| 0 <= k < active_types(ts, v, n).len() ==> #[trigger] active_types(ts, v, n)[k].0 < n,
    decreases n,
{
    if n > 0 {
        lemma_active_types_below(ts, v, n - 1);
        let prev = active_types(ts, v, n - 1);
        let cur = active_types(ts, v, n);
        assert forall|k: int| 0 <= k < cur.len() implies #[trigger] cur[k].0 < n by {
            if k < prev.len() {
                assert(cur[k] == prev[k]);
            }
        }
    }
}

} // verus!
