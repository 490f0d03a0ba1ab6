//! Links between traces: a multiset of column tuples of one trace equals one
//! of another.

use vstd::prelude::*;

verus! {

/// Two lists of columns, one per trace, whose selected tuples form equal
/// multisets.
#[derive(Debug)]
pub struct CrossAirLogUpDescriptor {
    pub label: String,
    pub a_layer_index: usize,
    pub a_columns: Vec<usize>,
    pub a_selector_column: Option<usize>,
    pub b_layer_index: usize,
    pub b_columns: Vec<usize>,
    pub b_selector_column: Option<usize>,
}

/// What a descriptor holds.
pub struct Link {
    pub label: Seq<char>,
    pub a_layer: int,
    pub a_columns: Seq<int>,
    pub a_selector: int,
    pub b_layer: int,
    pub b_columns: Seq<int>,
    pub b_selector: int,
}

/// The column indices as integers.
pub open spec fn indices(v: Seq<usize>) -> Seq<int> {
    Seq::new(v.len(), |i: int| v[i] as int)
}

/// `n` consecutive columns.
pub open spec fn run(from: int, n: nat) -> Seq<int> {
    Seq::new(n, |i: int| from + i)
}

impl CrossAirLogUpDescriptor {
    /// The descriptor is the link, with a selector on both sides.
    pub open spec fn is(&self, link: Link) -> bool {
        &&& self.label@ == link.label
        &&& self.a_layer_index == link.a_layer
        &&& indices(self.a_columns@) == link.a_columns
        &&& self.a_selector_column == Some(link.a_selector as usize)
        &&& 0 <= link.a_selector <= usize::MAX
        &&& self.b_layer_index == link.b_layer
        &&& indices(self.b_columns@) == link.b_columns
        &&& self.b_selector_column == Some(link.b_selector as usize)
        &&& 0 <= link.b_selector <= usize::MAX
    }
}

impl Clone for CrossAirLogUpDescriptor {
    fn clone(&self) -> (r: Self)
        ensures
            r.label@ == self.label@,
            r.a_layer_index == self.a_layer_index,
            r.a_columns@ == self.a_columns@,
            r.a_selector_column == self.a_selector_column,
            r.b_layer_index == self.b_layer_index,
            r.b_columns@ == self.b_columns@,
            r.b_selector_column == self.b_selector_column,
    {
        CrossAirLogUpDescriptor {
            label: self.label.clone(),
            a_layer_index: self.a_layer_index,
            a_columns: copy_indices(&self.a_columns),
            a_selector_column: self.a_selector_column,
            b_layer_index: self.b_layer_index,
            b_columns: copy_indices(&self.b_columns),
            b_selector_column: self.b_selector_column,
        }
    }
}

fn copy_indices(v: &Vec<usize>) -> (r: Vec<usize>)
    ensures
        r@ == v@,
{
    let mut out: Vec<usize> = Vec::with_capacity(v.len());
    push_all(&mut out, v);
    assert(out@ =~= v@);
    out
}

fn push_all(out: &mut Vec<usize>, v: &Vec<usize>)
    ensures
        final(out)@ == old(out)@ + v@,
{
    let mut i: usize = 0;
    while i < v.len()
        invariant
            i <= v.len(),
            out@ == old(out)@ + v@.take(i as int),
        decreases v.len() - i,
    {
        out.push(v[i]);
        assert(v@.take(i + 1) =~= v@.take(i as int).push(v@[i as int]));
        i = i + 1;
    }
    assert(v@.take(i as int) =~= v@);
}

/// Appends `n` consecutive columns.
pub fn push_run(out: &mut Vec<usize>, from: usize, n: usize)
    requires
        from + n <= usize::MAX + 1,
    ensures
        indices(final(out)@) == indices(old(out)@) + run(from as int, n as nat),
{
    let mut i: usize = 0;
    while i < n
        invariant
            i <= n,
            from + n <= usize::MAX + 1,
            indices(out@) == indices(old(out)@) + run(from as int, i as nat),
        decreases n - i,
    {
        let ghost before = out@;
        out.push(from + i);
        proof {
            assert(indices(out@) =~= indices(before).push(from + i));
            assert(run(from as int, (i + 1) as nat) =~= run(from as int, i as nat).push(from + i));
            assert(indices(out@) =~= indices(old(out)@) + run(from as int, (i + 1) as nat));
        }
        i = i + 1;
    }
}

/// `n` consecutive columns.
pub fn column_run(from: usize, n: usize) -> (r: Vec<usize>)
    requires
        from + n <= usize::MAX + 1,
    ensures
        r.len() == n,
        indices(r@) == run(from as int, n as nat),
{
    let mut out: Vec<usize> = Vec::with_capacity(n);
    push_run(&mut out, from, n);
    assert(indices(out@) =~= run(from as int, n as nat));
    assert(indices(out@).len() == out@.len());
    out
}

/// What a descriptor of a link holds, field by field.
pub proof fn law_descriptor_fields(d: CrossAirLogUpDescriptor, link: Link)
    requires
        d.is(link),
    ensures
        d.label@ == link.label,
        d.a_layer_index == link.a_layer,
        d.b_layer_index == link.b_layer,
        d.a_columns.len() == link.a_columns.len(),
        forall|i: int| 0 <= i < d.a_columns.len() ==> #[trigger] d.a_columns@[i] == link.a_columns[i],
        d.b_columns.len() == link.b_columns.len(),
        forall|i: int| 0 <= i < d.b_columns.len() ==> #[trigger] d.b_columns@[i] == link.b_columns[i],
        d.a_selector_column is Some,
        d.a_selector_column->0 == link.a_selector,
        d.b_selector_column is Some,
        d.b_selector_column->0 == link.b_selector,
{
    let a = indices(d.a_columns@);
    let b = indices(d.b_columns@);
    assert(a.len() == d.a_columns.len() && b.len() == d.b_columns.len());
    assert forall|i: int| 0 <= i < d.a_columns.len() implies #[trigger] d.a_columns@[i]
        == link.a_columns[i] by {
        assert(a[i] == d.a_columns@[i]);
    }
    assert forall|i: int| 0 <= i < d.b_columns.len() implies #[trigger] d.b_columns@[i]
        == link.b_columns[i] by {
        assert(b[i] == d.b_columns@[i]);
    }
}

/// A run of columns.
pub proof fn law_run(v: Seq<usize>, from: int, n: nat)
    requires
        indices(v) == run(from, n),
    ensures
        v.len() == n,
        forall|i: int| 0 <= i < n ==> #[trigger] v[i] == from + i,
{
    assert(indices(v).len() == v.len());
    assert forall|i: int| 0 <= i < n implies #[trigger] v[i] == from + i by {
        let (a, b) = (indices(v), run(from, n));
        assert(a[i] == v[i]);
        assert(b[i] == from + i);
    }
}

} // verus!
