//! The demand registry: write-once requests for generated deserializers.
//!
//! A demand asks that a layout have a marshaller for one external format:
//! a CSV column mapping or a JSON field mapping.  Each layout can be
//! registered at most once per format; registering it twice is a caller
//! error ruled out by precondition.

use vstd::prelude::*;

use crate::layout::LayoutId;

verus! {

/// One CSV demand: `(source field position, target column, optional
/// format string for temporal columns)`.
pub type CsvColumnMapping = Vec<(usize, usize, Option<String>)>;

/// One JSON demand: for each target column, the object key holding its
/// value.
#[derive(Clone, Debug)]
pub struct JsonDeserConfig {
    pub layout: LayoutId,
    /// `(target column, object key)` pairs.
    pub mappings: Vec<(usize, String)>,
}

/// The registered deserialization demands of a circuit, keyed by layout.
pub struct Demands {
    pub csv: Vec<(LayoutId, CsvColumnMapping)>,
    pub json_deser: Vec<(LayoutId, JsonDeserConfig)>,
}

/// Is `id` a key of the association list?
pub open spec fn assoc_contains<V>(entries: Seq<(LayoutId, V)>, id: LayoutId) -> bool {
    exists|k: int| 0 <= k < entries.len() && (#[trigger] entries[k]).0 == id
}

impl Demands {
    pub fn new() -> (r: Demands)
        ensures
            r.csv@.len() == 0,
            r.json_deser@.len() == 0,
    {
        Demands { csv: Vec::new(), json_deser: Vec::new() }
    }

    /// Registers a CSV deserialization demand for a layout.  Each layout
    /// may be registered once.
    pub fn add_csv_deserialize(&mut self, layout: LayoutId, column_mappings: CsvColumnMapping)
        requires
            !assoc_contains(old(self).csv@, layout),
        ensures
            final(self).csv@ == old(self).csv@.push((layout, column_mappings)),
            final(self).json_deser@ == old(self).json_deser@,
    {
        self.csv.push((layout, column_mappings));
    }

    /// Registers a JSON deserialization demand for a layout.  Each layout
    /// may be registered once, and the mapping must name the layout it is
    /// registered under.
    pub fn add_json_deserialize(&mut self, layout: LayoutId, mappings: JsonDeserConfig)
        requires
            !assoc_contains(old(self).json_deser@, layout),
            mappings.layout == layout,
        ensures
            final(self).json_deser@ == old(self).json_deser@.push((layout, mappings)),
            final(self).csv@ == old(self).csv@,
    {
        self.json_deser.push((layout, mappings));
    }
}

/// The value under the first occurrence of a key in an association list.
pub open spec fn assoc_first<V>(entries: Seq<(LayoutId, V)>, id: LayoutId) -> Option<V>
    decreases entries.len(),
{
    if entries.len() == 0 {
        None
    } else if entries[0].0 == id {
        Some(entries[0].1)
    } else {
        assoc_first(entries.skip(1), id)
    }
}

/// A key occurs exactly when `assoc_first` finds a value for it.
pub proof fn lemma_assoc_first_some<V>(entries: Seq<(LayoutId, V)>, id: LayoutId)
    ensures
        assoc_contains(entries, id) == (assoc_first(entries, id) is Some),
    decreases entries.len(),
{
    if entries.len() > 0 && entries[0].0 != id {
        lemma_assoc_first_some(entries.skip(1), id);
        assert forall|k: int|
            0 <= k < entries.len() && (#[trigger] entries[k]).0 == id implies assoc_contains(
            entries.skip(1),
            id,
        ) by {
            assert(entries.skip(1)[k - 1] == entries[k]);
        }
        if assoc_contains(entries.skip(1), id) {
            let k = choose|k: int|
                0 <= k < entries.skip(1).len() && (#[trigger] entries.skip(1)[k]).0 == id;
            assert(entries[k + 1] == entries.skip(1)[k]);
        }
    }
}

/// Looks a layout up in an association list of demands.
pub fn assoc_find<'a, V>(entries: &'a Vec<(LayoutId, V)>, id: LayoutId) -> (r: Option<&'a V>)
    ensures
        r matches Some(v) ==> assoc_first(entries@, id) == Some(*v),
        r matches Some(v) ==> exists|k: int|
            0 <= k < entries@.len() && (#[trigger] entries@[k]).0 == id && v == &entries@[k].1,
        r is None ==> !assoc_contains(entries@, id) && assoc_first(entries@, id) is None,
{
    let n = entries.len();
    let mut i: usize = 0;
    proof {
        assert(entries@.skip(0) =~= entries@);
    }
    while i < n
        invariant
            i <= n,
            n == entries@.len(),
            forall|k: int| 0 <= k < i ==> (#[trigger] entries@[k]).0 != id,
            assoc_first(entries@, id) == assoc_first(entries@.skip(i as int), id),
        decreases n - i,
    {
        proof {
            assert(entries@.skip(i as int)[0] == entries@[i as int]);
            assert(entries@.skip(i as int).skip(1) =~= entries@.skip(i as int + 1));
        }
        if entries[i].0 == id {
            return Some(&entries[i].1);
        }
        i = i + 1;
    }
    proof {
        assert(entries@.skip(n as int) =~= Seq::<(LayoutId, V)>::empty());
    }
    None
}

} // verus!
