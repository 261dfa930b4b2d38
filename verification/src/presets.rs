//! The presets: named choices of track pools.
use vstd::prelude::*;
use vstd::string::StringExecFns;
use crate::tracks::catalog::TrackPool;

verus! {

/// A named choice of pools.
#[derive(Debug, Clone)]
pub struct Preset {
    /// The name the preset is chosen by.
    pub name: &'static str,
    /// The pools its tracks come from.
    pub pools: Vec<TrackPool>,
}

/// The names of the presets, in the order in which they are offered.
pub open spec fn preset_names() -> Seq<&'static str> {
    seq!["focus", "deep", "creative", "flow", "relax", "morning"]
}

/// The pools of each preset, in the same order.
pub open spec fn preset_pools() -> Seq<Seq<TrackPool>> {
    seq![
        seq![TrackPool::Atmospheric, TrackPool::CalmFocus],
        seq![TrackPool::CalmFocus, TrackPool::Atmospheric],
        seq![TrackPool::Atmospheric, TrackPool::GentleMovement],
        seq![TrackPool::CalmFocus, TrackPool::Atmospheric],
        seq![TrackPool::CalmFocus],
        seq![TrackPool::GentleMovement, TrackPool::Atmospheric],
    ]
}

/// The place of the first preset called `name` among the first `limit`
/// presets.
pub open spec fn preset_index_below(name: Seq<char>, limit: int) -> Option<int>
    decreases limit,
{
    if limit <= 0 {
        None
    } else {
        match preset_index_below(name, limit - 1) {
            Some(i) => Some(i),
            None => if preset_names()[limit - 1]@ == name {
                Some(limit - 1)
            } else {
                None
            },
        }
    }
}

/// The place of the preset called `name`, if there is one.
pub open spec fn preset_index(name: Seq<char>) -> Option<int> {
    preset_index_below(name, preset_names().len() as int)
}

/// `preset` is the entry at `index` of the table.
pub open spec fn is_preset_at(preset: Preset, index: int) -> bool {
    &&& 0 <= index < preset_names().len()
    &&& preset.name == preset_names()[index]
    &&& preset.pools@ == preset_pools()[index]
}

/// All presets, in the order in which they are offered.
pub fn all_presets() -> (presets: Vec<Preset>)
    ensures
        presets@.len() == preset_names().len(),
        forall|i: int| 0 <= i < presets@.len() ==> is_preset_at(#[trigger] presets@[i], i),
{
    let presets = vec![
        Preset { name: "focus", pools: vec![TrackPool::Atmospheric, TrackPool::CalmFocus] },
        Preset { name: "deep", pools: vec![TrackPool::CalmFocus, TrackPool::Atmospheric] },
        Preset { name: "creative", pools: vec![TrackPool::Atmospheric, TrackPool::GentleMovement] },
        Preset { name: "flow", pools: vec![TrackPool::CalmFocus, TrackPool::Atmospheric] },
        Preset { name: "relax", pools: vec![TrackPool::CalmFocus] },
        Preset { name: "morning", pools: vec![TrackPool::GentleMovement, TrackPool::Atmospheric] },
    ];
    assert forall|i: int| 0 <= i < presets@.len() implies is_preset_at(
        #[trigger] presets@[i],
        i,
    ) by {
        assert(presets@[i].pools@ =~= preset_pools()[i]);
    }
    presets
}

/// The place of the preset called `name` in `presets`, if there is one.
pub(crate) fn find_preset(presets: &Vec<Preset>, name: &str) -> (found: Option<usize>)
    requires
        presets@.len() == preset_names().len(),
        forall|i: int| 0 <= i < presets@.len() ==> is_preset_at(#[trigger] presets@[i], i),
    ensures
        match preset_index(name@) {
            Some(index) => found == Some(index as usize) && 0 <= index < presets@.len(),
            None => found is None,
        },
{
    let wanted = String::from_str(name);
    let mut i: usize = 0;
    while i < presets.len()
        invariant
            i <= presets@.len(),
            wanted@ == name@,
            presets@.len() == preset_names().len(),
            forall|k: int| 0 <= k < presets@.len() ==> is_preset_at(#[trigger] presets@[k], k),
            preset_index_below(name@, i as int) is None,
        decreases presets@.len() - i,
    {
        assert(is_preset_at(presets@[i as int], i as int));
        if String::from_str(presets[i].name) == wanted {
            assert(preset_index_below(name@, i + 1) == Some(i as int));
            proof {
                lemma_preset_index_stays(name@, i + 1, preset_names().len() as int);
            }
            return Some(i);
        }
        assert(preset_index_below(name@, i + 1) is None);
        i = i + 1;
    }
    None
}

/// The preset called `name`, if there is one.
pub fn get_preset(name: &str) -> (found: Option<Preset>)
    ensures
        match preset_index(name@) {
            Some(index) => found matches Some(preset) && is_preset_at(preset, index),
            None => found is None,
        },
{
    let mut presets = all_presets();
    match find_preset(&presets, name) {
        Some(index) => {
            assert(is_preset_at(presets@[index as int], index as int));
            Some(presets.remove(index))
        },
        None => None,
    }
}

/// Once a name has been found below one limit, the same place is found below
/// every larger one.
pub proof fn lemma_preset_index_stays(name: Seq<char>, limit: int, larger: int)
    requires
        0 <= limit <= larger,
        preset_index_below(name, limit) is Some,
    ensures
        preset_index_below(name, larger) == preset_index_below(name, limit),
    decreases larger - limit,
{
    if limit < larger {
        lemma_preset_index_stays(name, limit, larger - 1);
    }
}

/// The names of the presets, in the order in which they are offered.
pub fn get_preset_names() -> (names: Vec<&'static str>)
    ensures
        names@ == preset_names(),
{
    let names = vec!["focus", "deep", "creative", "flow", "relax", "morning"];
    assert(names@ =~= preset_names());
    names
}

} // verus!
