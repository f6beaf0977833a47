//! Host features: a list of `(URI, data)` pairs that a host hands to a
//! plugin, and the lookups over it. A feature's data is an opaque handle
//! that the host gives out; 0 stands for no data.
use vstd::prelude::*;

verus! {

/// A feature offered by the host.
#[derive(Debug)]
pub struct LV2Feature {
    /// The URI naming the feature.
    pub uri: String,
    /// Opaque handle to the feature's data; 0 for none.
    pub data: usize,
}

/// One entry of a features query.
#[derive(Debug)]
pub struct FeatureHelper {
    /// URI of the feature asked for.
    pub urid: String,
    /// The feature's data, set by the query.
    pub data: Option<usize>,
    /// Whether the caller cannot do without this feature.
    pub required: bool,
}

/// The first feature at or after `i` whose URI is `uri`, or the length of
/// `fs` if there is none.
pub open spec fn feature_index(fs: Seq<LV2Feature>, uri: Seq<char>, i: nat) -> nat
    decreases fs.len() - i,
{
    if i >= fs.len() {
        fs.len()
    } else if fs[i as int].uri@ == uri {
        i
    } else {
        feature_index(fs, uri, i + 1)
    }
}

/// The data of the first feature named `uri`, if it has any.
pub open spec fn feature_data(features: Option<Seq<LV2Feature>>, uri: Seq<char>) -> Option<usize> {
    match features {
        None => None,
        Some(fs) => {
            let i = feature_index(fs, uri, 0);
            if i < fs.len() && fs[i as int].data != 0 {
                Some(fs[i as int].data)
            } else {
                None
            }
        },
    }
}

/// The first entry at or after `i` that is required and finds no data, or
/// the length of `q` if there is none.
pub open spec fn first_missing(features: Option<Seq<LV2Feature>>, q: Seq<FeatureHelper>, i: nat) -> nat
    decreases q.len() - i,
{
    if i >= q.len() {
        q.len()
    } else if q[i as int].required && feature_data(features, q[i as int].urid@) is None {
        i
    } else {
        first_missing(features, q, i + 1)
    }
}

/// The features as a sequence, if there are any.
pub open spec fn features_view(features: Option<&[LV2Feature]>) -> Option<Seq<LV2Feature>> {
    match features {
        None => None,
        Some(fs) => Some(fs@),
    }
}

/// Returns the data of the first feature named `uri`, or `None` when there
/// is no such feature, it has no data, or there are no features at all.
pub fn lv2_features_data(features: Option<&[LV2Feature]>, uri: &String) -> (r: Option<usize>)
    ensures
        r == feature_data(features_view(features), uri@),
{
    match features {
        None => None,
        Some(fs) => {
            let mut i: usize = 0;
            while i < fs.len()
                invariant
                    features_view(features) == Some(fs@),
                    i <= fs@.len(),
                    feature_index(fs@, uri@, 0) == feature_index(fs@, uri@, i as nat),
                decreases fs@.len() - i,
            {
                if fs[i].uri == *uri {
                    if fs[i].data != 0 {
                        return Some(fs[i].data);
                    } else {
                        return None;
                    }
                }
                i = i + 1;
            }
            None
        },
    }
}

/// Looks up every entry of `query` in `features`, in order, storing what
/// each finds. Stops at the first required entry that finds no data and
/// returns its URI; returns `None` when all required features are there.
/// Entries after the one returned are left alone.
pub fn lv2_features_query(features: Option<&[LV2Feature]>, query: &mut Vec<FeatureHelper>) -> (r:
    Option<String>)
    ensures
        final(query)@.len() == old(query)@.len(),
        ({
            let m = first_missing(features_view(features), old(query)@, 0);
            &&& r is Some <==> m < old(query)@.len()
            &&& r matches Some(u) ==> u@ == old(query)@[m as int].urid@
            &&& forall|j: int|
                0 <= j < old(query)@.len() ==> {
                    &&& #[trigger] final(query)@[j].urid == old(query)@[j].urid
                    &&& final(query)@[j].required == old(query)@[j].required
                    &&& j <= m ==> final(query)@[j].data == feature_data(
                        features_view(features),
                        old(query)@[j].urid@,
                    )
                    &&& j > m ==> final(query)@[j].data == old(query)@[j].data
                }
        }),
{
    let ghost q0 = query@;
    let ghost fv = features_view(features);
    let mut i: usize = 0;
    while i < query.len()
        invariant
            i <= query@.len(),
            query@.len() == q0.len(),
            fv == features_view(features),
            q0 == old(query)@,
            first_missing(fv, q0, 0) == first_missing(fv, q0, i as nat),
            forall|j: int|
                0 <= j < q0.len() ==> {
                    &&& #[trigger] query@[j].urid == q0[j].urid
                    &&& query@[j].required == q0[j].required
                    &&& j < i ==> query@[j].data == feature_data(fv, q0[j].urid@)
                    &&& j >= i ==> query@[j].data == q0[j].data
                },
        decreases query@.len() - i,
    {
        let found = lv2_features_data(features, &query[i].urid);
        let urid = query[i].urid.clone();
        let required = query[i].required;
        let ghost before = query@;
        query[i] = FeatureHelper { urid, data: found, required };
        assert forall|j: int| 0 <= j < q0.len() && j != i implies #[trigger] query@[j] == before[j]
            && before[j].urid == q0[j].urid by {}
        if required && found.is_none() {
            return Some(query[i].urid.clone());
        }
        i = i + 1;
    }
    assert(i == q0.len());
    assert(first_missing(fv, q0, i as nat) == q0.len());
    assert forall|j: int| 0 <= j < q0.len() implies #[trigger] query@[j].urid == q0[j].urid
        && query@[j].data == feature_data(fv, q0[j].urid@) by {
        assert(query@[j].urid == q0[j].urid);
        assert(j < i);
    }
    None
}

} // verus!
