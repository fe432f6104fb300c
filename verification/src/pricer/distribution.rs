//! How the open positions of a portfolio pricing are distributed: grouped
//! by instrument, and by region then instrument, each group listing the
//! positions it is made of.
use crate::portfolio::spec_distinct;
use vstd::prelude::*;

verus! {

/// What the distribution of a position pricing depends on: its
/// instrument's name and region, and whether it is closed.
pub struct PositionPlace {
    pub instrument_name: String,
    pub region: Option<String>,
    pub is_close: bool,
}

/// The text of an optional name.
pub open spec fn name_view(name: Option<String>) -> Option<Seq<char>> {
    match name {
        Some(s) => Some(s@),
        None => None,
    }
}

/// The names present among the first `n` optional names, in order.
pub open spec fn spec_present(names: Seq<Option<String>>, n: int) -> Seq<Seq<char>>
    decreases n,
{
    if n <= 0 {
        seq![]
    } else {
        let previous = spec_present(names, n - 1);
        match names[n - 1] {
            Some(s) => previous.push(s@),
            None => previous,
        }
    }
}

/// The positions, among the first `n`, whose name is `name`, in order.
pub open spec fn spec_members(names: Seq<Option<String>>, name: Seq<char>, n: int) -> Seq<usize>
    decreases n,
{
    if n <= 0 {
        seq![]
    } else {
        let previous = spec_members(names, name, n - 1);
        if name_view(names[n - 1]) == Some(name) {
            previous.push((n - 1) as usize)
        } else {
            previous
        }
    }
}

/// The groups have the names present among the first `n` names, each
/// once, in the order they first appear; each group lists the positions
/// of its name.
pub open spec fn grouped(groups: Seq<(String, Vec<usize>)>, names: Seq<Option<String>>, n: int) -> bool {
    &&& groups.map_values(|g: (String, Vec<usize>)| g.0@) == spec_distinct(spec_present(names, n))
    &&& forall|g: int| 0 <= g < groups.len() ==> (#[trigger] groups[g]).1@ == spec_members(names, groups[g].0@, n)
}

/// The positions grouped by name: the names present, each once, in the
/// order they first appear, each with the positions that bear it, in
/// order. Positions without a name are in no group.
pub fn group_by_name(names: &Vec<Option<String>>) -> (r: Vec<(String, Vec<usize>)>)
    ensures
        grouped(r@, names@, names@.len() as int),
{
    let mut groups: Vec<(String, Vec<usize>)> = Vec::new();
    assert(groups@.map_values(|g: (String, Vec<usize>)| g.0@) =~= spec_distinct(spec_present(names@, 0)));
    let mut i: usize = 0;
    while i < names.len()
        invariant
            i <= names@.len(),
            grouped(groups@, names@, i as int),
        decreases names@.len() - i,
    {
        let ghost keys = groups@.map_values(|g: (String, Vec<usize>)| g.0@);
        match &names[i] {
            None => {},
            Some(name) => {
                let mut found: Option<usize> = None;
                let mut j: usize = 0;
                while j < groups.len()
                    invariant
                        j <= groups@.len(),
                        keys == groups@.map_values(|g: (String, Vec<usize>)| g.0@),
                        match found {
                            Some(k) => k < j && keys[k as int] == name@,
                            None => forall|k: int| 0 <= k < j ==> keys[k] != name@,
                        },
                    decreases groups@.len() - j,
                {
                    if found.is_none() && groups[j].0 == *name {
                        found = Some(j);
                    }
                    j = j + 1;
                }
                let ghost before = groups@;
                let ghost present = spec_present(names@, i as int + 1);
                assert(present.drop_last() == spec_present(names@, i as int));
                match found {
                    Some(k) => {
                        assert(spec_distinct(spec_present(names@, i as int)).contains(name@));
                        groups[k].1.push(i);
                        proof {
                            assert(groups@.map_values(|g: (String, Vec<usize>)| g.0@) =~= keys);
                            assert forall|g: int| 0 <= g < groups@.len() implies (#[trigger] groups@[g]).1@
                                == spec_members(names@, groups@[g].0@, i as int + 1) by {
                                if g != k as int && before[g].0@ == name@ {
                                    lemma_distinct_keys(spec_present(names@, i as int), g, k as int);
                                }
                            }
                        }
                    },
                    None => {
                        proof {
                            assert(!spec_distinct(spec_present(names@, i as int)).contains(name@)) by {
                                if spec_distinct(spec_present(names@, i as int)).contains(name@) {
                                    let k = choose|k: int| 0 <= k < keys.len() && #[trigger] keys[k] == name@;
                                    assert(keys[k] == name@);
                                }
                            }
                            lemma_members_absent(names@, name@, i as int);
                        }
                        let mut members: Vec<usize> = Vec::new();
                        members.push(i);
                        groups.push((name.clone(), members));
                        proof {
                            assert(groups@.map_values(|g: (String, Vec<usize>)| g.0@) =~= keys.push(name@));
                            assert forall|g: int| 0 <= g < groups@.len() implies (#[trigger] groups@[g]).1@
                                == spec_members(names@, groups@[g].0@, i as int + 1) by {
                                if g < before.len() {
                                    assert(keys[g] == before[g].0@);
                                }
                            }
                        }
                    },
                }
            },
        }
        i = i + 1;
    }
    groups
}

proof fn lemma_distinct_keys(values: Seq<Seq<char>>, g: int, k: int)
    requires
        0 <= g < spec_distinct(values).len(),
        0 <= k < spec_distinct(values).len(),
        spec_distinct(values)[g] == spec_distinct(values)[k],
    ensures
        g == k,
{
    crate::portfolio::lemma_distinct(values);
}

proof fn lemma_members_absent(names: Seq<Option<String>>, name: Seq<char>, n: int)
    requires
        0 <= n <= names.len(),
        !spec_distinct(spec_present(names, n)).contains(name),
    ensures
        spec_members(names, name, n) == Seq::<usize>::empty(),
    decreases n,
{
    if n > 0 {
        let present = spec_present(names, n);
        crate::portfolio::lemma_distinct(present);
        crate::portfolio::lemma_distinct(spec_present(names, n - 1));
        let previous = spec_present(names, n - 1);
        assert(!previous.contains(name)) by {
            if previous.contains(name) {
                let k = choose|k: int| 0 <= k < previous.len() && #[trigger] previous[k] == name;
                assert(present[k] == name);
            }
        }
        lemma_members_absent(names, name, n - 1);
    }
}

/// The instrument of a position pricing counted in the distribution: that
/// of an open position.
pub open spec fn open_instrument(place: PositionPlace) -> Option<String> {
    if place.is_close {
        None
    } else {
        Some(place.instrument_name)
    }
}

/// The region of a position pricing counted in the distribution: that of
/// an open position with a region.
pub open spec fn open_region(place: PositionPlace) -> Option<String> {
    if place.is_close {
        None
    } else {
        place.region
    }
}

/// The open positions grouped by instrument: the instruments' names, each
/// once, in the order they first appear, each with its open positions.
pub fn instrument_groups(positions: &Vec<PositionPlace>) -> (r: Vec<(String, Vec<usize>)>)
    ensures
        grouped(r@, positions@.map_values(|p: PositionPlace| open_instrument(p)), positions@.len() as int),
{
    let mut names: Vec<Option<String>> = Vec::new();
    let mut i: usize = 0;
    while i < positions.len()
        invariant
            i <= positions@.len(),
            names@.len() == i,
            forall|k: int| 0 <= k < i ==> name_view(#[trigger] names@[k]) == name_view(open_instrument(positions@[k])),
        decreases positions@.len() - i,
    {
        let place = &positions[i];
        if place.is_close {
            names.push(None);
        } else {
            names.push(Some(place.instrument_name.clone()));
        }
        i = i + 1;
    }
    let r = group_by_name(&names);
    proof {
        lemma_grouped_views(r@, names@, positions@.map_values(|p: PositionPlace| open_instrument(p)));
    }
    r
}

/// The open positions grouped by region (those without a region left
/// out): the regions' names, each once, in the order they first appear,
/// each with its open positions grouped by instrument (as
/// [`instrument_groups`] groups them).
pub fn region_groups(positions: &Vec<PositionPlace>) -> (r: Vec<(String, Vec<(String, Vec<usize>)>)>)
    ensures
        r@.map_values(|g: (String, Vec<(String, Vec<usize>)>)| g.0@) == spec_distinct(
            spec_present(positions@.map_values(|p: PositionPlace| open_region(p)), positions@.len() as int),
        ),
        forall|g: int|
            0 <= g < r@.len() ==> grouped(
                (#[trigger] r@[g]).1@,
                positions@.map_values(|p: PositionPlace| in_region(p, r@[g].0@)),
                positions@.len() as int,
            ),
{
    let mut regions: Vec<Option<String>> = Vec::new();
    let mut i: usize = 0;
    while i < positions.len()
        invariant
            i <= positions@.len(),
            regions@.len() == i,
            forall|k: int| 0 <= k < i ==> name_view(#[trigger] regions@[k]) == name_view(open_region(positions@[k])),
        decreases positions@.len() - i,
    {
        let place = &positions[i];
        if place.is_close {
            regions.push(None);
        } else {
            match &place.region {
                Some(region) => regions.push(Some(region.clone())),
                None => regions.push(None),
            }
        }
        i = i + 1;
    }
    let by_region = group_by_name(&regions);
    proof {
        lemma_grouped_views(by_region@, regions@, positions@.map_values(|p: PositionPlace| open_region(p)));
    }
    let mut result: Vec<(String, Vec<(String, Vec<usize>)>)> = Vec::new();
    let mut g: usize = 0;
    while g < by_region.len()
        invariant
            g <= by_region@.len(),
            result@.len() == g,
            forall|h: int| 0 <= h < g ==> (#[trigger] result@[h]).0@ == by_region@[h].0@,
            forall|h: int|
                0 <= h < g ==> grouped(
                    (#[trigger] result@[h]).1@,
                    positions@.map_values(|p: PositionPlace| in_region(p, result@[h].0@)),
                    positions@.len() as int,
                ),
        decreases by_region@.len() - g,
    {
        let region = &by_region[g].0;
        let mut names: Vec<Option<String>> = Vec::new();
        let mut k: usize = 0;
        while k < positions.len()
            invariant
                k <= positions@.len(),
                names@.len() == k,
                forall|q: int| 0 <= q < k ==> name_view(#[trigger] names@[q]) == name_view(in_region(positions@[q], region@)),
            decreases positions@.len() - k,
        {
            let place = &positions[k];
            let inside = !place.is_close && match &place.region {
                Some(r) => *r == *region,
                None => false,
            };
            if inside {
                names.push(Some(place.instrument_name.clone()));
            } else {
                names.push(None);
            }
            k = k + 1;
        }
        let instruments = group_by_name(&names);
        proof {
            lemma_grouped_views(instruments@, names@, positions@.map_values(|p: PositionPlace| in_region(p, region@)));
        }
        result.push((region.clone(), instruments));
        g = g + 1;
    }
    assert(result@.map_values(|g: (String, Vec<(String, Vec<usize>)>)| g.0@) =~= by_region@.map_values(
        |g: (String, Vec<usize>)| g.0@,
    ));
    result
}

/// The instrument of a position pricing counted in the distribution of
/// the region named `region`: that of an open position of that region.
pub open spec fn in_region(place: PositionPlace, region: Seq<char>) -> Option<String> {
    if !place.is_close && name_view(place.region) == Some(region) {
        Some(place.instrument_name)
    } else {
        None
    }
}

proof fn lemma_members_views(a: Seq<Option<String>>, b: Seq<Option<String>>, name: Seq<char>, n: int)
    requires
        0 <= n <= a.len(),
        a.len() == b.len(),
        forall|k: int| 0 <= k < a.len() ==> name_view(#[trigger] a[k]) == name_view(b[k]),
    ensures
        spec_members(a, name, n) == spec_members(b, name, n),
        spec_present(a, n) == spec_present(b, n),
    decreases n,
{
    if n > 0 {
        lemma_members_views(a, b, name, n - 1);
    }
}

proof fn lemma_grouped_views(groups: Seq<(String, Vec<usize>)>, a: Seq<Option<String>>, b: Seq<Option<String>>)
    requires
        a.len() == b.len(),
        forall|k: int| 0 <= k < a.len() ==> name_view(#[trigger] a[k]) == name_view(b[k]),
        grouped(groups, a, a.len() as int),
    ensures
        grouped(groups, b, b.len() as int),
{
    lemma_members_views(a, b, Seq::empty(), a.len() as int);
    assert forall|g: int| 0 <= g < groups.len() implies (#[trigger] groups[g]).1@ == spec_members(b, groups[g].0@, b.len() as int) by {
        lemma_members_views(a, b, groups[g].0@, a.len() as int);
    }
}

} // verus!
