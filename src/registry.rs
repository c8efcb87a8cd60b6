use vstd::prelude::*;
use crate::config::{Config, ConfigError, Upstream};
use crate::select::nodes_error;
use crate::upstream::{upstream_wf, ProxyUpstream};

verus! {

/// All upstreams of the proxy, keyed by identifier.
pub struct Registry {
    pub units: Vec<ProxyUpstream>,
}

/// No two units share an identifier.
pub open spec fn ids_unique(us: Seq<ProxyUpstream>) -> bool {
    forall|i: int, j: int| 0 <= i < us.len() && 0 <= j < us.len() && i != j ==>
        (#[trigger] us[i]).inner.id@ != (#[trigger] us[j]).inner.id@
}

/// Identifiers are unique and every unit is usable.
pub open spec fn registry_wf(us: Seq<ProxyUpstream>) -> bool {
    &&& ids_unique(us)
    &&& forall|i: int| 0 <= i < us.len() ==> upstream_wf(#[trigger] us[i])
}

/// Position of the unit with identifier `id`, searching from `i`, or -1.
pub open spec fn find_from(us: Seq<ProxyUpstream>, id: Seq<char>, i: int) -> int
    decreases us.len() - i,
{
    if i < 0 || i >= us.len() {
        -1
    } else if us[i].inner.id@ == id {
        i
    } else {
        find_from(us, id, i + 1)
    }
}

/// The unit a lookup of `id` returns.
pub open spec fn lookup(us: Seq<ProxyUpstream>, id: Seq<char>) -> Option<ProxyUpstream> {
    let i = find_from(us, id, 0);
    if i < 0 {
        None
    } else {
        Some(us[i])
    }
}

/// Position of the first upstream configuration that cannot be built, or -1.
pub open spec fn first_bad_from(cs: Seq<Upstream>, i: int) -> int
    decreases cs.len() - i,
{
    if i < 0 || i >= cs.len() {
        -1
    } else if nodes_error(cs[i].nodes@) is Some {
        i
    } else {
        first_bad_from(cs, i + 1)
    }
}

/// Why a configuration cannot be loaded: the first upstream whose nodes
/// cannot form a pool, else a shared identifier.
pub open spec fn load_error(cs: Seq<Upstream>) -> Option<ConfigError> {
    let b = first_bad_from(cs, 0);
    if b >= 0 {
        nodes_error(cs[b].nodes@)
    } else if exists|i: int, j: int| 0 <= i < cs.len() && 0 <= j < cs.len() && i != j
        && (#[trigger] cs[i]).id@ == (#[trigger] cs[j]).id@ {
        Some(ConfigError::DuplicateId)
    } else {
        None
    }
}

proof fn lemma_find_from(us: Seq<ProxyUpstream>, id: Seq<char>, i: int)
    requires
        0 <= i,
    ensures
        -1 <= find_from(us, id, i) < us.len(),
        find_from(us, id, i) >= 0 ==> us[find_from(us, id, i)].inner.id@ == id && find_from(us, id, i) >= i,
        find_from(us, id, i) < 0 ==> forall|j: int| i <= j < us.len() ==> us[j].inner.id@ != id,
    decreases us.len() - i,
{
    if i < us.len() && us[i].inner.id@ != id {
        lemma_find_from(us, id, i + 1);
    }
}

proof fn lemma_first_bad_from(cs: Seq<Upstream>, i: int)
    requires
        0 <= i,
    ensures
        -1 <= first_bad_from(cs, i) < cs.len(),
        first_bad_from(cs, i) >= 0 ==> first_bad_from(cs, i) >= i && nodes_error(cs[first_bad_from(cs, i)].nodes@) is Some,
        forall|j: int| i <= j < cs.len() && (first_bad_from(cs, i) < 0 || j < first_bad_from(cs, i)) ==>
            nodes_error(#[trigger] cs[j].nodes@) is None,
    decreases cs.len() - i,
{
    if i < cs.len() && nodes_error(cs[i].nodes@) is None {
        lemma_first_bad_from(cs, i + 1);
    }
}

impl Registry {
    /// An empty registry.
    pub fn new() -> (r: Registry)
        ensures
            r.units@.len() == 0,
            registry_wf(r.units@),
    {
        Registry { units: Vec::new() }
    }

    /// Position of the unit with identifier `id`.
    fn position(&self, id: &str) -> (r: Option<usize>)
        ensures
            opt_pos(r) == find_from(self.units@, id@, 0),
    {
        let target = id.to_owned();
        let mut i: usize = 0;
        while i < self.units.len()
            invariant
                i <= self.units@.len(),
                target@ == id@,
                find_from(self.units@, id@, i as int) == find_from(self.units@, id@, 0),
            decreases self.units@.len() - i,
        {
            if self.units[i].inner.id == target {
                return Some(i);
            }
            i = i + 1;
        }
        None
    }
}

pub open spec fn opt_pos(o: Option<usize>) -> int {
    match o {
        Some(i) => i as int,
        None => -1,
    }
}

/// Looks an upstream up by identifier; `None` when there is none.
pub fn upstream_fetch<'a>(registry: &'a Registry, id: &str) -> (r: Option<&'a ProxyUpstream>)
    ensures
        match r {
            Some(u) => lookup(registry.units@, id@) == Some(*u),
            None => lookup(registry.units@, id@) is None,
        },
{
    proof {
        lemma_find_from(registry.units@, id@, 0);
    }
    match registry.position(id) {
        Some(i) => Some(&registry.units[i]),
        None => None,
    }
}

/// Builds a unit for every configured upstream and replaces the whole
/// registry with them. When an upstream cannot be built, or two share an
/// identifier, nothing is replaced and the error is returned.
pub fn load_static_upstreams(registry: &mut Registry, config: Config) -> (r: Result<(), ConfigError>)
    ensures
        r is Ok <==> load_error(config.upstreams@) is None,
        r matches Err(e) ==> load_error(config.upstreams@) == Some(e) && final(registry).units@ == old(
            registry,
        ).units@,
        r is Ok ==> {
            &&& registry_wf(final(registry).units@)
            &&& final(registry).units@.len() == config.upstreams@.len()
            &&& forall|i: int| 0 <= i < config.upstreams@.len() ==> {
                &&& (#[trigger] final(registry).units@[i]).inner == config.upstreams@[i]
                &&& final(registry).units@[i].work_stealing == config.work_stealing
            }
        },
{
    let ghost cs = config.upstreams@;
    let work_stealing = config.work_stealing;
    let mut pending = config.upstreams;
    let mut built: Vec<ProxyUpstream> = Vec::new();
    proof {
        lemma_first_bad_from(cs, 0);
    }
    while pending.len() > 0
        invariant
            cs == config.upstreams@,
            registry.units@ == old(registry).units@,
            built@.len() + pending@.len() == cs.len(),
            pending@ == cs.subrange(built@.len() as int, cs.len() as int),
            forall|j: int| 0 <= j < built@.len() ==> {
                &&& upstream_wf(#[trigger] built@[j])
                &&& built@[j].inner == cs[j]
                &&& built@[j].work_stealing == work_stealing
            },
            forall|j: int| 0 <= j < built@.len() ==> nodes_error(#[trigger] cs[j].nodes@) is None,
            -1 <= first_bad_from(cs, 0) < cs.len(),
            first_bad_from(cs, 0) >= 0 ==> built@.len() <= first_bad_from(cs, 0)
                && nodes_error(cs[first_bad_from(cs, 0)].nodes@) is Some,
            forall|j: int| 0 <= j < cs.len() && (first_bad_from(cs, 0) < 0 || j < first_bad_from(cs, 0)) ==>
                nodes_error(#[trigger] cs[j].nodes@) is None,
        decreases pending@.len(),
    {
        let k = built.len();
        let c = pending.remove(0);
        assert(c == cs[k as int]);
        match ProxyUpstream::new_with_health_check(c, work_stealing) {
            Ok(u) => {
                built.push(u);
            },
            Err(e) => {
                assert(nodes_error(cs[k as int].nodes@) is Some);
                assert(first_bad_from(cs, 0) == k as int);
                return Err(e);
            },
        }
    }
    assert(first_bad_from(cs, 0) < 0);
    let mut i: usize = 0;
    while i < built.len()
        invariant
            cs == config.upstreams@,
            registry.units@ == old(registry).units@,
            first_bad_from(cs, 0) < 0,
            forall|j: int| 0 <= j < built@.len() ==> {
                &&& upstream_wf(#[trigger] built@[j])
                &&& built@[j].work_stealing == work_stealing
            },
            built@.len() == cs.len(),
            i <= built@.len(),
            forall|j: int| 0 <= j < built@.len() ==> (#[trigger] built@[j]).inner == cs[j],
            forall|a: int, b: int| 0 <= a < i && 0 <= b < built@.len() && a != b ==>
                (#[trigger] cs[a]).id@ != (#[trigger] cs[b]).id@,
        decreases built@.len() - i,
    {
        let mut j: usize = 0;
        while j < built.len()
            invariant
                cs == config.upstreams@,
                registry.units@ == old(registry).units@,
                first_bad_from(cs, 0) < 0,
                built@.len() == cs.len(),
                i < built@.len(),
                j <= built@.len(),
                forall|x: int| 0 <= x < built@.len() ==> (#[trigger] built@[x]).inner == cs[x],
                forall|a: int, b: int| 0 <= a < i && 0 <= b < built@.len() && a != b ==>
                    (#[trigger] cs[a]).id@ != (#[trigger] cs[b]).id@,
                forall|b: int| 0 <= b < j && b != i ==> cs[i as int].id@ != (#[trigger] cs[b]).id@,
            decreases built@.len() - j,
        {
            if j != i && built[i].inner.id == built[j].inner.id {
                assert(cs[i as int].id@ == cs[j as int].id@);
                return Err(ConfigError::DuplicateId);
            }
            j = j + 1;
        }
        i = i + 1;
    }
    assert(first_bad_from(cs, 0) < 0);
    registry.units = built;
    Ok(())
}

/// Every unit of a well-formed registry has at least one backend, so an
/// upstream with an empty node list never becomes a unit.
pub proof fn lemma_units_have_backends(us: Seq<ProxyUpstream>, i: int)
    requires
        registry_wf(us),
        0 <= i < us.len(),
    ensures
        us[i].pool.backends@.len() >= 1,
        nodes_error(Seq::<crate::config::Node>::empty()) == Some(ConfigError::EmptyNodes),
{
}

/// A lookup in a well-formed registry returns the one unit with that
/// identifier, whole, or nothing when no unit has it.
pub proof fn lemma_lookup_unique(us: Seq<ProxyUpstream>, id: Seq<char>)
    requires
        registry_wf(us),
    ensures
        lookup(us, id) matches Some(u) ==> u.inner.id@ == id && exists|i: int| 0 <= i < us.len() && us[i] == u,
        lookup(us, id) matches Some(u) ==> forall|i: int| 0 <= i < us.len() && (#[trigger] us[i]).inner.id@ == id ==> us[i] == u,
        lookup(us, id) is None ==> forall|i: int| 0 <= i < us.len() ==> (#[trigger] us[i]).inner.id@ != id,
{
    lemma_find_from(us, id, 0);
    let k = find_from(us, id, 0);
    if k >= 0 {
        assert(us[k] == us[k]);
    }
}

/// After a successful load, a lookup of any identifier finds the unit built
/// from that identifier's configuration in the new generation, or nothing when
/// the new configuration lacks it: no unit of the old generation remains.
pub proof fn lemma_reload_replaces(old_units: Seq<ProxyUpstream>, new_units: Seq<ProxyUpstream>, cs: Seq<Upstream>, id: Seq<char>)
    requires
        registry_wf(new_units),
        new_units.len() == cs.len(),
        forall|i: int| 0 <= i < cs.len() ==> (#[trigger] new_units[i]).inner == cs[i],
    ensures
        lookup(new_units, id) matches Some(u) ==> exists|i: int| 0 <= i < cs.len() && u.inner == cs[i] && cs[i].id@ == id,
        lookup(new_units, id) is None ==> forall|i: int| 0 <= i < cs.len() ==> (#[trigger] cs[i]).id@ != id,
{
    lemma_find_from(new_units, id, 0);
    let k = find_from(new_units, id, 0);
    if k >= 0 {
        assert(new_units[k].inner == cs[k]);
    } else {
        assert forall|i: int| 0 <= i < cs.len() implies (#[trigger] cs[i]).id@ != id by {
            assert(new_units[i].inner == cs[i]);
        }
    }
}

} // verus!
