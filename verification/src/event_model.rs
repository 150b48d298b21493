//! The event data model: hits, module views, tracks, and the event builder.

use vstd::prelude::*;
use crate::geometry::COORD_LIMIT;

verus! {

/// A point measurement with identity.  `id` equals the hit's index in the
/// event's global hit array.  Coordinates are fixed-point integers.
#[derive(Clone, Copy, Debug)]
pub struct Hit {
    pub id: usize,
    pub x: i64,
    pub y: i64,
    pub z: i64,
    pub t: i64,
    /// Module this hit lies on; -1 when unknown.
    pub module_number: i64,
    pub with_t: bool,
}

impl Hit {
    /// Coordinates bounded so that the exact geometric predicates cannot
    /// overflow.
    pub open spec fn wf(self) -> bool {
        &&& -COORD_LIMIT <= self.x <= COORD_LIMIT
        &&& -COORD_LIMIT <= self.y <= COORD_LIMIT
        &&& -COORD_LIMIT <= self.z <= COORD_LIMIT
    }

    pub fn new(
        x: i64,
        y: i64,
        z: i64,
        hit_id: usize,
        module: Option<i64>,
        t: Option<i64>,
        with_t: Option<bool>,
    ) -> (r: Hit)
        ensures
            r.id == hit_id,
            r.x == x && r.y == y && r.z == z,
            r.t == (if t is Some { t->0 } else { 0 }),
            r.module_number == (if module is Some { module->0 as int } else { -1 as int }),
            r.with_t == (if with_t is Some { with_t->0 } else { false }),
    {
        Hit {
            id: hit_id,
            x,
            y,
            z,
            t: match t {
                Some(v) => v,
                None => 0,
            },
            module_number: match module {
                Some(m) => m,
                None => -1,
            },
            with_t: match with_t {
                Some(b) => b,
                None => false,
            },
        }
    }
}

/// The distinct values of the sequence, in order of first occurrence.
pub open spec fn distinct_values(s: Seq<i64>) -> Seq<i64>
    decreases s.len(),
{
    if s.len() == 0 {
        Seq::empty()
    } else {
        let pre = distinct_values(s.drop_last());
        if pre.contains(s.last()) {
            pre
        } else {
            pre.push(s.last())
        }
    }
}

/// A sequence of hits has no repeated hit id.
pub open spec fn distinct_ids(hits: Seq<Hit>) -> bool {
    forall|i: int, j: int| 0 <= i < j < hits.len() ==> hits[i].id != hits[j].id
}

/// The hit at global index `i` records a module number whose prefix-sum
/// range contains `i`.
pub open spec fn hit_module_consistent(prefix: Seq<usize>, nmod: int, h: Hit, i: int) -> bool {
    &&& 0 <= h.module_number < nmod
    &&& prefix[h.module_number as int] <= i < prefix[h.module_number + 1]
}

/// A slice view over the event's global hit array.
#[derive(Clone, Debug)]
pub struct Module {
    pub module_number: usize,
    /// The distinct z values of the module's hits.
    pub z: Vec<i64>,
    pub hit_start_index: usize,
    pub hit_end_index: usize,
    pub global_hits: Vec<Hit>,
}

/// Error raised when a part of the event input is rejected.
#[derive(Clone, Copy, Debug, PartialEq, Eq, Structural)]
pub enum ConfigError {
    /// `module_prefix_sum` has the wrong length, does not start at zero, or
    /// is not monotonically non-decreasing.
    BadPrefixSum,
    /// A coordinate array's length does not match the hit count.
    LengthMismatch,
    /// A coordinate lies outside `COORD_LIMIT`.
    CoordinateOutOfRange,
    /// Module bounds do not describe a range inside the hit array.
    BadModuleRange,
}

impl Module {
    pub open spec fn wf(self) -> bool {
        self.hit_start_index <= self.hit_end_index <= self.global_hits.len()
    }

    pub fn new(
        module_number: usize,
        z: Vec<i64>,
        hit_start_index: usize,
        hit_end_index: usize,
        global_hits: Vec<Hit>,
    ) -> (r: Result<Module, ConfigError>)
        ensures
            r is Ok <==> hit_start_index <= hit_end_index <= global_hits.len(),
            r matches Ok(m) ==> {
                &&& m.module_number == module_number
                &&& m.z@ == z@
                &&& m.hit_start_index == hit_start_index
                &&& m.hit_end_index == hit_end_index
                &&& m.global_hits@ == global_hits@
                &&& m.wf()
            },
            r is Err ==> r == Result::<Module, ConfigError>::Err(ConfigError::BadModuleRange),
    {
        if hit_start_index > hit_end_index || hit_end_index > global_hits.len() {
            return Err(ConfigError::BadModuleRange);
        }
        Ok(Module { module_number, z, hit_start_index, hit_end_index, global_hits })
    }

    /// The hits associated with this module, in index order.
    pub fn hits(&self) -> (r: Vec<Hit>)
        requires
            self.wf(),
        ensures
            r@ == self.global_hits@.subrange(
                self.hit_start_index as int,
                self.hit_end_index as int,
            ),
    {
        let mut out: Vec<Hit> = Vec::new();
        let mut i: usize = self.hit_start_index;
        while i < self.hit_end_index
            invariant
                self.hit_start_index <= i <= self.hit_end_index <= self.global_hits.len(),
                out@ == self.global_hits@.subrange(self.hit_start_index as int, i as int),
            decreases self.hit_end_index - i,
        {
            out.push(self.global_hits[i]);
            proof {
                assert(out@ =~= self.global_hits@.subrange(
                    self.hit_start_index as int,
                    i + 1 as int,
                ));
            }
            i = i + 1;
        }
        out
    }
}

/// An ordered sequence of hits hypothesised to originate from one particle.
#[derive(Clone, Debug)]
#[verifier::ext_equal]
pub struct Track {
    pub hits: Vec<Hit>,
    pub missed_last_module: bool,
    pub missed_penultimate_module: bool,
}

impl Track {
    pub fn new(hits: Vec<Hit>) -> (r: Track)
        ensures
            r.hits@ == hits@,
            !r.missed_last_module,
            !r.missed_penultimate_module,
    {
        Track { hits, missed_last_module: false, missed_penultimate_module: false }
    }

    pub fn add_hit(&mut self, hit: Hit)
        ensures
            final(self).hits@ == old(self).hits@.push(hit),
            final(self).missed_last_module == old(self).missed_last_module,
            final(self).missed_penultimate_module == old(self).missed_penultimate_module,
    {
        self.hits.push(hit);
    }
}

/// Aggregate of the raw coordinate arrays, the derived hit list and the
/// module views.
#[derive(Clone, Debug)]
pub struct Event {
    pub description: String,
    pub module_prefix_sum: Vec<usize>,
    pub number_of_hits: usize,
    pub module_zs: Vec<Vec<i64>>,
    pub hits: Vec<Hit>,
    pub modules: Vec<Module>,
}

impl Event {
    /// Structural well-formedness that survives a per-module permutation of
    /// the hits (engine D sorts each module range of a working copy by x).
    pub open spec fn wf_core(self) -> bool {
        &&& self.module_prefix_sum.len() == self.modules.len() + 1
        &&& self.module_prefix_sum[0] == 0
        &&& self.module_prefix_sum[self.modules.len() as int] == self.hits.len()
        &&& forall|m: int|
            0 <= m < self.modules.len() ==> #[trigger] self.module_prefix_sum[m]
                <= self.module_prefix_sum[m + 1]
        &&& self.number_of_hits == self.hits.len()
        &&& forall|m: int|
            0 <= m < self.modules.len() ==> {
                &&& (#[trigger] self.modules[m]).module_number == m
                &&& self.modules[m].hit_start_index == self.module_prefix_sum[m]
                &&& self.modules[m].hit_end_index == self.module_prefix_sum[m + 1]
                &&& self.modules[m].global_hits@ == self.hits@
            }
        &&& forall|i: int|
            0 <= i < self.hits.len() ==> hit_module_consistent(
                self.module_prefix_sum@,
                self.modules.len() as int,
                #[trigger] self.hits@[i],
                i,
            )
        &&& forall|i: int| 0 <= i < self.hits.len() ==> (#[trigger] self.hits@[i]).wf()
        &&& distinct_ids(self.hits@)
        &&& forall|i: int| 0 <= i < self.hits.len() ==> (#[trigger] self.hits@[i]).id < self.hits.len()
    }

    /// Full well-formedness: additionally every hit's id equals its index in
    /// the global hit array.
    pub open spec fn wf(self) -> bool {
        &&& self.wf_core()
        &&& forall|i: int| 0 <= i < self.hits.len() ==> (#[trigger] self.hits@[i]).id == i
    }

    /// Builds an event from the raw per-hit coordinate arrays and the module
    /// prefix sum.  `module_prefix_sum` must have `NUM_MODULES + 1` entries;
    /// hit `i` of module `m` takes `id = i` for `i` in
    /// `[prefix[m], prefix[m + 1])`.
    pub fn new(
        description: String,
        module_prefix_sum: Vec<usize>,
        x: Vec<i64>,
        y: Vec<i64>,
        z: Vec<i64>,
        t: Option<Vec<i64>>,
    ) -> (r: Result<Event, ConfigError>)
        ensures
            r matches Ok(e) ==> {
                &&& e.wf()
                &&& e.modules.len() == NUM_MODULES
                &&& e.module_prefix_sum@ == module_prefix_sum@
                &&& e.description@ == description@
                &&& e.hits.len() == x.len()
                &&& e.module_zs.len() == NUM_MODULES
                &&& forall|m: int|
                    0 <= m < NUM_MODULES ==> (#[trigger] e.module_zs@[m])@ == distinct_values(
                        z@.subrange(
                            module_prefix_sum@[m] as int,
                            module_prefix_sum@[m + 1] as int,
                        ),
                    )
                &&& forall|i: int|
                    0 <= i < e.hits.len() ==> {
                        &&& (#[trigger] e.hits@[i]).x == x@[i]
                        &&& e.hits@[i].y == y@[i]
                        &&& e.hits@[i].z == z@[i]
                        &&& e.hits@[i].t == (if t is Some { t->0@[i] } else { 0 })
                        &&& e.hits@[i].with_t == (t is Some)
                    }
            },
            r is Ok <==> event_input_ok(module_prefix_sum@, x@, y@, z@, t),
    {
        if !check_prefix(&module_prefix_sum) {
            return Err(ConfigError::BadPrefixSum);
        }
        let number_of_hits: usize = module_prefix_sum[NUM_MODULES];
        if x.len() != number_of_hits || y.len() != number_of_hits || z.len() != number_of_hits {
            return Err(ConfigError::LengthMismatch);
        }
        if let Some(ref ts) = t {
            if ts.len() != number_of_hits {
                return Err(ConfigError::LengthMismatch);
            }
        }
        if !check_coords(&x) || !check_coords(&y) || !check_coords(&z) {
            return Err(ConfigError::CoordinateOutOfRange);
        }
        let (hits, module_zs) = build_hits(&module_prefix_sum, &x, &y, &z, &t);
        let modules = build_modules(&module_prefix_sum, &hits, &module_zs);
        let ev = Event {
            description,
            module_prefix_sum,
            number_of_hits,
            module_zs,
            hits,
            modules,
        };
        proof {
            assert forall|i: int| 0 <= i < ev.hits.len() implies (#[trigger] ev.hits@[i]).id
                < ev.hits.len() by {
                assert(ev.hits@[i].id == i);
            }
        }
        Ok(ev)
    }

}

/// Number of detector modules in a standard event.
pub const NUM_MODULES: usize = 52;

/// The conditions under which the event builder accepts its input.
pub open spec fn event_input_ok(
    prefix: Seq<usize>,
    x: Seq<i64>,
    y: Seq<i64>,
    z: Seq<i64>,
    t: Option<Vec<i64>>,
) -> bool {
    &&& prefix.len() == NUM_MODULES + 1
    &&& prefix[0] == 0
    &&& forall|m: int| 0 <= m < NUM_MODULES ==> #[trigger] prefix[m] <= prefix[m + 1]
    &&& x.len() == prefix[NUM_MODULES as int]
    &&& y.len() == x.len()
    &&& z.len() == x.len()
    &&& (t matches Some(ts) ==> ts.len() == x.len())
    &&& coords_in_range(x)
    &&& coords_in_range(y)
    &&& coords_in_range(z)
}

/// Every value of the sequence lies within `COORD_LIMIT`.
pub open spec fn coords_in_range(v: Seq<i64>) -> bool {
    forall|i: int| 0 <= i < v.len() ==> -COORD_LIMIT <= #[trigger] v[i] <= COORD_LIMIT
}

/// Checks that the prefix sum has the right length, starts at zero and is
/// monotonically non-decreasing.
fn check_prefix(prefix: &Vec<usize>) -> (ok: bool)
    ensures
        ok <==> (prefix.len() == NUM_MODULES + 1 && prefix[0] == 0 && forall|m: int|
            0 <= m < NUM_MODULES ==> #[trigger] prefix@[m] <= prefix@[m + 1]),
{
    if prefix.len() != NUM_MODULES + 1 {
        return false;
    }
    if prefix[0] != 0 {
        return false;
    }
    let mut m: usize = 0;
    while m < NUM_MODULES
        invariant
            m <= NUM_MODULES,
            prefix.len() == NUM_MODULES + 1,
            forall|k: int| 0 <= k < m ==> #[trigger] prefix@[k] <= prefix@[k + 1],
        decreases NUM_MODULES - m,
    {
        if prefix[m] > prefix[m + 1] {
            return false;
        }
        m = m + 1;
    }
    true
}

/// Checks that every coordinate lies within `COORD_LIMIT`.
fn check_coords(v: &Vec<i64>) -> (ok: bool)
    ensures
        ok <==> coords_in_range(v@),
{
    let mut i: usize = 0;
    while i < v.len()
        invariant
            i <= v.len(),
            forall|k: int| 0 <= k < i ==> -COORD_LIMIT <= #[trigger] v@[k] <= COORD_LIMIT,
        decreases v.len() - i,
    {
        if v[i] < -COORD_LIMIT || v[i] > COORD_LIMIT {
            return false;
        }
        i = i + 1;
    }
    true
}

/// The hit at index `i` carries the right fields for the given input
/// arrays.
pub open spec fn hit_from_input(
    h: Hit,
    i: int,
    x: Seq<i64>,
    y: Seq<i64>,
    z: Seq<i64>,
    t: Option<Vec<i64>>,
) -> bool {
    &&& h.id == i
    &&& h.x == x[i]
    &&& h.y == y[i]
    &&& h.z == z[i]
    &&& h.t == (if t is Some { t->0@[i] } else { 0 })
    &&& h.with_t == (t is Some)
}

/// Whether the vector contains the value.
fn contains_i64(v: &Vec<i64>, val: i64) -> (r: bool)
    ensures
        r <==> exists|k: int| 0 <= k < v.len() && v@[k] == val,
{
    let mut k: usize = 0;
    while k < v.len()
        invariant
            k <= v.len(),
            forall|j: int| 0 <= j < k ==> v@[j] != val,
        decreases v.len() - k,
    {
        if v[k] == val {
            return true;
        }
        k = k + 1;
    }
    false
}

/// Emits the hits module by module together with each module's distinct z
/// values.
#[verifier::loop_isolation(false)]
#[verifier::rlimit(100)]
#[verifier::spinoff_prover]
fn build_hits(
    prefix: &Vec<usize>,
    x: &Vec<i64>,
    y: &Vec<i64>,
    z: &Vec<i64>,
    t: &Option<Vec<i64>>,
) -> (r: (Vec<Hit>, Vec<Vec<i64>>))
    requires
        event_input_ok(prefix@, x@, y@, z@, *t),
    ensures
        r.0.len() == x.len(),
        r.1.len() == NUM_MODULES,
        forall|i: int|
            0 <= i < r.0.len() ==> hit_from_input(#[trigger] r.0@[i], i, x@, y@, z@, *t)
                && r.0@[i].wf() && hit_module_consistent(
                prefix@,
                NUM_MODULES as int,
                r.0@[i],
                i,
            ),
        forall|m: int|
            0 <= m < NUM_MODULES ==> (#[trigger] r.1@[m])@ == distinct_values(
                z@.subrange(prefix@[m] as int, prefix@[m + 1] as int),
            ),
{
    let with_t = t.is_some();
    let mut hits: Vec<Hit> = Vec::new();
    let mut module_zs: Vec<Vec<i64>> = Vec::new();
    let mut m: usize = 0;
    while m < NUM_MODULES
        invariant
            m <= NUM_MODULES,
            hits.len() == prefix@[m as int],
            module_zs.len() == m,
            forall|i: int|
                0 <= i < hits.len() ==> hit_from_input(#[trigger] hits@[i], i, x@, y@, z@, *t)
                    && hits@[i].wf() && hit_module_consistent(
                    prefix@,
                    NUM_MODULES as int,
                    hits@[i],
                    i,
                ),
            forall|m2: int|
                0 <= m2 < m ==> (#[trigger] module_zs@[m2])@ == distinct_values(
                    z@.subrange(prefix@[m2] as int, prefix@[m2 + 1] as int),
                ),
        decreases NUM_MODULES - m,
    {
        let start = prefix[m];
        let end = prefix[m + 1];
        proof {
            lemma_prefix_le(prefix@, m + 1 as int, NUM_MODULES as int);
        }
        let mut zs: Vec<i64> = Vec::new();
        let mut i: usize = start;
        while i < end
            invariant
                start <= i <= end,
                start == prefix@[m as int],
                end == prefix@[m + 1 as int],
                end <= z.len(),
                m < NUM_MODULES,
                hits.len() == i,
                forall|j: int|
                    0 <= j < hits.len() ==> hit_from_input(#[trigger] hits@[j], j, x@, y@, z@, *t)
                        && hits@[j].wf() && hit_module_consistent(
                        prefix@,
                        NUM_MODULES as int,
                        hits@[j],
                        j,
                    ),
                zs@ == distinct_values(z@.subrange(start as int, i as int)),
            decreases end - i,
        {
            let tv: Option<i64> = match t {
                Some(ref ts) => Some(ts[i]),
                None => None,
            };
            let h = Hit::new(x[i], y[i], z[i], i, Some(m as i64), tv, Some(with_t));
            hits.push(h);
            let ghost zs_pre = zs@;
            if !contains_i64(&zs, h.z) {
                zs.push(h.z);
            }
            proof {
                let sl = z@.subrange(start as int, i + 1 as int);
                assert(sl.drop_last() =~= z@.subrange(start as int, i as int));
                assert(sl.last() == z@[i as int]);
                assert(zs_pre.contains(z@[i as int]) <==> exists|k: int|
                    0 <= k < zs_pre.len() && zs_pre[k] == z@[i as int]);
                assert(zs@ =~= distinct_values(sl));
            }
            i = i + 1;
        }
        module_zs.push(zs);
        m = m + 1;
    }
    (hits, module_zs)
}

/// Builds the module views over the completed hit array.
#[verifier::loop_isolation(false)]
pub fn build_modules(prefix: &Vec<usize>, hits: &Vec<Hit>, module_zs: &Vec<Vec<i64>>) -> (r: Vec<
    Module,
>)
    requires
        prefix.len() == module_zs.len() + 1,
        forall|m: int| 0 <= m < module_zs.len() ==> #[trigger] prefix@[m] <= prefix@[m + 1],
        hits.len() == prefix@[module_zs.len() as int],
    ensures
        r.len() == module_zs.len(),
        forall|m: int|
            0 <= m < module_zs.len() ==> {
                &&& (#[trigger] r@[m]).module_number == m
                &&& r@[m].hit_start_index == prefix@[m]
                &&& r@[m].hit_end_index == prefix@[m + 1]
                &&& r@[m].global_hits@ == hits@
            },
{
    let nmod = module_zs.len();
    let mut modules: Vec<Module> = Vec::new();
    let mut m: usize = 0;
    while m < nmod
        invariant
            m <= nmod,
            modules.len() == m,
            forall|k: int|
                0 <= k < m ==> {
                    &&& (#[trigger] modules@[k]).module_number == k
                    &&& modules@[k].hit_start_index == prefix@[k]
                    &&& modules@[k].hit_end_index == prefix@[k + 1]
                    &&& modules@[k].global_hits@ == hits@
                },
        decreases nmod - m,
    {
        proof {
            lemma_prefix_le(prefix@, m + 1 as int, nmod as int);
        }
        let md = Module {
            module_number: m,
            z: copy_i64_vec(&module_zs[m]),
            hit_start_index: prefix[m],
            hit_end_index: prefix[m + 1],
            global_hits: copy_hit_vec(hits),
        };
        modules.push(md);
        m = m + 1;
    }
    modules
}

/// The hit's own id lies inside the prefix range of the module the hit
/// says it is on.  Unlike `id == index`, this survives any permutation of
/// the hits within module ranges.
pub open spec fn hit_id_in_own_module(prefix: Seq<usize>, nmod: int, h: Hit) -> bool {
    &&& 0 <= h.module_number < nmod
    &&& prefix[h.module_number as int] <= h.id < prefix[h.module_number + 1]
}

impl Event {
    /// Weaker well-formedness for a working copy whose module ranges have
    /// been permuted: positions and ids both stay within their module's
    /// range.
    pub open spec fn wf_shuffled(self) -> bool {
        &&& self.wf_core_structure()
        &&& forall|i: int|
            0 <= i < self.hits.len() ==> {
                &&& (#[trigger] self.hits@[i]).wf()
                &&& hit_module_consistent(
                    self.module_prefix_sum@,
                    self.modules.len() as int,
                    self.hits@[i],
                    i,
                )
                &&& hit_id_in_own_module(
                    self.module_prefix_sum@,
                    self.modules.len() as int,
                    self.hits@[i],
                )
            }
    }

    /// The structural part of well-formedness: prefix sums and module
    /// views line up with the hit array.
    pub open spec fn wf_core_structure(self) -> bool {
        &&& self.module_prefix_sum.len() == self.modules.len() + 1
        &&& self.module_prefix_sum[0] == 0
        &&& self.module_prefix_sum[self.modules.len() as int] == self.hits.len()
        &&& forall|m: int|
            0 <= m < self.modules.len() ==> #[trigger] self.module_prefix_sum[m]
                <= self.module_prefix_sum[m + 1]
        &&& self.number_of_hits == self.hits.len()
        &&& forall|m: int|
            0 <= m < self.modules.len() ==> {
                &&& (#[trigger] self.modules[m]).module_number == m
                &&& self.modules[m].hit_start_index == self.module_prefix_sum[m]
                &&& self.modules[m].hit_end_index == self.module_prefix_sum[m + 1]
                &&& self.modules[m].global_hits@ == self.hits@
            }
    }

    /// A fully well-formed event is also well-formed as a working copy.
    pub proof fn lemma_wf_implies_shuffled(self)
        requires
            self.wf(),
        ensures
            self.wf_shuffled(),
    {
        assert forall|i: int| 0 <= i < self.hits.len() implies {
            &&& (#[trigger] self.hits@[i]).wf()
            &&& hit_module_consistent(
                self.module_prefix_sum@,
                self.modules.len() as int,
                self.hits@[i],
                i,
            )
            &&& hit_id_in_own_module(
                self.module_prefix_sum@,
                self.modules.len() as int,
                self.hits@[i],
            )
        } by {
            assert(self.hits@[i].id == i);
        }
    }

    /// In a well-formed working copy, the prefix ranges of two different
    /// modules are disjoint, so a position determines its module.
    #[verifier::rlimit(50)]
    pub proof fn lemma_position_module(self, m: int, p: int)
        requires
            self.wf_shuffled(),
            0 <= m < self.modules.len(),
            self.module_prefix_sum@[m] <= p < self.module_prefix_sum@[m + 1],
        ensures
            self.hits@[p].module_number == m,
            self.module_prefix_sum@[m] <= self.hits@[p].id < self.module_prefix_sum@[m + 1],
    {
        assert(0 <= p < self.hits.len()) by {
            lemma_prefix_le(self.module_prefix_sum@, m + 1, self.modules.len() as int);
            assert(self.module_prefix_sum@[0] <= self.module_prefix_sum@[m]) by {
                lemma_prefix_le(self.module_prefix_sum@, 0, m);
            }
        }
        assert(hit_module_consistent(
            self.module_prefix_sum@,
            self.modules.len() as int,
            self.hits@[p],
            p,
        ));
        let mn = self.hits@[p].module_number;
        if mn < m {
            lemma_prefix_le(self.module_prefix_sum@, mn + 1, m);
            assert(false);
        } else if mn > m {
            lemma_prefix_le(self.module_prefix_sum@, m + 1, mn as int);
            assert(false);
        }
    }
}

/// Copies a vector of coordinates.
pub fn copy_i64_vec(v: &Vec<i64>) -> (r: Vec<i64>)
    ensures
        r@ == v@,
{
    let mut out: Vec<i64> = Vec::new();
    let mut i: usize = 0;
    while i < v.len()
        invariant
            i <= v.len(),
            out@ == v@.subrange(0, i as int),
        decreases v.len() - i,
    {
        out.push(v[i]);
        proof {
            assert(out@ =~= v@.subrange(0, i + 1 as int));
        }
        i = i + 1;
    }
    proof {
        assert(out@ =~= v@);
    }
    out
}

/// Copies a vector of hits.
pub fn copy_hit_vec(v: &Vec<Hit>) -> (r: Vec<Hit>)
    ensures
        r@ == v@,
{
    let mut out: Vec<Hit> = Vec::new();
    let mut i: usize = 0;
    while i < v.len()
        invariant
            i <= v.len(),
            out@ == v@.subrange(0, i as int),
        decreases v.len() - i,
    {
        out.push(v[i]);
        proof {
            assert(out@ =~= v@.subrange(0, i + 1 as int));
        }
        i = i + 1;
    }
    proof {
        assert(out@ =~= v@);
    }
    out
}

/// A hit whose recorded module range contains position `q` lies on module
/// `m` whenever `q` is inside module `m`'s range: the ranges are disjoint.
pub proof fn lemma_consistent_module(prefix: Seq<usize>, nmod: int, h: Hit, q: int, m: int)
    requires
        hit_module_consistent(prefix, nmod, h, q),
        0 <= m < nmod,
        nmod < prefix.len(),
        forall|k: int| 0 <= k < nmod ==> #[trigger] prefix[k] <= prefix[k + 1],
        prefix[m] <= q < prefix[m + 1],
    ensures
        h.module_number == m,
{
    let mn = h.module_number;
    if mn < m {
        lemma_prefix_le(prefix, mn + 1, m);
        assert(false);
    } else if mn > m {
        lemma_prefix_le(prefix, m + 1, mn as int);
        assert(false);
    }
}

/// In a monotone prefix array, any entry up to `n` is bounded by the entry
/// at `n`.
pub proof fn lemma_prefix_le(prefix: Seq<usize>, m: int, n: int)
    requires
        0 <= m <= n,
        n < prefix.len(),
        forall|k: int| 0 <= k < n ==> #[trigger] prefix[k] <= prefix[k + 1],
    ensures
        prefix[m] <= prefix[n],
    decreases n - m,
{
    if m < n {
        lemma_prefix_le(prefix, m + 1, n);
    }
}

} // verus!
