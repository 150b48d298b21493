//! Truth records: Monte-Carlo particles and the decoder that builds them
//! from a field-name list plus per-particle value rows.

use vstd::prelude::*;
use crate::event_model::Hit;

verus! {

/// One cell of a truth record: an integer value or a list of hit indices.
/// Numeric quantities are integers in the caller's unit; the momentum `p`
/// must use the unit in which the high-momentum cut sits at 5000.
#[derive(Clone, Debug)]
pub enum TruthValue {
    Int(i64),
    Hits(Vec<usize>),
}

/// A truth particle.  Identity is the key `pkey`.
#[derive(Clone, Debug)]
pub struct MCParticle {
    pub pkey: u64,
    pub pid: i64,
    pub p: i64,
    pub pt: i64,
    pub eta: i64,
    pub phi: i64,
    pub charge: i64,
    pub velohits: Vec<Hit>,
    pub islong: bool,
    pub isdown: bool,
    pub isvelo: bool,
    pub isut: bool,
    pub has_scifi: bool,
    pub strange: bool,
    pub fromb: bool,
    pub fromcharm: bool,
    pub over5: bool,
}

impl MCParticle {
    /// Builds a particle with the default flags (`isvelo` defaults to
    /// true, all other flags to false) and `over5` derived from `p`.
    pub fn new(
        pkey: u64,
        pid: i64,
        p: i64,
        pt: i64,
        eta: i64,
        phi: i64,
        charge: i64,
        velohits: Vec<Hit>,
    ) -> (r: MCParticle)
        ensures
            r.pkey == pkey,
            r.pid == pid,
            r.p == p,
            r.pt == pt,
            r.eta == eta,
            r.phi == phi,
            r.charge == charge,
            r.velohits@ == velohits@,
            !r.islong && !r.isdown && r.isvelo && !r.isut && !r.has_scifi,
            !r.strange && !r.fromb && !r.fromcharm,
            r.over5 == spec_over5(p),
    {
        let over5 = if p >= 0 {
            p > 5000
        } else {
            p < -5000
        };
        MCParticle {
            pkey,
            pid,
            p,
            pt,
            eta,
            phi,
            charge,
            velohits,
            islong: false,
            isdown: false,
            isvelo: true,
            isut: false,
            has_scifi: false,
            strange: false,
            fromb: false,
            fromcharm: false,
            over5,
        }
    }
}

/// The high-momentum flag: `|p| > 5000` in the caller's momentum unit.
pub open spec fn spec_over5(p: i64) -> bool {
    crate::geometry::abs_int(p as int) > 5000
}

/// Index of the last occurrence of `name` in the field-name list, if any
/// (a repeated field name overrides earlier ones).
pub open spec fn find_field(desc: Seq<Seq<char>>, name: Seq<char>) -> Option<int>
    decreases desc.len(),
{
    if desc.len() == 0 {
        None
    } else if desc.last() == name {
        Some(desc.len() - 1)
    } else {
        find_field(desc.drop_last(), name)
    }
}

/// The cell of `row` under the field called `name`, if the field is listed
/// and the row is long enough.
pub open spec fn field_cell(
    desc: Seq<Seq<char>>,
    row: Seq<TruthValue>,
    name: Seq<char>,
) -> Option<TruthValue> {
    match find_field(desc, name) {
        Some(i) => if 0 <= i < row.len() {
            Some(row[i])
        } else {
            None
        },
        None => None,
    }
}

/// Integer field: the cell's value when it is an integer, zero otherwise.
pub open spec fn field_int(desc: Seq<Seq<char>>, row: Seq<TruthValue>, name: Seq<char>) -> i64 {
    match field_cell(desc, row, name) {
        Some(TruthValue::Int(v)) => v,
        _ => 0,
    }
}

/// Key field: as `field_int` but clamped to non-negative values.
pub open spec fn field_key(desc: Seq<Seq<char>>, row: Seq<TruthValue>, name: Seq<char>) -> u64 {
    let v = field_int(desc, row, name);
    if v >= 0 {
        v as u64
    } else {
        0
    }
}

/// Flag field: nonzero means true; an absent or non-integer cell yields
/// the default.
pub open spec fn field_flag(
    desc: Seq<Seq<char>>,
    row: Seq<TruthValue>,
    name: Seq<char>,
    default: bool,
) -> bool {
    match field_cell(desc, row, name) {
        Some(TruthValue::Int(v)) => v != 0,
        _ => default,
    }
}

/// The hits selected by an index list, skipping out-of-range indices.
pub open spec fn hits_of_indices(ixs: Seq<usize>, hits: Seq<Hit>) -> Seq<Hit>
    decreases ixs.len(),
{
    if ixs.len() == 0 {
        Seq::empty()
    } else {
        let rest = hits_of_indices(ixs.drop_last(), hits);
        if (ixs.last() as int) < hits.len() {
            rest.push(hits[ixs.last() as int])
        } else {
            rest
        }
    }
}

/// The hit list of a truth row: the hits under the `hits` field, or empty
/// when the field is absent or not an index list.
pub open spec fn field_hits(
    desc: Seq<Seq<char>>,
    row: Seq<TruthValue>,
    hits: Seq<Hit>,
) -> Seq<Hit> {
    match field_cell(desc, row, "hits"@) {
        Some(TruthValue::Hits(ixs)) => hits_of_indices(ixs@, hits),
        _ => Seq::empty(),
    }
}

/// What the decoder promises about one decoded particle.
pub open spec fn particle_from_row(
    mcp: MCParticle,
    desc: Seq<Seq<char>>,
    row: Seq<TruthValue>,
    hits: Seq<Hit>,
) -> bool {
    &&& mcp.pkey == field_key(desc, row, "key"@)
    &&& mcp.pid == field_int(desc, row, "pid"@)
    &&& mcp.p == field_int(desc, row, "p"@)
    &&& mcp.pt == field_int(desc, row, "pt"@)
    &&& mcp.eta == field_int(desc, row, "eta"@)
    &&& mcp.phi == field_int(desc, row, "phi"@)
    &&& mcp.charge == field_int(desc, row, "charge"@)
    &&& mcp.velohits@ == field_hits(desc, row, hits)
    &&& mcp.islong == field_flag(desc, row, "isLong"@, false)
    &&& mcp.isdown == field_flag(desc, row, "isDown"@, false)
    &&& mcp.isvelo == field_flag(desc, row, "hasVelo"@, true)
    &&& mcp.isut == field_flag(desc, row, "hasUT"@, false)
    &&& mcp.has_scifi == field_flag(desc, row, "hasScifi"@, false)
    &&& mcp.fromb == field_flag(desc, row, "fromBeautyDecay"@, false)
    &&& mcp.fromcharm == field_flag(desc, row, "fromCharmDecay"@, false)
    &&& mcp.strange == field_flag(desc, row, "fromStrangeDecay"@, false)
    &&& mcp.over5 == spec_over5(field_int(desc, row, "p"@))
}

/// The views of a list of field names.
pub open spec fn desc_views(desc: Seq<String>) -> Seq<Seq<char>> {
    desc.map(|i: int, s: String| s@)
}

/// Finds the last occurrence of `name` among the field names.
fn find_field_exec(desc: &Vec<String>, name: &str) -> (r: Option<usize>)
    ensures
        match r {
            Some(i) => find_field(desc_views(desc@), name@) == Some(i as int),
            None => find_field(desc_views(desc@), name@) is None,
        },
{
    let owned = name.to_owned();
    let mut best: Option<usize> = None;
    let mut i: usize = 0;
    while i < desc.len()
        invariant
            i <= desc.len(),
            owned@ == name@,
            match best {
                Some(b) => find_field(desc_views(desc@).subrange(0, i as int), name@) == Some(
                    b as int,
                ),
                None => find_field(desc_views(desc@).subrange(0, i as int), name@) is None,
            },


        decreases desc.len() - i,
    {
        proof {
            assert(desc_views(desc@).subrange(0, i + 1 as int).drop_last() =~= desc_views(
                desc@,
            ).subrange(0, i as int));
            assert(desc_views(desc@).subrange(0, i + 1 as int).last() == desc@[i as int]@);
        }
        if desc[i] == owned {
            best = Some(i);
        }
        i = i + 1;
    }
    proof {
        assert(desc_views(desc@).subrange(0, desc.len() as int) =~= desc_views(desc@));
    }
    best
}

/// Looks a field up and returns its integer value, or zero.
fn get_int(desc: &Vec<String>, row: &Vec<TruthValue>, name: &str) -> (r: i64)
    ensures
        r == field_int(desc_views(desc@), row@, name@),
{
    match find_field_exec(desc, name) {
        Some(i) => if i < row.len() {
            match &row[i] {
                TruthValue::Int(v) => *v,
                _ => 0,
            }
        } else {
            0
        },
        None => 0,
    }
}

/// Looks a flag up: nonzero integer means true, anything else the default.
fn get_flag(desc: &Vec<String>, row: &Vec<TruthValue>, name: &str, default: bool) -> (r: bool)
    ensures
        r == field_flag(desc_views(desc@), row@, name@, default),
{
    match find_field_exec(desc, name) {
        Some(i) => if i < row.len() {
            match &row[i] {
                TruthValue::Int(v) => *v != 0,
                _ => default,
            }
        } else {
            default
        },
        None => default,
    }
}

/// Resolves an index list against the hit array, skipping bad indices.
fn collect_hits(ixs: &Vec<usize>, hits: &Vec<Hit>) -> (r: Vec<Hit>)
    ensures
        r@ == hits_of_indices(ixs@, hits@),
{
    let mut out: Vec<Hit> = Vec::new();
    let mut i: usize = 0;
    while i < ixs.len()
        invariant
            i <= ixs.len(),
            out@ == hits_of_indices(ixs@.subrange(0, i as int), hits@),
        decreases ixs.len() - i,
    {
        proof {
            assert(ixs@.subrange(0, i + 1 as int).drop_last() =~= ixs@.subrange(0, i as int));
            assert(ixs@.subrange(0, i + 1 as int).last() == ixs@[i as int]);
        }
        let ix = ixs[i];
        if ix < hits.len() {
            out.push(hits[ix]);
        }
        i = i + 1;
    }
    proof {
        assert(ixs@.subrange(0, ixs.len() as int) =~= ixs@);
    }
    out
}

/// Decodes the truth records: `description` names the fields, each row of
/// `particles_data` is one particle's values aligned to `description`.
/// Returns the particles and, aligned with them, each particle's hit list.
pub fn parse_montecarlo(
    description: &Vec<String>,
    particles_data: &Vec<Vec<TruthValue>>,
    hits: &Vec<Hit>,
) -> (r: (Vec<MCParticle>, Vec<Vec<Hit>>))
    ensures
        r.0.len() == particles_data.len(),
        r.1.len() == particles_data.len(),
        forall|k: int|
            0 <= k < r.0.len() ==> particle_from_row(
                #[trigger] r.0@[k],
                desc_views(description@),
                particles_data@[k]@,
                hits@,
            ),
        forall|k: int| 0 <= k < r.1.len() ==> (#[trigger] r.1@[k])@ == r.0@[k].velohits@,
{
    let mut particles: Vec<MCParticle> = Vec::new();
    let mut mcp_hits: Vec<Vec<Hit>> = Vec::new();
    let mut k: usize = 0;
    while k < particles_data.len()
        invariant
            k <= particles_data.len(),
            particles.len() == k,
            mcp_hits.len() == k,
            forall|j: int|
                0 <= j < k ==> particle_from_row(
                    #[trigger] particles@[j],
                    desc_views(description@),
                    particles_data@[j]@,
                    hits@,
                ),
            forall|j: int| 0 <= j < k ==> (#[trigger] mcp_hits@[j])@ == particles@[j].velohits@,
        decreases particles_data.len() - k,
    {
        let row = &particles_data[k];
        let pkey_raw = get_int(description, row, "key");
        let pkey: u64 = if pkey_raw >= 0 {
            pkey_raw as u64
        } else {
            0
        };
        let pid = get_int(description, row, "pid");
        let p_val = get_int(description, row, "p");
        let pt = get_int(description, row, "pt");
        let eta = get_int(description, row, "eta");
        let phi = get_int(description, row, "phi");
        let charge = get_int(description, row, "charge");
        let trackhits: Vec<Hit> = match find_field_exec(description, "hits") {
            Some(i) => if i < row.len() {
                match &row[i] {
                    TruthValue::Hits(ixs) => collect_hits(ixs, hits),
                    _ => Vec::new(),
                }
            } else {
                Vec::new()
            },
            None => Vec::new(),
        };
        let trackhits_copy = crate::event_model::copy_hit_vec(&trackhits);
        let mut mcp = MCParticle::new(pkey, pid, p_val, pt, eta, phi, charge, trackhits);
        mcp.islong = get_flag(description, row, "isLong", false);
        mcp.isdown = get_flag(description, row, "isDown", false);
        mcp.isvelo = get_flag(description, row, "hasVelo", true);
        mcp.isut = get_flag(description, row, "hasUT", false);
        mcp.has_scifi = get_flag(description, row, "hasScifi", false);
        mcp.fromb = get_flag(description, row, "fromBeautyDecay", false);
        mcp.fromcharm = get_flag(description, row, "fromCharmDecay", false);
        mcp.strange = get_flag(description, row, "fromStrangeDecay", false);
        particles.push(mcp);
        mcp_hits.push(trackhits_copy);
        k = k + 1;
    }
    (particles, mcp_hits)
}

} // verus!
