//! The region cache: a per-tick state machine that decides which world
//! regions are visually and physically loaded around the observer.
//!
//! Regions are fixed-size square cells addressed by integer coordinates.
//! Two independent Chebyshev radii govern loading: a wide one for visible
//! geometry and a narrow one for collision shapes. Each tick compares the
//! observer's region against every loaded record, evicts what fell out of
//! range, and spawns records for coordinates that entered it. Membership
//! is O(1) through a coordinate-keyed hash map.

use std::collections::HashMap;
use vstd::prelude::*;

verus! {

broadcast use {
    vstd::std_specs::hash::group_hash_axioms,
    vstd::set::group_set_axioms,
    vstd::map::group_map_axioms,
};

/// Chebyshev membership: region `(bx, bz)` lies inside the square of the
/// given radius around `(px, pz)`.
pub open spec fn spec_in_region(bx: int, bz: int, px: int, pz: int, radius: int) -> bool {
    -radius <= bx - px <= radius && -radius <= bz - pz <= radius
}

/// Whether the region `(bx, by, bz)` lies within `radius` of the observer
/// region `(px, py, pz)` under the Chebyshev metric on the X/Z plane.
/// The vertical coordinate does not take part in the comparison.
pub fn in_region(bx: i32, by: i32, bz: i32, px: i32, py: i32, pz: i32, radius: i32) -> (r: bool)
    requires
        0 <= radius,
    ensures
        r == spec_in_region(bx as int, bz as int, px as int, pz as int, radius as int),
{
    let dx: i64 = bx as i64 - px as i64;
    let dz: i64 = bz as i64 - pz as i64;
    -(radius as i64) <= dx && dx <= radius as i64 && -(radius as i64) <= dz && dz <= radius as i64
}

/// The square of coordinates within `radius` of `(ox, oz)`.
pub open spec fn ball(ox: int, oz: int, radius: int) -> Set<(i32, i32)> {
    Set::new(|c: (i32, i32)| spec_in_region(c.0 as int, c.1 as int, ox, oz, radius))
}

/// The cache key of region `(x, z)`: both coordinates shifted into
/// `[0, 2^32)` and packed into one word. Distinct coordinates give
/// distinct keys.
pub open spec fn spec_key(x: int, z: int) -> u64 {
    (((x + 0x8000_0000) * 0x1_0000_0000) + (z + 0x8000_0000)) as u64
}

/// Key packing is injective on the coordinate range.
pub proof fn lemma_key_injective(x1: int, z1: int, x2: int, z2: int)
    requires
        i32::MIN <= x1 <= i32::MAX,
        i32::MIN <= z1 <= i32::MAX,
        i32::MIN <= x2 <= i32::MAX,
        i32::MIN <= z2 <= i32::MAX,
        spec_key(x1, z1) == spec_key(x2, z2),
    ensures
        x1 == x2,
        z1 == z2,
{
    let a1 = x1 + 0x8000_0000;
    let b1 = z1 + 0x8000_0000;
    let a2 = x2 + 0x8000_0000;
    let b2 = z2 + 0x8000_0000;
    assert(0 <= a1 * 0x1_0000_0000 + b1 < 0x1_0000_0000_0000_0000_0000) by (nonlinear_arith)
        requires
            0 <= a1 < 0x1_0000_0000,
            0 <= b1 < 0x1_0000_0000,
    ;
    assert(a1 * 0x1_0000_0000 + b1 <= 0xffff_ffff_ffff_ffff) by (nonlinear_arith)
        requires
            0 <= a1 < 0x1_0000_0000,
            0 <= b1 < 0x1_0000_0000,
    ;
    assert(a2 * 0x1_0000_0000 + b2 <= 0xffff_ffff_ffff_ffff) by (nonlinear_arith)
        requires
            0 <= a2 < 0x1_0000_0000,
            0 <= b2 < 0x1_0000_0000,
    ;
    assert(a1 * 0x1_0000_0000 + b1 == a2 * 0x1_0000_0000 + b2);
    vstd::arithmetic::div_mod::lemma_fundamental_div_mod_converse(
        a1 * 0x1_0000_0000 + b1,
        0x1_0000_0000,
        a1,
        b1,
    );
    vstd::arithmetic::div_mod::lemma_fundamental_div_mod_converse(
        a2 * 0x1_0000_0000 + b2,
        0x1_0000_0000,
        a2,
        b2,
    );
}

/// The cache key of region `(x, z)`.
fn make_key(x: i32, z: i32) -> (k: u64)
    ensures
        k == spec_key(x as int, z as int),
{
    let xo: u64 = ((x as i64) + 0x8000_0000) as u64;
    let zo: u64 = ((z as i64) + 0x8000_0000) as u64;
    xo * 0x1_0000_0000u64 + zo
}

/// Largest admitted loading radius.
pub const RADIUS_MAX: u32 = 0x8000;

/// Largest admitted observer world coordinate magnitude.
pub const POS_BOUND: i64 = 0x4000_0000;

/// The configuration block supplied when the cache is built: noise
/// parameters for terrain generation, the region edge length, and the
/// two loading radii.
#[derive(Clone, Copy, PartialEq, Eq, Structural, Debug)]
pub struct Config {
    pub seed: i32,
    pub frequency_ppm: u32,
    pub height_scale: i64,
    pub region_size: u32,
    pub visual_radius: u32,
    pub physical_radius: u32,
}

/// Why a configuration was rejected.
#[derive(Clone, Copy, PartialEq, Eq, Structural, Debug)]
pub enum ConfigError {
    /// The region edge length was zero.
    ZeroRegionSize,
    /// The physical radius exceeded the visual radius.
    RadiusOrder,
    /// The visual radius exceeded `RADIUS_MAX`.
    RadiusTooLarge,
}

impl Config {
    /// The cache requires a positive region edge, ordered radii, and a
    /// radius the coordinate arithmetic can carry.
    pub open spec fn wf(self) -> bool {
        &&& self.region_size >= 1
        &&& self.physical_radius <= self.visual_radius
        &&& self.visual_radius <= RADIUS_MAX
    }

    /// Validates a configuration: the region edge must be positive, the
    /// visual radius must dominate the physical one, and the visual
    /// radius must stay within `RADIUS_MAX`.
    pub fn new(
        seed: i32,
        frequency_ppm: u32,
        height_scale: i64,
        region_size: u32,
        visual_radius: u32,
        physical_radius: u32,
    ) -> (r: Result<Config, ConfigError>)
        ensures
            r is Ok <==> region_size >= 1 && physical_radius <= visual_radius && visual_radius
                <= RADIUS_MAX,
            region_size == 0 ==> r == Result::<Config, ConfigError>::Err(
                ConfigError::ZeroRegionSize,
            ),
            region_size >= 1 && physical_radius > visual_radius ==> r == Result::<
                Config,
                ConfigError,
            >::Err(ConfigError::RadiusOrder),
            region_size >= 1 && physical_radius <= visual_radius && visual_radius > RADIUS_MAX
                ==> r == Result::<Config, ConfigError>::Err(ConfigError::RadiusTooLarge),
            r matches Ok(c) ==> c == (Config {
                seed,
                frequency_ppm,
                height_scale,
                region_size,
                visual_radius,
                physical_radius,
            }) && c.wf(),
    {
        if region_size == 0 {
            Err(ConfigError::ZeroRegionSize)
        } else if physical_radius > visual_radius {
            Err(ConfigError::RadiusOrder)
        } else if visual_radius > RADIUS_MAX {
            Err(ConfigError::RadiusTooLarge)
        } else {
            Ok(Config { seed, frequency_ppm, height_scale, region_size, visual_radius, physical_radius })
        }
    }
}

/// One loaded region for one purpose: its coordinate, the non-owning
/// handle of the generated resource once it was attached, and the tick
/// at which the record was created.
#[derive(Clone, Copy, Debug)]
pub struct RegionRecord {
    pub x: i32,
    pub z: i32,
    pub handle: Option<u64>,
    pub created_at: u64,
}

/// The loading state of one coordinate, for both purposes together.
#[derive(Clone, Copy, PartialEq, Eq, Structural, Debug)]
pub enum RegionState {
    Absent,
    VisualLoaded,
    PhysicalLoaded,
    BothLoaded,
}

/// What one tick did: which coordinates were newly loaded for each
/// purpose, and the records that were evicted, handles included, so the
/// caller can release their resources.
pub struct TickReport {
    pub spawned_visual: Vec<(i32, i32)>,
    pub despawned_visual: Vec<RegionRecord>,
    pub spawned_physical: Vec<(i32, i32)>,
    pub despawned_physical: Vec<RegionRecord>,
}

/// The coordinates a record store currently holds.
pub open spec fn coords_of(m: Map<u64, RegionRecord>) -> Set<(i32, i32)> {
    Set::new(|c: (i32, i32)| m.contains_key(spec_key(c.0 as int, c.1 as int)))
}

/// The coordinate pairs of a run of records, in order.
pub open spec fn rec_coords(s: Seq<RegionRecord>) -> Seq<(i32, i32)> {
    s.map_values(|r: RegionRecord| (r.x, r.z))
}

/// Every record sits under its own coordinate's key, within `radius` of
/// the observer region `(ox, oz)`.
pub open spec fn map_wf(m: Map<u64, RegionRecord>, ox: int, oz: int, radius: int) -> bool {
    forall|k: u64|
        #[trigger] m.contains_key(k) ==> spec_key(m[k].x as int, m[k].z as int) == k
            && spec_in_region(m[k].x as int, m[k].z as int, ox, oz, radius)
}

/// The region cache: the sole owner of the live region records, keyed by
/// coordinate for O(1) membership. Visual and physical records are held
/// independently, under independent radii.
pub struct RegionCache {
    config: Config,
    observer: Option<(i32, i32)>,
    visual: HashMap<u64, RegionRecord>,
    physical: HashMap<u64, RegionRecord>,
    tick: u64,
}

impl RegionCache {
    pub closed spec fn spec_config(self) -> Config {
        self.config
    }

    pub closed spec fn spec_observer(self) -> Option<(i32, i32)> {
        self.observer
    }

    pub closed spec fn spec_visual(self) -> Map<u64, RegionRecord> {
        self.visual@
    }

    pub closed spec fn spec_physical(self) -> Map<u64, RegionRecord> {
        self.physical@
    }

    pub closed spec fn spec_tick(self) -> u64 {
        self.tick
    }

    /// The coordinates currently loaded for visual purposes.
    pub open spec fn visual_coords(self) -> Set<(i32, i32)> {
        coords_of(self.spec_visual())
    }

    /// The coordinates currently loaded for physical purposes.
    pub open spec fn physical_coords(self) -> Set<(i32, i32)> {
        coords_of(self.spec_physical())
    }

    /// The cache's invariant: a well-formed configuration; before the
    /// first tick both stores are empty; afterwards every record lies
    /// within its radius of the last observer region.
    pub open spec fn wf(self) -> bool {
        &&& self.spec_config().wf()
        &&& match self.spec_observer() {
            Option::None => self.spec_visual() == Map::<u64, RegionRecord>::empty()
                && self.spec_physical() == Map::<u64, RegionRecord>::empty(),
            Option::Some(o) => {
                &&& -POS_BOUND <= o.0 <= POS_BOUND
                &&& -POS_BOUND <= o.1 <= POS_BOUND
                &&& map_wf(
                    self.spec_visual(),
                    o.0 as int,
                    o.1 as int,
                    self.spec_config().visual_radius as int,
                )
                &&& map_wf(
                    self.spec_physical(),
                    o.0 as int,
                    o.1 as int,
                    self.spec_config().physical_radius as int,
                )
            },
        }
    }

    /// An empty cache over the given configuration: no observer seen
    /// yet, nothing loaded.
    pub fn new(config: Config) -> (r: RegionCache)
        requires
            config.wf(),
        ensures
            r.wf(),
            r.spec_config() == config,
            r.spec_observer() is None,
            r.spec_visual() == Map::<u64, RegionRecord>::empty(),
            r.spec_physical() == Map::<u64, RegionRecord>::empty(),
            r.spec_tick() == 0,
    {
        RegionCache {
            config,
            observer: None,
            visual: HashMap::new(),
            physical: HashMap::new(),
            tick: 0,
        }
    }

    pub fn config(&self) -> (r: Config)
        ensures
            r == self.spec_config(),
    {
        self.config
    }

    pub fn observer_region(&self) -> (r: Option<(i32, i32)>)
        ensures
            r == self.spec_observer(),
    {
        self.observer
    }

    pub fn tick_count(&self) -> (r: u64)
        ensures
            r == self.spec_tick(),
    {
        self.tick
    }

    /// How many regions are loaded for visual purposes.
    pub fn visual_len(&self) -> (r: usize)
        ensures
            r == self.spec_visual().dom().len(),
    {
        self.visual.len()
    }

    /// How many regions are loaded for physical purposes.
    pub fn physical_len(&self) -> (r: usize)
        ensures
            r == self.spec_physical().dom().len(),
    {
        self.physical.len()
    }

    /// The joint loading state of one coordinate.
    pub fn state_of(&self, x: i32, z: i32) -> (s: RegionState)
        ensures
            s == (match (
                self.visual_coords().contains((x, z)),
                self.physical_coords().contains((x, z)),
            ) {
                (false, false) => RegionState::Absent,
                (true, false) => RegionState::VisualLoaded,
                (false, true) => RegionState::PhysicalLoaded,
                (true, true) => RegionState::BothLoaded,
            }),
    {
        let k = make_key(x, z);
        let v = self.visual.contains_key(&k);
        let p = self.physical.contains_key(&k);
        if v && p {
            RegionState::BothLoaded
        } else if v {
            RegionState::VisualLoaded
        } else if p {
            RegionState::PhysicalLoaded
        } else {
            RegionState::Absent
        }
    }

    /// Publishes a generated visual resource into the record of `(x, z)`.
    /// If the coordinate was evicted while the resource was being built,
    /// the handle is rejected, so that a stale result cannot resurrect a
    /// dropped region: the caller must discard the resource instead.
    pub fn attach_visual(&mut self, x: i32, z: i32, handle: u64) -> (accepted: bool)
        requires
            old(self).wf(),
        ensures
            final(self).wf(),
            accepted == old(self).visual_coords().contains((x, z)),
            accepted ==> final(self).spec_visual() == old(self).spec_visual().insert(
                spec_key(x as int, z as int),
                RegionRecord {
                    x: old(self).spec_visual()[spec_key(x as int, z as int)].x,
                    z: old(self).spec_visual()[spec_key(x as int, z as int)].z,
                    handle: Some(handle),
                    created_at: old(self).spec_visual()[spec_key(
                        x as int,
                        z as int,
                    )].created_at,
                },
            ),
            !accepted ==> final(self).spec_visual() == old(self).spec_visual(),
            final(self).spec_physical() == old(self).spec_physical(),
            final(self).spec_config() == old(self).spec_config(),
            final(self).spec_observer() == old(self).spec_observer(),
            final(self).spec_tick() == old(self).spec_tick(),
    {
        let k = make_key(x, z);
        let found: Option<RegionRecord> = match self.visual.get(&k) {
            Some(rec) => Some(*rec),
            None => None,
        };
        match found {
            Some(rec) => {
                let updated = RegionRecord {
                    x: rec.x,
                    z: rec.z,
                    handle: Some(handle),
                    created_at: rec.created_at,
                };
                self.visual.insert(k, updated);
                true
            },
            None => false,
        }
    }

    /// Publishes a generated physical resource into the record of
    /// `(x, z)`, with the same stale-result policy as `attach_visual`.
    pub fn attach_physical(&mut self, x: i32, z: i32, handle: u64) -> (accepted: bool)
        requires
            old(self).wf(),
        ensures
            final(self).wf(),
            accepted == old(self).physical_coords().contains((x, z)),
            accepted ==> final(self).spec_physical() == old(self).spec_physical().insert(
                spec_key(x as int, z as int),
                RegionRecord {
                    x: old(self).spec_physical()[spec_key(x as int, z as int)].x,
                    z: old(self).spec_physical()[spec_key(x as int, z as int)].z,
                    handle: Some(handle),
                    created_at: old(self).spec_physical()[spec_key(
                        x as int,
                        z as int,
                    )].created_at,
                },
            ),
            !accepted ==> final(self).spec_physical() == old(self).spec_physical(),
            final(self).spec_visual() == old(self).spec_visual(),
            final(self).spec_config() == old(self).spec_config(),
            final(self).spec_observer() == old(self).spec_observer(),
            final(self).spec_tick() == old(self).spec_tick(),
    {
        let k = make_key(x, z);
        let found: Option<RegionRecord> = match self.physical.get(&k) {
            Some(rec) => Some(*rec),
            None => None,
        };
        match found {
            Some(rec) => {
                let updated = RegionRecord {
                    x: rec.x,
                    z: rec.z,
                    handle: Some(handle),
                    created_at: rec.created_at,
                };
                self.physical.insert(k, updated);
                true
            },
            None => false,
        }
    }

    /// Drops the visual record of `(x, z)`, if any: used when a visual
    /// build fails, so the region counts as absent for visual purposes
    /// and the next tick will request it again.
    pub fn discard_visual(&mut self, x: i32, z: i32) -> (removed: Option<RegionRecord>)
        requires
            old(self).wf(),
        ensures
            final(self).wf(),
            final(self).spec_visual() == old(self).spec_visual().remove(spec_key(x as int, z as int)),
            removed == (if old(self).visual_coords().contains((x, z)) {
                Some(old(self).spec_visual()[spec_key(x as int, z as int)])
            } else {
                Option::<RegionRecord>::None
            }),
            final(self).spec_physical() == old(self).spec_physical(),
            final(self).spec_config() == old(self).spec_config(),
            final(self).spec_observer() == old(self).spec_observer(),
            final(self).spec_tick() == old(self).spec_tick(),
    {
        let k = make_key(x, z);
        let r = self.visual.remove(&k);
        proof {
            if old(self).spec_observer() is None {
                assert(self.visual@ =~= Map::<u64, RegionRecord>::empty());
            }
        }
        r
    }

    /// Drops the physical record of `(x, z)`, if any.
    pub fn discard_physical(&mut self, x: i32, z: i32) -> (removed: Option<RegionRecord>)
        requires
            old(self).wf(),
        ensures
            final(self).wf(),
            final(self).spec_physical() == old(self).spec_physical().remove(spec_key(x as int, z as int)),
            removed == (if old(self).physical_coords().contains((x, z)) {
                Some(old(self).spec_physical()[spec_key(x as int, z as int)])
            } else {
                Option::<RegionRecord>::None
            }),
            final(self).spec_visual() == old(self).spec_visual(),
            final(self).spec_config() == old(self).spec_config(),
            final(self).spec_observer() == old(self).spec_observer(),
            final(self).spec_tick() == old(self).spec_tick(),
    {
        let k = make_key(x, z);
        let r = self.physical.remove(&k);
        proof {
            if old(self).spec_observer() is None {
                assert(self.physical@ =~= Map::<u64, RegionRecord>::empty());
            }
        }
        r
    }
}

/// The region a world coordinate falls in: division by the region edge,
/// truncated toward zero.
pub open spec fn region_of(pos: int, size: int) -> int {
    if pos >= 0 {
        pos / size
    } else {
        -((-pos) / size)
    }
}

/// Division by the region edge, truncated toward zero.
fn div_trunc(pos: i64, size: u32) -> (r: i64)
    requires
        size >= 1,
        -POS_BOUND <= pos <= POS_BOUND,
    ensures
        r == region_of(pos as int, size as int),
        -POS_BOUND <= r <= POS_BOUND,
{
    proof {
        if pos >= 0 {
            vstd::arithmetic::div_mod::lemma_div_nonincreasing(pos as int, size as int);
            vstd::arithmetic::div_mod::lemma_div_pos_is_pos(pos as int, size as int);
        } else {
            vstd::arithmetic::div_mod::lemma_div_nonincreasing(-(pos as int), size as int);
            vstd::arithmetic::div_mod::lemma_div_pos_is_pos(-(pos as int), size as int);
        }
    }
    if pos >= 0 {
        ((pos as u64) / (size as u64)) as i64
    } else {
        -((((-pos) as u64) / (size as u64)) as i64)
    }
}

/// Every record of a store with `map_wf` sits at its own coordinate,
/// inside the radius.
proof fn lemma_coords_in_ball(
    m: Map<u64, RegionRecord>,
    ox: int,
    oz: int,
    radius: int,
    c: (i32, i32),
)
    requires
        map_wf(m, ox, oz, radius),
        m.contains_key(spec_key(c.0 as int, c.1 as int)),
    ensures
        spec_in_region(c.0 as int, c.1 as int, ox, oz, radius),
        m[spec_key(c.0 as int, c.1 as int)].x == c.0,
        m[spec_key(c.0 as int, c.1 as int)].z == c.1,
{
    let k = spec_key(c.0 as int, c.1 as int);
    let rec = m[k];
    lemma_key_injective(rec.x as int, rec.z as int, c.0 as int, c.1 as int);
}

/// A run without duplicates stays duplicate-free when a fresh element is
/// appended.
proof fn lemma_push_no_dup<A>(s: Seq<A>, v: A)
    requires
        s.no_duplicates(),
        !s.contains(v),
    ensures
        s.push(v).no_duplicates(),
        s.push(v).to_set() == s.to_set().insert(v),
{
    let t = s.push(v);
    assert forall|i: int, j: int| 0 <= i < t.len() && 0 <= j < t.len() && i != j implies t[i]
        != t[j] by {
        if i < s.len() && j < s.len() {
        } else if i < s.len() {
            assert(s[i] == t[i]);
            assert(!s.contains(v));
        } else if j < s.len() {
            assert(s[j] == t[j]);
            assert(!s.contains(v));
        }
    }
    assert forall|x: A| t.to_set().contains(x) implies s.to_set().insert(v).contains(x) by {
        let i = choose|i: int| 0 <= i < t.len() && t[i] == x;
        if i < s.len() {
            assert(s.contains(x));
        }
    }
    assert forall|x: A| s.to_set().insert(v).contains(x) implies t.to_set().contains(x) by {
        if x == v {
            assert(t[t.len() - 1] == v);
            assert(t.contains(v));
        } else {
            assert(s.to_set().contains(x));
            let i = choose|i: int| 0 <= i < s.len() && s[i] == x;
            assert(t[i] == x);
            assert(t.contains(x));
        }
    }
    assert(t.to_set() =~= s.to_set().insert(v));
}

/// The part of the radius-`r` square around `(ox, oz)` that a row-major
/// scan has visited: full rows before `di`, and the first `dj` cells of
/// row `di`.
pub open spec fn scanned(ox: int, oz: int, radius: int, di: int, dj: int) -> Set<(i32, i32)> {
    Set::new(
        |c: (i32, i32)|
            {
                &&& spec_in_region(c.0 as int, c.1 as int, ox, oz, radius)
                &&& (c.0 as int - (ox - radius) < di || (c.0 as int - (ox - radius) == di
                    && c.1 as int - (oz - radius) < dj))
            },
    )
}

/// Removes every record that left the keep radius around the new
/// observer region, handing the removed records out in scan order.
#[verifier::loop_isolation(false)]
fn evict_out_of_range(
    m: &mut HashMap<u64, RegionRecord>,
    ox: i32,
    oz: i32,
    old_r: u32,
    nx: i32,
    nz: i32,
    keep_r: u32,
    out: &mut Vec<RegionRecord>,
)
    requires
        old_r <= RADIUS_MAX,
        keep_r <= RADIUS_MAX,
        -POS_BOUND <= ox as i64 <= POS_BOUND,
        -POS_BOUND <= oz as i64 <= POS_BOUND,
        map_wf(old(m)@, ox as int, oz as int, old_r as int),
        old(out)@.len() == 0,
    ensures
        forall|c: (i32, i32)|
            #[trigger] coords_of(final(m)@).contains(c) <==> (coords_of(old(m)@).contains(c)
                && ball(nx as int, nz as int, keep_r as int).contains(c)),
        forall|k: u64|
            #[trigger] final(m)@.contains_key(k) ==> old(m)@.contains_key(k) && final(m)@[k]
                == old(m)@[k],
        map_wf(final(m)@, nx as int, nz as int, keep_r as int),
        rec_coords(final(out)@).no_duplicates(),
        rec_coords(final(out)@).to_set() == coords_of(old(m)@).difference(
            ball(nx as int, nz as int, keep_r as int),
        ),
        final(out)@.len() == coords_of(old(m)@).difference(
            ball(nx as int, nz as int, keep_r as int),
        ).len(),
        forall|i: int|
            0 <= i < final(out)@.len() ==> {
                let rec = #[trigger] final(out)@[i];
                &&& old(m)@.contains_key(spec_key(rec.x as int, rec.z as int))
                &&& old(m)@[spec_key(rec.x as int, rec.z as int)] == rec
            },
{
    let ghost gox = ox as int;
    let ghost goz = oz as int;
    let ghost gr = old_r as int;
    let ghost keep_ball = ball(nx as int, nz as int, keep_r as int);
    let side: u32 = 2 * old_r + 1;
    let mut di: u32 = 0;
    while di < side
        invariant
            di <= side,
            forall|c: (i32, i32)|
                #[trigger] coords_of(m@).contains(c) <==> (coords_of(old(m)@).contains(c) && !(
                scanned(gox, goz, gr, di as int, 0).contains(c) && !keep_ball.contains(c))),
            forall|k: u64|
                #[trigger] m@.contains_key(k) ==> old(m)@.contains_key(k) && m@[k] == old(m)@[k],
            rec_coords(out@).no_duplicates(),
            rec_coords(out@).to_set() == coords_of(old(m)@).intersect(
                scanned(gox, goz, gr, di as int, 0),
            ).difference(keep_ball),
            forall|i: int|
                0 <= i < out@.len() ==> {
                    let rec = #[trigger] out@[i];
                    &&& old(m)@.contains_key(spec_key(rec.x as int, rec.z as int))
                    &&& old(m)@[spec_key(rec.x as int, rec.z as int)] == rec
                },
        decreases side - di,
    {
        let mut dj: u32 = 0;
        while dj < side
            invariant
                di < side,
                dj <= side,
                forall|c: (i32, i32)|
                    #[trigger] coords_of(m@).contains(c) <==> (coords_of(old(m)@).contains(c) && !(
                    scanned(gox, goz, gr, di as int, dj as int).contains(c) && !keep_ball.contains(
                        c,
                    ))),
                forall|k: u64|
                    #[trigger] m@.contains_key(k) ==> old(m)@.contains_key(k) && m@[k] == old(
                        m,
                    )@[k],
                rec_coords(out@).no_duplicates(),
                rec_coords(out@).to_set() == coords_of(old(m)@).intersect(
                    scanned(gox, goz, gr, di as int, dj as int),
                ).difference(keep_ball),
                forall|i: int|
                    0 <= i < out@.len() ==> {
                        let rec = #[trigger] out@[i];
                        &&& old(m)@.contains_key(spec_key(rec.x as int, rec.z as int))
                        &&& old(m)@[spec_key(rec.x as int, rec.z as int)] == rec
                    },
            decreases side - dj,
        {
            let cx: i32 = ((ox as i64) - (old_r as i64) + (di as i64)) as i32;
            let cz: i32 = ((oz as i64) - (old_r as i64) + (dj as i64)) as i32;
            let ghost c0 = (cx, cz);
            let ghost k0 = spec_key(cx as int, cz as int);
            let ghost pre = m@;
            let ghost pre_out = out@;
            let ghost scur = scanned(gox, goz, gr, di as int, dj as int);
            let ghost snext = scanned(gox, goz, gr, di as int, dj + 1);
            proof {
                assert(cx as int == gox - gr + di as int);
                assert(cz as int == goz - gr + dj as int);
                assert(snext.contains(c0));
                assert(!scur.contains(c0));
            }
            let keep = in_region(cx, 0, cz, nx, 0, nz, keep_r as i32);
            let mut pushed = false;
            if !keep {
                let k = make_key(cx, cz);
                let removed = m.remove(&k);
                match removed {
                    Some(rec) => {
                        proof {
                            lemma_coords_in_ball(pre, gox, goz, gr, c0);
                            assert(rec == pre[k0]);
                            assert(rec.x == cx && rec.z == cz);
                            assert(!rec_coords(pre_out).contains(c0)) by {
                                if rec_coords(pre_out).contains(c0) {
                                    assert(rec_coords(pre_out).to_set().contains(c0));
                                    assert(scur.contains(c0));
                                }
                            }
                            lemma_push_no_dup(rec_coords(pre_out), c0);
                        }
                        out.push(rec);
                        pushed = true;
                        proof {
                            assert(rec_coords(out@) =~= rec_coords(pre_out).push(c0));
                        }
                    },
                    None => {},
                }
            }
            proof {
                // One more cell was scanned; membership in the scanned
                // prefix changes for that cell alone.
                assert forall|c: (i32, i32)| c != c0 implies (#[trigger] snext.contains(c)
                    == scur.contains(c)) by {
                    if snext.contains(c) && !scur.contains(c) {
                        assert(c.0 as int == gox - gr + di as int);
                        assert(c.1 as int == goz - gr + dj as int);
                        assert(c.0 == cx && c.1 == cz);
                    }
                }
                assert(keep == keep_ball.contains(c0));
                assert forall|c: (i32, i32)|
                    #[trigger] coords_of(m@).contains(c) <==> (coords_of(old(m)@).contains(c) && !(
                    snext.contains(c) && !keep_ball.contains(c))) by {
                    let kc = spec_key(c.0 as int, c.1 as int);
                    assert(coords_of(m@).contains(c) == m@.contains_key(kc));
                    assert(coords_of(pre).contains(c) == pre.contains_key(kc));
                    assert(coords_of(pre).contains(c) <==> (coords_of(old(m)@).contains(c) && !(
                    scur.contains(c) && !keep_ball.contains(c))));
                    if c == c0 {
                        if keep {
                            assert(m@ == pre);
                        } else {
                            assert(!m@.contains_key(k0));
                        }
                    } else {
                        assert(snext.contains(c) == scur.contains(c));
                        if !keep {
                            if kc == k0 {
                                lemma_key_injective(
                                    c.0 as int,
                                    c.1 as int,
                                    cx as int,
                                    cz as int,
                                );
                            }
                            assert(kc != k0);
                            assert(m@.contains_key(kc) == pre.contains_key(kc));
                        } else {
                            assert(m@ == pre);
                        }
                    }
                }
                // The emitted records cover exactly the scanned, dropped
                // coordinates.
                assert(rec_coords(out@).to_set() =~= coords_of(old(m)@).intersect(snext).difference(
                    keep_ball,
                )) by {
                    assert forall|c: (i32, i32)|
                        #[trigger] rec_coords(out@).to_set().contains(c) implies (coords_of(
                        old(m)@,
                    ).contains(c) && snext.contains(c) && !keep_ball.contains(c)) by {
                        if c != c0 || !pushed {
                            assert(rec_coords(pre_out).to_set().contains(c));
                            assert(scur.contains(c));
                        } else {
                            assert(coords_of(pre).contains(c0));
                            assert(coords_of(old(m)@).contains(c0));
                        }
                    }
                    assert forall|c: (i32, i32)|
                        coords_of(old(m)@).contains(c) && #[trigger] snext.contains(c)
                            && !keep_ball.contains(c) implies rec_coords(out@).to_set().contains(
                        c,
                    ) by {
                        if scur.contains(c) {
                            assert(rec_coords(pre_out).to_set().contains(c));
                            if pushed {
                                assert(rec_coords(out@) == rec_coords(pre_out).push(c0));
                            }
                        } else {
                            assert(c == c0);
                            assert(coords_of(pre).contains(c0));
                            assert(pre.contains_key(k0));
                            assert(pushed);
                            assert(rec_coords(out@) == rec_coords(pre_out).push(c0));
                            assert(rec_coords(out@).to_set().contains(c0));
                        }
                    }
                }
            }
            dj = dj + 1;
        }
        di = di + 1;
        proof {
            assert(scanned(gox, goz, gr, di as int, 0) =~= scanned(
                gox,
                goz,
                gr,
                di - 1,
                side as int,
            ));
        }
    }
    proof {
        let ghost sfull = scanned(gox, goz, gr, side as int, 0);
        assert(sfull =~= ball(gox, goz, gr));
        assert forall|c: (i32, i32)|
            #[trigger] coords_of(final(m)@).contains(c) <==> (coords_of(old(m)@).contains(c)
                && ball(nx as int, nz as int, keep_r as int).contains(c)) by {
            assert(coords_of(m@).contains(c) <==> (coords_of(old(m)@).contains(c) && !(
            sfull.contains(c) && !keep_ball.contains(c))));
            if coords_of(old(m)@).contains(c) {
                lemma_coords_in_ball(old(m)@, gox, goz, gr, c);
                assert(ball(gox, goz, gr).contains(c));
                assert(sfull.contains(c));
            }
        }
        assert(rec_coords(out@).to_set() =~= coords_of(old(m)@).difference(keep_ball)) by {
            assert forall|c: (i32, i32)|
                #[trigger] coords_of(old(m)@).contains(c) implies sfull.contains(c) by {
                lemma_coords_in_ball(old(m)@, gox, goz, gr, c);
                assert(ball(gox, goz, gr).contains(c));
            }
        }
        rec_coords(out@).unique_seq_to_set();
        assert(map_wf(m@, nx as int, nz as int, keep_r as int)) by {
            assert forall|k: u64| #[trigger] m@.contains_key(k) implies spec_key(
                m@[k].x as int,
                m@[k].z as int,
            ) == k && spec_in_region(
                m@[k].x as int,
                m@[k].z as int,
                nx as int,
                nz as int,
                keep_r as int,
            ) by {
                let rec = m@[k];
                assert(old(m)@.contains_key(k) && old(m)@[k] == rec);
                assert(spec_key(rec.x as int, rec.z as int) == k);
                let c = (rec.x, rec.z);
                assert(coords_of(m@).contains(c));
                assert(ball(nx as int, nz as int, keep_r as int).contains(c));
            }
        }
    }
}

/// Creates a pending record for every coordinate of the radius-`r`
/// square that is not loaded yet, handing the new coordinates out in
/// scan order.
#[verifier::loop_isolation(false)]
fn fill_ball(
    m: &mut HashMap<u64, RegionRecord>,
    nx: i32,
    nz: i32,
    r: u32,
    tick: u64,
    out: &mut Vec<(i32, i32)>,
)
    requires
        r <= RADIUS_MAX,
        -POS_BOUND <= nx as i64 <= POS_BOUND,
        -POS_BOUND <= nz as i64 <= POS_BOUND,
        map_wf(old(m)@, nx as int, nz as int, r as int),
        old(out)@.len() == 0,
    ensures
        forall|c: (i32, i32)|
            #[trigger] coords_of(final(m)@).contains(c) <==> ball(
                nx as int,
                nz as int,
                r as int,
            ).contains(c),
        forall|c: (i32, i32)|
            #[trigger] coords_of(old(m)@).contains(c) ==> final(m)@[spec_key(
                c.0 as int,
                c.1 as int,
            )] == old(m)@[spec_key(c.0 as int, c.1 as int)],
        forall|c: (i32, i32)|
            ball(nx as int, nz as int, r as int).contains(c) && !(#[trigger] coords_of(
                old(m)@,
            ).contains(c)) ==> final(m)@[spec_key(c.0 as int, c.1 as int)] == (RegionRecord {
                x: c.0,
                z: c.1,
                handle: None,
                created_at: tick,
            }),
        map_wf(final(m)@, nx as int, nz as int, r as int),
        final(out)@.no_duplicates(),
        final(out)@.to_set() == ball(nx as int, nz as int, r as int).difference(
            coords_of(old(m)@),
        ),
        final(out)@.len() == ball(nx as int, nz as int, r as int).difference(
            coords_of(old(m)@),
        ).len(),
{
    let ghost gnx = nx as int;
    let ghost gnz = nz as int;
    let ghost gr = r as int;
    let ghost target = ball(gnx, gnz, gr);
    let side: u32 = 2 * r + 1;
    let mut di: u32 = 0;
    while di < side
        invariant
            di <= side,
            forall|c: (i32, i32)|
                #[trigger] coords_of(m@).contains(c) <==> (coords_of(old(m)@).contains(c)
                    || scanned(gnx, gnz, gr, di as int, 0).contains(c)),
            forall|c: (i32, i32)|
                #[trigger] coords_of(old(m)@).contains(c) ==> m@[spec_key(c.0 as int, c.1 as int)]
                    == old(m)@[spec_key(c.0 as int, c.1 as int)],
            forall|c: (i32, i32)|
                scanned(gnx, gnz, gr, di as int, 0).contains(c) && !(#[trigger] coords_of(
                    old(m)@,
                ).contains(c)) ==> m@[spec_key(c.0 as int, c.1 as int)] == (RegionRecord {
                    x: c.0,
                    z: c.1,
                    handle: None,
                    created_at: tick,
                }),
            map_wf(m@, gnx, gnz, gr),
            out@.no_duplicates(),
            out@.to_set() == scanned(gnx, gnz, gr, di as int, 0).difference(coords_of(old(m)@)),
        decreases side - di,
    {
        let mut dj: u32 = 0;
        while dj < side
            invariant
                di < side,
                dj <= side,
                forall|c: (i32, i32)|
                    #[trigger] coords_of(m@).contains(c) <==> (coords_of(old(m)@).contains(c)
                        || scanned(gnx, gnz, gr, di as int, dj as int).contains(c)),
                forall|c: (i32, i32)|
                    #[trigger] coords_of(old(m)@).contains(c) ==> m@[spec_key(
                        c.0 as int,
                        c.1 as int,
                    )] == old(m)@[spec_key(c.0 as int, c.1 as int)],
                forall|c: (i32, i32)|
                    scanned(gnx, gnz, gr, di as int, dj as int).contains(c) && !(
                    #[trigger] coords_of(old(m)@).contains(c)) ==> m@[spec_key(
                        c.0 as int,
                        c.1 as int,
                    )] == (RegionRecord { x: c.0, z: c.1, handle: None, created_at: tick }),
                map_wf(m@, gnx, gnz, gr),
                out@.no_duplicates(),
                out@.to_set() == scanned(gnx, gnz, gr, di as int, dj as int).difference(
                    coords_of(old(m)@),
                ),
            decreases side - dj,
        {
            let cx: i32 = ((nx as i64) - (r as i64) + (di as i64)) as i32;
            let cz: i32 = ((nz as i64) - (r as i64) + (dj as i64)) as i32;
            let ghost c0 = (cx, cz);
            let ghost k0 = spec_key(cx as int, cz as int);
            let ghost pre = m@;
            let ghost pre_out = out@;
            let ghost scur = scanned(gnx, gnz, gr, di as int, dj as int);
            let ghost snext = scanned(gnx, gnz, gr, di as int, dj + 1);
            proof {
                assert(cx as int == gnx - gr + di as int);
                assert(cz as int == gnz - gr + dj as int);
                assert(snext.contains(c0));
                assert(!scur.contains(c0));
                assert(spec_in_region(cx as int, cz as int, gnx, gnz, gr));
            }
            let k = make_key(cx, cz);
            let mut inserted = false;
            if !m.contains_key(&k) {
                let rec = RegionRecord { x: cx, z: cz, handle: None, created_at: tick };
                m.insert(k, rec);
                inserted = true;
                proof {
                    assert(!out@.contains(c0)) by {
                        if pre_out.contains(c0) {
                            assert(pre_out.to_set().contains(c0));
                            assert(scur.contains(c0));
                        }
                    }
                    lemma_push_no_dup(pre_out, c0);
                }
                out.push((cx, cz));
            }
            proof {
                assert forall|c: (i32, i32)| c != c0 implies (#[trigger] snext.contains(c)
                    == scur.contains(c)) by {
                    if snext.contains(c) && !scur.contains(c) {
                        assert(c.0 as int == gnx - gr + di as int);
                        assert(c.1 as int == gnz - gr + dj as int);
                        assert(c.0 == cx && c.1 == cz);
                    }
                }
                assert forall|c: (i32, i32)|
                    #[trigger] coords_of(m@).contains(c) <==> (coords_of(old(m)@).contains(c)
                        || snext.contains(c)) by {
                    let kc = spec_key(c.0 as int, c.1 as int);
                    assert(coords_of(m@).contains(c) == m@.contains_key(kc));
                    assert(coords_of(pre).contains(c) == pre.contains_key(kc));
                    if c == c0 {
                        assert(m@.contains_key(k0));
                    } else {
                        assert(snext.contains(c) == scur.contains(c));
                        if inserted {
                            if kc == k0 {
                                lemma_key_injective(c.0 as int, c.1 as int, cx as int, cz as int);
                            }
                            assert(kc != k0);
                            assert(m@.contains_key(kc) == pre.contains_key(kc));
                        } else {
                            assert(m@ == pre);
                        }
                    }
                }
                assert forall|c: (i32, i32)|
                    #[trigger] coords_of(old(m)@).contains(c) implies m@[spec_key(
                    c.0 as int,
                    c.1 as int,
                )] == old(m)@[spec_key(c.0 as int, c.1 as int)] by {
                    let kc = spec_key(c.0 as int, c.1 as int);
                    if inserted {
                        if kc == k0 {
                            lemma_key_injective(c.0 as int, c.1 as int, cx as int, cz as int);
                            assert(coords_of(pre).contains(c0));
                            assert(false);
                        }
                        assert(m@[kc] == pre[kc]);
                    }
                }
                assert forall|c: (i32, i32)|
                    snext.contains(c) && !(#[trigger] coords_of(old(m)@).contains(c)) implies m@[
                    spec_key(c.0 as int, c.1 as int)] == (RegionRecord {
                    x: c.0,
                    z: c.1,
                    handle: None,
                    created_at: tick,
                }) by {
                    let kc = spec_key(c.0 as int, c.1 as int);
                    if c == c0 {
                        if inserted {
                        } else {
                            assert(pre.contains_key(k0));
                            assert(coords_of(pre).contains(c0));
                            assert(scur.contains(c0) || coords_of(old(m)@).contains(c0));
                        }
                    } else {
                        assert(snext.contains(c) == scur.contains(c));
                        if inserted {
                            if kc == k0 {
                                lemma_key_injective(c.0 as int, c.1 as int, cx as int, cz as int);
                            }
                            assert(kc != k0);
                            assert(m@[kc] == pre[kc]);
                        } else {
                            assert(m@ == pre);
                        }
                    }
                }
                assert(map_wf(m@, gnx, gnz, gr)) by {
                    assert forall|kk: u64| #[trigger] m@.contains_key(kk) implies spec_key(
                        m@[kk].x as int,
                        m@[kk].z as int,
                    ) == kk && spec_in_region(m@[kk].x as int, m@[kk].z as int, gnx, gnz, gr) by {
                        if inserted && kk == k0 {
                        } else {
                            if inserted {
                                assert(m@[kk] == pre[kk]);
                                assert(pre.contains_key(kk));
                            } else {
                                assert(m@ == pre);
                            }
                        }
                    }
                }
                assert(out@.to_set() =~= snext.difference(coords_of(old(m)@))) by {
                    if inserted {
                        assert(out@ == pre_out.push(c0));
                        assert(!coords_of(pre).contains(c0));
                        assert(!coords_of(old(m)@).contains(c0));
                    } else {
                        assert(coords_of(pre).contains(c0));
                        assert(coords_of(old(m)@).contains(c0) || scur.contains(c0));
                        assert(coords_of(old(m)@).contains(c0));
                    }
                    assert forall|c: (i32, i32)| c != c0 implies (#[trigger] snext.contains(c)
                        == scur.contains(c)) by {}
                }
            }
            dj = dj + 1;
        }
        di = di + 1;
        proof {
            assert(scanned(gnx, gnz, gr, di as int, 0) =~= scanned(
                gnx,
                gnz,
                gr,
                di - 1,
                side as int,
            ));
        }
    }
    proof {
        let ghost sfull = scanned(gnx, gnz, gr, side as int, 0);
        assert(sfull =~= target);
        assert forall|c: (i32, i32)|
            #[trigger] coords_of(final(m)@).contains(c) <==> target.contains(c) by {
            assert(coords_of(m@).contains(c) <==> (coords_of(old(m)@).contains(c)
                || sfull.contains(c)));
            if coords_of(old(m)@).contains(c) {
                lemma_coords_in_ball(old(m)@, gnx, gnz, gr, c);
                assert(target.contains(c));
            }
        }
        assert(out@.to_set() =~= target.difference(coords_of(old(m)@)));
        out@.unique_seq_to_set();
    }
}

impl RegionCache {
    /// One tick of the cache: reads the observer's position, computes
    /// its region, evicts every record whose coordinate left its radius,
    /// and creates a pending record for every coordinate that entered
    /// one. Afterwards the loaded-visual coordinate set is exactly the
    /// visual-radius square around the observer's region, and likewise
    /// for the physical set; the report lists what was spawned and what
    /// was despawned, with the despawned records' handles, and its
    /// counts equal the cardinalities of the respective set differences.
    /// Without an observer position the tick is a no-op.
    pub fn region_update(&mut self, observer_pos: Option<(i64, i64, i64)>) -> (report: TickReport)
        requires
            old(self).wf(),
            old(self).spec_tick() < u64::MAX,
            observer_pos matches Some(p) ==> -POS_BOUND <= p.0 <= POS_BOUND && -POS_BOUND <= p.2
                <= POS_BOUND,
        ensures
            final(self).wf(),
            final(self).spec_config() == old(self).spec_config(),
            observer_pos is None ==> {
                &&& final(self).spec_observer() == old(self).spec_observer()
                &&& final(self).spec_visual() == old(self).spec_visual()
                &&& final(self).spec_physical() == old(self).spec_physical()
                &&& final(self).spec_tick() == old(self).spec_tick()
                &&& report.spawned_visual@.len() == 0
                &&& report.despawned_visual@.len() == 0
                &&& report.spawned_physical@.len() == 0
                &&& report.despawned_physical@.len() == 0
            },
            observer_pos matches Some(p) ==> {
                let rs = old(self).spec_config().region_size as int;
                let nx = region_of(p.0 as int, rs);
                let nz = region_of(p.2 as int, rs);
                let vb = ball(nx, nz, old(self).spec_config().visual_radius as int);
                let pb = ball(nx, nz, old(self).spec_config().physical_radius as int);
                let old_v = coords_of(old(self).spec_visual());
                let old_p = coords_of(old(self).spec_physical());
                &&& final(self).spec_observer() matches Some(o) && o.0 == nx && o.1 == nz
                &&& final(self).spec_tick() == old(self).spec_tick() + 1
                &&& final(self).visual_coords() == vb
                &&& final(self).physical_coords() == pb
                // Spawns: exactly the coordinates that entered a radius.
                &&& report.spawned_visual@.no_duplicates()
                &&& report.spawned_visual@.to_set() == vb.difference(old_v)
                &&& report.spawned_visual@.len() == vb.difference(old_v).len()
                &&& report.spawned_physical@.no_duplicates()
                &&& report.spawned_physical@.to_set() == pb.difference(old_p)
                &&& report.spawned_physical@.len() == pb.difference(old_p).len()
                // Despawns: exactly the records that left, unchanged.
                &&& rec_coords(report.despawned_visual@).no_duplicates()
                &&& rec_coords(report.despawned_visual@).to_set() == old_v.difference(vb)
                &&& report.despawned_visual@.len() == old_v.difference(vb).len()
                &&& forall|i: int|
                    0 <= i < report.despawned_visual@.len() ==> {
                        let rec = #[trigger] report.despawned_visual@[i];
                        old(self).spec_visual()[spec_key(rec.x as int, rec.z as int)] == rec
                    }
                &&& rec_coords(report.despawned_physical@).no_duplicates()
                &&& rec_coords(report.despawned_physical@).to_set() == old_p.difference(pb)
                &&& report.despawned_physical@.len() == old_p.difference(pb).len()
                &&& forall|i: int|
                    0 <= i < report.despawned_physical@.len() ==> {
                        let rec = #[trigger] report.despawned_physical@[i];
                        old(self).spec_physical()[spec_key(rec.x as int, rec.z as int)] == rec
                    }
                // Records that stayed in range are untouched; new ones
                // are pending, stamped with this tick.
                &&& forall|c: (i32, i32)|
                    vb.contains(c) && #[trigger] old_v.contains(c) ==> final(self).spec_visual()[
                        spec_key(c.0 as int, c.1 as int)] == old(self).spec_visual()[spec_key(
                        c.0 as int,
                        c.1 as int,
                    )]
                &&& forall|c: (i32, i32)|
                    vb.contains(c) && !(#[trigger] old_v.contains(c)) ==> final(self).spec_visual()[spec_key(c.0 as int, c.1 as int)] == (RegionRecord {
                        x: c.0,
                        z: c.1,
                        handle: None,
                        created_at: (old(self).spec_tick() + 1) as u64,
                    })
                &&& forall|c: (i32, i32)|
                    pb.contains(c) && #[trigger] old_p.contains(c) ==> final(self).spec_physical()[
                        spec_key(c.0 as int, c.1 as int)] == old(self).spec_physical()[spec_key(
                        c.0 as int,
                        c.1 as int,
                    )]
                &&& forall|c: (i32, i32)|
                    pb.contains(c) && !(#[trigger] old_p.contains(c)) ==> final(self).spec_physical()[spec_key(c.0 as int, c.1 as int)] == (RegionRecord {
                        x: c.0,
                        z: c.1,
                        handle: None,
                        created_at: (old(self).spec_tick() + 1) as u64,
                    })
            },
    {
        let mut report = TickReport {
            spawned_visual: Vec::new(),
            despawned_visual: Vec::new(),
            spawned_physical: Vec::new(),
            despawned_physical: Vec::new(),
        };
        let (px, pz) = match observer_pos {
            None => {
                return report;
            },
            Some(p) => (p.0, p.2),
        };
        let nx32: i32 = div_trunc(px, self.config.region_size) as i32;
        let nz32: i32 = div_trunc(pz, self.config.region_size) as i32;
        let vr = self.config.visual_radius;
        let pr = self.config.physical_radius;
        self.tick = self.tick + 1;
        match self.observer {
            Some(o) => {
                evict_out_of_range(
                    &mut self.visual,
                    o.0,
                    o.1,
                    vr,
                    nx32,
                    nz32,
                    vr,
                    &mut report.despawned_visual,
                );
                evict_out_of_range(
                    &mut self.physical,
                    o.0,
                    o.1,
                    pr,
                    nx32,
                    nz32,
                    pr,
                    &mut report.despawned_physical,
                );
            },
            None => {
                proof {
                    assert(coords_of(self.visual@) =~= Set::<(i32, i32)>::empty());
                    assert(coords_of(self.physical@) =~= Set::<(i32, i32)>::empty());
                }
            },
        }
        proof {
            let vb = ball(nx32 as int, nz32 as int, vr as int);
            let pb = ball(nx32 as int, nz32 as int, pr as int);
            if old(self).spec_observer() is None {
                assert(coords_of(self.visual@) =~= coords_of(old(self).spec_visual()).intersect(
                    vb,
                ));
                assert(coords_of(self.physical@) =~= coords_of(
                    old(self).spec_physical(),
                ).intersect(pb));
                assert(rec_coords(report.despawned_visual@).to_set() =~= coords_of(
                    old(self).spec_visual(),
                ).difference(vb));
                assert(rec_coords(report.despawned_physical@).to_set() =~= coords_of(
                    old(self).spec_physical(),
                ).difference(pb));
                rec_coords(report.despawned_visual@).unique_seq_to_set();
                rec_coords(report.despawned_physical@).unique_seq_to_set();
            }
        }
        let ghost mid_v = self.visual@;
        let ghost mid_p = self.physical@;
        fill_ball(&mut self.visual, nx32, nz32, vr, self.tick, &mut report.spawned_visual);
        fill_ball(&mut self.physical, nx32, nz32, pr, self.tick, &mut report.spawned_physical);
        self.observer = Some((nx32, nz32));
        proof {
            let vb = ball(nx32 as int, nz32 as int, vr as int);
            let pb = ball(nx32 as int, nz32 as int, pr as int);
            let old_v = coords_of(old(self).spec_visual());
            let old_p = coords_of(old(self).spec_physical());
            assert(coords_of(self.visual@) =~= vb);
            assert(coords_of(self.physical@) =~= pb);
            assert(report.spawned_visual@.to_set() =~= vb.difference(old_v));
            assert(report.spawned_physical@.to_set() =~= pb.difference(old_p));
            assert forall|c: (i32, i32)|
                vb.contains(c) && #[trigger] old_v.contains(c) implies self.visual@[spec_key(
                c.0 as int,
                c.1 as int,
            )] == old(self).spec_visual()[spec_key(c.0 as int, c.1 as int)] by {
                assert(coords_of(mid_v).contains(c));
                assert(self.visual@[spec_key(c.0 as int, c.1 as int)] == mid_v[spec_key(
                    c.0 as int,
                    c.1 as int,
                )]);
            }
            assert forall|c: (i32, i32)|
                vb.contains(c) && !(#[trigger] old_v.contains(c)) implies self.visual@[spec_key(
                c.0 as int,
                c.1 as int,
            )] == (RegionRecord {
                x: c.0,
                z: c.1,
                handle: None,
                created_at: (old(self).spec_tick() + 1) as u64,
            }) by {
                assert(!coords_of(mid_v).contains(c));
            }
            assert forall|c: (i32, i32)|
                pb.contains(c) && #[trigger] old_p.contains(c) implies self.physical@[spec_key(
                c.0 as int,
                c.1 as int,
            )] == old(self).spec_physical()[spec_key(c.0 as int, c.1 as int)] by {
                assert(coords_of(mid_p).contains(c));
                assert(self.physical@[spec_key(c.0 as int, c.1 as int)] == mid_p[spec_key(
                    c.0 as int,
                    c.1 as int,
                )]);
            }
            assert forall|c: (i32, i32)|
                pb.contains(c) && !(#[trigger] old_p.contains(c)) implies self.physical@[spec_key(
                c.0 as int,
                c.1 as int,
            )] == (RegionRecord {
                x: c.0,
                z: c.1,
                handle: None,
                created_at: (old(self).spec_tick() + 1) as u64,
            }) by {
                assert(!coords_of(mid_p).contains(c));
            }
        }
        report
    }
}

/// The scanned prefix of a radius square is finite and holds one
/// coordinate per visited cell.
proof fn lemma_scanned_card(ox: int, oz: int, radius: int, di: int, dj: int)
    requires
        0 <= radius,
        0 <= di <= 2 * radius,
        0 <= dj <= 2 * radius + 1,
        i32::MIN <= ox - radius,
        ox + radius <= i32::MAX,
        i32::MIN <= oz - radius,
        oz + radius <= i32::MAX,
    ensures
        scanned(ox, oz, radius, di, dj).finite(),
        scanned(ox, oz, radius, di, dj).len() == di * (2 * radius + 1) + dj,
    decreases di, dj,
{
    let s = scanned(ox, oz, radius, di, dj);
    if dj == 0 {
        if di == 0 {
            assert(s =~= Set::<(i32, i32)>::empty());
        } else {
            lemma_scanned_card(ox, oz, radius, di - 1, 2 * radius + 1);
            assert(s =~= scanned(ox, oz, radius, di - 1, 2 * radius + 1));
            assert((di - 1) * (2 * radius + 1) + (2 * radius + 1) == di * (2 * radius + 1))
                by (nonlinear_arith);
        }
    } else {
        lemma_scanned_card(ox, oz, radius, di, dj - 1);
        let prev = scanned(ox, oz, radius, di, dj - 1);
        let c0 = (((ox - radius + di) as i32), ((oz - radius + dj - 1) as i32));
        assert(c0.0 as int == ox - radius + di && c0.1 as int == oz - radius + dj - 1);
        assert(s.contains(c0));
        assert(!prev.contains(c0));
        assert forall|c: (i32, i32)| #[trigger] s.contains(c) implies prev.insert(c0).contains(
            c,
        ) by {
            if c != c0 {
                if c.0 as int - (ox - radius) == di && c.1 as int - (oz - radius) == dj - 1 {
                    assert(c.0 == c0.0 && c.1 == c0.1);
                }
            }
        }
        assert(s =~= prev.insert(c0));
    }
}

/// A radius-`R` square holds exactly `(2R + 1) * (2R + 1)` coordinates:
/// together with the tick's coverage guarantee, exactly that many
/// regions are loaded for a purpose after any tick.
pub proof fn lemma_ball_card(ox: int, oz: int, radius: int)
    requires
        0 <= radius,
        i32::MIN <= ox - radius,
        ox + radius <= i32::MAX,
        i32::MIN <= oz - radius,
        oz + radius <= i32::MAX,
    ensures
        ball(ox, oz, radius).finite(),
        ball(ox, oz, radius).len() == (2 * radius + 1) * (2 * radius + 1),
{
    lemma_scanned_card(ox, oz, radius, 2 * radius, 2 * radius + 1);
    assert(ball(ox, oz, radius) =~= scanned(ox, oz, radius, 2 * radius, 2 * radius + 1));
    assert(2 * radius * (2 * radius + 1) + (2 * radius + 1) == (2 * radius + 1) * (2 * radius + 1))
        by (nonlinear_arith);
}

/// Ticking twice from the same observer region changes nothing: once the
/// loaded set equals the radius square around that region, both the set
/// of coordinates to spawn and the set to despawn are empty, so the
/// second tick performs zero spawns and zero despawns.
pub proof fn lemma_tick_idempotent(dom: Set<(i32, i32)>, ox: int, oz: int, radius: int)
    requires
        dom == ball(ox, oz, radius),
    ensures
        ball(ox, oz, radius).difference(dom).len() == 0,
        dom.difference(ball(ox, oz, radius)).len() == 0,
{
    assert(ball(ox, oz, radius).difference(dom) =~= Set::<(i32, i32)>::empty());
    assert(dom.difference(ball(ox, oz, radius)) =~= Set::<(i32, i32)>::empty());
}

} // verus!
