//! Materials by name, and the permutation table that lattice noise hashes
//! its lattice points with.
use crate::rank::{is_number, less, lt, min, min_of, ONE, ZERO};
use crate::rng::draw_below;
use rand::rngs::SmallRng;
use vstd::prelude::*;

verus! {

/// Diffuse reflection, coloured by a texture.
#[derive(Debug)]
pub struct Lambertian<T> {
    pub albedo: T,
}

impl<T> Lambertian<T> {
    pub fn new(albedo: T) -> (material: Lambertian<T>)
        ensures
            material.albedo == albedo,
    {
        Lambertian { albedo }
    }
}

/// Specular reflection, blurred by `fuzz`: the rank of a real that is at most
/// one.
#[derive(Debug)]
pub struct Metal<C> {
    pub albedo: C,
    /// The fuzziness of the metal.
    pub fuzz: i64,
}

impl<C> Metal<C> {
    /// The metal of the given colour. A fuzziness above one is taken as one.
    pub fn new(albedo: C, fuzz: i64) -> (material: Metal<C>)
        ensures
            material.albedo == albedo,
            material.fuzz == min_of(fuzz, ONE),
            is_number(fuzz) ==> material.fuzz <= ONE,
    {
        Metal { albedo, fuzz: min(fuzz, ONE) }
    }
}

/// A clear material that bends light; `ref_index` is the rank of its index of
/// refraction.
#[derive(Copy, Clone, Debug, PartialEq, Eq, Structural)]
pub struct Dielectric {
    pub ref_index: i64,
}

/// Whether light is reflected rather than refracted. `bend` is the sine of the
/// angle of incidence times the ratio of the refractive indices, `draw` a
/// random number, `reflectance` the share of light that the surface reflects at
/// this angle. A `bend` above one leaves no refracted ray; else the draw
/// decides.
pub open spec fn reflected(bend: i64, draw: i64, reflectance: i64) -> bool {
    less(ONE, bend) || less(draw, reflectance)
}

impl Dielectric {
    pub fn new(ref_index: i64) -> (material: Dielectric)
        ensures
            material.ref_index == ref_index,
    {
        Dielectric { ref_index }
    }

    /// Decides between reflection and refraction.
    pub fn reflects(bend: i64, draw: i64, reflectance: i64) -> (reflect: bool)
        ensures
            reflect == reflected(bend, draw, reflectance),
    {
        lt(ONE, bend) || lt(draw, reflectance)
    }
}

/// Light that goes from the thinner into the denser medium is never reflected
/// for want of a refracted ray: the ratio of the indices is below one there,
/// and the sine times the ratio is no more than the ratio. Only the draw can
/// then reflect it.
pub proof fn lemma_no_total_reflection_into_denser(
    bend: i64,
    ratio: i64,
    draw: i64,
    reflectance: i64,
)
    requires
        bend <= ratio,
        ratio < ONE,
    ensures
        !less(ONE, bend),
        reflected(bend, draw, reflectance) == less(draw, reflectance),
{
}

/// The material for debugging: black, and the ray goes on as it came.
#[derive(Copy, Clone, Debug)]
pub struct DbgBlack {}

/// The number of lattice points along each axis before the lattice repeats.
pub const SIZE: usize = 256;

/// The permutation `0, 1, .., 255`.
pub open spec fn identity() -> Seq<u16> {
    Seq::new(256, |i: int| i as u16)
}

/// `s` with the entries at `i` and `j` exchanged.
pub open spec fn exchanged(s: Seq<u16>, i: int, j: int) -> Seq<u16> {
    s.update(i, s[j]).update(j, s[i])
}

/// The identity after the first `n` exchanges: the `k`-th exchanges the entry
/// at `k` with the entry at `swaps[k]`.
pub open spec fn shuffled(swaps: Seq<usize>, n: nat) -> Seq<u16>
    decreases n,
{
    if n == 0 {
        identity()
    } else {
        exchanged(shuffled(swaps, (n - 1) as nat), n - 1, swaps[n - 1] as int)
    }
}

/// The table that a run of exchanges makes: the shuffled permutation, twice
/// over, so that an index up to 510 needs no wrapping.
pub open spec fn table_of(swaps: Seq<usize>) -> Seq<u16> {
    shuffled(swaps, 256) + shuffled(swaps, 256)
}

/// A run of 256 positions, one for each exchange.
pub open spec fn draws(swaps: Seq<usize>) -> bool {
    swaps.len() == 256 && forall|k: int| 0 <= k < 256 ==> #[trigger] swaps[k] < 256
}

/// `s` holds every number below 256 once.
pub open spec fn permutes(s: Seq<u16>) -> bool {
    &&& s.len() == 256
    &&& forall|i: int| 0 <= i < 256 ==> #[trigger] s[i] < 256
    &&& forall|i: int, j: int| 0 <= i < j < 256 ==> s[i] != s[j]
}

/// The lattice coordinate that `n` falls on: the lattice repeats every 256
/// cells, in both directions.
pub open spec fn wrapped(n: int) -> int {
    n % 256
}

/// The hash of a lattice point: the table looked up by `x`, then by `y`, then
/// by `z`.
pub open spec fn hash_of(table: Seq<u16>, x: int, y: int, z: int) -> int {
    table[table[table[x] + y] + z] as int
}

/// Exchanges keep a permutation a permutation.
pub proof fn lemma_shuffled_permutes(swaps: Seq<usize>, n: nat)
    requires
        draws(swaps),
        n <= 256,
    ensures
        permutes(shuffled(swaps, n)),
    decreases n,
{
    if n > 0 {
        lemma_shuffled_permutes(swaps, (n - 1) as nat);
        let before = shuffled(swaps, (n - 1) as nat);
        let j = swaps[n - 1] as int;
        let after = exchanged(before, n - 1, j);
        assert forall|a: int, b: int| 0 <= a < b < 256 implies after[a] != after[b] by {
            let from_a = if a == n - 1 { j } else if a == j { n - 1 } else { a };
            let from_b = if b == n - 1 { j } else if b == j { n - 1 } else { b };
            assert(after[a] == before[from_a]);
            assert(after[b] == before[from_b]);
            if from_a < from_b {
                assert(before[from_a] != before[from_b]);
            } else {
                assert(before[from_b] != before[from_a]);
            }
        }
    }
}

/// A permutation of the numbers below 256, followed by the same permutation
/// again.
pub open spec fn doubled_permutation(table: Seq<u16>) -> bool {
    &&& table.len() == 512
    &&& permutes(table.subrange(0, 256))
    &&& table.subrange(256, 512) == table.subrange(0, 256)
}

/// The permutation table of a lattice noise.
#[derive(Debug)]
pub struct PermTable {
    perms: Vec<u16>,
}

/// The hashes of the eight corners of a lattice cell; the digits say, for x, y
/// and z in turn, whether the corner is at the low or the high end of the cell.
#[derive(Copy, Clone, Debug, PartialEq, Eq, Structural)]
pub struct Corners {
    pub c000: usize,
    pub c100: usize,
    pub c010: usize,
    pub c110: usize,
    pub c001: usize,
    pub c101: usize,
    pub c011: usize,
    pub c111: usize,
}

/// The lattice coordinate of the cell that holds a point, and that of the next
/// cell, for one axis: `floor` is the integer part of the point's coordinate,
/// and the lattice repeats every 256 cells.
pub fn cell(floor: i64) -> (ends: (isize, isize))
    ensures
        ends.0 == wrapped(floor as int),
        ends.1 == wrapped(floor + 1),
{
    let low: i64 = floor & 255;
    assert(low == floor % 256 && 0 <= low < 256) by (bit_vector)
        requires
            low == floor & 255,
    ;
    let next: i64 = low + 1;
    let high: i64 = next & 255;
    assert(high == next % 256 && 0 <= high < 256) by (bit_vector)
        requires
            high == next & 255,
    ;
    (low as isize, high as isize)
}

impl PermTable {
    /// The entries of the table.
    pub closed spec fn view(&self) -> Seq<u16> {
        self.perms@
    }

    /// The table has 512 entries: a permutation of the numbers below 256,
    /// followed by the same permutation again.
    pub open spec fn wf(&self) -> bool {
        doubled_permutation(self@)
    }

    #[verifier::type_invariant]
    spec fn sound(&self) -> bool {
        doubled_permutation(self.perms@)
    }


    /// The table that the given exchanges make of the identity.
    pub fn from_swaps(swaps: &Vec<usize>) -> (table: PermTable)
        requires
            draws(swaps@),
        ensures
            table@ == table_of(swaps@),
            table.wf(),
    {
        let mut perms: Vec<u16> = Vec::new();
        let mut i: usize = 0;
        while i < 256
            invariant
                i <= 256,
                perms@.len() == i,
                forall|k: int| 0 <= k < i ==> perms@[k] == k as u16,
            decreases 256 - i,
        {
            perms.push(i as u16);
            i += 1;
        }
        assert(perms@ =~= identity());
        i = 0;
        while i < 256
            invariant
                i <= 256,
                draws(swaps@),
                perms@ == shuffled(swaps@, i as nat),
                perms@.len() == 256,
            decreases 256 - i,
        {
            let j = swaps[i];
            let at_i = perms[i];
            let at_j = perms[j];
            perms.set(i, at_j);
            perms.set(j, at_i);
            i += 1;
        }
        let ghost half = perms@;
        i = 0;
        while i < 256
            invariant
                i <= 256,
                perms@.len() == 256 + i,
                perms@.subrange(0, 256) == half,
                perms@.subrange(256, 256 + i as int) == half.subrange(0, i as int),
            decreases 256 - i,
        {
            let ghost before = perms@;
            let copy = perms[i];
            perms.push(copy);
            proof {
                assert(before[i as int] == before.subrange(0, 256)[i as int]);
                assert(perms@.subrange(0, 256) =~= before.subrange(0, 256));
                assert(perms@.subrange(256, 256 + i as int + 1) =~= before.subrange(
                    256,
                    256 + i as int,
                ).push(copy));
                assert(half.subrange(0, i as int + 1) =~= half.subrange(0, i as int).push(copy));
            }
            i += 1;
        }
        proof {
            assert(half.subrange(0, 256) =~= half);
            assert(perms@ =~= half + half);
            lemma_shuffled_permutes(swaps@, 256);
        }
        PermTable { perms }
    }

    /// A table shuffled by 256 draws from the stream.
    pub fn new(rng: &mut SmallRng) -> (table: PermTable)
        ensures
            table.wf(),
            exists|swaps: Seq<usize>| draws(swaps) && table@ == table_of(swaps),
    {
        let mut swaps: Vec<usize> = Vec::new();
        let mut i: usize = 0;
        while i < 256
            invariant
                i <= 256,
                swaps@.len() == i,
                forall|k: int| 0 <= k < i ==> #[trigger] swaps@[k] < 256,
            decreases 256 - i,
        {
            let j = draw_below(rng, SIZE);
            swaps.push(j);
            i += 1;
        }
        PermTable::from_swaps(&swaps)
    }

    /// The entry at `i`.
    pub fn get(&self, i: usize) -> (entry: u16)
        requires
            i < 512,
        ensures
            entry == self@[i as int],
    {
        proof {
            use_type_invariant(self);
            assert(self@ == self.perms@);
        }
        self.perms[i]
    }

    /// The hash of the lattice point `(x, y, z)`.
    pub fn hash(&self, x: isize, y: isize, z: isize) -> (h: usize)
        requires
            0 <= x < 256,
            0 <= y < 256,
            0 <= z < 256,
        ensures
            h == hash_of(self@, x as int, y as int, z as int),
            h < 256,
            self.wf(),
    {
        proof {
            use_type_invariant(self);
            assert(self@ == self.perms@);
            self.lemma_entries_small();
        }
        let perm_xy = self.perms[x as usize] + y as u16;
        let plus_z = self.perms[perm_xy as usize] + z as u16;
        self.perms[plus_z as usize] as usize
    }

    /// The hashes of the corners of the lattice cell that holds the point whose
    /// coordinates have the integer parts `fx`, `fy` and `fz`.
    pub fn corners(&self, fx: i64, fy: i64, fz: i64) -> (c: Corners)
        ensures
            c.c000 == hash_of(self@, wrapped(fx as int), wrapped(fy as int), wrapped(fz as int)),
            c.c100 == hash_of(self@, wrapped(fx + 1), wrapped(fy as int), wrapped(fz as int)),
            c.c010 == hash_of(self@, wrapped(fx as int), wrapped(fy + 1), wrapped(fz as int)),
            c.c110 == hash_of(self@, wrapped(fx + 1), wrapped(fy + 1), wrapped(fz as int)),
            c.c001 == hash_of(self@, wrapped(fx as int), wrapped(fy as int), wrapped(fz + 1)),
            c.c101 == hash_of(self@, wrapped(fx + 1), wrapped(fy as int), wrapped(fz + 1)),
            c.c011 == hash_of(self@, wrapped(fx as int), wrapped(fy + 1), wrapped(fz + 1)),
            c.c111 == hash_of(self@, wrapped(fx + 1), wrapped(fy + 1), wrapped(fz + 1)),
            c.c000 < 256 && c.c100 < 256 && c.c010 < 256 && c.c110 < 256,
            c.c001 < 256 && c.c101 < 256 && c.c011 < 256 && c.c111 < 256,
    {
        let (rx0, rx1) = cell(fx);
        let (ry0, ry1) = cell(fy);
        let (rz0, rz1) = cell(fz);
        Corners {
            c000: self.hash(rx0, ry0, rz0),
            c100: self.hash(rx1, ry0, rz0),
            c010: self.hash(rx0, ry1, rz0),
            c110: self.hash(rx1, ry1, rz0),
            c001: self.hash(rx0, ry0, rz1),
            c101: self.hash(rx1, ry0, rz1),
            c011: self.hash(rx0, ry1, rz1),
            c111: self.hash(rx1, ry1, rz1),
        }
    }

    /// Every entry of a well-formed table is below 256.
    pub proof fn lemma_entries_small(&self)
        requires
            self.wf(),
        ensures
            forall|i: int| 0 <= i < 512 ==> #[trigger] self@[i] < 256,
    {
        let low = self@.subrange(0, 256);
        let high = self@.subrange(256, 512);
        assert forall|i: int| 0 <= i < 512 implies #[trigger] self@[i] < 256 by {
            if i < 256 {
                assert(self@[i] == low[i]);
            } else {
                assert(self@[i] == high[i - 256]);
                assert(high[i - 256] == low[i - 256]);
            }
        }
    }
}

/// How many of the three waves of a checker pattern are below zero at a point;
/// the waves are given by the ranks of their values.
pub open spec fn negatives(wave_x: i64, wave_y: i64, wave_z: i64) -> int {
    (if wave_x < 0 { 1int } else { 0int }) + (if wave_y < 0 { 1int } else { 0int }) + (if wave_z < 0 {
        1int
    } else {
        0int
    })
}

/// Whether a point lies in an odd cell of a checker pattern: an odd number of
/// the three waves is below zero there.
pub fn odd_cell(wave_x: i64, wave_y: i64, wave_z: i64) -> (odd: bool)
    ensures
        odd == (negatives(wave_x, wave_y, wave_z) % 2 == 1),
{
    let mut parity = wave_x < 0;
    parity ^= wave_y < 0;
    parity ^= wave_z < 0;
    parity
}

/// What is made of a lattice noise before it colours a point. The numbers
/// that shape it are held as ranks.
#[derive(Debug, PartialEq, Eq)]
pub enum NoiseShape {
    /// The noise as it is.
    Plain,
    /// The sum of `layers` octaves, each `lacunarity` times finer and `gain`
    /// times fainter than the one before.
    FractalSum { lacunarity: i64, gain: i64, layers: usize },
    /// The same sum over the absolute values of the octaves.
    Turbulence { lacunarity: i64, gain: i64, layers: usize },
    /// A sine wave whose phase the inner noise shifts.
    Marbled { sin_freq: i64, phase_shift: i64, noise_gain: i64, inner: Box<NoiseShape> },
}

/// The octaves of a layered noise can be summed: there is at least one layer,
/// and the gain lies strictly between zero and one.
pub open spec fn layered(gain: i64, layers: usize) -> bool {
    layers != 0 && less(ZERO, gain) && less(gain, ONE)
}

/// Whether the octaves of a layered noise can be summed.
pub fn can_layer(gain: i64, layers: usize) -> (yes: bool)
    ensures
        yes == layered(gain, layers),
{
    layers != 0 && lt(ZERO, gain) && lt(gain, ONE)
}

impl NoiseShape {
    /// How many waves are wrapped around the innermost noise.
    pub open spec fn wraps(self) -> nat
        decreases self,
    {
        match self {
            NoiseShape::Marbled { inner, .. } => 1 + inner.wraps(),
            _ => 0,
        }
    }

    /// Turns the noise into a fractal sum. This replaces whatever the noise was
    /// shaped into before.
    #[allow(non_snake_case)]
    pub fn fBm(self, lacunarity: i64, gain: i64, layers: usize) -> (shape: NoiseShape)
        requires
            layered(gain, layers),
        ensures
            shape == (NoiseShape::FractalSum { lacunarity, gain, layers }),
    {
        NoiseShape::FractalSum { lacunarity, gain, layers }
    }

    /// Turns the noise into turbulence. This replaces whatever the noise was
    /// shaped into before.
    pub fn turbulence(self, lacunarity: i64, gain: i64, layers: usize) -> (shape: NoiseShape)
        requires
            layered(gain, layers),
        ensures
            shape == (NoiseShape::Turbulence { lacunarity, gain, layers }),
    {
        NoiseShape::Turbulence { lacunarity, gain, layers }
    }

    /// Marbles the noise. This wraps what the noise was shaped into before.
    pub fn marbled(self, wave: (i64, i64), noise_gain: i64) -> (shape: NoiseShape)
        ensures
            shape == (NoiseShape::Marbled {
                sin_freq: wave.0,
                phase_shift: wave.1,
                noise_gain,
                inner: Box::new(self),
            }),
            shape.wraps() == self.wraps() + 1,
    {
        NoiseShape::Marbled {
            sin_freq: wave.0,
            phase_shift: wave.1,
            noise_gain,
            inner: Box::new(self),
        }
    }
}

} // verus!
