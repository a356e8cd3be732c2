//! The particle-filter engine: population initialization, the per-step
//! resample / transition / weighting / normalization cycle, and the final
//! decision pass that turns particle mode histories into a labeled
//! sequence of observations.

use crate::geometry::{dir_from_heading, dir_from_heading_spec, Point};
use crate::markov_graph::MarkovGraph;
use crate::observation::Observation;
use crate::particle::{particle_like_unweighted, Particle, ParticleContextType};
use crate::random_generator::RandomGenerator;
use crate::utils::{
    clamp_i64, cum_before, lemma_cum_all, lemma_cum_monotone, lemma_sum_nonneg,
    lemma_sum_take_succ, select_by_weight, sum_of, tdiv,
};
use crate::{DIR_SCALE, FULL_TURN, POS_MAX, SCALE, SPEED_MAX, TIME_MAX, WEIGHT_SCALE};
use vstd::prelude::*;

verus! {

/// Fixed-point probability (relative to `WEIGHT_SCALE`) that a particle
/// switches mode in one transition step.
pub const P_SWITCH: i64 = 100_000_000;

/// Half-width, in milli-degrees, of the symmetric heading perturbation
/// window (about 0.4 radians).
pub const HEADING_HALF_WIDTH: i64 = 22_910;

/// Width, in milli-degrees, of the one-sided heading window used by the
/// transit modes to bias the course toward or away from the reference
/// point.
pub const HEADING_SHIFT: i64 = 22_000;

/// Largest speed mean or standard deviation the configuration accepts;
/// keeps every normal draw within the particle speed bound.
pub const SPEED_PARAM_MAX: i64 = 100_000_000;

/// Largest sigma (emission noise scale) the configuration accepts.
pub const SIGMA_MAX: i64 = 1_000_000_000;

/// The error of constructing a filter from no observations.
#[derive(Debug, Clone, Copy, PartialEq, Eq, Structural)]
pub enum InitError {
    EmptyObservations,
}

/// The weights of a particle population.
pub open spec fn pweights(s: Seq<Particle>) -> Seq<i64> {
    s.map_values(|p: Particle| p.weight)
}

/// The even split of `WEIGHT_SCALE` over `n` particles: every particle
/// gets the floor share, and the first `WEIGHT_SCALE % n` particles one
/// tick more, so the shares sum to exactly `WEIGHT_SCALE`.
pub open spec fn seed_weight(n: int, j: int) -> int {
    (WEIGHT_SCALE as int) / n + if j < (WEIGHT_SCALE as int) % n {
        1int
    } else {
        0int
    }
}

/// The particle-filter engine and its run-time configuration.
#[derive(Debug)]
pub struct FishingContext {
    pub observations: Vec<Observation>,
    pub nb_of_particles: u16,
    pub particles: Vec<Particle>,
    pub sigma: i64,
    pub sailing_normal_speed_distr: (i64, i64),
    pub fishing_normal_speed_distr: (i64, i64),
    pub context_smoothing_window_size: usize,
    pub markov_graph: MarkovGraph,
    pub degeneracy_events: u64,
}

impl FishingContext {
    /// Well-formedness of the run-time configuration.
    pub open spec fn cfg_wf(self) -> bool {
        &&& 1 <= self.nb_of_particles
        &&& 1 <= self.sigma <= SIGMA_MAX
        &&& 0 <= self.sailing_normal_speed_distr.0 <= SPEED_PARAM_MAX
        &&& 0 <= self.sailing_normal_speed_distr.1 <= SPEED_PARAM_MAX
        &&& 0 <= self.fishing_normal_speed_distr.0 <= SPEED_PARAM_MAX
        &&& 0 <= self.fishing_normal_speed_distr.1 <= SPEED_PARAM_MAX
        &&& self.markov_graph.wf()
        &&& self.observations@.len() >= 1
        &&& forall|i: int|
            0 <= i < self.observations@.len() ==> (#[trigger] self.observations@[i]).wf()
    }

    /// Well-formedness of the population: exactly `nb_of_particles`
    /// particles, each within the world bounds.
    pub open spec fn pop_wf(self) -> bool {
        &&& self.particles@.len() == self.nb_of_particles as int
        &&& forall|j: int| 0 <= j < self.particles@.len() ==> (#[trigger] self.particles@[j]).wf()
    }

    /// Every particle's mode history holds one entry per processed
    /// observation.
    pub open spec fn mem_wf(self, steps: int) -> bool {
        forall|j: int|
            0 <= j < self.particles@.len() ==> (#[trigger] self.particles@[j]).memory@.len()
                == steps
    }

    /// The population's weights sum to exactly `WEIGHT_SCALE`.
    pub open spec fn normalized(self) -> bool {
        sum_of(pweights(self.particles@)) == WEIGHT_SCALE
    }

    /// Build a filter over a complete, ordered observation sequence with
    /// the given configuration and transition graph. Fails exactly when
    /// the observation sequence is empty, which leaves nothing to seed
    /// the population from.
    pub fn new(
        observations: Vec<Observation>,
        nb_of_particles: u16,
        sigma: i64,
        sailing_normal_speed_distr: (i64, i64),
        fishing_normal_speed_distr: (i64, i64),
        context_smoothing_window_size: usize,
        markov_graph: MarkovGraph,
    ) -> (r: Result<FishingContext, InitError>)
        requires
            nb_of_particles >= 1,
            1 <= sigma <= SIGMA_MAX,
            0 <= sailing_normal_speed_distr.0 <= SPEED_PARAM_MAX,
            0 <= sailing_normal_speed_distr.1 <= SPEED_PARAM_MAX,
            0 <= fishing_normal_speed_distr.0 <= SPEED_PARAM_MAX,
            0 <= fishing_normal_speed_distr.1 <= SPEED_PARAM_MAX,
            markov_graph.wf(),
            forall|i: int| 0 <= i < observations@.len() ==> (#[trigger] observations@[i]).wf(),
        ensures
            r is Ok <==> observations@.len() > 0,
            r is Err ==> r->Err_0 == InitError::EmptyObservations,
            r is Ok ==> {
                let c = r->Ok_0;
                &&& c.cfg_wf()
                &&& c.observations@ == observations@
                &&& c.nb_of_particles == nb_of_particles
                &&& c.particles@.len() == 0
                &&& c.sigma == sigma
                &&& c.sailing_normal_speed_distr == sailing_normal_speed_distr
                &&& c.fishing_normal_speed_distr == fishing_normal_speed_distr
                &&& c.context_smoothing_window_size == context_smoothing_window_size
                &&& c.markov_graph == markov_graph
                &&& c.degeneracy_events == 0
            },
    {
        if observations.len() == 0 {
            return Err(InitError::EmptyObservations);
        }
        Ok(
            FishingContext {
                observations,
                nb_of_particles,
                particles: Vec::new(),
                sigma,
                sailing_normal_speed_distr,
                fishing_normal_speed_distr,
                context_smoothing_window_size,
                markov_graph,
                degeneracy_events: 0,
            },
        )
    }

    /// Seed the population from the first observation: `nb_of_particles`
    /// particles with identical kinematic state, the designated start
    /// mode, a one-entry mode history, and an even weight split summing
    /// to exactly `WEIGHT_SCALE`.
    pub fn initialize(&mut self)
        requires
            old(self).cfg_wf(),
        ensures
            final(self).cfg_wf(),
            final(self).pop_wf(),
            final(self).mem_wf(1),
            final(self).normalized(),
            final(self).observations@ == old(self).observations@,
            final(self).nb_of_particles == old(self).nb_of_particles,
            final(self).sigma == old(self).sigma,
            final(self).sailing_normal_speed_distr == old(self).sailing_normal_speed_distr,
            final(self).fishing_normal_speed_distr == old(self).fishing_normal_speed_distr,
            final(self).context_smoothing_window_size == old(
                self,
            ).context_smoothing_window_size,
            final(self).markov_graph == old(self).markov_graph,
            final(self).degeneracy_events == old(self).degeneracy_events,
            forall|j: int|
                0 <= j < final(self).particles@.len() ==> {
                    let p = #[trigger] final(self).particles@[j];
                    &&& p.pos == old(self).observations@[0].pos
                    &&& p.heading == old(self).observations@[0].heading
                    &&& p.direction == dir_from_heading_spec(
                        old(self).observations@[0].heading as int,
                    )
                    &&& p.speed == old(self).observations@[0].speed
                    &&& p.context == ParticleContextType::GoFishing
                    &&& p.memory@ =~= seq![ParticleContextType::GoFishing]
                    &&& p.weight == seed_weight(
                        old(self).nb_of_particles as int,
                        j,
                    )
                },
    {
        let seed_obs = self.observations[0];
        let direction = dir_from_heading(seed_obs.heading);
        let n = self.nb_of_particles as usize;
        let base: i64 = WEIGHT_SCALE / (n as i64);
        let rem: i64 = WEIGHT_SCALE % (n as i64);
        proof {
            vstd::arithmetic::div_mod::lemma_mod_bound(WEIGHT_SCALE as int, n as int);
            assert(1 <= (WEIGHT_SCALE as int) / (n as int) <= WEIGHT_SCALE)
                by (nonlinear_arith)
                requires
                    1 <= n <= 65535,
            ;
        }
        let mut particles: Vec<Particle> = Vec::new();
        let mut j: usize = 0;
        while j < n
            invariant
                j <= n,
                1 <= n <= 65535,
                base == (WEIGHT_SCALE as int) / (n as int),
                rem == (WEIGHT_SCALE as int) % (n as int),
                0 <= rem < n,
                0 < base <= WEIGHT_SCALE,
                particles@.len() == j,
                seed_obs.wf(),
                -DIR_SCALE <= direction.x <= DIR_SCALE,
                -DIR_SCALE <= direction.y <= DIR_SCALE,
                direction == dir_from_heading_spec(seed_obs.heading as int),
                forall|a: int|
                    0 <= a < j ==> {
                        let p = #[trigger] particles@[a];
                        &&& p.pos == seed_obs.pos
                        &&& p.heading == seed_obs.heading
                        &&& p.direction == direction
                        &&& p.speed == seed_obs.speed
                        &&& p.context == ParticleContextType::GoFishing
                        &&& p.memory@ =~= seq![ParticleContextType::GoFishing]
                        &&& p.weight == seed_weight(n as int, a)
                        &&& p.wf()
                    },
            decreases n - j,
        {
            proof {
                if rem > 0 {
                    assert(n >= 2);
                    assert((WEIGHT_SCALE as int) / (n as int) <= 500_000_000)
                        by (nonlinear_arith)
                        requires
                            2 <= n <= 65535,
                    ;
                }
            }
            let weight: i64 = if (j as i64) < rem {
                base + 1
            } else {
                base
            };
            let mut memory: Vec<ParticleContextType> = Vec::new();
            memory.push(ParticleContextType::GoFishing);
            let p = Particle {
                pos: seed_obs.pos,
                direction,
                heading: seed_obs.heading,
                speed: seed_obs.speed,
                weight,
                context: ParticleContextType::GoFishing,
                memory,
            };
            particles.push(p);
            j = j + 1;
        }
        proof {
            let ws = pweights(particles@);
            assert(ws.len() == n);
            assert(forall|a: int| 0 <= a < ws.len() ==> ws[a] == particles@[a].weight);
            lemma_seed_weight_sum(ws, n as int, n as int);
            assert(ws.take(n as int) =~= ws);
            vstd::arithmetic::div_mod::lemma_fundamental_div_mod(
                WEIGHT_SCALE as int,
                n as int,
            );
            assert((n as int) * ((WEIGHT_SCALE as int) / (n as int)) == ((WEIGHT_SCALE as int)
                / (n as int)) * (n as int)) by (nonlinear_arith);
        }
        self.particles = particles;
    }
}

/// Numerator of the emission likelihood ratio.
pub const EM_NUM: i64 = 4_000_000_000_000_000_000;

/// Cutoff of the quantized squared-distance ratio beyond which the
/// emission likelihood is taken as zero.
pub const EM_CAP: i64 = 100_000;

/// Largest emission value: `EM_NUM` over the denominator at distance zero.
pub const EM_MAX: i64 = 666_666_666_666;

/// The squared Euclidean distance of two points.
pub open spec fn dist2(a: Point, b: Point) -> int {
    (a.x - b.x) * (a.x - b.x) + (a.y - b.y) * (a.y - b.y)
}

/// The squared distance over twice sigma squared, quantized in hundredths.
pub open spec fn em_ratio(d2: int, sig2: int) -> int {
    (d2 * 100) / sig2
}

/// Denominator of the emission likelihood: a cubic polynomial in the
/// quantized ratio `u` approximating `6 * 100^3 * exp(u / 100)`.
pub open spec fn em_denom(u: int) -> int {
    6_000_000 + 60_000 * u + 300 * u * u + u * u * u
}

/// The emission likelihood of a squared position error `d2` under noise
/// scale `sig2 == 2 * sigma * sigma`: a rational approximation of the
/// Gaussian density `exp(-d2 / sig2)`, scaled to fixed point and cut off
/// to zero beyond `EM_CAP` hundredths.
pub open spec fn emission_spec(d2: int, sig2: int) -> int {
    let u = em_ratio(d2, sig2);
    if u > EM_CAP {
        0
    } else {
        (EM_NUM as int) / em_denom(u)
    }
}

/// The emission denominator grows strictly with the quantized ratio.
pub proof fn lemma_em_denom_monotonic(u1: int, u2: int)
    requires
        0 <= u1 < u2,
    ensures
        em_denom(u1) < em_denom(u2),
{
    assert(6_000_000 + 60_000 * u1 + 300 * u1 * u1 + u1 * u1 * u1 < 6_000_000 + 60_000 * u2
        + 300 * u2 * u2 + u2 * u2 * u2) by (nonlinear_arith)
        requires
            0 <= u1 < u2,
    ;
}

/// The emission denominator is at least its constant term.
pub proof fn lemma_em_denom_lower(u: int)
    requires
        0 <= u,
    ensures
        em_denom(u) >= 6_000_000,
{
    assert(60_000 * u + 300 * u * u + u * u * u >= 0) by (nonlinear_arith)
        requires
            0 <= u,
    ;
}

/// Emission monotonicity: a strictly smaller position error never gets a
/// smaller likelihood. (Strictness needs the quantized ratios to differ
/// and the nearer particle to be inside the strict zone; see
/// `lemma_emission_monotonic_strict`.)
pub proof fn lemma_emission_monotonic(d2a: int, d2b: int, sig2: int)
    requires
        0 <= d2a <= d2b,
        1 <= sig2,
    ensures
        emission_spec(d2a, sig2) >= emission_spec(d2b, sig2),
{
    let u1 = em_ratio(d2a, sig2);
    let u2 = em_ratio(d2b, sig2);
    assert(d2a * 100 <= d2b * 100) by (nonlinear_arith)
        requires
            d2a <= d2b,
    ;
    vstd::arithmetic::div_mod::lemma_div_is_ordered(d2a * 100, d2b * 100, sig2);
    vstd::arithmetic::div_mod::lemma_div_pos_is_pos(d2a * 100, sig2);
    assert(0 <= u1 <= u2);
    if u2 > EM_CAP {
        if u1 <= EM_CAP {
            lemma_em_denom_lower(u1);
            vstd::arithmetic::div_mod::lemma_div_pos_is_pos(EM_NUM as int, em_denom(u1));
        }
    } else {
        if u1 < u2 {
            lemma_em_denom_monotonic(u1, u2);
        }
        lemma_em_denom_lower(u1);
        vstd::arithmetic::div_mod::lemma_div_is_ordered_by_denominator(
            EM_NUM as int,
            em_denom(u1),
            em_denom(u2),
        );
    }
}

/// Strict emission monotonicity: inside the strict zone (the nearer
/// denominator below two billion), a strictly smaller quantized ratio
/// gets a strictly larger likelihood.
pub proof fn lemma_emission_monotonic_strict(d2a: int, d2b: int, sig2: int)
    requires
        0 <= d2a,
        1 <= sig2,
        em_ratio(d2a, sig2) < em_ratio(d2b, sig2),
        em_denom(em_ratio(d2b, sig2)) <= 2_000_000_000,
    ensures
        emission_spec(d2a, sig2) > emission_spec(d2b, sig2),
{
    let u1 = em_ratio(d2a, sig2);
    let u2 = em_ratio(d2b, sig2);
    assert(d2a * 100 >= 0) by (nonlinear_arith)
        requires
            d2a >= 0,
    ;
    vstd::arithmetic::div_mod::lemma_div_pos_is_pos(d2a * 100, sig2);
    assert(0 <= u1);
    lemma_em_denom_monotonic(u1, u2);
    let dn1 = em_denom(u1);
    let dn2 = em_denom(u2);
    lemma_em_denom_lower(u1);
    assert(u2 <= EM_CAP) by {
        if u2 > EM_CAP {
            assert(6_000_000 + 60_000 * u2 + 300 * u2 * u2 + u2 * u2 * u2
                > 2_000_000_000) by (nonlinear_arith)
                requires
                    u2 > 100_000,
            ;
        }
    }
    let c = EM_NUM as int;
    let qa = c / dn1;
    let qb = c / dn2;
    vstd::arithmetic::div_mod::lemma_fundamental_div_mod(c, dn1);
    vstd::arithmetic::div_mod::lemma_fundamental_div_mod(c, dn2);
    vstd::arithmetic::div_mod::lemma_mod_bound(c, dn1);
    vstd::arithmetic::div_mod::lemma_mod_bound(c, dn2);
    let ra = c % dn1;
    let rb = c % dn2;
    assert(qb * dn2 > c - dn2);
    assert(qb >= 1_999_999_999) by (nonlinear_arith)
        requires
            qb * dn2 > 4_000_000_000_000_000_000 - 2_000_000_000,
            0 < dn2 <= 2_000_000_000,
            qb >= 0,
    ;
    assert(dn1 <= 1_999_999_999);
    assert(dn1 * (qb + 1) <= qb * dn2) by (nonlinear_arith)
        requires
            0 < dn1 <= qb,
            dn1 + 1 <= dn2,
            qb >= 0,
    ;
    assert(qa >= qb + 1) by (nonlinear_arith)
        requires
            c == qa * dn1 + ra,
            0 <= ra < dn1,
            dn1 * (qb + 1) <= c,
            dn1 > 0,
    ;
}

impl FishingContext {
    /// Score one particle against one observation: the emission
    /// likelihood of the particle's position error under the configured
    /// noise scale.
    pub fn calc_emission_prob(&self, observation: &Observation, particle: &Particle) -> (r:
        i64)
        requires
            1 <= self.sigma <= SIGMA_MAX,
            observation.wf(),
            particle.wf(),
        ensures
            r == emission_spec(
                dist2(observation.pos, particle.pos),
                2 * self.sigma * self.sigma,
            ),
            0 <= r <= EM_MAX,
    {
        let dx: i128 = observation.pos.x as i128 - particle.pos.x as i128;
        let dy: i128 = observation.pos.y as i128 - particle.pos.y as i128;
        proof {
            assert(0 <= dx * dx <= 4_000_000_000_000_000_000_000_000
                && 0 <= dy * dy <= 4_000_000_000_000_000_000_000_000) by (nonlinear_arith)
                requires
                    -2_000_000_000_000 <= dx <= 2_000_000_000_000,
                    -2_000_000_000_000 <= dy <= 2_000_000_000_000,
            ;
        }
        let d2: i128 = dx * dx + dy * dy;
        let sigma_big: i128 = self.sigma as i128;
        proof {
            assert(2 <= 2 * sigma_big * sigma_big <= 2_000_000_000_000_000_000)
                by (nonlinear_arith)
                requires
                    1 <= sigma_big <= 1_000_000_000,
            ;
        }
        let sig2: i128 = 2 * sigma_big * sigma_big;
        let u_big: i128 = (d2 * 100) / sig2;
        proof {
            assert(d2 as int * 100 >= 0) by (nonlinear_arith)
                requires
                    d2 >= 0,
            ;
            vstd::arithmetic::div_mod::lemma_div_pos_is_pos(d2 as int * 100, sig2 as int);
        }
        if u_big > EM_CAP as i128 {
            0
        } else {
            let u: i64 = u_big as i64;
            proof {
                assert(0 <= u * u <= 10_000_000_000 && 0 <= 300 * u * u
                    <= 3_000_000_000_000 && 0 <= u * u * u <= 1_000_000_000_000_000)
                    by (nonlinear_arith)
                    requires
                        0 <= u <= 100_000,
                ;
            }
            let den: i64 = 6_000_000 + 60_000 * u + 300 * u * u + u * u * u;
            let r = EM_NUM / den;
            proof {
                vstd::arithmetic::div_mod::lemma_div_is_ordered_by_denominator(
                    EM_NUM as int,
                    6_000_000,
                    den as int,
                );
                vstd::arithmetic::div_mod::lemma_div_pos_is_pos(EM_NUM as int, den as int);
            }
            r
        }
    }
}

/// The transition graph holds a directed edge from `src` to `dst`.
pub open spec fn graph_has_edge(
    g: MarkovGraph,
    src: ParticleContextType,
    dst: ParticleContextType,
) -> bool {
    exists|k: int| 0 <= k < g.spec_edges_of(src).len() && g.spec_edges_of(src)[k].dest == dst
}

/// How many particles hold mode `m` at step `i` of their history.
pub open spec fn count_mode(s: Seq<Particle>, i: int, m: ParticleContextType) -> int
    decreases s.len(),
{
    if s.len() == 0 {
        0
    } else {
        count_mode(s.drop_last(), i, m) + if s.last().memory@[i] == m {
            1int
        } else {
            0int
        }
    }
}

/// A tally never exceeds the population size and is never negative.
proof fn lemma_count_bounds(s: Seq<Particle>, i: int, m: ParticleContextType)
    ensures
        0 <= count_mode(s, i, m) <= s.len(),
    decreases s.len(),
{
    if s.len() > 0 {
        lemma_count_bounds(s.drop_last(), i, m);
    }
}

/// The per-mode tallies of the population at step `i`, in the fixed mode
/// order.
pub open spec fn tally_triple(s: Seq<Particle>, i: int) -> (u16, u16, u16) {
    (
        count_mode(s, i, ParticleContextType::GoFishing) as u16,
        count_mode(s, i, ParticleContextType::Fishing) as u16,
        count_mode(s, i, ParticleContextType::GoToPort) as u16,
    )
}

/// The tallies of `w` consecutive steps starting at `from`.
pub open spec fn window_tallies(s: Seq<Particle>, from: int, w: int) -> Seq<(u16, u16, u16)> {
    Seq::new(w as nat, |k: int| tally_triple(s, from + k))
}

/// The most frequent mode across the population at step `i`; ties are
/// broken by the fixed priority order of the modes (the declaration
/// order, the default mode first).
pub open spec fn majority_mode(s: Seq<Particle>, i: int) -> ParticleContextType {
    let cg = count_mode(s, i, ParticleContextType::GoFishing);
    let cf = count_mode(s, i, ParticleContextType::Fishing);
    let cp = count_mode(s, i, ParticleContextType::GoToPort);
    if cg >= cf && cg >= cp {
        ParticleContextType::GoFishing
    } else if cf >= cp {
        ParticleContextType::Fishing
    } else {
        ParticleContextType::GoToPort
    }
}

/// Counting one more particle extends the tally by its vote.
proof fn lemma_count_take_succ(s: Seq<Particle>, i: int, m: ParticleContextType, k: int)
    requires
        0 <= k < s.len(),
    ensures
        count_mode(s.take(k + 1), i, m) == count_mode(s.take(k), i, m) + if s[k].memory@[i]
            == m {
            1int
        } else {
            0int
        },
{
    assert(s.take(k + 1).drop_last() =~= s.take(k));
    assert(s.take(k + 1).last() == s[k]);
}

/// Majority-vote determinism: a mode with a strict plurality at a step
/// is reproduced exactly by the decision pass at that step.
pub proof fn lemma_majority_plurality(s: Seq<Particle>, i: int, m: ParticleContextType)
    requires
        forall|m2: ParticleContextType|
            m2 != m ==> count_mode(s, i, m) > #[trigger] count_mode(s, i, m2),
    ensures
        majority_mode(s, i) == m,
{
    match m {
        ParticleContextType::GoFishing => {
            assert(count_mode(s, i, m) > count_mode(s, i, ParticleContextType::Fishing));
        },
        ParticleContextType::Fishing => {
            assert(count_mode(s, i, m) > count_mode(s, i, ParticleContextType::GoFishing));
        },
        ParticleContextType::GoToPort => {
            assert(count_mode(s, i, m) > count_mode(s, i, ParticleContextType::Fishing));
        },
    }
}

/// When every particle votes `m` at step `i`, the tally of `m` is the
/// whole population and every other tally is zero.
proof fn lemma_count_unanimous(
    s: Seq<Particle>,
    i: int,
    m: ParticleContextType,
    m2: ParticleContextType,
)
    requires
        forall|j: int| 0 <= j < s.len() ==> (#[trigger] s[j]).memory@[i] == m,
    ensures
        count_mode(s, i, m2) == if m2 == m {
            s.len() as int
        } else {
            0int
        },
    decreases s.len(),
{
    if s.len() > 0 {
        lemma_count_unanimous(s.drop_last(), i, m, m2);
    }
}

/// A step on which the whole population agrees is labeled with that mode.
pub proof fn lemma_majority_unanimous(s: Seq<Particle>, i: int, m: ParticleContextType)
    requires
        s.len() >= 1,
        forall|j: int| 0 <= j < s.len() ==> (#[trigger] s[j]).memory@[i] == m,
    ensures
        majority_mode(s, i) == m,
{
    lemma_count_unanimous(s, i, m, ParticleContextType::GoFishing);
    lemma_count_unanimous(s, i, m, ParticleContextType::Fishing);
    lemma_count_unanimous(s, i, m, ParticleContextType::GoToPort);
}

/// Majority-vote determinism at a tie: an exact tie between all modes
/// resolves to the default mode.
pub proof fn lemma_majority_tie_default(s: Seq<Particle>, i: int)
    requires
        count_mode(s, i, ParticleContextType::GoFishing) == count_mode(
            s,
            i,
            ParticleContextType::Fishing,
        ),
        count_mode(s, i, ParticleContextType::GoFishing) == count_mode(
            s,
            i,
            ParticleContextType::GoToPort,
        ),
    ensures
        majority_mode(s, i) == ParticleContextType::GoFishing,
{
}

/// The per-mode components of a window of tallies, as plain sums.
pub open spec fn tally0(w: Seq<(u16, u16, u16)>) -> Seq<i64> {
    w.map_values(|t: (u16, u16, u16)| t.0 as i64)
}

pub open spec fn tally1(w: Seq<(u16, u16, u16)>) -> Seq<i64> {
    w.map_values(|t: (u16, u16, u16)| t.1 as i64)
}

pub open spec fn tally2(w: Seq<(u16, u16, u16)>) -> Seq<i64> {
    w.map_values(|t: (u16, u16, u16)| t.2 as i64)
}

/// The local smoothing override of one window of per-step tallies
/// (one `(GoFishing, Fishing, GoToPort)` triple per step): the center
/// step's label is replaced by a mode exactly when that mode holds a
/// strict majority over the window excluding the center, and the center
/// step's own tally for it reaches the supermajority threshold;
/// otherwise the current label stands. Candidate modes are tried in the
/// fixed priority order.
pub open spec fn smooth_spec(
    current: ParticleContextType,
    w: Seq<(u16, u16, u16)>,
    mid: int,
    threshold: int,
) -> ParticleContextType {
    let g = sum_of(tally0(w)) - w[mid].0;
    let f = sum_of(tally1(w)) - w[mid].1;
    let p = sum_of(tally2(w)) - w[mid].2;
    if w[mid].0 >= threshold && g > f && g > p {
        ParticleContextType::GoFishing
    } else if w[mid].1 >= threshold && f > g && f > p {
        ParticleContextType::Fishing
    } else if w[mid].2 >= threshold && p > g && p > f {
        ParticleContextType::GoToPort
    } else {
        current
    }
}

/// The label the smoothing pass gives step `c` of a sequence of `len`
/// steps: where the window of width `w` centered on `c` lies fully
/// inside the sequence, the override rule applied to that window's
/// tallies; elsewhere the raw majority label.
pub open spec fn smoothed_label(
    s: Seq<Particle>,
    len: int,
    c: int,
    w: int,
    threshold: int,
) -> ParticleContextType {
    let mid = w / 2;
    if mid <= c && c - mid + w <= len {
        smooth_spec(majority_mode(s, c), window_tallies(s, c - mid, w), mid, threshold)
    } else {
        majority_mode(s, c)
    }
}

/// One motion step of the kinematic model: the position moved by
/// `speed * dt` (in fixed point) along the unit direction vector, each
/// coordinate saturated at the world boundary.
pub open spec fn pos_step(pos: Point, speed: int, dt: int, dir: Point) -> Point {
    let distance = tdiv(speed * dt, SCALE as int);
    let dx = tdiv(distance * (dir.x as int), DIR_SCALE as int);
    let dy = tdiv(distance * (dir.y as int), DIR_SCALE as int);
    Point {
        x: crate::utils::clamp_spec(pos.x + dx, -POS_MAX as int, POS_MAX as int) as i64,
        y: crate::utils::clamp_spec(pos.y + dy, -POS_MAX as int, POS_MAX as int) as i64,
    }
}

/// The normalized share of a raw weight `w` out of a positive total.
pub open spec fn norm_w(w: int, total: int) -> int {
    (w * (WEIGHT_SCALE as int)) / total
}

/// Floor division distributes sub-additively over a sum.
proof fn lemma_div_plus_div_le(a: int, b: int, t: int)
    requires
        0 <= a,
        0 <= b,
        0 < t,
    ensures
        a / t + b / t <= (a + b) / t,
{
    vstd::arithmetic::div_mod::lemma_fundamental_div_mod(a, t);
    vstd::arithmetic::div_mod::lemma_fundamental_div_mod(b, t);
    vstd::arithmetic::div_mod::lemma_mod_bound(a, t);
    vstd::arithmetic::div_mod::lemma_mod_bound(b, t);
    let q1 = a / t;
    let q2 = b / t;
    assert(t * (q1 + q2) == t * q1 + t * q2) by (nonlinear_arith);
    assert(t * (q1 + q2) <= a + b);
    vstd::arithmetic::div_mod::lemma_div_is_ordered(t * (q1 + q2), a + b, t);
    vstd::arithmetic::div_mod::lemma_div_multiples_vanish(q1 + q2, t);
    assert(q1 >= 0 && q2 >= 0) by {
        vstd::arithmetic::div_mod::lemma_div_pos_is_pos(a, t);
        vstd::arithmetic::div_mod::lemma_div_pos_is_pos(b, t);
    }
}

/// The sum of the first `k` normalized shares never exceeds the
/// normalized share of the first `k` raw weights taken together.
proof fn lemma_norm_sum_le(ws: Seq<i64>, nws: Seq<i64>, total: int, k: int)
    requires
        0 < total,
        0 <= k <= nws.len() <= ws.len(),
        forall|a: int| 0 <= a < ws.len() ==> 0 <= #[trigger] ws[a],
        forall|a: int| 0 <= a < nws.len() ==> #[trigger] nws[a] == norm_w(ws[a] as int, total),
    ensures
        sum_of(nws.take(k)) <= (sum_of(ws.take(k)) * (WEIGHT_SCALE as int)) / total,
        0 <= sum_of(nws.take(k)),
    decreases k,
{
    let scale = WEIGHT_SCALE as int;
    if k == 0 {
        assert(sum_of(nws.take(0)) == 0);
        assert(sum_of(ws.take(0)) == 0);
        vstd::arithmetic::div_mod::lemma_div_pos_is_pos(0, total);
    } else {
        lemma_norm_sum_le(ws, nws, total, k - 1);
        lemma_sum_take_succ(nws, k - 1);
        lemma_sum_take_succ(ws, k - 1);
        let s = sum_of(ws.take(k - 1));
        let w = ws[k - 1] as int;
        assert(0 <= s) by {
            lemma_sum_nonneg_prefix(ws, k - 1);
        }
        assert(s * scale >= 0 && w * scale >= 0 && (s + w) * scale == s * scale + w * scale)
            by (nonlinear_arith)
            requires
                s >= 0,
                w >= 0,
                scale > 0,
        ;
        lemma_div_plus_div_le(s * scale, w * scale, total);
    }
}

/// A prefix of non-negative values has a non-negative sum.
proof fn lemma_sum_nonneg_prefix(ws: Seq<i64>, k: int)
    requires
        0 <= k <= ws.len(),
        forall|a: int| 0 <= a < ws.len() ==> 0 <= #[trigger] ws[a],
    ensures
        0 <= sum_of(ws.take(k)),
{
    assert(forall|a: int| 0 <= a < ws.take(k).len() ==> ws.take(k)[a] >= 0);
    lemma_sum_nonneg(ws.take(k));
}

impl FishingContext {
    /// Score the whole population against the current observation: every
    /// particle's weight becomes its emission likelihood; nothing else of
    /// any particle changes.
    pub fn weight_measurement(&mut self, observation: &Observation)
        requires
            old(self).cfg_wf(),
            old(self).pop_wf(),
            observation.wf(),
        ensures
            final(self).cfg_wf(),
            final(self).pop_wf(),
            final(self).particles@.len() == old(self).particles@.len(),
            forall|j: int|
                0 <= j < final(self).particles@.len() ==> {
                    let p = #[trigger] final(self).particles@[j];
                    let q = old(self).particles@[j];
                    &&& p.pos == q.pos
                    &&& p.direction == q.direction
                    &&& p.heading == q.heading
                    &&& p.speed == q.speed
                    &&& p.context == q.context
                    &&& p.memory@ == q.memory@
                    &&& p.weight == emission_spec(
                        dist2(observation.pos, q.pos),
                        2 * old(self).sigma * old(self).sigma,
                    )
                },
            final(self).observations@ == old(self).observations@,
            final(self).nb_of_particles == old(self).nb_of_particles,
            final(self).sigma == old(self).sigma,
            final(self).sailing_normal_speed_distr == old(self).sailing_normal_speed_distr,
            final(self).fishing_normal_speed_distr == old(self).fishing_normal_speed_distr,
            final(self).context_smoothing_window_size == old(
                self,
            ).context_smoothing_window_size,
            final(self).markov_graph == old(self).markov_graph,
            final(self).degeneracy_events == old(self).degeneracy_events,
    {
        let n = self.particles.len();
        let mut scored: Vec<Particle> = Vec::new();
        let mut j: usize = 0;
        while j < n
            invariant
                j <= n,
                n == self.particles@.len(),
                self.cfg_wf(),
                self.pop_wf(),
                observation.wf(),
                scored@.len() == j,
                forall|a: int|
                    0 <= a < j ==> {
                        let p = #[trigger] scored@[a];
                        let q = self.particles@[a];
                        &&& p.pos == q.pos
                        &&& p.direction == q.direction
                        &&& p.heading == q.heading
                        &&& p.speed == q.speed
                        &&& p.context == q.context
                        &&& p.memory@ == q.memory@
                        &&& p.weight == emission_spec(
                            dist2(observation.pos, q.pos),
                            2 * self.sigma * self.sigma,
                        )
                        &&& p.wf()
                    },
            decreases n - j,
        {
            let q = &self.particles[j];
            let weight = self.calc_emission_prob(observation, q);
            let mut p = q.duplicate();
            p.weight = weight;
            scored.push(p);
            j = j + 1;
        }
        self.particles = scored;
    }

    /// The speed distribution (mean, standard deviation) the current mode
    /// selects: the fishing distribution while fishing, the sailing
    /// distribution in either transit mode.
    pub open spec fn speed_params(self, m: ParticleContextType) -> (int, int) {
        match m {
            ParticleContextType::Fishing => (
                self.fishing_normal_speed_distr.0 as int,
                self.fishing_normal_speed_distr.1 as int,
            ),
            _ => (
                self.sailing_normal_speed_distr.0 as int,
                self.sailing_normal_speed_distr.1 as int,
            ),
        }
    }

    /// The heading-perturbation window of a particle, before wrapping.
    ///
    /// Per mode: while fishing (and always when the particle sits exactly
    /// on the reference point, where no direction toward it exists) the
    /// window is the symmetric cone of `HEADING_HALF_WIDTH` around the
    /// current heading. In the transit modes the window is one-sided,
    /// `HEADING_SHIFT` wide: the side is chosen by which half-plane of
    /// the particle's direction line the reference point (the track's
    /// first position) falls in - the sign of the cross product of the
    /// direction vector with the vector toward the reference point.
    /// Heading back to port turns toward the reference point; heading out
    /// turns away from it.
    pub open spec fn heading_window_spec(self, p: Particle) -> (int, int) {
        let coast = self.observations@[0].pos;
        if p.pos.x == coast.x && p.pos.y == coast.y {
            (p.heading - HEADING_HALF_WIDTH, p.heading + HEADING_HALF_WIDTH)
        } else {
            match p.context {
                ParticleContextType::Fishing => (
                    p.heading - HEADING_HALF_WIDTH,
                    p.heading + HEADING_HALF_WIDTH,
                ),
                ParticleContextType::GoToPort => {
                    if (p.direction.x as int) * (coast.y - p.pos.y) - (p.direction.y as int) * (
                    coast.x - p.pos.x) >= 0 {
                        (p.heading as int, p.heading + HEADING_SHIFT)
                    } else {
                        (p.heading - HEADING_SHIFT, p.heading as int)
                    }
                },
                ParticleContextType::GoFishing => {
                    if (p.direction.x as int) * (coast.y - p.pos.y) - (p.direction.y as int) * (
                    coast.x - p.pos.x) >= 0 {
                        (p.heading - HEADING_SHIFT, p.heading as int)
                    } else {
                        (p.heading as int, p.heading + HEADING_SHIFT)
                    }
                },
            }
        }
    }

    /// Draw a new heading uniformly from the particle's mode-specific
    /// perturbation window, wrapped into `[0, FULL_TURN)`.
    pub fn generate_new_random_heading(
        &self,
        particle: &Particle,
        rng: &mut RandomGenerator,
    ) -> (h: i64)
        requires
            self.cfg_wf(),
            particle.wf(),
            old(rng).wf(),
        ensures
            final(rng).wf(),
            (*old(rng)) is Seeded ==> (*final(rng)) is Seeded,
            (*old(rng)) is Scripted ==> (*final(rng)) is Scripted,
            0 <= h < FULL_TURN,
            exists|u: int|
                self.heading_window_spec(*particle).0 <= u
                    < self.heading_window_spec(*particle).1 && h == #[trigger] (u % (
                FULL_TURN as int)),
    {
        let coast = self.observations[0].pos;
        let p = particle;
        let symmetric: bool = if p.pos.x == coast.x && p.pos.y == coast.y {
            true
        } else {
            match p.context {
                ParticleContextType::Fishing => true,
                _ => false,
            }
        };
        let (lo, hi): (i64, i64) = if symmetric {
            (p.heading - HEADING_HALF_WIDTH, p.heading + HEADING_HALF_WIDTH)
        } else {
            proof {
                assert({
                    let ax = p.direction.x as i128;
                    let ay = p.direction.y as i128;
                    let bx = (coast.x as i128) - (p.pos.x as i128);
                    let by = (coast.y as i128) - (p.pos.y as i128);
                    -2_000_000_000_000_000_000 <= ax * by <= 2_000_000_000_000_000_000
                        && -2_000_000_000_000_000_000 <= ay * bx
                        <= 2_000_000_000_000_000_000
                }) by (nonlinear_arith)
                    requires
                        -1_000_000 <= p.direction.x <= 1_000_000,
                        -1_000_000 <= p.direction.y <= 1_000_000,
                        -2_000_000_000_000 <= (coast.x as i128) - (p.pos.x as i128)
                            <= 2_000_000_000_000,
                        -2_000_000_000_000 <= (coast.y as i128) - (p.pos.y as i128)
                            <= 2_000_000_000_000,
                ;
            }
            let cross: i128 = (p.direction.x as i128) * ((coast.y as i128) - (p.pos.y as i128))
                - (p.direction.y as i128) * ((coast.x as i128) - (p.pos.x as i128));
            let toward: bool = cross >= 0;
            match p.context {
                ParticleContextType::GoToPort => {
                    if toward {
                        (p.heading, p.heading + HEADING_SHIFT)
                    } else {
                        (p.heading - HEADING_SHIFT, p.heading)
                    }
                },
                _ => {
                    if toward {
                        (p.heading - HEADING_SHIFT, p.heading)
                    } else {
                        (p.heading, p.heading + HEADING_SHIFT)
                    }
                },
            }
        };
        let u = rng.random_uniform_range(lo, hi);
        let h = crate::geometry::wrap_heading(u);
        proof {
            let w = self.heading_window_spec(*particle);
            assert(w.0 <= u as int && (u as int) < w.1 && h as int == (u as int) % (
            FULL_TURN as int));
        }
        h
    }

    /// The unit direction vector of a heading.
    pub fn calc_new_direction(&self, heading: i64) -> (r: Point)
        requires
            0 <= heading < FULL_TURN,
        ensures
            r == dir_from_heading_spec(heading as int),
            -DIR_SCALE <= r.x <= DIR_SCALE,
            -DIR_SCALE <= r.y <= DIR_SCALE,
    {
        dir_from_heading(heading)
    }

    /// Advance one particle by one observation interval: a fresh speed
    /// from the mode's distribution, a fresh heading from the mode's
    /// perturbation window, the renormalized direction vector of that
    /// heading, and the position moved by speed times time delta along
    /// it (saturating at the world boundary). Weight, mode and history
    /// are carried over untouched.
    pub fn update(
        &self,
        observation: Observation,
        particle: &Particle,
        rng: &mut RandomGenerator,
    ) -> (r: Particle)
        requires
            self.cfg_wf(),
            particle.wf(),
            observation.wf(),
            old(rng).wf(),
        ensures
            final(rng).wf(),
            (*old(rng)) is Seeded ==> (*final(rng)) is Seeded,
            (*old(rng)) is Scripted ==> (*final(rng)) is Scripted,
            r.wf(),
            r.weight == particle.weight,
            r.context == particle.context,
            r.memory@ == particle.memory@,
            self.speed_params(particle.context).0 - 6 * self.speed_params(
                particle.context,
            ).1 <= r.speed <= self.speed_params(particle.context).0 + 6 * self.speed_params(
                particle.context,
            ).1,
            exists|u: int|
                self.heading_window_spec(*particle).0 <= u
                    < self.heading_window_spec(*particle).1 && r.heading == #[trigger] (u % (
                FULL_TURN as int)),
            r.direction == dir_from_heading_spec(r.heading as int),
            r.pos == pos_step(
                particle.pos,
                r.speed as int,
                observation.time as int,
                r.direction,
            ),
    {
        let time_diff = observation.time;
        let new_speed = match particle.context {
            ParticleContextType::Fishing => rng.random_normal(
                self.fishing_normal_speed_distr.0,
                self.fishing_normal_speed_distr.1,
            ),
            _ => rng.random_normal(
                self.sailing_normal_speed_distr.0,
                self.sailing_normal_speed_distr.1,
            ),
        };
        let new_heading = self.generate_new_random_heading(particle, rng);
        let new_dir = self.calc_new_direction(new_heading);
        proof {
            assert(-700_000_000_000_000_000 <= new_speed * time_diff
                <= 700_000_000_000_000_000) by (nonlinear_arith)
                requires
                    -700_000_000 <= new_speed <= 700_000_000,
                    0 <= time_diff <= 1_000_000_000,
            ;
        }
        let prod: i64 = new_speed * time_diff;
        let distance: i64 = crate::utils::div_trunc(prod, SCALE);
        proof {
            assert(-700_000_000_000_000 <= tdiv(prod as int, 1000) <= 700_000_000_000_000)
                by (nonlinear_arith)
                requires
                    -700_000_000_000_000_000 <= prod <= 700_000_000_000_000_000,
            ;
        }
        proof {
            assert({
                let d = distance as i128;
                -700_000_000_000_000_000_000 <= d * (new_dir.x as i128)
                    <= 700_000_000_000_000_000_000 && -700_000_000_000_000_000_000 <= d * (
                new_dir.y as i128) <= 700_000_000_000_000_000_000
            }) by (nonlinear_arith)
                requires
                    -700_000_000_000_000 <= distance <= 700_000_000_000_000,
                    -1_000_000 <= new_dir.x <= 1_000_000,
                    -1_000_000 <= new_dir.y <= 1_000_000,
            ;
        }
        let dxp: i128 = (distance as i128) * (new_dir.x as i128);
        let dyp: i128 = (distance as i128) * (new_dir.y as i128);
        let dx: i128 = dxp / (DIR_SCALE as i128);
        let dy: i128 = dyp / (DIR_SCALE as i128);
        proof {
            assert(-700_000_000_000_000 <= tdiv(dxp as int, 1_000_000)
                <= 700_000_000_000_000 && -700_000_000_000_000 <= tdiv(
                dyp as int,
                1_000_000,
            ) <= 700_000_000_000_000) by (nonlinear_arith)
                requires
                    -700_000_000_000_000_000_000 <= dxp <= 700_000_000_000_000_000_000,
                    -700_000_000_000_000_000_000 <= dyp <= 700_000_000_000_000_000_000,
            ;
        }
        let new_x = clamp_i64(particle.pos.x + (dx as i64), -POS_MAX, POS_MAX);
        let new_y = clamp_i64(particle.pos.y + (dy as i64), -POS_MAX, POS_MAX);
        let mut r = particle.duplicate();
        r.pos = Point { x: new_x, y: new_y };
        r.direction = new_dir;
        r.heading = new_heading;
        r.speed = new_speed;
        r
    }

    /// Draw a fresh, equally-weighted population of `nb_of_particles`
    /// independent clones, each chosen by cumulative-weight inversion
    /// over the current weights: a uniform draw below the raw total
    /// selects the particle whose cumulative interval contains it, so
    /// only particles of positive weight are ever cloned. Each clone
    /// gets the even share of the weight scale (the shares sum to
    /// exactly `WEIGHT_SCALE`). A zero raw total falls back,
    /// deterministically, to cloning the first particle.
    pub fn resample(&self, rng: &mut RandomGenerator) -> (r: Vec<Particle>)
        requires
            self.cfg_wf(),
            self.pop_wf(),
            old(rng).wf(),
        ensures
            final(rng).wf(),
            (*old(rng)) is Seeded ==> (*final(rng)) is Seeded,
            (*old(rng)) is Scripted ==> (*final(rng)) is Scripted,
            r@.len() == self.nb_of_particles as int,
            forall|i: int|
                0 <= i < r@.len() ==> (#[trigger] r@[i]).weight == seed_weight(
                    self.nb_of_particles as int,
                    i,
                ),
            sum_of(pweights(r@)) == WEIGHT_SCALE,
            forall|i: int|
                0 <= i < r@.len() ==> exists|k: int|
                    0 <= k < self.particles@.len() && particle_like_unweighted(
                        #[trigger] r@[i],
                        self.particles@[k],
                    ) && (sum_of(pweights(self.particles@)) > 0
                        ==> self.particles@[k].weight > 0),
            sum_of(pweights(self.particles@)) == 0 ==> forall|i: int|
                0 <= i < r@.len() ==> particle_like_unweighted(
                    #[trigger] r@[i],
                    self.particles@[0],
                ),
    {
        let ghost ws_spec = pweights(self.particles@);
        let n = self.particles.len();
        proof {
            assert(forall|a: int| 0 <= a < ws_spec.len() ==> 0 <= #[trigger] ws_spec[a]);
            assert(forall|a: int|
                0 <= a < ws_spec.len() ==> #[trigger] ws_spec[a] <= crate::WEIGHT_MAX);
            lemma_cum_all(ws_spec);
            lemma_sum_nonneg(ws_spec);
            crate::utils::lemma_sum_upper(ws_spec, crate::WEIGHT_MAX as int);
        }
        // The weights, and their raw total.
        let mut ws: Vec<i64> = Vec::new();
        let mut total: i64 = 0;
        let mut j: usize = 0;
        while j < n
            invariant
                j <= n,
                n == self.particles@.len() == ws_spec.len(),
                self.pop_wf(),
                pweights(self.particles@) == ws_spec,
                ws@ =~= ws_spec.take(j as int),
                total == cum_before(ws_spec, j as int),
                0 <= total,
                sum_of(ws_spec) <= 65_535_000_000_000_000,
            decreases n - j,
        {
            proof {
                lemma_sum_take_succ(ws_spec, j as int);
                assert(forall|a: int| 0 <= a < ws_spec.len() ==> 0 <= #[trigger] ws_spec[a]);
                lemma_sum_nonneg_prefix(ws_spec, j as int + 1);
                lemma_cum_monotone_bound(ws_spec, j as int + 1);
            }
            let w = self.particles[j].weight;
            ws.push(w);
            proof {
                assert(ws@ =~= ws_spec.take(j as int + 1));
            }
            total = total + w;
            j = j + 1;
        }
        proof {
            assert(ws_spec.take(n as int) =~= ws_spec);
            assert(ws@ =~= ws_spec);
        }
        let count = self.nb_of_particles as usize;
        // The even weight split every clone receives.
        let base: i64 = WEIGHT_SCALE / (count as i64);
        let rem: i64 = WEIGHT_SCALE % (count as i64);
        proof {
            vstd::arithmetic::div_mod::lemma_mod_bound(WEIGHT_SCALE as int, count as int);
            assert(1 <= (WEIGHT_SCALE as int) / (count as int) <= WEIGHT_SCALE)
                by (nonlinear_arith)
                requires
                    1 <= count <= 65535,
            ;
        }
        let mut out: Vec<Particle> = Vec::new();
        if total > 0 {
            let mut i: usize = 0;
            while i < count
                invariant
                    i <= count,
                    1 <= count <= 65535,
                    n == self.particles@.len() == ws_spec.len(),
                    self.pop_wf(),
                    pweights(self.particles@) == ws_spec,
                    ws@ =~= ws_spec,
                    0 < total,
                    total == sum_of(ws_spec),
                    sum_of(ws_spec) <= 65_535_000_000_000_000,
                    base == (WEIGHT_SCALE as int) / (count as int),
                    rem == (WEIGHT_SCALE as int) % (count as int),
                    0 <= rem < count,
                    0 < base <= WEIGHT_SCALE,
                    rng.wf(),
                    (*old(rng)) is Seeded ==> (*rng) is Seeded,
                    (*old(rng)) is Scripted ==> (*rng) is Scripted,
                    out@.len() == i,
                    forall|a: int|
                        0 <= a < i ==> (#[trigger] out@[a]).weight == seed_weight(
                            count as int,
                            a,
                        ) && out@[a].wf(),
                    forall|a: int|
                        0 <= a < i ==> exists|k: int|
                            0 <= k < self.particles@.len() && particle_like_unweighted(
                                #[trigger] out@[a],
                                self.particles@[k],
                            ) && self.particles@[k].weight > 0,
                decreases count - i,
            {
                let u = rng.random_uniform_range(0, total);
                let k = select_by_weight(&ws, u);
                proof {
                    crate::utils::lemma_selects_positive(ws@, u as int, k as int);
                    if rem > 0 {
                        assert(count >= 2);
                        assert((WEIGHT_SCALE as int) / (count as int) <= 500_000_000)
                            by (nonlinear_arith)
                            requires
                                2 <= count <= 65535,
                        ;
                    }
                }
                let mut p = self.particles[k].duplicate();
                p.weight = if (i as i64) < rem {
                    base + 1
                } else {
                    base
                };
                out.push(p);
                i = i + 1;
            }
            proof {
                lemma_resample_weight_sum(out@, count as int);
            }
            out
        } else {
            let mut i: usize = 0;
            while i < count
                invariant
                    i <= count,
                    1 <= count <= 65535,
                    n == self.particles@.len(),
                    n >= 1,
                    self.pop_wf(),
                    base == (WEIGHT_SCALE as int) / (count as int),
                    rem == (WEIGHT_SCALE as int) % (count as int),
                    0 <= rem < count,
                    0 < base <= WEIGHT_SCALE,
                    out@.len() == i,
                    forall|a: int|
                        0 <= a < i ==> (#[trigger] out@[a]).weight == seed_weight(
                            count as int,
                            a,
                        ) && out@[a].wf(),
                    forall|a: int|
                        0 <= a < i ==> particle_like_unweighted(
                            #[trigger] out@[a],
                            self.particles@[0],
                        ),
                decreases count - i,
            {
                proof {
                    if rem > 0 {
                        assert(count >= 2);
                        assert((WEIGHT_SCALE as int) / (count as int) <= 500_000_000)
                            by (nonlinear_arith)
                            requires
                                2 <= count <= 65535,
                        ;
                    }
                }
                let mut p = self.particles[0].duplicate();
                p.weight = if (i as i64) < rem {
                    base + 1
                } else {
                    base
                };
                out.push(p);
                i = i + 1;
            }
            proof {
                lemma_resample_weight_sum(out@, count as int);
            }
            out
        }
    }

    /// One full filter step against the next observation: resample by the
    /// previous normalized weights, propagate every particle (a mode
    /// switch drawn from the transition graph with probability `P_SWITCH`,
    /// then the motion model), score the population against the
    /// observation, and renormalize. Every particle's history grows by
    /// exactly one entry - the mode it holds after the step - and a mode
    /// only ever changes along an edge of the transition graph.
    pub fn particle_filter_steps(&mut self, observation: Observation, rng: &mut RandomGenerator)
        requires
            old(self).cfg_wf(),
            old(self).pop_wf(),
            observation.wf(),
            old(rng).wf(),
        ensures
            final(self).cfg_wf(),
            final(self).pop_wf(),
            final(self).normalized(),
            forall|steps: int|
                old(self).mem_wf(steps) ==> final(self).mem_wf(steps + 1),
            forall|j: int|
                #![trigger final(self).particles@[j]]
                0 <= j < final(self).particles@.len() ==> exists|k: int|
                    #![trigger old(self).particles@[k]]
                    {
                        let p = final(self).particles@[j];
                        let q = old(self).particles@[k];
                        &&& 0 <= k < old(self).particles@.len()
                        &&& p.memory@ == q.memory@.push(p.context)
                        &&& (p.context == q.context || graph_has_edge(
                            old(self).markov_graph,
                            q.context,
                            p.context,
                        ))
                    },
            final(rng).wf(),
            (*old(rng)) is Seeded ==> (*final(rng)) is Seeded,
            (*old(rng)) is Scripted ==> (*final(rng)) is Scripted,
            old(self).degeneracy_events <= final(self).degeneracy_events,
            final(self).observations@ == old(self).observations@,
            final(self).nb_of_particles == old(self).nb_of_particles,
            final(self).sigma == old(self).sigma,
            final(self).sailing_normal_speed_distr == old(self).sailing_normal_speed_distr,
            final(self).fishing_normal_speed_distr == old(self).fishing_normal_speed_distr,
            final(self).context_smoothing_window_size == old(
                self,
            ).context_smoothing_window_size,
            final(self).markov_graph == old(self).markov_graph,
    {
        // Importance sampling: a fresh generation drawn by the previous
        // normalized weights.
        let resampled = self.resample(rng);
        self.particles = resampled;
        let ghost base = self.particles@;
        let n = self.particles.len();
        // Drift and diffuse: mode switch, then the motion model.
        let mut moved: Vec<Particle> = Vec::new();
        let mut j: usize = 0;
        while j < n
            invariant
                j <= n,
                n == self.particles@.len(),
                self.particles@ == base,
                self.cfg_wf(),
                self.pop_wf(),
                observation.wf(),
                rng.wf(),
                (*old(rng)) is Seeded ==> (*rng) is Seeded,
                (*old(rng)) is Scripted ==> (*rng) is Scripted,
                moved@.len() == j,
                forall|a: int|
                    0 <= a < j ==> {
                        let p = #[trigger] moved@[a];
                        let q = base[a];
                        &&& p.wf()
                        &&& p.memory@ == q.memory@.push(p.context)
                        &&& (p.context == q.context || graph_has_edge(
                            self.markov_graph,
                            q.context,
                            p.context,
                        ))
                    },
            decreases n - j,
        {
            let p = &self.particles[j];
            // Drawing a sample mode based on the transition probabilities:
            // a `P_SWITCH` chance that the mode changes at all, and then a
            // weighted categorical draw over the outgoing edges.
            let draw = rng.random_uniform();
            let mut new_context = p.context;
            if draw < P_SWITCH {
                let tw = self.markov_graph.total_weight(p.context);
                if tw > 0 {
                    let u = rng.random_uniform_range(0, tw);
                    match self.markov_graph.get_dest(p.context, u) {
                        Some(d) => {
                            new_context = d;
                        },
                        None => {},
                    }
                }
                // A mode with no outgoing edges keeps its mode: no
                // unrelated edge is ever selected.
            }
            let mut q = self.particles[j].duplicate();
            q.context = new_context;
            q.memory.push(new_context);
            let moved_p = self.update(observation, &q, rng);
            moved.push(moved_p);
            j = j + 1;
        }
        self.particles = moved;
        // Assigning weights, then renormalizing them.
        self.weight_measurement(&observation);
        self.normalize_weights();
    }

    /// Tally, across all particles, the modes stored at step `i` of
    /// their histories.
    pub fn tally_at(&self, i: usize) -> (r: (u16, u16, u16))
        requires
            self.cfg_wf(),
            self.pop_wf(),
            self.mem_wf(self.observations@.len() as int),
            i < self.observations@.len(),
        ensures
            r == tally_triple(self.particles@, i as int),
            r.0 == count_mode(self.particles@, i as int, ParticleContextType::GoFishing),
            r.1 == count_mode(self.particles@, i as int, ParticleContextType::Fishing),
            r.2 == count_mode(self.particles@, i as int, ParticleContextType::GoToPort),
    {
        let n = self.particles.len();
        let len = self.observations.len();
        let mut cg: u16 = 0;
        let mut cf: u16 = 0;
        let mut cp: u16 = 0;
        proof {
            assert(self.particles@.take(0) =~= Seq::<Particle>::empty());
            assert(count_mode(
                self.particles@.take(0),
                i as int,
                ParticleContextType::GoFishing,
            ) == 0);
            assert(count_mode(
                self.particles@.take(0),
                i as int,
                ParticleContextType::Fishing,
            ) == 0);
            assert(count_mode(
                self.particles@.take(0),
                i as int,
                ParticleContextType::GoToPort,
            ) == 0);
        }
        let mut j: usize = 0;
        while j < n
            invariant
                j <= n,
                n == self.particles@.len(),
                n <= 65535,
                i < len,
                len == self.observations@.len(),
                self.mem_wf(len as int),
                cg == count_mode(
                    self.particles@.take(j as int),
                    i as int,
                    ParticleContextType::GoFishing,
                ),
                cf == count_mode(
                    self.particles@.take(j as int),
                    i as int,
                    ParticleContextType::Fishing,
                ),
                cp == count_mode(
                    self.particles@.take(j as int),
                    i as int,
                    ParticleContextType::GoToPort,
                ),
                0 <= cg <= j,
                0 <= cf <= j,
                0 <= cp <= j,
            decreases n - j,
        {
            proof {
                lemma_count_take_succ(
                    self.particles@,
                    i as int,
                    ParticleContextType::GoFishing,
                    j as int,
                );
                lemma_count_take_succ(
                    self.particles@,
                    i as int,
                    ParticleContextType::Fishing,
                    j as int,
                );
                lemma_count_take_succ(
                    self.particles@,
                    i as int,
                    ParticleContextType::GoToPort,
                    j as int,
                );
            }
            match self.particles[j].memory[i] {
                ParticleContextType::GoFishing => {
                    cg = cg + 1;
                },
                ParticleContextType::Fishing => {
                    cf = cf + 1;
                },
                ParticleContextType::GoToPort => {
                    cp = cp + 1;
                },
            }
            j = j + 1;
        }
        proof {
            assert(self.particles@.take(n as int) =~= self.particles@);
            lemma_count_bounds(self.particles@, i as int, ParticleContextType::GoFishing);
            lemma_count_bounds(self.particles@, i as int, ParticleContextType::Fishing);
            lemma_count_bounds(self.particles@, i as int, ParticleContextType::GoToPort);
        }
        (cg, cf, cp)
    }

    /// The decision pass: for every time index, tally the mode stored at
    /// that index across all particle histories and label the observation
    /// with the most frequent one (ties broken by the fixed mode
    /// priority order). The observations' own fields carry over
    /// unchanged.
    pub fn calc_optimal_sequence(&self) -> (r: Vec<Observation>)
        requires
            self.cfg_wf(),
            self.pop_wf(),
            self.mem_wf(self.observations@.len() as int),
        ensures
            r@.len() == self.observations@.len(),
            forall|i: int|
                0 <= i < r@.len() ==> {
                    let o = #[trigger] r@[i];
                    &&& o.pos == self.observations@[i].pos
                    &&& o.time == self.observations@[i].time
                    &&& o.heading == self.observations@[i].heading
                    &&& o.speed == self.observations@[i].speed
                    &&& o.context == majority_mode(self.particles@, i)
                },
    {
        let len = self.observations.len();
        let n = self.particles.len();
        let mut out: Vec<Observation> = Vec::new();
        let mut i: usize = 0;
        while i < len
            invariant
                i <= len,
                len == self.observations@.len(),
                n == self.particles@.len(),
                1 <= n <= 65535,
                self.cfg_wf(),
                self.pop_wf(),
                self.mem_wf(len as int),
                out@.len() == i,
                forall|a: int|
                    0 <= a < i ==> {
                        let o = #[trigger] out@[a];
                        &&& o.pos == self.observations@[a].pos
                        &&& o.time == self.observations@[a].time
                        &&& o.heading == self.observations@[a].heading
                        &&& o.speed == self.observations@[a].speed
                        &&& o.context == majority_mode(self.particles@, a)
                    },
            decreases len - i,
        {
            let t = self.tally_at(i);
            let majority_context = if t.0 >= t.1 && t.0 >= t.2 {
                ParticleContextType::GoFishing
            } else if t.1 >= t.2 {
                ParticleContextType::Fishing
            } else {
                ParticleContextType::GoToPort
            };
            let obs = self.observations[i];
            out.push(
                Observation {
                    pos: obs.pos,
                    time: obs.time,
                    heading: obs.heading,
                    speed: obs.speed,
                    context: majority_context,
                },
            );
            i = i + 1;
        }
        out
    }

    /// The denoised label sequence: the raw per-step majority vote,
    /// followed by the local smoothing pass, which may override each
    /// step whose tally window lies fully inside the sequence.
    pub fn smoothed_sequence(&self) -> (r: Vec<Observation>)
        requires
            self.cfg_wf(),
            self.pop_wf(),
            self.mem_wf(self.observations@.len() as int),
            1 <= self.context_smoothing_window_size <= 1_000_000,
        ensures
            r@.len() == self.observations@.len(),
            forall|c: int|
                0 <= c < r@.len() ==> {
                    let o = #[trigger] r@[c];
                    &&& o.pos == self.observations@[c].pos
                    &&& o.time == self.observations@[c].time
                    &&& o.heading == self.observations@[c].heading
                    &&& o.speed == self.observations@[c].speed
                    &&& o.context == smoothed_label(
                        self.particles@,
                        self.observations@.len() as int,
                        c,
                        self.context_smoothing_window_size as int,
                        (self.nb_of_particles / 2) as int,
                    )
                },
    {
        let labels = self.calc_optimal_sequence();
        let len = self.observations.len();
        let w = self.context_smoothing_window_size;
        let mid = w / 2;
        // The per-step tallies, computed once.
        let mut tallies: Vec<(u16, u16, u16)> = Vec::new();
        let mut i: usize = 0;
        while i < len
            invariant
                i <= len,
                len == self.observations@.len(),
                self.cfg_wf(),
                self.pop_wf(),
                self.mem_wf(len as int),
                tallies@.len() == i,
                forall|a: int|
                    0 <= a < i ==> #[trigger] tallies@[a] == tally_triple(self.particles@, a),
            decreases len - i,
        {
            tallies.push(self.tally_at(i));
            i = i + 1;
        }
        let mut out: Vec<Observation> = Vec::new();
        let mut c: usize = 0;
        while c < len
            invariant
                c <= len,
                len == self.observations@.len(),
                w == self.context_smoothing_window_size,
                1 <= w <= 1_000_000,
                mid == w / 2,
                self.cfg_wf(),
                self.pop_wf(),
                self.mem_wf(len as int),
                labels@.len() == len,
                forall|a: int|
                    0 <= a < len ==> {
                        let o = #[trigger] labels@[a];
                        &&& o.pos == self.observations@[a].pos
                        &&& o.time == self.observations@[a].time
                        &&& o.heading == self.observations@[a].heading
                        &&& o.speed == self.observations@[a].speed
                        &&& o.context == majority_mode(self.particles@, a)
                    },
                tallies@.len() == len,
                forall|a: int|
                    0 <= a < len ==> #[trigger] tallies@[a] == tally_triple(self.particles@, a),
                out@.len() == c,
                forall|a: int|
                    0 <= a < c ==> {
                        let o = #[trigger] out@[a];
                        &&& o.pos == self.observations@[a].pos
                        &&& o.time == self.observations@[a].time
                        &&& o.heading == self.observations@[a].heading
                        &&& o.speed == self.observations@[a].speed
                        &&& o.context == smoothed_label(
                            self.particles@,
                            len as int,
                            a,
                            w as int,
                            (self.nb_of_particles / 2) as int,
                        )
                    },
            decreases len - c,
        {
            let current = labels[c].context;
            let context = if c >= mid && w <= len && c - mid <= len - w {
                let from = c - mid;
                let mut win: Vec<(u16, u16, u16)> = Vec::new();
                let mut k: usize = 0;
                while k < w
                    invariant
                        k <= w,
                        from + w <= len,
                        tallies@.len() == len,
                        forall|a: int|
                            0 <= a < len ==> #[trigger] tallies@[a] == tally_triple(
                                self.particles@,
                                a,
                            ),
                        win@.len() == k,
                        forall|b: int|
                            0 <= b < k ==> #[trigger] win@[b] == tally_triple(
                                self.particles@,
                                from + b,
                            ),
                    decreases w - k,
                {
                    win.push(tallies[from + k]);
                    k = k + 1;
                }
                proof {
                    assert(win@ =~= window_tallies(self.particles@, from as int, w as int));
                }
                self.smooth_context(current, &win)
            } else {
                current
            };
            let o = labels[c];
            out.push(
                Observation {
                    pos: o.pos,
                    time: o.time,
                    heading: o.heading,
                    speed: o.speed,
                    context,
                },
            );
            c = c + 1;
        }
        out
    }

    /// Run the whole filter: seed the population from the first
    /// observation, apply one resample / transition / weight / normalize
    /// step per further observation, and finish with the decision pass
    /// over the stored histories. The result labels every observation
    /// with the population's majority mode at that step.
    pub fn particle_filter(&mut self, rng: &mut RandomGenerator) -> (r: Vec<Observation>)
        requires
            old(self).cfg_wf(),
            old(rng).wf(),
        ensures
            final(self).cfg_wf(),
            final(self).pop_wf(),
            final(self).mem_wf(final(self).observations@.len() as int),
            final(self).normalized(),
            final(self).observations@ == old(self).observations@,
            forall|j: int|
                0 <= j < final(self).particles@.len() ==> {
                    let p = #[trigger] final(self).particles@[j];
                    p.memory@.len() >= 1 && p.memory@[0] == ParticleContextType::GoFishing
                },
            final(rng).wf(),
            (*old(rng)) is Seeded ==> (*final(rng)) is Seeded,
            (*old(rng)) is Scripted ==> (*final(rng)) is Scripted,
            r@.len() == old(self).observations@.len(),
            forall|i: int|
                0 <= i < r@.len() ==> {
                    let o = #[trigger] r@[i];
                    &&& o.pos == old(self).observations@[i].pos
                    &&& o.time == old(self).observations@[i].time
                    &&& o.heading == old(self).observations@[i].heading
                    &&& o.speed == old(self).observations@[i].speed
                    &&& o.context == majority_mode(final(self).particles@, i)
                },
    {
        self.initialize();
        let len = self.observations.len();
        let mut i: usize = 1;
        while i < len
            invariant
                1 <= i <= len,
                len == self.observations@.len(),
                self.cfg_wf(),
                self.pop_wf(),
                self.mem_wf(i as int),
                self.normalized(),
                self.observations@ == old(self).observations@,
                forall|j: int|
                    0 <= j < self.particles@.len() ==> {
                        let p = #[trigger] self.particles@[j];
                        p.memory@.len() >= 1 && p.memory@[0] == ParticleContextType::GoFishing
                    },
                rng.wf(),
                (*old(rng)) is Seeded ==> (*rng) is Seeded,
                (*old(rng)) is Scripted ==> (*rng) is Scripted,
            decreases len - i,
        {
            let obs = self.observations[i];
            let ghost pre = self.particles@;
            self.particle_filter_steps(obs, rng);
            proof {
                // Histories only grow: the seed mode stays at the front.
                assert forall|j: int|
                    0 <= j < self.particles@.len() implies {
                        let p = #[trigger] self.particles@[j];
                        p.memory@.len() >= 1 && p.memory@[0] == ParticleContextType::GoFishing
                    } by {
                    let p = self.particles@[j];
                    let k = choose|k: int|
                        0 <= k < pre.len() && p.memory@ == (#[trigger] pre[k]).memory@.push(
                            p.context,
                        ) && (p.context == pre[k].context || graph_has_edge(
                            self.markov_graph,
                            pre[k].context,
                            p.context,
                        ));
                    assert(pre[k].memory@.len() >= 1);
                    assert(p.memory@[0] == pre[k].memory@[0]);
                }
            }
            i = i + 1;
        }
        self.calc_optimal_sequence()
    }

    /// Apply the local smoothing override to the center of one window of
    /// per-step mode tallies. The supermajority threshold is half the
    /// population.
    pub fn smooth_context(
        &self,
        current_context: ParticleContextType,
        smoothing_window: &Vec<(u16, u16, u16)>,
    ) -> (r: ParticleContextType)
        requires
            self.nb_of_particles >= 1,
            smoothing_window@.len() == self.context_smoothing_window_size,
            1 <= self.context_smoothing_window_size <= 1_000_000,
        ensures
            r == smooth_spec(
                current_context,
                smoothing_window@,
                (self.context_smoothing_window_size / 2) as int,
                (self.nb_of_particles / 2) as int,
            ),
    {
        let mid_index = self.context_smoothing_window_size / 2;
        let threshold: u16 = self.nb_of_particles / 2;
        let ghost w = smoothing_window@;
        let n = smoothing_window.len();
        let mut s0: i64 = 0;
        let mut s1: i64 = 0;
        let mut s2: i64 = 0;
        let mut j: usize = 0;
        proof {
            assert(tally0(w).take(0) =~= Seq::<i64>::empty());
            assert(tally1(w).take(0) =~= Seq::<i64>::empty());
            assert(tally2(w).take(0) =~= Seq::<i64>::empty());
        }
        while j < n
            invariant
                j <= n,
                n == w.len(),
                w == smoothing_window@,
                n <= 1_000_000,
                s0 == sum_of(tally0(w).take(j as int)),
                s1 == sum_of(tally1(w).take(j as int)),
                s2 == sum_of(tally2(w).take(j as int)),
                0 <= s0 <= j * 65535,
                0 <= s1 <= j * 65535,
                0 <= s2 <= j * 65535,
            decreases n - j,
        {
            proof {
                lemma_sum_take_succ(tally0(w), j as int);
                lemma_sum_take_succ(tally1(w), j as int);
                lemma_sum_take_succ(tally2(w), j as int);
            }
            let t = smoothing_window[j];
            s0 = s0 + t.0 as i64;
            s1 = s1 + t.1 as i64;
            s2 = s2 + t.2 as i64;
            j = j + 1;
        }
        proof {
            assert(tally0(w).take(n as int) =~= tally0(w));
            assert(tally1(w).take(n as int) =~= tally1(w));
            assert(tally2(w).take(n as int) =~= tally2(w));
        }
        let center = smoothing_window[mid_index];
        let g = s0 - center.0 as i64;
        let f = s1 - center.1 as i64;
        let p = s2 - center.2 as i64;
        if center.0 >= threshold && g > f && g > p {
            ParticleContextType::GoFishing
        } else if center.1 >= threshold && f > g && f > p {
            ParticleContextType::Fishing
        } else if center.2 >= threshold && p > g && p > f {
            ParticleContextType::GoToPort
        } else {
            current_context
        }
    }

    /// Renormalize the population's weights to sum to exactly
    /// `WEIGHT_SCALE`. Every particle but the last gets the floor share
    /// of its raw weight; the last absorbs the rounding deficit. A raw
    /// sum of zero (every particle implausible) is the degenerate case:
    /// the weights reset to the even split and the event is counted.
    pub fn normalize_weights(&mut self) -> (degenerate: bool)
        requires
            old(self).cfg_wf(),
            old(self).pop_wf(),
        ensures
            final(self).cfg_wf(),
            final(self).pop_wf(),
            final(self).normalized(),
            degenerate == (sum_of(pweights(old(self).particles@)) == 0),
            final(self).particles@.len() == old(self).particles@.len(),
            forall|j: int|
                0 <= j < final(self).particles@.len() ==> {
                    let p = #[trigger] final(self).particles@[j];
                    let q = old(self).particles@[j];
                    &&& p.pos == q.pos
                    &&& p.direction == q.direction
                    &&& p.heading == q.heading
                    &&& p.speed == q.speed
                    &&& p.context == q.context
                    &&& p.memory@ == q.memory@
                },
            !degenerate ==> forall|j: int|
                0 <= j < final(self).particles@.len() - 1 ==> (
                #[trigger] final(self).particles@[j]).weight == norm_w(
                    old(self).particles@[j].weight as int,
                    sum_of(pweights(old(self).particles@)),
                ),
            degenerate ==> forall|j: int|
                0 <= j < final(self).particles@.len() ==> (
                #[trigger] final(self).particles@[j]).weight == seed_weight(
                    old(self).nb_of_particles as int,
                    j,
                ),
            final(self).degeneracy_events == if degenerate && old(self).degeneracy_events
                < u64::MAX {
                old(self).degeneracy_events + 1
            } else {
                old(self).degeneracy_events as int
            },
            final(self).observations@ == old(self).observations@,
            final(self).nb_of_particles == old(self).nb_of_particles,
            final(self).sigma == old(self).sigma,
            final(self).sailing_normal_speed_distr == old(self).sailing_normal_speed_distr,
            final(self).fishing_normal_speed_distr == old(self).fishing_normal_speed_distr,
            final(self).context_smoothing_window_size == old(
                self,
            ).context_smoothing_window_size,
            final(self).markov_graph == old(self).markov_graph,
    {
        let ghost old_ws = pweights(old(self).particles@);
        let n = self.particles.len();
        proof {
            assert(forall|a: int| 0 <= a < old_ws.len() ==> 0 <= #[trigger] old_ws[a]);
            assert(forall|a: int|
                0 <= a < old_ws.len() ==> #[trigger] old_ws[a] <= crate::WEIGHT_MAX);
            lemma_cum_all(old_ws);
            lemma_sum_nonneg(old_ws);
            crate::utils::lemma_sum_upper(old_ws, crate::WEIGHT_MAX as int);
        }
        // First pass: the raw total.
        let mut total: i64 = 0;
        let mut j: usize = 0;
        while j < n
            invariant
                j <= n,
                n == self.particles@.len() == old_ws.len(),
                self.pop_wf(),
                pweights(self.particles@) == old_ws,
                total == cum_before(old_ws, j as int),
                0 <= total,
                sum_of(old_ws) <= 65_535_000_000_000_000,
            decreases n - j,
        {
            proof {
                lemma_sum_take_succ(old_ws, j as int);
                assert(forall|a: int| 0 <= a < old_ws.len() ==> 0 <= #[trigger] old_ws[a]);
                lemma_sum_nonneg_prefix(old_ws, j as int + 1);
                lemma_cum_monotone_bound(old_ws, j as int + 1);
            }
            total = total + self.particles[j].weight;
            j = j + 1;
        }
        proof {
            assert(old_ws.take(n as int) =~= old_ws);
        }
        if total == 0 {
            // Degenerate: reset to the even split and count the event.
            let base: i64 = WEIGHT_SCALE / (n as i64);
            let rem: i64 = WEIGHT_SCALE % (n as i64);
            proof {
                vstd::arithmetic::div_mod::lemma_mod_bound(WEIGHT_SCALE as int, n as int);
                assert(1 <= (WEIGHT_SCALE as int) / (n as int) <= WEIGHT_SCALE)
                    by (nonlinear_arith)
                    requires
                        1 <= n <= 65535,
                ;
            }
            let mut fresh: Vec<Particle> = Vec::new();
            let mut j: usize = 0;
            while j < n
                invariant
                    j <= n,
                    1 <= n <= 65535,
                    n == self.particles@.len(),
                    self.pop_wf(),
                    base == (WEIGHT_SCALE as int) / (n as int),
                    rem == (WEIGHT_SCALE as int) % (n as int),
                    0 <= rem < n,
                    0 < base <= WEIGHT_SCALE,
                    fresh@.len() == j,
                    forall|a: int|
                        0 <= a < j ==> {
                            let p = #[trigger] fresh@[a];
                            let q = self.particles@[a];
                            &&& p.pos == q.pos
                            &&& p.direction == q.direction
                            &&& p.heading == q.heading
                            &&& p.speed == q.speed
                            &&& p.context == q.context
                            &&& p.memory@ == q.memory@
                            &&& p.weight == seed_weight(n as int, a)
                            &&& p.wf()
                        },
                decreases n - j,
            {
                proof {
                    if rem > 0 {
                        assert(n >= 2);
                        assert((WEIGHT_SCALE as int) / (n as int) <= 500_000_000)
                            by (nonlinear_arith)
                            requires
                                2 <= n <= 65535,
                        ;
                    }
                }
                let weight: i64 = if (j as i64) < rem {
                    base + 1
                } else {
                    base
                };
                let mut p = self.particles[j].duplicate();
                p.weight = weight;
                fresh.push(p);
                j = j + 1;
            }
            proof {
                let ws = pweights(fresh@);
                assert(ws.len() == n);
                lemma_seed_weight_sum(ws, n as int, n as int);
                assert(ws.take(n as int) =~= ws);
                vstd::arithmetic::div_mod::lemma_fundamental_div_mod(
                    WEIGHT_SCALE as int,
                    n as int,
                );
                assert((n as int) * ((WEIGHT_SCALE as int) / (n as int)) == ((
                WEIGHT_SCALE as int) / (n as int)) * (n as int)) by (nonlinear_arith);
            }
            self.particles = fresh;
            if self.degeneracy_events < u64::MAX {
                self.degeneracy_events = self.degeneracy_events + 1;
            }
            true
        } else {
            // Non-degenerate: floor shares, deficit on the last particle.
            let mut fresh: Vec<Particle> = Vec::new();
            let mut acc: i64 = 0;
            let mut j: usize = 0;
            while j < n
                invariant
                    j <= n,
                    1 <= n <= 65535,
                    n == self.particles@.len() == old_ws.len(),
                    self.pop_wf(),
                    pweights(self.particles@) == old_ws,
                    forall|a: int| 0 <= a < old_ws.len() ==> 0 <= #[trigger] old_ws[a],
                    0 < total,
                    total == sum_of(old_ws),
                    fresh@.len() == j,
                    acc == sum_of(pweights(fresh@)),
                    0 <= acc <= WEIGHT_SCALE,
                    forall|a: int|
                        0 <= a < j ==> {
                            let p = #[trigger] fresh@[a];
                            let q = self.particles@[a];
                            &&& p.pos == q.pos
                            &&& p.direction == q.direction
                            &&& p.heading == q.heading
                            &&& p.speed == q.speed
                            &&& p.context == q.context
                            &&& p.memory@ == q.memory@
                            &&& p.weight == norm_w(q.weight as int, total as int)
                            &&& p.wf()
                        },
                decreases n - j,
            {
                let q = &self.particles[j];
                let w = q.weight;
                proof {
                    assert((w as int) * (WEIGHT_SCALE as int)
                        <= 1_000_000_000_000_000_000_000 && 0 <= (w as int) * (
                    WEIGHT_SCALE as int)) by (nonlinear_arith)
                        requires
                            0 <= w <= 1_000_000_000_000,
                    ;
                    // One weight never exceeds the total of all weights.
                    lemma_sum_take_succ(old_ws, j as int);
                    lemma_sum_nonneg_prefix(old_ws, j as int);
                    lemma_cum_monotone_bound(old_ws, j as int + 1);
                    assert(w <= total);
                    lemma_norm_w_bounds(w as int, total as int);
                }
                let nw: i64 = (((w as i128) * (WEIGHT_SCALE as i128)) / (total as i128))
                    as i64;
                let mut p = q.duplicate();
                p.weight = nw;
                proof {
                    let ghost prev = pweights(fresh@);
                    assert(pweights(fresh@.push(p)).drop_last() =~= prev);
                }
                fresh.push(p);
                proof {
                    // The running sum of floor shares stays within the scale.
                    lemma_norm_sum_le(
                        pweights(self.particles@),
                        pweights(fresh@),
                        total as int,
                        j as int + 1,
                    );
                    assert(pweights(fresh@).take(j as int + 1) =~= pweights(fresh@));
                    lemma_cum_monotone_bound(old_ws, j as int + 1);
                    assert((sum_of(old_ws.take(j as int + 1)) * (WEIGHT_SCALE as int))
                        / (total as int) <= WEIGHT_SCALE) by {
                        lemma_scaled_prefix_le(old_ws, j as int + 1, total as int);
                    }
                }
                acc = acc + nw;
                j = j + 1;
            }
            // Hand the rounding deficit to the last particle.
            let deficit: i64 = WEIGHT_SCALE - acc;
            let ghost fresh_before = fresh@;
            let mut last = match fresh.pop() {
                Some(p) => p,
                None => {
                    proof {
                        assert(false);
                    }
                    self.particles[0].duplicate()
                },
            };
            let ghost pre_pop = pweights(fresh_before);
            proof {
                assert(fresh@.push(last) =~= fresh_before);
                assert(pre_pop.drop_last() =~= pweights(fresh@));
                assert(sum_of(pre_pop) == acc);
                assert(sum_of(pweights(fresh@)) == acc - pre_pop.last());
                // The popped share is one summand of `acc`, so the new
                // weight stays within the scale.
                assert(forall|a: int|
                    0 <= a < pweights(fresh@).len() ==> 0 <= #[trigger] pweights(fresh@)[a]);
                lemma_sum_nonneg(pweights(fresh@));
                assert(0 <= last.weight <= acc);
            }
            last.weight = last.weight + deficit;
            fresh.push(last);
            proof {
                let ws2 = pweights(fresh@);
                assert(ws2.drop_last() =~= pre_pop.drop_last());
                assert(ws2.last() == pre_pop.last() + deficit);
                assert(sum_of(ws2) == sum_of(ws2.drop_last()) + ws2.last());
                assert(sum_of(ws2) == WEIGHT_SCALE);
            }
            self.particles = fresh;
            false
        }
    }
}

/// A prefix sum of non-negative values is at most the whole sum.
proof fn lemma_cum_monotone_bound(ws: Seq<i64>, k: int)
    requires
        0 <= k <= ws.len(),
        forall|a: int| 0 <= a < ws.len() ==> 0 <= #[trigger] ws[a],
    ensures
        sum_of(ws.take(k)) <= sum_of(ws),
{
    lemma_cum_monotone(ws, k, ws.len() as int);
    assert(ws.take(ws.len() as int) =~= ws);
}

/// A floor share of one weight out of a positive total stays within the
/// scale when the weight is at most the total; in general it stays within
/// the scale whenever the weight does not exceed the total, and is always
/// non-negative and bounded by the scaled weight.
proof fn lemma_norm_w_bounds(w: int, total: int)
    requires
        0 <= w,
        0 < total,
        w <= total,
    ensures
        0 <= norm_w(w, total) <= WEIGHT_SCALE,
{
    let scale = WEIGHT_SCALE as int;
    assert(w * scale >= 0 && w * scale <= total * scale) by (nonlinear_arith)
        requires
            0 <= w <= total,
            scale > 0,
    ;
    vstd::arithmetic::div_mod::lemma_div_pos_is_pos(w * scale, total);
    vstd::arithmetic::div_mod::lemma_div_is_ordered(w * scale, total * scale, total);
    assert((total * scale) / total == scale) by {
        vstd::arithmetic::div_mod::lemma_div_multiples_vanish(scale, total);
    }
}

/// The scaled prefix share never exceeds the full scale.
proof fn lemma_scaled_prefix_le(ws: Seq<i64>, k: int, total: int)
    requires
        0 <= k <= ws.len(),
        forall|a: int| 0 <= a < ws.len() ==> 0 <= #[trigger] ws[a],
        0 < total,
        total == sum_of(ws),
    ensures
        (sum_of(ws.take(k)) * (WEIGHT_SCALE as int)) / total <= WEIGHT_SCALE,
{
    lemma_cum_monotone_bound(ws, k);
    lemma_sum_nonneg_prefix(ws, k);
    lemma_norm_w_bounds(sum_of(ws.take(k)), total);
}

/// A population of `n` particles carrying the even split has weights
/// summing to exactly the weight scale.
proof fn lemma_resample_weight_sum(out: Seq<Particle>, n: int)
    requires
        out.len() == n,
        1 <= n,
        forall|a: int| 0 <= a < out.len() ==> (#[trigger] out[a]).weight == seed_weight(n, a),
    ensures
        sum_of(pweights(out)) == WEIGHT_SCALE,
{
    let ws = pweights(out);
    assert(forall|a: int| 0 <= a < ws.len() ==> ws[a] == seed_weight(n, a));
    lemma_seed_weight_sum(ws, n, n);
    assert(ws.take(n) =~= ws);
    vstd::arithmetic::div_mod::lemma_fundamental_div_mod(WEIGHT_SCALE as int, n);
    vstd::arithmetic::div_mod::lemma_mod_bound(WEIGHT_SCALE as int, n);
    assert(n * ((WEIGHT_SCALE as int) / n) == ((WEIGHT_SCALE as int) / n) * n)
        by (nonlinear_arith);
}

/// The first `k` shares of the even split sum to `k` floor shares plus
/// one extra tick for each of the first `min(k, WEIGHT_SCALE % n)` shares.
#[verifier::spinoff_prover]
proof fn lemma_seed_weight_sum(ws: Seq<i64>, n: int, k: int)
    requires
        1 <= n,
        0 <= k <= ws.len(),
        forall|a: int| 0 <= a < ws.len() ==> ws[a] == seed_weight(n, a),
    ensures
        sum_of(ws.take(k)) == k * ((WEIGHT_SCALE as int) / n) + if k <= (WEIGHT_SCALE as int)
            % n {
            k
        } else {
            (WEIGHT_SCALE as int) % n
        },
    decreases k,
{
    let b = (WEIGHT_SCALE as int) / n;
    let r = (WEIGHT_SCALE as int) % n;
    if k > 0 {
        lemma_seed_weight_sum(ws, n, k - 1);
        lemma_sum_take_succ(ws, k - 1);
        assert(ws[k - 1] == seed_weight(n, k - 1));
        assert((k - 1) * b + b == k * b) by (nonlinear_arith);
        if k - 1 < r {
            assert(seed_weight(n, k - 1) == b + 1);
            assert(sum_of(ws.take(k)) == (k - 1) * b + (k - 1) + b + 1);
        } else {
            assert(seed_weight(n, k - 1) == b);
            if k - 1 <= r {
                assert(sum_of(ws.take(k)) == (k - 1) * b + (k - 1) + b);
                assert(r == k - 1);
            } else {
                assert(sum_of(ws.take(k)) == (k - 1) * b + r + b);
            }
        }
    } else {
        assert(ws.take(0) =~= Seq::<i64>::empty());
    }
}

} // verus!
