//! The particles of the celebration that a first score gets.
//!
//! What a particle is drawn with and where it starts is picked by a pseudo-random number. This
//! module picks; each pick is a number in a small range, which the drawing scales to the screen.
use std::collections::hash_map::DefaultHasher;
use std::hash::Hasher;
use vstd::arithmetic::div_mod::{
    lemma_add_mod_noop, lemma_fundamental_div_mod, lemma_small_mod,
};
use vstd::prelude::*;
use vstd::std_specs::hash::DefaultHasherAdditionalSpecFns;

verus! {

/// How many steps the celebration takes.
pub const ANIMATION_TOTAL_FRAMES: usize = 20;

/// A colour of the terminal.
#[derive(Debug, Clone, Copy, PartialEq, Eq, Structural)]
pub enum Color {
    Red,
    Yellow,
    Green,
    Cyan,
    Magenta,
    Blue,
    White,
    Gray,
    LightYellow,
    LightGreen,
    LightCyan,
    LightBlue,
    LightMagenta,
}

/// What the celebration shows, by the grade of the score.
#[derive(Debug, Clone, Copy, PartialEq, Eq, Structural)]
pub enum AnimationKind {
    GrandFireworks,
    Fireworks,
    Confetti,
    Snow,
    Bubbles,
    ShootingStars,
}

impl AnimationKind {
    /// What the celebration of a score shows.
    pub open spec fn for_score(score: u8) -> AnimationKind {
        if 90 <= score <= 100 {
            AnimationKind::GrandFireworks
        } else if 80 <= score <= 89 {
            AnimationKind::Fireworks
        } else if 70 <= score <= 79 {
            AnimationKind::Confetti
        } else if 60 <= score <= 69 {
            AnimationKind::Snow
        } else if 50 <= score <= 59 {
            AnimationKind::Bubbles
        } else {
            AnimationKind::ShootingStars
        }
    }

    /// What the celebration of a score shows.
    pub fn from_score(score: u8) -> (res: Self)
        ensures
            res == Self::for_score(score),
    {
        match score {
            90..=100 => AnimationKind::GrandFireworks,
            80..=89 => AnimationKind::Fireworks,
            70..=79 => AnimationKind::Confetti,
            60..=69 => AnimationKind::Snow,
            50..=59 => AnimationKind::Bubbles,
            _ => AnimationKind::ShootingStars,
        }
    }
}

// ── Picking ──────────────────────────────────────────────────────────────────
/// The pseudo-random number at `i` for a seed.
pub open spec fn number_at(seed: u64, i: u64) -> u64 {
    ((seed * 6364136223846793005 + i * 1442695040888963407 + 1) % 0x1_0000_0000_0000_0000) as u64
}

/// The pseudo-random number at `i` for a seed.
pub fn lcg(seed: u64, i: u64) -> (res: u64)
    ensures
        res == number_at(seed, i),
{
    let a = seed.wrapping_mul(6364136223846793005);
    let b = i.wrapping_mul(1442695040888963407);
    let c = b.wrapping_add(1);
    let res = a.wrapping_add(c);
    proof {
        let m = 0x1_0000_0000_0000_0000int;
        let x = seed * 6364136223846793005int;
        let y = i * 1442695040888963407int;
        assert(a == x % m);
        assert(b == y % m);
        lemma_small_mod(1, m as nat);
        lemma_add_mod_noop(y, 1, m);
        assert(c == (b + 1) % m);
        assert(c == (y + 1) % m);
        lemma_add_mod_noop(x, y + 1, m);
        assert(res == (a + c) % m);
        assert(x + (y + 1) == seed * 6364136223846793005 + i * 1442695040888963407 + 1);
    }
    res
}

/// A particle of the fireworks: the centre that it bursts from, the angle and the speed of its
/// flight.
#[derive(Debug, Clone, Copy, PartialEq, Eq, Structural)]
pub struct Burst {
    /// Out of 255.
    pub center_x: u64,
    /// Out of 255.
    pub center_y: u64,
    /// Out of 255.
    pub angle: u64,
    /// Out of 63.
    pub speed: u64,
    pub ch: char,
    pub color: Color,
}

/// A particle that drifts: where it starts, and how it moves.
#[derive(Debug, Clone, Copy, PartialEq, Eq, Structural)]
pub struct Flake {
    /// Out of 255.
    pub x: u64,
    /// Out of 255 for a shooting star, else out of 63.
    pub y: u64,
    /// Out of 15 for a shooting star, else out of 255.
    pub dx: u64,
    /// Out of 15 for a shooting star, else out of 63.
    pub dy: u64,
    pub ch: char,
    pub color: Color,
}

pub const BURST_CHARS: [char; 8] = ['✦', '*', '·', '°', '+', '×', '✶', '✸'];

pub const BURST_COLORS: [Color; 8] = [
    Color::Red,
    Color::Yellow,
    Color::Green,
    Color::Cyan,
    Color::Magenta,
    Color::LightYellow,
    Color::LightGreen,
    Color::LightCyan,
];

pub const CONFETTI_CHARS: [char; 6] = ['*', '·', '✦', '°', '+', '×'];

pub const CONFETTI_COLORS: [Color; 6] = [
    Color::Red,
    Color::Yellow,
    Color::Magenta,
    Color::Cyan,
    Color::Green,
    Color::LightYellow,
];

pub const SNOW_CHARS: [char; 4] = ['·', '∘', '°', '❄'];

pub const SNOW_COLORS: [Color; 3] = [Color::White, Color::LightBlue, Color::Gray];

pub const BUBBLE_CHARS: [char; 4] = ['○', '◦', '·', '∘'];

pub const BUBBLE_COLORS: [Color; 4] = [
    Color::Cyan,
    Color::Blue,
    Color::LightGreen,
    Color::LightBlue,
];

pub const STAR_CHARS: [char; 4] = ['✦', '·', '*', '—'];

pub const STAR_COLORS: [Color; 3] = [Color::White, Color::Yellow, Color::LightCyan];

/// The particle at `j` of the burst at `center`.
pub open spec fn burst_at(seed: u64, center: nat, j: nat) -> Burst {
    let c = number_at(seed, center as u64);
    let s = number_at(seed, (center * 100 + j) as u64);
    Burst {
        center_x: c & 0xFF,
        center_y: (c >> 8) & 0xFF,
        angle: s & 0xFF,
        speed: (s >> 8) & 0x3F,
        ch: BURST_CHARS[((s >> 16) % 8) as int],
        color: BURST_COLORS[((s >> 24) % 8) as int],
    }
}

/// Fireworks: at each of the centres, one after another, a burst of particles.
pub open spec fn fireworks_of(seed: u64, centers: nat, per_center: nat) -> Seq<Burst>
    decreases centers,
{
    if centers == 0 {
        Seq::empty()
    } else {
        fireworks_of(seed, (centers - 1) as nat, per_center) + Seq::new(
            per_center,
            |j: int| burst_at(seed, (centers - 1) as nat, j as nat),
        )
    }
}

/// The drifting particle at `i`.
pub open spec fn flake_at(seed: u64, i: nat, chars: Seq<char>, colors: Seq<Color>) -> Flake {
    let s = number_at(seed, i as u64);
    Flake {
        x: s & 0xFF,
        y: (s >> 8) & 0x3F,
        dx: (s >> 32) & 0xFF,
        dy: (s >> 40) & 0x3F,
        ch: chars[((s >> 16) % chars.len() as u64) as int],
        color: colors[((s >> 24) % colors.len() as u64) as int],
    }
}

/// The shooting star at `i`.
pub open spec fn star_at(i: nat) -> Flake {
    let s = number_at(0x12345678, i as u64);
    Flake {
        x: s & 0xFF,
        y: (s >> 8) & 0xFF,
        dx: (s >> 32) & 0x0F,
        dy: (s >> 32) & 0x0F,
        ch: STAR_CHARS[((s >> 16) % 4) as int],
        color: STAR_COLORS[((s >> 24) % 3) as int],
    }
}

/// How many particles drift over a screen of that width: one for each `share` columns, and at
/// least `least`.
pub open spec fn flake_count(width: u16, share: nat, least: nat) -> nat {
    if width as nat / share >= least {
        width as nat / share
    } else {
        least
    }
}

/// The particles of the confetti.
pub open spec fn confetti_of(width: u16) -> Seq<Flake> {
    Seq::new(
        flake_count(width, 3, 10),
        |i: int| flake_at(0xCAFEBABE, i as nat, CONFETTI_CHARS@, CONFETTI_COLORS@),
    )
}

/// The particles of the snow.
pub open spec fn snow_of(width: u16) -> Seq<Flake> {
    Seq::new(
        flake_count(width, 3, 10),
        |i: int| flake_at(0xA1B2C3D4, i as nat, SNOW_CHARS@, SNOW_COLORS@),
    )
}

/// The bubbles.
pub open spec fn bubbles_of(width: u16) -> Seq<Flake> {
    Seq::new(
        flake_count(width, 4, 8),
        |i: int| flake_at(0xF0E1D2C3, i as nat, BUBBLE_CHARS@, BUBBLE_COLORS@),
    )
}

/// The shooting stars.
pub open spec fn stars() -> Seq<Flake> {
    Seq::new(25, |i: int| star_at(i as nat))
}

/// The seed of a score's fireworks.
pub open spec fn seed_of(score: u8) -> u64 {
    DefaultHasher::spec_finish(seq![seq![score]])
}

/// The seed of a score's fireworks: the score, hashed.
fn score_seed(score: u8) -> (res: u64)
    ensures
        res == seed_of(score),
{
    let mut hasher = DefaultHasher::new();
    let bytes: [u8; 1] = [score];
    hasher.write(bytes.as_slice());
    assert(bytes@ =~= seq![score]);
    assert(hasher@ =~= seq![seq![score]]);
    hasher.finish()
}

/// Picks the particles of fireworks with so many centres.
pub fn build_fireworks(seed: u64, centers: u32, per_center: u32) -> (res: Vec<Burst>)
    ensures
        res@ == fireworks_of(seed, centers as nat, per_center as nat),
{
    let mut out: Vec<Burst> = Vec::new();
    let mut ci: u32 = 0;
    while ci < centers
        invariant
            ci <= centers,
            out@ == fireworks_of(seed, ci as nat, per_center as nat),
        decreases centers - ci,
    {
        let c = lcg(seed, ci as u64);
        let ghost start = out@;
        let ghost all = Seq::new(
            per_center as nat,
            |j: int| burst_at(seed, ci as nat, j as nat),
        );
        let mut j: u32 = 0;
        assert(start + all.take(0) =~= start);
        while j < per_center
            invariant
                j <= per_center,
                c == number_at(seed, ci as u64),
                all == Seq::new(
                    per_center as nat,
                    |j: int| burst_at(seed, ci as nat, j as nat),
                ),
                out@ == start + all.take(j as int),
            decreases per_center - j,
        {
            let s = lcg(seed, ci as u64 * 100 + j as u64);
            out.push(
                Burst {
                    center_x: c & 0xFF,
                    center_y: (c >> 8) & 0xFF,
                    angle: s & 0xFF,
                    speed: (s >> 8) & 0x3F,
                    ch: BURST_CHARS[((s >> 16) % 8) as usize],
                    color: BURST_COLORS[((s >> 24) % 8) as usize],
                },
            );
            j += 1;
            assert(all[j - 1] == burst_at(seed, ci as nat, (j - 1) as nat));
            assert(out@ =~= start + all.take(j as int));
        }
        assert(all.take(j as int) =~= all);
        ci += 1;
    }
    out
}

/// Picks one of `n` places by a pseudo-random number.
fn pick(s: u64, n: usize) -> (res: usize)
    requires
        0 < n <= 100,
    ensures
        res == s % (n as u64),
        res < n,
{
    (s % (n as u64)) as usize
}

/// Picks the drifting particle at `i`.
fn make_flake(seed: u64, i: usize, chars: &[char], colors: &[Color]) -> (res: Flake)
    requires
        0 < chars@.len() <= 100,
        0 < colors@.len() <= 100,
    ensures
        res == flake_at(seed, i as nat, chars@, colors@),
{
    let s = lcg(seed, i as u64);
    Flake {
        x: s & 0xFF,
        y: (s >> 8) & 0x3F,
        dx: (s >> 32) & 0xFF,
        dy: (s >> 40) & 0x3F,
        ch: chars[pick(s >> 16, chars.len())],
        color: colors[pick(s >> 24, colors.len())],
    }
}

/// Picks so many drifting particles.
fn build_flakes(seed: u64, n: usize, chars: &[char], colors: &[Color]) -> (res: Vec<Flake>)
    requires
        0 < chars@.len() <= 100,
        0 < colors@.len() <= 100,
    ensures
        res@ == Seq::new(n as nat, |i: int| flake_at(seed, i as nat, chars@, colors@)),
{
    let mut out: Vec<Flake> = Vec::new();
    let mut i: usize = 0;
    while i < n
        invariant
            i <= n,
            0 < chars@.len() <= 100,
            0 < colors@.len() <= 100,
            out@ == Seq::new(i as nat, |i: int| flake_at(seed, i as nat, chars@, colors@)),
        decreases n - i,
    {
        out.push(make_flake(seed, i, chars, colors));
        i += 1;
        assert(out@ =~= Seq::new(i as nat, |i: int| flake_at(seed, i as nat, chars@, colors@)));
    }
    out
}

/// How many particles drift over a screen of that width.
fn count_flakes(width: u16, share: usize, least: usize) -> (res: usize)
    requires
        share > 0,
    ensures
        res == flake_count(width, share as nat, least as nat),
{
    let n: usize = width as usize / share;
    if n >= least {
        n
    } else {
        least
    }
}

/// Picks the particles of the confetti.
pub fn build_confetti(width: u16) -> (res: Vec<Flake>)
    ensures
        res@ == confetti_of(width),
{
    build_flakes(
        0xCAFEBABE,
        count_flakes(width, 3, 10),
        CONFETTI_CHARS.as_slice(),
        CONFETTI_COLORS.as_slice(),
    )
}

/// Picks the particles of the snow.
pub fn build_snow(width: u16) -> (res: Vec<Flake>)
    ensures
        res@ == snow_of(width),
{
    build_flakes(
        0xA1B2C3D4,
        count_flakes(width, 3, 10),
        SNOW_CHARS.as_slice(),
        SNOW_COLORS.as_slice(),
    )
}

/// Picks the bubbles.
pub fn build_bubbles(width: u16) -> (res: Vec<Flake>)
    ensures
        res@ == bubbles_of(width),
{
    build_flakes(
        0xF0E1D2C3,
        count_flakes(width, 4, 8),
        BUBBLE_CHARS.as_slice(),
        BUBBLE_COLORS.as_slice(),
    )
}

/// Picks the shooting stars.
pub fn build_shooting_stars() -> (res: Vec<Flake>)
    ensures
        res@ == stars(),
{
    let mut out: Vec<Flake> = Vec::new();
    let mut i: usize = 0;
    while i < 25
        invariant
            i <= 25,
            out@ == Seq::new(i as nat, |i: int| star_at(i as nat)),
        decreases 25 - i,
    {
        let s = lcg(0x12345678, i as u64);
        out.push(
            Flake {
                x: s & 0xFF,
                y: (s >> 8) & 0xFF,
                dx: (s >> 32) & 0x0F,
                dy: (s >> 32) & 0x0F,
                ch: STAR_CHARS[((s >> 16) % 4) as usize],
                color: STAR_COLORS[((s >> 24) % 3) as usize],
            },
        );
        i += 1;
        assert(out@ =~= Seq::new(i as nat, |i: int| star_at(i as nat)));
    }
    out
}

// ── The celebration ──────────────────────────────────────────────────────────
/// The particles of a celebration.
pub enum Particles {
    Bursts(Vec<Burst>),
    Flakes(Vec<Flake>),
}

/// A celebration in progress, on a screen of that size.
pub struct AnimationState {
    pub frame: usize,
    pub kind: AnimationKind,
    pub particles: Particles,
    pub width: u16,
    pub height: u16,
}

/// The particles are those of a score's celebration on a screen of that width.
pub open spec fn celebrates(particles: Particles, score: u8, width: u16) -> bool {
    match AnimationKind::for_score(score) {
        AnimationKind::GrandFireworks => particles is Bursts && particles->Bursts_0@
            == fireworks_of(seed_of(score), 8, 30),
        AnimationKind::Fireworks => particles is Bursts && particles->Bursts_0@ == fireworks_of(
            seed_of(score),
            5,
            20,
        ),
        AnimationKind::Confetti => particles is Flakes && particles->Flakes_0@ == confetti_of(
            width,
        ),
        AnimationKind::Snow => particles is Flakes && particles->Flakes_0@ == snow_of(width),
        AnimationKind::Bubbles => particles is Flakes && particles->Flakes_0@ == bubbles_of(width),
        AnimationKind::ShootingStars => particles is Flakes && particles->Flakes_0@ == stars(),
    }
}

impl AnimationState {
    /// This is the start of a score's celebration on a screen of that size.
    pub open spec fn starts(self, score: u8, width: u16, height: u16) -> bool {
        &&& self.frame == 0
        &&& self.kind == AnimationKind::for_score(score)
        &&& celebrates(self.particles, score, width)
        &&& self.width == width
        &&& self.height == height
    }

    /// The start of a score's celebration.
    pub fn new(score: u8, width: u16, height: u16) -> (res: Self)
        ensures
            res.starts(score, width, height),
    {
        let kind = AnimationKind::from_score(score);
        let particles = match kind {
            AnimationKind::GrandFireworks => Particles::Bursts(
                build_fireworks(score_seed(score), 8, 30),
            ),
            AnimationKind::Fireworks => Particles::Bursts(
                build_fireworks(score_seed(score), 5, 20),
            ),
            AnimationKind::Confetti => Particles::Flakes(build_confetti(width)),
            AnimationKind::Snow => Particles::Flakes(build_snow(width)),
            AnimationKind::Bubbles => Particles::Flakes(build_bubbles(width)),
            AnimationKind::ShootingStars => Particles::Flakes(build_shooting_stars()),
        };
        AnimationState { frame: 0, kind, particles, width, height }
    }

    /// The celebration one step on.
    pub open spec fn stepped(self) -> AnimationState {
        AnimationState { frame: (self.frame + 1) as usize, ..self }
    }

    /// The last step was taken.
    pub open spec fn is_over(self) -> bool {
        self.frame >= ANIMATION_TOTAL_FRAMES
    }

    /// Goes on by one step.
    pub fn advance(&mut self)
        requires
            old(self).frame < usize::MAX,
        ensures
            *final(self) == old(self).stepped(),
    {
        self.frame = self.frame + 1;
    }

    /// Whether the last step was taken.
    pub fn done(&self) -> (res: bool)
        ensures
            res == self.is_over(),
    {
        self.frame >= ANIMATION_TOTAL_FRAMES
    }
}

// ── Laws ─────────────────────────────────────────────────────────────────────
/// For one seed, two positions have the same number just where they are the same position.
pub proof fn law_numbers_differ(seed: u64, i: u64, j: u64)
    ensures
        (number_at(seed, i) == number_at(seed, j)) == (i == j),
        number_at(0, 0) == 1,
{
    let m = 0x1_0000_0000_0000_0000int;
    let x = seed * 6364136223846793005int;
    let a = x + i * 1442695040888963407int + 1;
    let b = x + j * 1442695040888963407int + 1;
    if number_at(seed, i) == number_at(seed, j) {
        assert(a % m == b % m);
        lemma_fundamental_div_mod(a, m);
        lemma_fundamental_div_mod(b, m);
        let k = a / m - b / m;
        let d = i - j;
        assert(d * 1442695040888963407 == m * k);
        // The multiplier is odd, so it has an inverse.
        assert(1442695040888963407int * 16613134689194145199 == 1 + m * 1299290917353797112);
        let n = k * 16613134689194145199 - d * 1299290917353797112;
        assert(d * (1442695040888963407int * 16613134689194145199) == m * k * 16613134689194145199)
            by (nonlinear_arith)
            requires
                d * 1442695040888963407 == m * k,
        ;
        assert(d == m * n) by (nonlinear_arith)
            requires
                d * (1442695040888963407int * 16613134689194145199) == m * k
                    * 16613134689194145199,
                1442695040888963407int * 16613134689194145199 == 1 + m * 1299290917353797112,
                n == k * 16613134689194145199 - d * 1299290917353797112,
        ;
        assert(n == 0) by (nonlinear_arith)
            requires
                d == m * n,
                -m < d < m,
                m > 0,
        ;
    }
}

/// What is picked for a particle of the fireworks is within its range.
pub proof fn law_bursts_are_in_range(seed: u64, center: nat, j: nat)
    ensures
        burst_at(seed, center, j).center_x <= 255,
        burst_at(seed, center, j).center_y <= 255,
        burst_at(seed, center, j).angle <= 255,
        burst_at(seed, center, j).speed <= 63,
{
    let c = number_at(seed, center as u64);
    let s = number_at(seed, (center * 100 + j) as u64);
    assert(c & 0xFF <= 255 && (c >> 8) & 0xFF <= 255) by (bit_vector);
    assert(s & 0xFF <= 255 && (s >> 8) & 0x3F <= 63) by (bit_vector);
}

/// What is picked for a drifting particle is within its range.
pub proof fn law_flakes_are_in_range(seed: u64, i: nat, chars: Seq<char>, colors: Seq<Color>)
    ensures
        flake_at(seed, i, chars, colors).x <= 255,
        flake_at(seed, i, chars, colors).y <= 63,
        flake_at(seed, i, chars, colors).dx <= 255,
        flake_at(seed, i, chars, colors).dy <= 63,
        star_at(i).x <= 255,
        star_at(i).y <= 255,
        star_at(i).dx <= 15,
        star_at(i).dy == star_at(i).dx,
{
    let s = number_at(seed, i as u64);
    assert(s & 0xFF <= 255 && (s >> 8) & 0x3F <= 63 && (s >> 32) & 0xFF <= 255 && (s >> 40) & 0x3F
        <= 63) by (bit_vector);
    let t = number_at(0x12345678, i as u64);
    assert(t & 0xFF <= 255 && (t >> 8) & 0xFF <= 255 && (t >> 32) & 0x0F <= 15) by (bit_vector);
}

/// Fireworks have as many particles at each of the centres.
pub proof fn law_fireworks_are_as_many(seed: u64, centers: nat, per_center: nat)
    ensures
        fireworks_of(seed, centers, per_center).len() == centers * per_center,
    decreases centers,
{
    if centers > 0 {
        law_fireworks_are_as_many(seed, (centers - 1) as nat, per_center);
        assert((centers - 1) * per_center + per_center == centers * per_center)
            by (nonlinear_arith);
    } else {
        assert(centers * per_center == 0) by (nonlinear_arith)
            requires
                centers == 0,
        ;
    }
}

/// A score from 90 to 100 is celebrated with grand fireworks, from 80 with fireworks, from 70 with
/// confetti, from 60 with snow, from 50 with bubbles, and any other with shooting stars.
pub proof fn law_kinds(score: u8)
    ensures
        90 <= score <= 100 ==> AnimationKind::for_score(score) == AnimationKind::GrandFireworks,
        80 <= score < 90 ==> AnimationKind::for_score(score) == AnimationKind::Fireworks,
        70 <= score < 80 ==> AnimationKind::for_score(score) == AnimationKind::Confetti,
        60 <= score < 70 ==> AnimationKind::for_score(score) == AnimationKind::Snow,
        50 <= score < 60 ==> AnimationKind::for_score(score) == AnimationKind::Bubbles,
        score < 50 || score > 100 ==> AnimationKind::for_score(score)
            == AnimationKind::ShootingStars,
{
}

/// The next number of a seed is the multiplier further on, and the next seed the other multiplier.
pub proof fn law_numbers_step(seed: u64, i: u64)
    ensures
        i < u64::MAX ==> number_at(seed, (i + 1) as u64) == (number_at(seed, i)
            + 1442695040888963407) % 0x1_0000_0000_0000_0000,
        seed < u64::MAX ==> number_at((seed + 1) as u64, i) == (number_at(seed, i)
            + 6364136223846793005) % 0x1_0000_0000_0000_0000,
{
    let m = 0x1_0000_0000_0000_0000int;
    let x = seed * 6364136223846793005 + i * 1442695040888963407 + 1;
    lemma_add_mod_noop(x, 1442695040888963407, m);
    lemma_add_mod_noop(x, 6364136223846793005, m);
    lemma_small_mod(1442695040888963407, m as nat);
    lemma_small_mod(6364136223846793005, m as nat);
    if i < u64::MAX {
        assert(seed * 6364136223846793005 + ((i + 1) as u64) * 1442695040888963407 + 1 == x
            + 1442695040888963407);
    }
    if seed < u64::MAX {
        assert(((seed + 1) as u64) * 6364136223846793005 + i * 1442695040888963407 + 1 == x
            + 6364136223846793005);
    }
}

/// A particle of the fireworks bursts from its centre, where the number of the centre puts it; its
/// own number gives its flight and its look.
pub proof fn law_bursts(seed: u64, center: nat, j: nat)
    ensures
        ({
            let c = number_at(seed, center as u64);
            let s = number_at(seed, (center * 100 + j) as u64);
            let b = burst_at(seed, center, j);
            let chars = seq!['✦', '*', '·', '°', '+', '×', '✶', '✸'];
            let colors = seq![
                Color::Red,
                Color::Yellow,
                Color::Green,
                Color::Cyan,
                Color::Magenta,
                Color::LightYellow,
                Color::LightGreen,
                Color::LightCyan,
            ];
            &&& b.center_x == c % 256
            &&& b.center_y == (c / 256) % 256
            &&& b.angle == s % 256
            &&& b.speed == (s / 256) % 64
            &&& b.ch == chars[((s / 65536) % 8) as int]
            &&& b.color == colors[((s / 16777216) % 8) as int]
        }),
{
    let c = number_at(seed, center as u64);
    let s = number_at(seed, (center * 100 + j) as u64);
    assert(c & 0xFF == c % 256 && (c >> 8) & 0xFF == (c / 256) % 256) by (bit_vector);
    assert(s & 0xFF == s % 256 && (s >> 8) & 0x3F == (s / 256) % 64) by (bit_vector);
    assert(s >> 16 == s / 65536 && s >> 24 == s / 16777216) by (bit_vector);
    assert(BURST_CHARS@ =~= seq!['✦', '*', '·', '°', '+', '×', '✶', '✸']);
    assert(BURST_COLORS@ =~= seq![
        Color::Red,
        Color::Yellow,
        Color::Green,
        Color::Cyan,
        Color::Magenta,
        Color::LightYellow,
        Color::LightGreen,
        Color::LightCyan,
    ]);
}

/// The particles of the fireworks are those of each centre, one centre after another.
pub proof fn law_fireworks(seed: u64, centers: nat, per_center: nat, i: nat, j: nat)
    requires
        i < centers,
        j < per_center,
    ensures
        fireworks_of(seed, centers, per_center)[(i * per_center + j) as int] == burst_at(
            seed,
            i,
            j,
        ),
    decreases centers,
{
    let before = (centers - 1) as nat;
    law_fireworks_are_as_many(seed, before, per_center);
    if i < before {
        law_fireworks(seed, before, per_center, i, j);
        assert(i * per_center + j < before * per_center) by (nonlinear_arith)
            requires
                i < before,
                j < per_center,
        ;
    } else {
        assert(i == before);
    }
}

/// A drifting particle is where its number puts it, and looks as it says.
pub proof fn law_flakes(seed: u64, i: nat, chars: Seq<char>, colors: Seq<Color>)
    requires
        0 < chars.len() <= u64::MAX,
        0 < colors.len() <= u64::MAX,
    ensures
        ({
            let s = number_at(seed, i as u64);
            let f = flake_at(seed, i, chars, colors);
            &&& f.x == s % 256
            &&& f.y == (s / 256) % 64
            &&& f.dx == (s / 0x1_0000_0000) % 256
            &&& f.dy == (s / 0x100_0000_0000) % 64
            &&& f.ch == chars[(s / 65536) as int % chars.len() as int]
            &&& f.color == colors[(s / 16777216) as int % colors.len() as int]
        }),
{
    let s = number_at(seed, i as u64);
    assert(s & 0xFF == s % 256 && (s >> 8) & 0x3F == (s / 256) % 64) by (bit_vector);
    assert((s >> 32) & 0xFF == (s / 0x1_0000_0000) % 256) by (bit_vector);
    assert((s >> 40) & 0x3F == (s / 0x100_0000_0000) % 64) by (bit_vector);
    assert(s >> 16 == s / 65536 && s >> 24 == s / 16777216) by (bit_vector);
}

/// Confetti, snow and bubbles are drifting particles of their own seeds, signs and colours, one
/// for each third or fourth column, and at least ten or eight.
pub proof fn law_drifts(width: u16, i: int)
    requires
        i >= 0,
    ensures
        confetti_of(width).len() == if width / 3 > 10 { width / 3 } else { 10 },
        snow_of(width).len() == confetti_of(width).len(),
        bubbles_of(width).len() == if width / 4 > 8 { width / 4 } else { 8 },
        i < confetti_of(width).len() ==> confetti_of(width)[i] == flake_at(
            0xCAFEBABE,
            i as nat,
            seq!['*', '·', '✦', '°', '+', '×'],
            seq![
                Color::Red,
                Color::Yellow,
                Color::Magenta,
                Color::Cyan,
                Color::Green,
                Color::LightYellow,
            ],
        ),
        i < snow_of(width).len() ==> snow_of(width)[i] == flake_at(
            0xA1B2C3D4,
            i as nat,
            seq!['·', '∘', '°', '❄'],
            seq![Color::White, Color::LightBlue, Color::Gray],
        ),
        i < bubbles_of(width).len() ==> bubbles_of(width)[i] == flake_at(
            0xF0E1D2C3,
            i as nat,
            seq!['○', '◦', '·', '∘'],
            seq![Color::Cyan, Color::Blue, Color::LightGreen, Color::LightBlue],
        ),
{
    assert(CONFETTI_CHARS@ =~= seq!['*', '·', '✦', '°', '+', '×']);
    assert(CONFETTI_COLORS@ =~= seq![
        Color::Red,
        Color::Yellow,
        Color::Magenta,
        Color::Cyan,
        Color::Green,
        Color::LightYellow,
    ]);
    assert(SNOW_CHARS@ =~= seq!['·', '∘', '°', '❄']);
    assert(SNOW_COLORS@ =~= seq![Color::White, Color::LightBlue, Color::Gray]);
    assert(BUBBLE_CHARS@ =~= seq!['○', '◦', '·', '∘']);
    assert(BUBBLE_COLORS@ =~= seq![
        Color::Cyan,
        Color::Blue,
        Color::LightGreen,
        Color::LightBlue,
    ]);
}

/// There are 25 shooting stars, each where its number puts it.
pub proof fn law_stars(i: int)
    requires
        0 <= i < 25,
    ensures
        stars().len() == 25,
        ({
            let s = number_at(0x12345678, i as u64);
            let f = stars()[i];
            &&& f.x == s % 256
            &&& f.y == (s / 256) % 256
            &&& f.dx == (s / 0x1_0000_0000) % 16
            &&& f.dy == (s / 0x1_0000_0000) % 16
            &&& f.ch == seq!['✦', '·', '*', '—'][((s / 65536) % 4) as int]
            &&& f.color == seq![Color::White, Color::Yellow, Color::LightCyan][((s / 16777216)
                % 3) as int]
        }),
{
    let s = number_at(0x12345678, i as u64);
    assert(s & 0xFF == s % 256 && (s >> 8) & 0xFF == (s / 256) % 256) by (bit_vector);
    assert((s >> 32) & 0x0F == (s / 0x1_0000_0000) % 16) by (bit_vector);
    assert(s >> 16 == s / 65536 && s >> 24 == s / 16777216) by (bit_vector);
    assert(STAR_CHARS@ =~= seq!['✦', '·', '*', '—']);
    assert(STAR_COLORS@ =~= seq![Color::White, Color::Yellow, Color::LightCyan]);
}

/// What a celebration is made of: grand fireworks of eight centres with 30 particles each,
/// fireworks of five with 20, or the drifting particles of its kind.
pub proof fn law_celebrations(particles: Particles, score: u8, width: u16)
    requires
        celebrates(particles, score, width),
    ensures
        score >= 80 && score <= 100 ==> particles is Bursts,
        90 <= score <= 100 ==> particles->Bursts_0@ == fireworks_of(seed_of(score), 8, 30),
        80 <= score < 90 ==> particles->Bursts_0@ == fireworks_of(seed_of(score), 5, 20),
        score < 80 || score > 100 ==> particles is Flakes,
        70 <= score < 80 ==> particles->Flakes_0@ == confetti_of(width),
        60 <= score < 70 ==> particles->Flakes_0@ == snow_of(width),
        50 <= score < 60 ==> particles->Flakes_0@ == bubbles_of(width),
        score < 50 || score > 100 ==> particles->Flakes_0@ == stars(),
{
}

/// The seed of a score's fireworks is the hash of the score as one byte.
pub proof fn law_seeds(score: u8)
    ensures
        seed_of(score) == DefaultHasher::spec_finish(seq![seq![score]]),
{
}

/// A celebration starts with its first step, in the manner of its score and as large as the screen.
pub proof fn law_celebrations_start(a: AnimationState, score: u8, width: u16, height: u16)
    requires
        a.starts(score, width, height),
    ensures
        a.frame == 0,
        a.kind == AnimationKind::for_score(score),
        celebrates(a.particles, score, width),
        a.width == width && a.height == height,
        !a.is_over(),
{
}

/// A step counts one and changes nothing else; the celebration is over after 20.
pub proof fn law_steps(a: AnimationState)
    requires
        a.frame < usize::MAX,
    ensures
        a.stepped().frame == a.frame + 1,
        (AnimationState { frame: a.frame, ..a.stepped() }) == a,
        a.is_over() == (a.frame >= 20),
{
}

} // verus!
