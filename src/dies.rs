use rand::rngs::StdRng;
use rand::Rng;
use rand::SeedableRng;
use vstd::prelude::*;

verus! {

/// rand's seedable standard generator, carried as an opaque value.
#[verifier::external_type_specification]
#[verifier::external_body]
pub struct ExStdRng(rand::rngs::StdRng);

/// The number of doublings after which an exploding roll stops re-rolling:
/// a one rolled at that multiplier counts as its face value.
pub const MAX_EXPLOSIONS: u32 = 60;

/// The largest value a stress die can produce: a zero face (worth ten)
/// at the largest multiplier.
pub const MAX_STRESS: u64 = 11529215046068469760;

/// The source of randomness shared by every random step of the library.
/// A seed fixes the whole sequence of draws.
pub struct Dice {
    rng: StdRng,
}

impl Dice {
    /// A generator whose draws are fixed by `seed`.
    pub fn seeded(seed: u64) -> Dice {
        Dice { rng: seeded_rng(seed) }
    }

    /// Relies on rand's `Rng::gen_range` over `0..n`: a value below `n`
    /// (it panics on an empty range).
    #[verifier::external_body]
    pub(crate) fn below(&mut self, n: usize) -> (r: usize)
        requires
            n > 0,
        ensures
            r < n,
    {
        self.rng.gen_range(0..n)
    }

    /// Relies on rand's `Rng::gen_ratio`: true with chance
    /// `numerator / denominator`, certainly true when the two are equal and
    /// certainly false when `numerator` is zero (it panics when `denominator`
    /// is zero or below `numerator`).
    #[verifier::external_body]
    pub(crate) fn ratio(&mut self, numerator: u32, denominator: u32) -> (r: bool)
        requires
            0 < denominator,
            numerator <= denominator,
        ensures
            numerator == denominator ==> r,
            numerator == 0 ==> !r,
    {
        self.rng.gen_ratio(numerator, denominator)
    }
}

/// Relies on rand's `SeedableRng::seed_from_u64` for `StdRng`: a generator
/// determined by the seed.
#[verifier::external_body]
fn seeded_rng(seed: u64) -> StdRng {
    StdRng::seed_from_u64(seed)
}

/// The outcome of a stress die.
#[derive(Debug, Clone, Copy, PartialEq, Eq, Structural)]
pub enum StressDie {
    BOTCH,
    DIE(u64),
}

pub open spec fn pow2(k: nat) -> nat
    decreases k,
{
    if k == 0 {
        1
    } else {
        2 * pow2((k - 1) as nat)
    }
}

/// What a face is worth once it ends an explosion: a zero counts as ten.
pub open spec fn face_points(face: int) -> int {
    if face == 0 {
        10
    } else {
        face
    }
}

/// `v` is a value an explosion can end on once the multiplier is at least
/// `2^factor`: a face other than one at some multiplier `2^k`, or a one at the
/// largest multiplier.
pub open spec fn crit_outcome(v: int, factor: nat) -> bool {
    exists|face: int, k: nat|
        0 <= face < 10 && factor <= k <= MAX_EXPLOSIONS && (face != 1 || k == MAX_EXPLOSIONS)
            && v == face_points(face) * pow2(k)
}

/// The outcomes a stress die with `botch_dice` botch dice can produce.
pub open spec fn stress_outcome(r: StressDie, botch_dice: int) -> bool {
    match r {
        StressDie::BOTCH => botch_dice > 0,
        StressDie::DIE(v) => v == 0 || (2 <= v <= 9) || crit_outcome(v as int, 1),
    }
}

/// A stress die's value stays within `MAX_STRESS`.
pub open spec fn bounded_stress(r: StressDie) -> bool {
    match r {
        StressDie::BOTCH => true,
        StressDie::DIE(v) => v <= MAX_STRESS,
    }
}

proof fn lemma_pow2_monotone(a: nat, b: nat)
    requires
        a <= b,
    ensures
        pow2(a) <= pow2(b),
    decreases b - a,
{
    if a < b {
        lemma_pow2_monotone(a, (b - 1) as nat);
    }
}

proof fn lemma_pow2_60()
    ensures
        pow2(60) == 1152921504606846976,
{
    reveal_with_fuel(pow2, 61);
}

proof fn lemma_crit_bounded(v: int, factor: nat)
    requires
        crit_outcome(v, factor),
    ensures
        0 <= v <= MAX_STRESS,
{
    let (face, k) = choose|face: int, k: nat|
        0 <= face < 10 && factor <= k <= MAX_EXPLOSIONS && (face != 1 || k == MAX_EXPLOSIONS)
            && v == face_points(face) * pow2(k);
    lemma_pow2_monotone(k, MAX_EXPLOSIONS as nat);
    lemma_pow2_60();
    assert(face_points(face) * pow2(k) <= 10 * pow2(60)) by (nonlinear_arith)
        requires
            0 <= face_points(face) <= 10,
            pow2(k) <= pow2(60),
    ;
}

/// Faces a ten-sided die can show, at least one of them.
pub open spec fn faces_ok(faces: Seq<u8>) -> bool {
    faces.len() > 0 && forall|k: int| 0 <= k < faces.len() ==> #[trigger] faces[k] < 10
}

/// The explosion that reads `faces` from multiplier `2^factor` on: each one
/// doubles the multiplier, until a face other than one (or a one at the
/// largest multiplier) ends it at its points times the multiplier.
pub open spec fn crit_of(faces: Seq<u8>, factor: nat) -> StressDie
    decreases faces.len(),
{
    if faces.len() == 0 {
        StressDie::DIE(0)
    } else if faces[0] != 1 || factor >= MAX_EXPLOSIONS {
        StressDie::DIE((face_points(faces[0] as int) * pow2(factor)) as u64)
    } else {
        crit_of(faces.drop_first(), factor + 1)
    }
}

/// The botch check that reads up to `botch_dice` of `faces`: a botch when one
/// of them is a zero.
pub open spec fn botch_of(faces: Seq<u8>, botch_dice: int) -> StressDie {
    if exists|k: int| 0 <= k < botch_dice && k < faces.len() && #[trigger] faces[k] == 0 {
        StressDie::BOTCH
    } else {
        StressDie::DIE(0)
    }
}

/// The stress die that reads `faces`: a first zero calls the botch check on
/// the faces after it, a first one explodes on them, any other first face is
/// the roll itself.
pub open spec fn stress_of(faces: Seq<u8>, botch_dice: int) -> StressDie {
    if faces.len() == 0 || faces[0] == 0 {
        botch_of(faces.drop_first(), botch_dice)
    } else if faces[0] == 1 {
        crit_of(faces.drop_first(), 1)
    } else {
        StressDie::DIE(faces[0] as u64)
    }
}

/// An explosion that reads `k` ones and then a face `f` other than one is
/// worth the points of `f` times `2^(factor + k)`, as long as
/// `factor + k` stays within `MAX_EXPLOSIONS`.
pub proof fn lemma_explosion_value(faces: Seq<u8>, factor: nat, k: nat)
    requires
        k < faces.len(),
        forall|j: int| 0 <= j < k ==> #[trigger] faces[j] == 1,
        faces[k as int] != 1,
        factor + k <= MAX_EXPLOSIONS,
    ensures
        crit_of(faces, factor) == StressDie::DIE((face_points(faces[k as int] as int) * pow2(factor + k)) as u64),
    decreases k,
{
    if k > 0 {
        let rest = faces.drop_first();
        assert(faces[0] == 1);
        assert forall|j: int| 0 <= j < k - 1 implies #[trigger] rest[j] == 1 by {
            assert(rest[j] == faces[j + 1]);
        }
        assert(rest[k - 1] == faces[k as int]);
        lemma_explosion_value(rest, factor + 1, (k - 1) as nat);
        assert(factor + 1 + (k - 1) == factor + k);
    }
}

proof fn lemma_crit_of_outcome(faces: Seq<u8>, factor: nat)
    requires
        faces_ok(faces),
        factor <= MAX_EXPLOSIONS,
    ensures
        crit_of(faces, factor) is DIE,
        crit_of(faces, factor)->DIE_0 == 0 || crit_outcome(crit_of(faces, factor)->DIE_0 as int, factor),
    decreases faces.len(),
{
    if faces.len() == 1 && faces[0] == 1 && factor < MAX_EXPLOSIONS {
        assert(faces.drop_first().len() == 0);
    } else if faces[0] != 1 || factor >= MAX_EXPLOSIONS {
        let v = face_points(faces[0] as int) * pow2(factor);
        lemma_pow2_monotone(factor, MAX_EXPLOSIONS as nat);
        lemma_pow2_60();
        assert(v <= 10 * pow2(60)) by (nonlinear_arith)
            requires
                v == face_points(faces[0] as int) * pow2(factor),
                0 <= face_points(faces[0] as int) <= 10,
                pow2(factor) <= pow2(60),
        ;
        assert(0 <= v) by (nonlinear_arith)
            requires
                v == face_points(faces[0] as int) * pow2(factor),
                0 <= face_points(faces[0] as int),
        ;
        assert(crit_of(faces, factor)->DIE_0 as int == v);
        assert(0 <= faces[0] < 10);
    } else {
        let rest = faces.drop_first();
        assert(faces_ok(rest)) by {
            assert forall|k: int| 0 <= k < rest.len() implies #[trigger] rest[k] < 10 by {
                assert(rest[k] == faces[k + 1]);
            }
        }
        lemma_crit_of_outcome(rest, factor + 1);
        let v = crit_of(rest, factor + 1)->DIE_0 as int;
        if v != 0 {
        let (face, k) = choose|face: int, k: nat|
            0 <= face < 10 && factor + 1 <= k <= MAX_EXPLOSIONS && (face != 1 || k == MAX_EXPLOSIONS)
                && v == face_points(face) * pow2(k);
        assert(factor <= k);
        }
    }
}

/// One roll of a ten-sided die, a face from 0 to 9.
pub fn roll_die(dice: &mut Dice) -> (r: u8)
    ensures
        r < 10,
{
    dice.below(10) as u8
}

/// The result of a stress die whose faces were `faces`.
pub fn stress_from_faces(faces: &Vec<u8>, botch_die: u8) -> (r: StressDie)
    requires
        faces_ok(faces@),
    ensures
        r == stress_of(faces@, botch_die as int),
        stress_outcome(r, botch_die as int),
        bounded_stress(r),
{
    let ghost rest = faces@.drop_first();
    proof {
        assert forall|k: int| 0 <= k < rest.len() implies #[trigger] rest[k] < 10 by {
            assert(rest[k] == faces@[k + 1]);
        }
    }
    let first = faces[0];
    if first == 0 {
        assert(stress_of(faces@, botch_die as int) == botch_of(rest, botch_die as int));
        let mut k: usize = 1;
        while k < faces.len() && k <= botch_die as usize
            invariant
                1 <= k <= faces@.len(),
                rest == faces@.drop_first(),
                stress_of(faces@, botch_die as int) == botch_of(rest, botch_die as int),
                forall|j: int| 0 <= j < k - 1 ==> #[trigger] rest[j] != 0,
            decreases faces@.len() - k,
        {
            if faces[k] == 0 {
                assert(rest[k - 1] == 0);
                assert(botch_of(rest, botch_die as int) == StressDie::BOTCH);
                return StressDie::BOTCH;
            }
            assert(rest[k - 1] == faces@[k as int]);
            k = k + 1;
        }
        StressDie::DIE(0)
    } else if first == 1 {
        let mut tail: Vec<u8> = Vec::new();
        let mut k: usize = 1;
        while k < faces.len()
            invariant
                1 <= k <= faces@.len(),
                tail@ == faces@.subrange(1, k as int),
            decreases faces@.len() - k,
        {
            tail.push(faces[k]);
            k = k + 1;
            assert(tail@ =~= faces@.subrange(1, k as int));
        }
        assert(tail@ =~= rest);
        if tail.len() == 0 {
            return StressDie::DIE(0);
        }
        let r = crit_from_faces(&tail, 1);
        proof {
            lemma_crit_of_outcome(rest, 1);
        }
        r
    } else {
        StressDie::DIE(first as u64)
    }
}

/// The result of an explosion from multiplier `2^factor` whose faces were
/// `faces`.
pub fn crit_from_faces(faces: &Vec<u8>, factor: u32) -> (r: StressDie)
    requires
        faces_ok(faces@),
        factor <= MAX_EXPLOSIONS,
    ensures
        r == crit_of(faces@, factor as nat),
        r is DIE,
        r->DIE_0 == 0 || crit_outcome(r->DIE_0 as int, factor as nat),
        bounded_stress(r),
{
    proof {
        lemma_crit_of_outcome(faces@, factor as nat);
        if crit_of(faces@, factor as nat)->DIE_0 != 0 {
            lemma_crit_bounded(crit_of(faces@, factor as nat)->DIE_0 as int, factor as nat);
        }
        assert(faces@.subrange(0, faces@.len() as int) =~= faces@);
    }
    let mut k: usize = 0;
    let mut f: u32 = factor;
    let mut multiplier: u64 = 1;
    let mut j: u32 = 0;
    proof {
        lemma_pow2_60();
    }
    while j < factor
        invariant
            j <= factor <= MAX_EXPLOSIONS,
            multiplier == pow2(j as nat),
        decreases factor - j,
    {
        proof {
            lemma_pow2_monotone((j + 1) as nat, 60);
            lemma_pow2_60();
        }
        multiplier = multiplier * 2;
        j = j + 1;
    }
    while k < faces.len()
        invariant
            k < faces@.len(),
            faces_ok(faces@),
            factor <= f <= MAX_EXPLOSIONS,
            f == factor + k,
            multiplier == pow2(f as nat),
            crit_of(faces@, factor as nat) == crit_of(faces@.subrange(k as int, faces@.len() as int), f as nat),
        decreases faces@.len() - k,
    {
        let face = faces[k];
        let ghost suffix = faces@.subrange(k as int, faces@.len() as int);
        assert(suffix[0] == face);
        if face != 1 || f == MAX_EXPLOSIONS {
            let points: u64 = if face == 0 {
                10
            } else {
                face as u64
            };
            proof {
                lemma_pow2_monotone(f as nat, 60);
                lemma_pow2_60();
                assert(points * multiplier <= 10 * pow2(60)) by (nonlinear_arith)
                    requires
                        points <= 10,
                        multiplier <= pow2(60),
                ;
                assert(face_points(face as int) == points);
            }
            return StressDie::DIE(points * multiplier);
        }
        if k + 1 >= faces.len() {
            assert(suffix.drop_first().len() == 0);
            assert(crit_of(suffix.drop_first(), (f + 1) as nat) == StressDie::DIE(0));
            return StressDie::DIE(0);
        }
        proof {
            assert(suffix.drop_first() =~= faces@.subrange(k + 1, faces@.len() as int));
            lemma_pow2_monotone((f + 1) as nat, 60);
            lemma_pow2_60();
        }
        multiplier = multiplier * 2;
        f = f + 1;
        k = k + 1;
    }
    StressDie::DIE(0)
}

/// A stress die: a zero calls for `botch_die` botch dice, a one explodes, any
/// other face is the roll itself.
pub fn roll_stress_die(dice: &mut Dice, botch_die: u8) -> (r: StressDie)
    ensures
        exists|faces: Seq<u8>| faces_ok(faces) && r == #[trigger] stress_of(faces, botch_die as int),
        stress_outcome(r, botch_die as int),
        bounded_stress(r),
{
    let mut faces: Vec<u8> = Vec::new();
    let first = roll_die(dice);
    faces.push(first);
    if first == 0 {
        let mut i: u8 = 0;
        while i < botch_die
            invariant
                i <= botch_die,
                faces@.len() >= 1,
                forall|k: int| 0 <= k < faces@.len() ==> #[trigger] faces@[k] < 10,
            decreases botch_die - i,
        {
            let face = roll_die(dice);
            faces.push(face);
            if face == 0 {
                break;
            }
            i = i + 1;
        }
    } else if first == 1 {
        draw_explosion(dice, &mut faces, 1);
    }
    let r = stress_from_faces(&faces, botch_die);
    assert(faces_ok(faces@) && r == stress_of(faces@, botch_die as int));
    r
}

/// Draws the faces of an explosion from multiplier `2^factor` onto `faces`:
/// ones until a face other than one, or until the largest multiplier.
fn draw_explosion(dice: &mut Dice, faces: &mut Vec<u8>, factor: u32)
    requires
        factor <= MAX_EXPLOSIONS,
        forall|k: int| 0 <= k < old(faces)@.len() ==> #[trigger] old(faces)@[k] < 10,
    ensures
        final(faces)@.len() > old(faces)@.len(),
        forall|k: int| 0 <= k < final(faces)@.len() ==> #[trigger] final(faces)@[k] < 10,
{
    let mut f: u32 = factor;
    loop
        invariant_except_break
            factor <= f <= MAX_EXPLOSIONS,
            forall|k: int| 0 <= k < faces@.len() ==> #[trigger] faces@[k] < 10,
            faces@.len() >= old(faces)@.len(),
        ensures
            faces@.len() > old(faces)@.len(),
            forall|k: int| 0 <= k < faces@.len() ==> #[trigger] faces@[k] < 10,
        decreases MAX_EXPLOSIONS - f,
    {
        let face = roll_die(dice);
        faces.push(face);
        if face != 1 || f == MAX_EXPLOSIONS {
            break;
        }
        f = f + 1;
    }
}

/// An explosion that starts with multiplier `2^factor`: each further one
/// doubles the multiplier, a zero ends it at ten times the multiplier, and any
/// other face at that face times the multiplier.
pub fn roll_crit(dice: &mut Dice, factor: u32) -> (r: StressDie)
    requires
        factor <= MAX_EXPLOSIONS,
    ensures
        exists|faces: Seq<u8>| faces_ok(faces) && r == #[trigger] crit_of(faces, factor as nat),
        r is DIE,
        bounded_stress(r),
{
    let mut faces: Vec<u8> = Vec::new();
    draw_explosion(dice, &mut faces, factor);
    let r = crit_from_faces(&faces, factor);
    assert(faces_ok(faces@) && r == crit_of(faces@, factor as nat));
    r
}

} // verus!
