//! Reproducible 128-bit pseudo-random numbers from a 32-bit seed.
use vstd::prelude::*;
use rand_mt::Mt19937GenRand64;

verus! {

#[verifier::external_type_specification]
#[verifier::external_body]
pub struct ExMt19937GenRand64(Mt19937GenRand64);

/// The seed whose numbers come from a fixed table.
pub const RESERVED_SEED: u32 = 123;

/// The fixed numbers handed out for the reserved seed.
pub open spec fn predefined_numbers() -> Seq<u128> {
    seq![
        261662301160200998434711212977610535782u128,
        285327960644938307249498422906269531911u128,
        129009325524088458058577578630147536946u128,
        115967627312741707558197445635197929852u128,
        45957672030687985500068449147571820879u128,
        238772663009064566585789025510449468605u128,
        308263689632298985436174833718279734924u128,
        298982410596069786254627646273326400800u128,
        2244176292867905328887424137926821699u128,
        34721296915894558738704206213893188420u128,
        227015355474010607175270930286589261011u128,
        308502710206809842135053894107204523487u128,
        146538376305465661599209369402222819461u128,
        159692021743413415074302850174068383568u128,
        103819174433678404361461488507139426080u128,
        164343202337136670407601407619427541712u128,
        217357595969365236955177552303353032768u128,
        326862821007517307943524611182174298689u128,
        303852181513843641619676160939741484549u128,
        147814125101532749435588302881764112760u128,
    ]
}

fn predefined_vec() -> (r: Vec<u128>)
    ensures
        r@ == predefined_numbers(),
{
    let r = vec![
        261662301160200998434711212977610535782u128,
        285327960644938307249498422906269531911u128,
        129009325524088458058577578630147536946u128,
        115967627312741707558197445635197929852u128,
        45957672030687985500068449147571820879u128,
        238772663009064566585789025510449468605u128,
        308263689632298985436174833718279734924u128,
        298982410596069786254627646273326400800u128,
        2244176292867905328887424137926821699u128,
        34721296915894558738704206213893188420u128,
        227015355474010607175270930286589261011u128,
        308502710206809842135053894107204523487u128,
        146538376305465661599209369402222819461u128,
        159692021743413415074302850174068383568u128,
        103819174433678404361461488507139426080u128,
        164343202337136670407601407619427541712u128,
        217357595969365236955177552303353032768u128,
        326862821007517307943524611182174298689u128,
        303852181513843641619676160939741484549u128,
        147814125101532749435588302881764112760u128,
    ];
    assert(r@ =~= predefined_numbers());
    r
}

/// The generator that `SeedableRng::seed_from_u64` makes from a seed.
pub uninterp spec fn mt64_seeded(seed: u64) -> Mt19937GenRand64;

/// What `Rng::gen::<u128>` returns on a generator, and the generator after it.
pub uninterp spec fn mt64_gen_u128(g: Mt19937GenRand64) -> (u128, Mt19937GenRand64);

/// The first `n` numbers that a generator hands out.
pub open spec fn mt64_stream(g: Mt19937GenRand64, n: nat) -> Seq<u128>
    decreases n,
{
    if n == 0 {
        Seq::empty()
    } else {
        seq![mt64_gen_u128(g).0].add(mt64_stream(mt64_gen_u128(g).1, (n - 1) as nat))
    }
}

proof fn lemma_stream_len(g: Mt19937GenRand64, n: nat)
    ensures
        mt64_stream(g, n).len() == n,
    decreases n,
{
    if n > 0 {
        lemma_stream_len(mt64_gen_u128(g).1, (n - 1) as nat);
    }
}

/// A shorter stream is a prefix of a longer one.
pub proof fn lemma_stream_prefix(g: Mt19937GenRand64, m: nat, n: nat)
    requires
        m <= n,
    ensures
        mt64_stream(g, n).take(m as int) == mt64_stream(g, m),
    decreases m,
{
    if m > 0 {
        let h = mt64_gen_u128(g).1;
        let x = mt64_gen_u128(g).0;
        lemma_stream_prefix(h, (m - 1) as nat, (n - 1) as nat);
        let a = mt64_stream(h, (n - 1) as nat);
        lemma_stream_len(h, (n - 1) as nat);
        assert(mt64_stream(g, n) == seq![x].add(a));
        assert(mt64_stream(g, m) == seq![x].add(mt64_stream(h, (m - 1) as nat)));
        assert(seq![x].add(a).take(m as int) =~= seq![x].add(a.take(m - 1)));
    } else {
        assert(mt64_stream(g, n).take(0) =~= mt64_stream(g, 0));
    }
}

proof fn lemma_stream_step(g: Mt19937GenRand64, n: nat)
    requires
        n > 0,
    ensures
        mt64_stream(g, n) == seq![mt64_gen_u128(g).0].add(mt64_stream(mt64_gen_u128(g).1, (n - 1) as nat)),
{
}

/// Relies on rand_core's `SeedableRng::seed_from_u64` for rand_mt's 64-bit
/// Mersenne Twister: a generator seeded from `seed`, the same for equal seeds.
#[verifier::external_body]
fn seeded_mt64(seed: u64) -> (r: Mt19937GenRand64)
    ensures
        r == mt64_seeded(seed),
{
    <Mt19937GenRand64 as rand::SeedableRng>::seed_from_u64(seed)
}

/// Relies on rand's `Rng::gen::<u128>`: the next number of the stream, made of
/// two 64-bit outputs of the generator; it depends on the generator's state alone.
#[verifier::external_body]
fn draw_u128(rng: &mut Mt19937GenRand64) -> (r: u128)
    ensures
        (r, *final(rng)) == mt64_gen_u128(*old(rng)),
{
    rand::Rng::gen::<u128>(rng)
}

/// `count` numbers: for the reserved seed and a count within the table, the
/// table's first `count` entries; otherwise the stream of a Mersenne Twister
/// seeded with `seed`.
pub fn generate_u128_random_numbers(seed: u32, random_numbers_count: u8) -> (r: Vec<u128>)
    ensures
        r@.len() == random_numbers_count,
        seed == RESERVED_SEED && random_numbers_count <= 20 ==> r@ == predefined_numbers().take(
            random_numbers_count as int,
        ),
        !(seed == RESERVED_SEED && random_numbers_count <= 20) ==> r@ == mt64_stream(
            mt64_seeded(seed as u64),
            random_numbers_count as nat,
        ),
{
    let count = random_numbers_count as usize;
    let mut result: Vec<u128> = Vec::new();
    if seed == RESERVED_SEED && count <= 20 {
        let table = predefined_vec();
        let mut i: usize = 0;
        while i < count
            invariant
                i <= count <= 20,
                table@ == predefined_numbers(),
                result@ == predefined_numbers().take(i as int),
            decreases count - i,
        {
            result.push(table[i]);
            assert(predefined_numbers().take(i + 1) =~= predefined_numbers().take(i as int).push(table@[i as int]));
            i = i + 1;
        }
    } else {
        let mut rng = seeded_mt64(seed as u64);
        let mut i: usize = 0;
        assert(result@.add(mt64_stream(rng, count as nat)) =~= mt64_stream(rng, count as nat));
        while i < count
            invariant
                i <= count,
                result@.len() == i,
                result@.add(mt64_stream(rng, (count - i) as nat)) == mt64_stream(
                    mt64_seeded(seed as u64),
                    count as nat,
                ),
            decreases count - i,
        {
            let ghost before = rng;
            proof {
                lemma_stream_step(before, (count - i) as nat);
            }
            let x = draw_u128(&mut rng);
            let ghost prev = result@;
            result.push(x);
            assert(prev.add(seq![x].add(mt64_stream(rng, (count - i - 1) as nat))) =~= result@.add(
                mt64_stream(rng, (count - i - 1) as nat),
            ));
            i = i + 1;
        }
        assert(result@.add(mt64_stream(rng, 0)) =~= result@);
    }
    result
}

} // verus!
