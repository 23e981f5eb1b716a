//! Spin configurations of an Ising model and their basis-state indices: spin
//! `i` is up (+1) exactly when bit `i` of the index is set.

use vstd::prelude::*;

verus! {

/// Whether bit `i` of `index` is set.
pub open spec fn bit_set(index: usize, i: usize) -> bool {
    (index >> i) & 1usize == 1usize
}

/// The spins of the basis state `index` on `num_spins` spins: +1 where the
/// bit is set, -1 elsewhere.
pub open spec fn spins_of_index(num_spins: nat, index: usize) -> Seq<i8> {
    Seq::new(num_spins, |i: int| if bit_set(index, i as usize) { 1i8 } else { -1i8 })
}

/// The basis-state index of the first `k` spins of `config`: bit `i` set
/// for each up spin `i`.
pub open spec fn index_of_spins(config: Seq<i8>, k: nat) -> usize
    decreases k,
{
    if k == 0 {
        0
    } else {
        let rest = index_of_spins(config, (k - 1) as nat);
        if config[k - 1] > 0 {
            rest | (1usize << ((k - 1) as usize))
        } else {
            rest
        }
    }
}

/// Every spin is +1 or -1.
pub open spec fn valid_spins(config: Seq<i8>) -> bool {
    forall|i: int| 0 <= i < config.len() ==> config[i] == 1 || config[i] == -1
}

proof fn lemma_set_bit(x: usize, m: usize, j: usize)
    requires
        m < usize::BITS,
        j < usize::BITS,
    ensures
        ((x | (1usize << m)) >> j) & 1usize == (if j == m { 1usize } else { (x >> j) & 1usize }),
{
    assert(((x | (1usize << m)) >> j) & 1usize == (if j == m { 1usize } else { (x >> j) & 1usize })) by (bit_vector)
        requires
            m < usize::BITS,
            j < usize::BITS,
    ;
}

proof fn lemma_zero_bits(j: usize)
    requires
        j < usize::BITS,
    ensures
        (0usize >> j) & 1usize == 0usize,
{
    assert((0usize >> j) & 1usize == 0usize) by (bit_vector);
}

proof fn lemma_index_bits(config: Seq<i8>, k: nat)
    requires
        k <= config.len(),
        k <= usize::BITS,
    ensures
        forall|j: usize| j < k ==> #[trigger] bit_set(index_of_spins(config, k), j) == (config[j as int] > 0),
        forall|j: usize| k <= j < usize::BITS ==> !#[trigger] bit_set(index_of_spins(config, k), j),
    decreases k,
{
    if k == 0 {
        assert forall|j: usize| j < usize::BITS implies !#[trigger] bit_set(index_of_spins(config, 0), j) by {
            lemma_zero_bits(j);
        }
    } else {
        let m = (k - 1) as nat;
        lemma_index_bits(config, m);
        let rest = index_of_spins(config, m);
        let x = index_of_spins(config, k);
        assert forall|j: usize| j < usize::BITS implies #[trigger] bit_set(x, j)
            == (if j < k { config[j as int] > 0 } else { false }) by {
            if config[m as int] > 0 {
                assert(x == rest | (1usize << (m as usize)));
                lemma_set_bit(rest, m as usize, j);
                if j != m {
                    assert(bit_set(x, j) == bit_set(rest, j));
                }
            } else {
                assert(x == rest);
                if j == m {
                    assert(!bit_set(rest, j));
                }
            }
        }
    }
}

/// Reading the index of a configuration back as spins gives the
/// configuration again.
pub proof fn lemma_spins_index_roundtrip(config: Seq<i8>)
    requires
        valid_spins(config),
        config.len() <= usize::BITS,
    ensures
        spins_of_index(config.len(), index_of_spins(config, config.len())) == config,
{
    lemma_index_bits(config, config.len());
    assert(spins_of_index(config.len(), index_of_spins(config, config.len())) =~= config);
}

/// The low `k` bits of `x`.
pub open spec fn low_bits(x: usize, k: usize) -> usize {
    if k >= usize::BITS { x } else { x & (((1usize << k) as usize) - 1usize) as usize }
}

proof fn lemma_low_bits_step(x: usize, k: usize)
    requires
        k < usize::BITS,
    ensures
        low_bits(x, (k + 1) as usize) == if (x >> k) & 1usize == 1usize {
            low_bits(x, k) | (1usize << k)
        } else {
            low_bits(x, k)
        },
{
    if k + 1 < usize::BITS {
        assert((x >> k) & 1usize == 1usize ==> (x & (((1usize << ((k + 1) as usize)) as usize) - 1usize) as usize)
            == ((x & (((1usize << k) as usize) - 1usize) as usize) | (1usize << k))) by (bit_vector)
            requires
                k + 1 < usize::BITS,
        ;
        assert((x >> k) & 1usize != 1usize ==> (x & (((1usize << ((k + 1) as usize)) as usize) - 1usize) as usize)
            == (x & (((1usize << k) as usize) - 1usize) as usize)) by (bit_vector)
            requires
                k + 1 < usize::BITS,
        ;
    } else {
        assert((x >> k) & 1usize == 1usize ==> x == ((x & (((1usize << k) as usize) - 1usize) as usize) | (1usize << k))) by (bit_vector)
            requires
                k + 1 == usize::BITS,
        ;
        assert((x >> k) & 1usize != 1usize ==> x == (x & (((1usize << k) as usize) - 1usize) as usize)) by (bit_vector)
            requires
                k + 1 == usize::BITS,
        ;
    }
}

proof fn lemma_index_of_spins_prefix(n: nat, index: usize, k: nat)
    requires
        k <= n,
        n <= usize::BITS,
    ensures
        index_of_spins(spins_of_index(n, index), k) == low_bits(index, k as usize),
    decreases k,
{
    if k == 0 {
        assert(index & (((1usize << 0usize) as usize) - 1usize) as usize == 0usize) by (bit_vector);
    } else {
        let m = (k - 1) as nat;
        lemma_index_of_spins_prefix(n, index, m);
        lemma_low_bits_step(index, m as usize);
    }
}

/// Reading the spins of a basis state back as an index gives the state
/// again, for every state of the register.
pub proof fn lemma_index_spins_roundtrip(num_spins: usize, index: usize)
    requires
        num_spins <= usize::BITS,
        num_spins < usize::BITS ==> index < (1usize << num_spins),
    ensures
        index_of_spins(spins_of_index(num_spins as nat, index), num_spins as nat) == index,
{
    lemma_index_of_spins_prefix(num_spins as nat, index, num_spins as nat);
    if num_spins < usize::BITS {
        assert(index < (1usize << num_spins) ==> index & (((1usize << num_spins) as usize) - 1usize) as usize == index) by (bit_vector)
            requires
                num_spins < usize::BITS,
        ;
    }
}

/// The spins of basis state `index` on `num_spins` spins.
pub fn index_to_config(num_spins: usize, index: usize) -> (config: Vec<i8>)
    requires
        num_spins <= usize::BITS,
    ensures
        config@ == spins_of_index(num_spins as nat, index),
{
    let mut config: Vec<i8> = Vec::new();
    let mut i: usize = 0;
    while i < num_spins
        invariant
            i <= num_spins,
            num_spins <= usize::BITS,
            config@ == spins_of_index(i as nat, index),
        decreases num_spins - i,
    {
        let spin: i8 = if (index >> i) & 1 == 1 { 1 } else { -1 };
        config.push(spin);
        assert(config@ =~= spins_of_index((i + 1) as nat, index));
        i = i + 1;
    }
    config
}

/// The basis-state index of a spin configuration: bit `i` set for each up
/// spin `i`.
pub fn config_to_index(config: &[i8]) -> (index: usize)
    requires
        config.len() <= usize::BITS,
    ensures
        index == index_of_spins(config@, config@.len()),
{
    let mut acc: usize = 0;
    let mut i: usize = 0;
    while i < config.len()
        invariant
            i <= config.len(),
            config.len() <= usize::BITS,
            acc == index_of_spins(config@, i as nat),
        decreases config.len() - i,
    {
        if config[i] > 0 {
            acc = acc | (1usize << i);
        }
        i = i + 1;
    }
    acc
}

} // verus!
