//! CPU sets stored as words of 64 bits, the layout shared with the policy.
use vstd::prelude::*;

verus! {

/// Bit `i` of word `w`.
pub open spec fn bit(w: u64, i: int) -> bool {
    (w >> (i as u64)) & 1u64 == 1u64
}

/// CPU `c` is set in the words.
pub open spec fn words_have(words: Seq<u64>, c: int) -> bool {
    0 <= c < words.len() * 64 && bit(words[c / 64], c % 64)
}

/// The CPUs set in the words.
pub open spec fn words_set(words: Seq<u64>) -> Set<int> {
    Set::new(|c: int| words_have(words, c))
}

proof fn lemma_bit_set(w: u64, b: u64, i: u64)
    requires
        b < 64,
        i < 64,
    ensures
        ((w | (1u64 << b)) >> i) & 1u64 == 1u64 <==> (i == b || (w >> i) & 1u64 == 1u64),
{
    assert(((w | (1u64 << b)) >> i) & 1u64 == 1u64 <==> (i == b || (w >> i) & 1u64 == 1u64))
        by (bit_vector)
        requires
            b < 64,
            i < 64,
    ;
}

proof fn lemma_bit_or(a: u64, b: u64, i: u64)
    requires
        i < 64,
    ensures
        ((a | b) >> i) & 1u64 == 1u64 <==> ((a >> i) & 1u64 == 1u64 || (b >> i) & 1u64 == 1u64),
{
    assert(((a | b) >> i) & 1u64 == 1u64 <==> ((a >> i) & 1u64 == 1u64 || (b >> i) & 1u64
        == 1u64)) by (bit_vector)
        requires
            i < 64,
    ;
}

proof fn lemma_bit_zero(i: u64)
    requires
        i < 64,
    ensures
        (0u64 >> i) & 1u64 != 1u64,
{
    assert((0u64 >> i) & 1u64 != 1u64) by (bit_vector)
        requires
            i < 64,
    ;
}

proof fn lemma_div_mod_unique(a: int, b: int)
    requires
        0 <= a,
        0 <= b,
        a / 64 == b / 64,
        a % 64 == b % 64,
    ensures
        a == b,
{
}

/// A set of CPU ids below `64 * words.len()`.
#[derive(Clone, Debug, PartialEq, Eq)]
pub struct Cpumask {
    pub words: Vec<u64>,
}

impl View for Cpumask {
    type V = Set<int>;

    open spec fn view(&self) -> Set<int> {
        words_set(self.words@)
    }
}

impl Cpumask {
    /// Number of CPU ids the mask can hold.
    pub open spec fn capacity(&self) -> int {
        self.words@.len() * 64int
    }

    /// An empty mask of `nr_words` words.
    pub fn new(nr_words: usize) -> (r: Self)
        ensures
            r.words@.len() == nr_words,
            r@ == Set::<int>::empty(),
    {
        let r = Cpumask { words: vec![0u64; nr_words] };
        assert forall|c: int| !words_have(r.words@, c) by {
            if 0 <= c < r.words@.len() * 64 {
                lemma_bit_zero((c % 64) as u64);
            }
        }
        assert(r@ =~= Set::<int>::empty());
        r
    }

    /// Whether `cpu` is in the set.
    pub fn test_cpu(&self, cpu: usize) -> (r: bool)
        ensures
            r == self@.contains(cpu as int),
    {
        if cpu / 64 >= self.words.len() {
            return false;
        }
        ((self.words[cpu / 64] >> ((cpu % 64) as u64)) & 1u64) == 1u64
    }

    /// Adds `cpu` to the set.
    pub fn set_cpu(&mut self, cpu: usize)
        requires
            (cpu as int) < old(self).capacity(),
        ensures
            final(self).words@.len() == old(self).words@.len(),
            final(self)@ == old(self)@.insert(cpu as int),
    {
        let ghost before = self.words@;
        let w = cpu / 64;
        let b = (cpu % 64) as u64;
        let nw = self.words[w] | (1u64 << b);
        self.words.set(w, nw);
        assert forall|c: int| #[trigger] words_have(self.words@, c) <==> (words_have(before, c)
            || c == cpu) by {
            if 0 <= c < before.len() * 64 {
                if c / 64 == w as int {
                    lemma_bit_set(before[w as int], b, (c % 64) as u64);
                    if c % 64 == b as int {
                        lemma_div_mod_unique(c, cpu as int);
                    }
                }
            }
            if c == cpu {
                lemma_bit_set(before[w as int], b, b);
            }
        }
        assert(self@ =~= words_set(before).insert(cpu as int));
    }

    /// The union of two masks of the same width.
    pub fn or(&self, other: &Cpumask) -> (r: Cpumask)
        requires
            self.words@.len() == other.words@.len(),
        ensures
            r.words@.len() == self.words@.len(),
            r@ == self@.union(other@),
    {
        let mut words: Vec<u64> = Vec::new();
        let mut i: usize = 0;
        while i < self.words.len()
            invariant
                i <= self.words@.len(),
                self.words@.len() == other.words@.len(),
                words@.len() == i,
                forall|j: int| 0 <= j < i ==> words@[j] == self.words@[j] | other.words@[j],
            decreases self.words.len() - i,
        {
            words.push(self.words[i] | other.words[i]);
            i = i + 1;
        }
        let r = Cpumask { words };
        assert forall|c: int| words_have(r.words@, c) <==> (words_have(self.words@, c)
            || words_have(other.words@, c)) by {
            if 0 <= c < r.words@.len() * 64 {
                lemma_bit_or(self.words@[c / 64], other.words@[c / 64], (c % 64) as u64);
            }
        }
        assert(r@ =~= self@.union(other@));
        r
    }

    /// The underlying words.
    pub fn as_raw_slice(&self) -> (r: &[u64])
        ensures
            r@ == self.words@,
    {
        self.words.as_slice()
    }
}

} // verus!
