use vstd::prelude::*;

verus! {

/// The decimal digit `d`, for `d < 10`.
pub open spec fn digit_char(d: nat) -> char {
    if d == 0 {
        '0'
    } else if d == 1 {
        '1'
    } else if d == 2 {
        '2'
    } else if d == 3 {
        '3'
    } else if d == 4 {
        '4'
    } else if d == 5 {
        '5'
    } else if d == 6 {
        '6'
    } else if d == 7 {
        '7'
    } else if d == 8 {
        '8'
    } else {
        '9'
    }
}

/// `n` written in decimal, without leading zeros.
pub open spec fn decimal(n: nat) -> Seq<char>
    decreases n,
{
    if n < 10 {
        seq![digit_char(n)]
    } else {
        decimal(n / 10) + seq![digit_char(n % 10)]
    }
}

/// The name tried for suffix `n` when `dest` is taken: `dest_n`.
pub open spec fn candidate_spec(dest: Seq<char>, n: nat) -> Seq<char> {
    dest + seq!['_'] + decimal(n)
}

fn digit_str(d: u64) -> (r: &'static str)
    requires
        d < 10,
    ensures
        r@ == seq![digit_char(d as nat)],
{
    proof {
        reveal_strlit("0");
        reveal_strlit("1");
        reveal_strlit("2");
        reveal_strlit("3");
        reveal_strlit("4");
        reveal_strlit("5");
        reveal_strlit("6");
        reveal_strlit("7");
        reveal_strlit("8");
        reveal_strlit("9");
    }
    if d == 0 {
        "0"
    } else if d == 1 {
        "1"
    } else if d == 2 {
        "2"
    } else if d == 3 {
        "3"
    } else if d == 4 {
        "4"
    } else if d == 5 {
        "5"
    } else if d == 6 {
        "6"
    } else if d == 7 {
        "7"
    } else if d == 8 {
        "8"
    } else {
        "9"
    }
}

/// `n` written in decimal.
pub fn decimal_string(n: u64) -> (r: String)
    ensures
        r@ == decimal(n as nat),
    decreases n,
{
    if n < 10 {
        String::from_str(digit_str(n))
    } else {
        let mut r = decimal_string(n / 10);
        r.append(digit_str(n % 10));
        r
    }
}

/// The path tried for suffix `n` when `dest` is already taken.
pub fn candidate(dest: &str, n: u64) -> (r: String)
    ensures
        r@ == candidate_spec(dest@, n as nat),
{
    let mut r = String::from_str(dest);
    r.append("_");
    let d = decimal_string(n);
    r.append(d.as_str());
    proof {
        reveal_strlit("_");
    }
    r
}

/// Where the search for a free suffix stands.
#[derive(Debug, Clone, Copy, PartialEq, Eq, Structural)]
pub enum SearchPhase {
    /// Doubling the upper bound while the suffix there is taken.
    Growing,
    /// Halving the range between a taken and a free suffix.
    Narrowing,
    /// Every suffix that fits in 64 bits and was tried is taken.
    Exhausted,
}

/// The search for the smallest suffix `n >= 1` whose candidate name is free:
/// first doubling (1, 2, 4, ...) while the candidate is taken, then a binary
/// search between the last taken and the first free value. The caller asks
/// `next_probe`, checks whether that candidate exists, and reports it to
/// `observe`, until `result` gives the suffix.
#[derive(Debug, Clone, Copy, PartialEq, Eq, Structural)]
pub struct SuffixSearch {
    pub lo: u64,
    pub hi: u64,
    pub phase: SearchPhase,
}

impl SuffixSearch {
    pub open spec fn wf(self) -> bool {
        1 <= self.lo <= self.hi
    }

    pub open spec fn is_done(self) -> bool {
        self.phase == SearchPhase::Exhausted || (self.phase == SearchPhase::Narrowing && self.lo
            == self.hi)
    }

    /// The suffix whose candidate is checked next.
    pub open spec fn probe(self) -> u64 {
        if self.phase == SearchPhase::Growing {
            self.hi
        } else {
            (self.lo + (self.hi - self.lo) / 2) as u64
        }
    }

    /// The state after learning whether the candidate for `probe` exists.
    pub open spec fn step(self, exists: bool) -> SuffixSearch {
        if self.phase == SearchPhase::Growing {
            if !exists {
                SuffixSearch { phase: SearchPhase::Narrowing, ..self }
            } else if self.hi > u64::MAX / 2 {
                SuffixSearch { lo: self.hi, hi: self.hi, phase: SearchPhase::Exhausted }
            } else {
                SuffixSearch { lo: self.hi, hi: (2 * self.hi) as u64, phase: SearchPhase::Growing }
            }
        } else {
            let mid = self.probe();
            if exists {
                SuffixSearch { lo: (mid + 1) as u64, ..self }
            } else {
                SuffixSearch { hi: mid, ..self }
            }
        }
    }

    /// The suffix found, once the search is over and one was found.
    pub open spec fn found(self) -> Option<u64> {
        if self.phase == SearchPhase::Narrowing && self.lo == self.hi {
            Some(self.hi)
        } else {
            None
        }
    }

    /// A search that has checked nothing yet.
    pub fn new() -> (s: SuffixSearch)
        ensures
            s == (SuffixSearch { lo: 1, hi: 1, phase: SearchPhase::Growing }),
            s.wf(),
    {
        SuffixSearch { lo: 1, hi: 1, phase: SearchPhase::Growing }
    }

    /// The suffix to check next, or nothing once the search is over.
    pub fn next_probe(&self) -> (r: Option<u64>)
        requires
            self.wf(),
        ensures
            r is None <==> self.is_done(),
            r is Some ==> r->Some_0 == self.probe(),
    {
        match self.phase {
            SearchPhase::Exhausted => None,
            SearchPhase::Growing => Some(self.hi),
            SearchPhase::Narrowing => {
                if self.lo == self.hi {
                    None
                } else {
                    Some(self.lo + (self.hi - self.lo) / 2)
                }
            },
        }
    }

    /// Takes in whether the candidate for the current probe exists.
    pub fn observe(&mut self, exists: bool)
        requires
            old(self).wf(),
            !old(self).is_done(),
        ensures
            *final(self) == old(self).step(exists),
            final(self).wf(),
    {
        match self.phase {
            SearchPhase::Growing => {
                if !exists {
                    self.phase = SearchPhase::Narrowing;
                } else if self.hi > u64::MAX / 2 {
                    self.lo = self.hi;
                    self.phase = SearchPhase::Exhausted;
                } else {
                    self.lo = self.hi;
                    self.hi = 2 * self.hi;
                }
            },
            SearchPhase::Narrowing => {
                let mid = self.lo + (self.hi - self.lo) / 2;
                if exists {
                    self.lo = mid + 1;
                } else {
                    self.hi = mid;
                }
            },
            SearchPhase::Exhausted => {},
        }
    }

    /// The smallest free suffix, once the search has found it.
    pub fn result(&self) -> (r: Option<u64>)
        ensures
            r == self.found(),
    {
        if self.phase == SearchPhase::Narrowing && self.lo == self.hi {
            Some(self.hi)
        } else {
            None
        }
    }

    /// Decreases with every step.
    pub open spec fn measure(self) -> nat {
        if self.phase == SearchPhase::Growing {
            (2 * (u64::MAX as int) + 2 - self.hi) as nat
        } else if self.phase == SearchPhase::Narrowing {
            (self.hi - self.lo) as nat
        } else {
            0
        }
    }
}

/// The state in which the search ends when every check of suffix `n` answers
/// `taken(n)`.
pub open spec fn settle(s: SuffixSearch, taken: spec_fn(u64) -> bool) -> SuffixSearch
    decreases s.measure(),
{
    if !s.wf() || s.is_done() {
        s
    } else {
        settle(s.step(taken(s.probe())), taken)
    }
}

/// How many existence checks the search makes when every check of suffix `n`
/// answers `taken(n)`.
pub open spec fn probes(s: SuffixSearch, taken: spec_fn(u64) -> bool) -> nat
    decreases s.measure(),
{
    if !s.wf() || s.is_done() {
        0
    } else {
        1 + probes(s.step(taken(s.probe())), taken)
    }
}

/// What a search state knows when every check of suffix `n` answered
/// `taken(n)`.
pub open spec fn consistent(s: SuffixSearch, taken: spec_fn(u64) -> bool) -> bool {
    &&& s.wf()
    &&& s.phase == SearchPhase::Growing ==> (s.lo == 1 && s.hi == 1) || (s.hi == 2 * s.lo && taken(
        s.lo,
    ))
    &&& s.phase == SearchPhase::Narrowing ==> !taken(s.hi) && (s.lo == 1 || taken(
        (s.lo - 1) as u64,
    ) || taken(s.lo))
}

proof fn lemma_step_consistent(s: SuffixSearch, taken: spec_fn(u64) -> bool)
    requires
        consistent(s, taken),
        !s.is_done(),
    ensures
        consistent(s.step(taken(s.probe())), taken),
{
}

/// Whatever the checks answer, the search stops, and a suffix it finds is free
/// while the one below it is taken (or it is 1).
pub proof fn lemma_settle_free(s: SuffixSearch, taken: spec_fn(u64) -> bool)
    requires
        consistent(s, taken),
    ensures
        settle(s, taken).is_done(),
        consistent(settle(s, taken), taken),
        settle(s, taken).found() matches Some(n) ==> !taken(n) && (n == 1 || taken((n - 1) as u64)),
    decreases s.measure(),
{
    if !s.is_done() {
        lemma_step_consistent(s, taken);
        lemma_settle_free(s.step(taken(s.probe())), taken);
    }
}

/// The number of binary digits of `n` (none for zero).
pub open spec fn bits(n: nat) -> nat
    decreases n,
{
    if n == 0 {
        0
    } else {
        1 + bits(n / 2)
    }
}

proof fn lemma_bits_monotone(a: nat, b: nat)
    requires
        a <= b,
    ensures
        bits(a) <= bits(b),
    decreases b,
{
    if a > 0 {
        lemma_bits_monotone(a / 2, b / 2);
    }
}

proof fn lemma_bits_double(a: nat)
    requires
        a >= 1,
    ensures
        bits(2 * a) == bits(a) + 1,
{
    assert((2 * a) / 2 == a);
}

/// Narrowing a range of width `w` takes at most `bits(w)` checks.
proof fn lemma_narrowing_probes(s: SuffixSearch, taken: spec_fn(u64) -> bool)
    requires
        s.wf(),
        s.phase == SearchPhase::Narrowing,
    ensures
        probes(s, taken) <= bits((s.hi - s.lo) as nat),
    decreases s.measure(),
{
    if !s.is_done() {
        let t = s.step(taken(s.probe()));
        let w = (s.hi - s.lo) as nat;
        assert(t.hi - t.lo <= w / 2);
        lemma_narrowing_probes(t, taken);
        lemma_bits_monotone((t.hi - t.lo) as nat, w / 2);
    }
}

/// The suffixes `1..=k` are taken.
pub open spec fn first_taken(k: u64) -> spec_fn(u64) -> bool {
    |n: u64| 1 <= n <= k
}

proof fn lemma_growing_probes(s: SuffixSearch, k: u64)
    requires
        k < 0x8000_0000_0000_0000,
        consistent(s, first_taken(k)),
        s.phase == SearchPhase::Growing,
        s.hi <= 2 * k || s.hi == 1,
    ensures
        probes(s, first_taken(k)) + bits(s.hi as nat) <= 2 * bits(k as nat) + 2,
    decreases s.measure(),
{
    let taken = first_taken(k);
    let t = s.step(taken(s.probe()));
    if taken(s.hi) {
        assert(s.hi <= u64::MAX / 2);
        assert(t.phase == SearchPhase::Growing && t.hi == 2 * s.hi);
        lemma_growing_probes(t, k);
        lemma_bits_double(s.hi as nat);
    } else {
        lemma_narrowing_probes(t, taken);
        if s.hi != 1 {
            lemma_bits_double(s.lo as nat);
            lemma_bits_monotone(s.lo as nat, k as nat);
        }
    }
}

/// When the candidates with suffixes `1..=k` all exist, the search finds
/// `k + 1`, after at most `2 * bits(k) + 1` existence checks.
pub proof fn lemma_suffix_minimal(k: u64)
    requires
        k < 0x8000_0000_0000_0000,
    ensures
        settle(SuffixSearch { lo: 1, hi: 1, phase: SearchPhase::Growing }, first_taken(k)).found()
            == Some((k + 1) as u64),
        probes(SuffixSearch { lo: 1, hi: 1, phase: SearchPhase::Growing }, first_taken(k)) <= 2
            * bits(k as nat) + 1,
{
    let s = SuffixSearch { lo: 1, hi: 1, phase: SearchPhase::Growing };
    let taken = first_taken(k);
    lemma_settle_free(s, taken);
    let e = settle(s, taken);
    if e.phase == SearchPhase::Exhausted {
        lemma_settle_exhausted(s, k);
    }
    lemma_growing_probes(s, k);
}

proof fn lemma_settle_exhausted(s: SuffixSearch, k: u64)
    requires
        k < 0x8000_0000_0000_0000,
        consistent(s, first_taken(k)),
        s.phase != SearchPhase::Exhausted,
    ensures
        settle(s, first_taken(k)).phase != SearchPhase::Exhausted,
    decreases s.measure(),
{
    if !s.is_done() {
        let taken = first_taken(k);
        lemma_step_consistent(s, taken);
        lemma_settle_exhausted(s.step(taken(s.probe())), k);
    }
}

} // verus!
