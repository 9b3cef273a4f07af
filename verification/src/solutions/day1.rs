//! Fuel counting: integer fuel per module weight, summed over the module
//! list, directly and with the fuel's own weight accounted for iteratively.

use vstd::prelude::*;

verus! {

use vstd::string::StrSliceExecFns;
use vstd::string::StringSliceAdditionalSpecFns;

/// Truncating division by three, as the machine computes it.
pub open spec fn div3(w: int) -> int {
    if w >= 0 {
        w / 3
    } else {
        -((-w) / 3)
    }
}

/// Fuel for one module: a third of its weight, rounded toward zero, less 2.
pub open spec fn spec_fuel(w: int) -> int {
    div3(w) - 2
}

/// Total direct fuel over a weight list.
pub open spec fn sum_fuel(s: Seq<i32>) -> int
    decreases s.len(),
{
    if s.len() == 0 {
        0
    } else {
        sum_fuel(s.drop_last()) + spec_fuel(s.last() as int)
    }
}

/// Iterated fuel for one weight: fuel, fuel of that fuel, and so on, while
/// the amounts stay positive.
pub open spec fn spec_total_fuel(w: int) -> int
    decreases (if w > 0 { w } else { 0 }),
{
    let f = spec_fuel(w);
    if f <= 0 {
        0
    } else {
        f + spec_total_fuel(f)
    }
}

/// Total iterated fuel over a weight list.
pub open spec fn sum_total_fuel(s: Seq<i32>) -> int
    decreases s.len(),
{
    if s.len() == 0 {
        0
    } else {
        sum_total_fuel(s.drop_last()) + spec_total_fuel(s.last() as int)
    }
}

/// Iterated fuel is never negative.
pub proof fn lemma_total_fuel_nonneg(w: int)
    ensures
        spec_total_fuel(w) >= 0,
    decreases (if w > 0 { w } else { 0 }),
{
    let f = spec_fuel(w);
    if f > 0 {
        lemma_total_fuel_nonneg(f);
    }
}

/// A prefix never needs more iterated fuel than the whole list.
pub proof fn lemma_sum_total_fuel_prefix(s: Seq<i32>, k: int)
    requires
        0 <= k <= s.len(),
    ensures
        sum_total_fuel(s.subrange(0, k)) <= sum_total_fuel(s),
    decreases s.len() - k,
{
    if k == s.len() {
        assert(s.subrange(0, k) =~= s);
    } else {
        lemma_sum_total_fuel_prefix(s, k + 1);
        assert(s.subrange(0, k + 1).drop_last() =~= s.subrange(0, k));
        assert(s.subrange(0, k + 1).last() == s[k]);
        lemma_total_fuel_nonneg(s[k] as int);
    }
}

/// The module weight list.
#[derive(Debug, PartialEq, Eq)]
pub struct Input(Vec<i32>);

impl View for Input {
    type V = Seq<i32>;

    closed spec fn view(&self) -> Seq<i32> {
        self.0@
    }
}

impl Input {
    /// Wrap a weight list.
    pub fn new(weights: Vec<i32>) -> (r: Input)
        ensures
            r@ == weights@,
    {
        Input(weights)
    }

    /// Parse the text form of a weight list: one base-10 integer per line,
    /// with no trailing newline.
    pub fn parse(s: &str) -> (r: Result<Input, crate::intcode::IntcodeError>)
        ensures
            match crate::intcode::program::spec_parse_tokens(s.spec_bytes(), 10) {
                Ok(weights) => r matches Ok(inp) && inp@ == weights,
                Err(e) => r matches Err(pe) && pe == e,
            },
    {
        let bytes = s.as_bytes_vec();
        let n = bytes.len();
        proof {
            assert(bytes@.subrange(0, n as int) =~= bytes@);
        }
        match crate::intcode::program::parse_words(&bytes, 0, n, 10) {
            Ok(weights) => Ok(Input(weights)),
            Err(e) => Err(e),
        }
    }
}

/// Fuel for one module weight.
fn get_fuel(x: &i32) -> (r: i32)
    ensures
        r == spec_fuel(*x as int),
{
    match (*x).checked_div(3) {
        Some(q) => q - 2,
        None => {
            proof {
                assert(false);
            }
            vstd::pervasive::unreached()
        },
    }
}

/// Total direct fuel for all modules.
pub fn part1(input: &Input) -> (r: i32)
    requires
        forall|k: int|
            0 <= k <= input@.len() ==> -0x8000_0000 <= sum_fuel(#[trigger] input@.subrange(0, k))
                < 0x8000_0000,
    ensures
        r == sum_fuel(input@),
{
    let n = input.0.len();
    let mut acc: i32 = 0;
    let mut i: usize = 0;
    while i < n
        invariant
            i <= n,
            n == input@.len(),
            acc == sum_fuel(input@.subrange(0, i as int)),
            forall|k: int|
                0 <= k <= input@.len() ==> -0x8000_0000 <= sum_fuel(
                    #[trigger] input@.subrange(0, k),
                ) < 0x8000_0000,
        decreases n - i,
    {
        let f = get_fuel(&input.0[i]);
        proof {
            assert(input@.subrange(0, i + 1).drop_last() =~= input@.subrange(0, i as int));
            assert(input@.subrange(0, i + 1).last() == input@[i as int]);
        }
        acc = acc + f;
        i = i + 1;
    }
    proof {
        assert(input@.subrange(0, n as int) =~= input@);
    }
    acc
}

/// Iterated fuel for one module weight.
fn iter_fuel(weight: &i32) -> (r: i32)
    requires
        spec_total_fuel(*weight as int) < 0x8000_0000,
    ensures
        r == spec_total_fuel(*weight as int),
{
    let mut acc: i32 = 0;
    let mut cur: i32 = *weight;
    proof {
        lemma_total_fuel_nonneg(cur as int);
    }
    while get_fuel(&cur) > 0
        invariant
            acc >= 0,
            acc + spec_total_fuel(cur as int) == spec_total_fuel(*weight as int),
            spec_total_fuel(*weight as int) < 0x8000_0000,
        decreases (if cur > 0 { cur as int } else { 0int }),
    {
        let f = get_fuel(&cur);
        proof {
            lemma_total_fuel_nonneg(f as int);
        }
        acc = acc + f;
        cur = f;
    }
    acc
}

/// Total iterated fuel for all modules.
pub fn part2(input: &Input) -> (r: i32)
    requires
        sum_total_fuel(input@) < 0x8000_0000,
    ensures
        r == sum_total_fuel(input@),
{
    let n = input.0.len();
    let mut acc: i32 = 0;
    let mut i: usize = 0;
    while i < n
        invariant
            i <= n,
            n == input@.len(),
            acc == sum_total_fuel(input@.subrange(0, i as int)),
            acc >= 0,
            sum_total_fuel(input@) < 0x8000_0000,
        decreases n - i,
    {
        proof {
            assert(input@.subrange(0, i + 1).drop_last() =~= input@.subrange(0, i as int));
            assert(input@.subrange(0, i + 1).last() == input@[i as int]);
            lemma_sum_total_fuel_prefix(input@, i + 1);
            lemma_total_fuel_nonneg(input@[i as int] as int);
            lemma_sum_total_fuel_prefix(input@, i as int);
        }
        let f = iter_fuel(&input.0[i]);
        acc = acc + f;
        i = i + 1;
    }
    proof {
        assert(input@.subrange(0, n as int) =~= input@);
    }
    acc
}

} // verus!
