//! Detection of tokens that look like secrets: long enough, and with a
//! Shannon entropy of more than 4.5 bits per character.
//!
//! The entropy of a token of `n` characters, in which the character at
//! place `i` occurs `k_i` times, is `H = (1/n) * sum of log2(n / k_i)` over
//! the places. So `H > 9/2` holds exactly when the sum of `log2(n^2 / k_i^2)`
//! exceeds `9 * n`, that is, when the product of `n^2` over the places
//! exceeds the product of `512 * k_i^2`. Both products are natural numbers,
//! and the test compares them exactly.

use crate::bignat::BigNat;
use crate::scaled::{Scaled, EXPONENT_LIMIT};
use std::collections::HashMap;
use vstd::arithmetic::power::{lemma_pow0, lemma_pow1, lemma_pow_adds, pow};
use vstd::multiset::Multiset;
use vstd::prelude::*;
use vstd::seq_lib::to_multiset_build;
use vstd::slice::slice_subrange;
use vstd::std_specs::hash::*;
use vstd::utf8::char_u32_cast;

verus! {

/// Tokens with fewer characters are never reported.
pub const MIN_TOKEN_CHARS: usize = 8;

/// Tokens with fewer characters cannot reach the threshold: the entropy of
/// 22 characters is at most `log2(22)`, which is below 4.5.
pub const MIN_ENTROPY_CHARS: usize = 23;

/// Whether `char::is_whitespace` holds of `c`: whether `c` has the Unicode
/// property White_Space.
pub uninterp spec fn is_whitespace(c: char) -> bool;

/// Where the run of characters without whitespace ends that place `i`
/// belongs to: at the next whitespace at or behind `i`, or at the end of the
/// text.
pub open spec fn word_end(text: Seq<char>, i: int) -> int
    decreases text.len() - i,
{
    if i < 0 || i >= text.len() || is_whitespace(text[i]) {
        i
    } else {
        word_end(text, i + 1)
    }
}

/// The end of a run lies within the text, behind the place asked from where
/// that place holds no whitespace; there is no whitespace before it, and
/// whitespace or the end of the text at it.
pub proof fn word_end_bounds(text: Seq<char>, i: int)
    requires
        0 <= i <= text.len(),
    ensures
        i <= word_end(text, i) <= text.len(),
        i < text.len() && !is_whitespace(text[i]) ==> i < word_end(text, i),
        forall|j: int| i <= j < word_end(text, i) ==> !is_whitespace(#[trigger] text[j]),
        word_end(text, i) < text.len() ==> is_whitespace(text[word_end(text, i)]),
    decreases text.len() - i,
{
    if i < text.len() && !is_whitespace(text[i]) {
        word_end_bounds(text, i + 1);
    }
}

/// The tokens of `text` from place `i` on: the maximal runs of characters
/// that are not whitespace, from left to right.
pub open spec fn tokens_from(text: Seq<char>, i: int) -> Seq<Seq<char>>
    decreases text.len() - i,
{
    if i < 0 || i >= text.len() {
        Seq::empty()
    } else if is_whitespace(text[i]) {
        tokens_from(text, i + 1)
    } else {
        proof {
            word_end_bounds(text, i);
        }
        seq![text.subrange(i, word_end(text, i))] + tokens_from(text, word_end(text, i))
    }
}

/// The tokens of `text`: what stands between runs of whitespace.
pub open spec fn tokens(text: Seq<char>) -> Seq<Seq<char>> {
    tokens_from(text, 0)
}

/// The share of one place in the weight of a token: 512 times the square of
/// the number of times its character occurs. 512 is two to the power of
/// twice the threshold.
pub open spec fn place_weight(occurrences: nat) -> nat {
    512 * occurrences * occurrences
}

/// The product of the weights of the places of `s`, where `counts` says how
/// often each character occurs.
pub open spec fn weight_over(s: Seq<char>, counts: Multiset<char>) -> nat
    decreases s.len(),
{
    if s.len() == 0 {
        1
    } else {
        weight_over(s.drop_last(), counts) * place_weight(counts.count(s.last()))
    }
}

/// The product of `512 * k_i^2` over the places of the token.
pub open spec fn weight(token: Seq<char>) -> nat {
    weight_over(token, token.to_multiset())
}

/// The product of `n^2` over the places of the token: `n` to the power
/// `2 * n`.
pub open spec fn spread(token: Seq<char>) -> nat {
    pow((token.len() * token.len()) as int, token.len()) as nat
}

/// Whether the token's entropy exceeds 4.5 bits per character.
pub open spec fn entropy_above_threshold(token: Seq<char>) -> bool {
    spread(token) > weight(token)
}

/// Whether the token is reported: it has eight characters or more, and its
/// entropy exceeds the threshold.
pub open spec fn is_suspicious(token: Seq<char>) -> bool {
    token.len() >= MIN_TOKEN_CHARS && entropy_above_threshold(token)
}

/// The tokens of `text` that are reported, in their order in the text; a
/// token that stands twice is reported twice.
pub open spec fn secrets(text: Seq<char>) -> Seq<Seq<char>> {
    tokens(text).filter(|token: Seq<char>| is_suspicious(token))
}

/// Calls `char::is_whitespace`.
#[verifier::external_body]
fn is_space(c: char) -> (r: bool)
    ensures
        r == is_whitespace(c),
{
    c.is_whitespace()
}

/// Calls `String::push`, which appends one character.
#[verifier::external_body]
fn push_char(text: &mut String, c: char)
    ensures
        final(text)@ == old(text)@.push(c),
{
    text.push(c)
}

fn chars_of(text: &str) -> (chars: Vec<char>)
    ensures
        chars@ == text@,
{
    let mut chars: Vec<char> = Vec::new();
    for c in it: text.chars()
        invariant
            chars@ == it.seq().take(it.index()),
            it.seq() == text@,
    {
        chars.push(c);
    }
    chars
}

fn string_of(chars: &[char]) -> (text: String)
    ensures
        text@ == chars@,
{
    let mut text = String::new();
    let mut i: usize = 0;
    while i < chars.len()
        invariant
            i <= chars@.len(),
            text@ == chars@.take(i as int),
        decreases chars@.len() - i,
    {
        push_char(&mut text, chars[i]);
        assert(chars@.take(i + 1) =~= chars@.take(i as int).push(chars@[i as int]));
        i += 1;
    }
    assert(chars@.take(i as int) =~= chars@);
    text
}

/// How often `c` occurs, going by a table of counts: a character without an
/// entry does not occur.
pub open spec fn counted(table: Map<u32, usize>, c: char) -> nat {
    if table.contains_key(c as u32) {
        table[c as u32] as nat
    } else {
        0
    }
}

/// Whether the table holds, for every character, how often it occurs in `s`.
pub open spec fn counts_match(table: Map<u32, usize>, s: Seq<char>) -> bool {
    forall|c: char| #[trigger] counted(table, c) == s.to_multiset().count(c)
}

/// Counts how often each character occurs in `token`.
fn count_characters(token: &[char]) -> (table: HashMap<u32, usize>)
    ensures
        counts_match(table@, token@),
{
    broadcast use group_hash_axioms;

    let mut table: HashMap<u32, usize> = HashMap::new();
    let mut i: usize = 0;
    proof {
        assert(token@.take(0) =~= Seq::<char>::empty());
        token@.take(0).to_multiset_ensures();
    }
    while i < token.len()
        invariant
            i <= token@.len(),
            counts_match(table@, token@.take(i as int)),
            forall|key: u32| table@.contains_key(key) ==> #[trigger] table@[key] <= i,
        decreases token@.len() - i,
    {
        let c = token[i];
        let key = c as u32;
        let ghost before = table@;
        let seen: usize = match table.get(&key) {
            Some(k) => *k,
            None => 0,
        };
        table.insert(key, seen + 1);
        proof {
            let shorter = token@.take(i as int);
            assert(token@.take(i + 1) =~= shorter.push(c));
            to_multiset_build(shorter, c);
            assert forall|d: char| #[trigger]
                counted(table@, d) == token@.take(i + 1).to_multiset().count(d) by {
                assert(counted(before, d) == shorter.to_multiset().count(d));
                if d == c {
                    assert(counted(before, c) == seen);
                } else {
                    char_u32_cast(d, d as u32);
                    char_u32_cast(c, key);
                    assert(d as u32 != key);
                }
            }
        }
        i += 1;
    }
    assert(token@.take(i as int) =~= token@);
    table
}

/// Looks up how often `c` occurs.
fn occurrences(table: &HashMap<u32, usize>, c: char) -> (k: usize)
    ensures
        k == counted(table@, c),
{
    broadcast use group_hash_axioms;

    match table.get(&(c as u32)) {
        Some(k) => *k,
        None => 0,
    }
}

proof fn pow_next(b: int, e: nat)
    ensures
        pow(b, e + 1) == pow(b, e) * b,
{
    lemma_pow_adds(b, e, 1);
    lemma_pow1(b);
}

/// Compares the two products in full.
fn decide_exactly(token: &[char], table: &HashMap<u32, usize>) -> (r: bool)
    requires
        counts_match(table@, token@),
    ensures
        r == entropy_above_threshold(token@),
{
    let n = token.len();
    let mut lhs = BigNat::one();
    let mut rhs = BigNat::one();
    let ghost counts = token@.to_multiset();
    let ghost base = (n * n) as int;
    proof {
        lemma_pow0(base);
        assert(token@.take(0) =~= Seq::<char>::empty());
    }
    let mut i: usize = 0;
    while i < n
        invariant
            i <= n,
            n == token@.len(),
            counts == token@.to_multiset(),
            counts_match(table@, token@),
            base == n * n,
            lhs.wf(),
            rhs.wf(),
            lhs.value() == pow(base, i as nat),
            rhs.value() == weight_over(token@.take(i as int), counts),
        decreases n - i,
    {
        let k = occurrences(table, token[i]);
        let ghost l0 = lhs.value() as int;
        let ghost r0 = rhs.value() as int;
        lhs.mul_small(n as u64);
        lhs.mul_small(n as u64);
        rhs.mul_small(512);
        rhs.mul_small(k as u64);
        rhs.mul_small(k as u64);
        proof {
            pow_next(base, i as nat);
            assert(l0 * n * n == l0 * (n * n)) by (nonlinear_arith);
            assert(token@.take(i + 1).drop_last() =~= token@.take(i as int));
            assert(counted(table@, token@[i as int]) == counts.count(token@[i as int]));
            assert(r0 * 512 * k * k == r0 * (512 * k * k)) by (nonlinear_arith);
        }
        i += 1;
    }
    assert(token@.take(n as int) =~= token@);
    lhs.exceeds(&rhs)
}

/// Follows the two products with bounds from below and from above, and
/// returns what the bounds say of the comparison: nothing where they
/// overlap, or where an exponent runs out of room on the way.
fn decide_by_bounds(token: &[char], table: &HashMap<u32, usize>) -> (r: Option<bool>)
    requires
        counts_match(table@, token@),
    ensures
        r == decision_by_bounds(token@),
        r matches Some(above) ==> above == entropy_above_threshold(token@),
{
    let n = token.len();
    let mut lhs_low = Scaled::one();
    let mut lhs_high = Scaled::one();
    let mut rhs_low = Scaled::one();
    let mut rhs_high = Scaled::one();
    let ghost counts = token@.to_multiset();
    let ghost base = (n * n) as int;
    proof {
        lemma_pow0(base);
        assert(token@.take(0) =~= Seq::<char>::empty());
    }
    let mut i: usize = 0;
    while i < n
        invariant
            i <= n,
            n == token@.len(),
            counts == token@.to_multiset(),
            counts_match(table@, token@),
            base == n * n,
            lhs_low.value() <= pow(base, i as nat) <= lhs_high.value(),
            rhs_low.value() <= weight_over(token@.take(i as int), counts) <= rhs_high.value(),
            bounds_after(token@, i as nat) == Some(
                ProductBounds {
                    spread_low: lhs_low,
                    spread_high: lhs_high,
                    weight_low: rhs_low,
                    weight_high: rhs_high,
                },
            ),
        decreases n - i,
    {
        // Each bound is multiplied up to three times below, and each
        // multiplication raises its exponent by up to 65.
        let room = EXPONENT_LIMIT - 130;
        if lhs_low.exponent > room || lhs_high.exponent > room || rhs_low.exponent > room
            || rhs_high.exponent > room {
            proof {
                assert(bounds_after(token@, (i + 1) as nat) is None);
                bounds_stay_undecided(token@, (i + 1) as nat, n as nat);
            }
            return None;
        }
        let k = occurrences(table, token[i]);
        let ghost l = pow(base, i as nat);
        let ghost w = weight_over(token@.take(i as int), counts) as int;
        let ghost (a0, b0, c0, d0) = (
            lhs_low.value() as int,
            lhs_high.value() as int,
            rhs_low.value() as int,
            rhs_high.value() as int,
        );
        let a1 = lhs_low.times_down(n as u64);
        let a2 = a1.times_down(n as u64);
        let b1 = lhs_high.times_up(n as u64);
        let b2 = b1.times_up(n as u64);
        let c1 = rhs_low.times_down(512);
        let c2 = c1.times_down(k as u64);
        let c3 = c2.times_down(k as u64);
        let d1 = rhs_high.times_up(512);
        let d2 = d1.times_up(k as u64);
        let d3 = d2.times_up(k as u64);
        proof {
            pow_next(base, i as nat);
            assert(token@.take(i + 1).drop_last() =~= token@.take(i as int));
            assert(counted(table@, token@[i as int]) == counts.count(token@[i as int]));
            let (a1v, a2v) = (a1.value() as int, a2.value() as int);
            let (b1v, b2v) = (b1.value() as int, b2.value() as int);
            let (c1v, c2v, c3v) = (c1.value() as int, c2.value() as int, c3.value() as int);
            let (d1v, d2v, d3v) = (d1.value() as int, d2.value() as int, d3.value() as int);
            assert(a2v <= l * (n * n)) by (nonlinear_arith)
                requires
                    0 <= a0 <= l,
                    a1v <= a0 * n,
                    a2v <= a1v * n,
                    0 <= a1v,
                    0 <= n,
            ;
            assert(b2v >= l * (n * n)) by (nonlinear_arith)
                requires
                    0 <= l <= b0,
                    b1v >= b0 * n,
                    b2v >= b1v * n,
                    0 <= n,
            ;
            assert(c3v <= w * (512 * k * k)) by (nonlinear_arith)
                requires
                    0 <= c0 <= w,
                    c1v <= c0 * 512,
                    c2v <= c1v * k,
                    c3v <= c2v * k,
                    0 <= c1v,
                    0 <= c2v,
                    0 <= k,
            ;
            assert(d3v >= w * (512 * k * k)) by (nonlinear_arith)
                requires
                    0 <= w <= d0,
                    d1v >= d0 * 512,
                    d2v >= d1v * k,
                    d3v >= d2v * k,
                    0 <= k,
            ;
        }
        lhs_low = a2;
        lhs_high = b2;
        rhs_low = c3;
        rhs_high = d3;
        i += 1;
    }
    assert(token@.take(n as int) =~= token@);
    if lhs_low.exceeds(&rhs_high) {
        Some(true)
    } else if !lhs_high.exceeds(&rhs_low) {
        Some(false)
    } else {
        None
    }
}

/// Bounds on the two products that are compared: `spread` lies between the
/// first two, `weight` between the last two.
pub struct ProductBounds {
    pub spread_low: Scaled,
    pub spread_high: Scaled,
    pub weight_low: Scaled,
    pub weight_high: Scaled,
}

impl ProductBounds {
    /// Whether every bound can take the multiplications of one more place:
    /// up to three, each raising the exponent by up to 65.
    pub open spec fn has_room(self) -> bool {
        &&& self.spread_low.exponent <= EXPONENT_LIMIT - 130
        &&& self.spread_high.exponent <= EXPONENT_LIMIT - 130
        &&& self.weight_low.exponent <= EXPONENT_LIMIT - 130
        &&& self.weight_high.exponent <= EXPONENT_LIMIT - 130
    }

    /// The bounds after one more place of a token of `n` characters, whose
    /// character occurs `k` times: the bounds on `spread` are multiplied by
    /// `n` twice, those on `weight` by 512 and by `k` twice, the lower ones
    /// rounded down and the upper ones rounded up.
    pub open spec fn with_place(self, n: u64, k: u64) -> ProductBounds {
        ProductBounds {
            spread_low: self.spread_low.floor_product(n).floor_product(n),
            spread_high: self.spread_high.ceil_product(n).ceil_product(n),
            weight_low: self.weight_low.floor_product(512).floor_product(k).floor_product(k),
            weight_high: self.weight_high.ceil_product(512).ceil_product(k).ceil_product(k),
        }
    }

    /// What the bounds say of the comparison: `spread` is the greater where
    /// its lower bound exceeds the upper bound of `weight`; it is not where
    /// its upper bound does not exceed the lower bound of `weight`; else the
    /// bounds overlap and say nothing.
    pub open spec fn verdict(self) -> Option<bool> {
        if self.spread_low.value() > self.weight_high.value() {
            Some(true)
        } else if !(self.spread_high.value() > self.weight_low.value()) {
            Some(false)
        } else {
            None
        }
    }
}

/// The bounds after the first `i` places of the token, starting from one on
/// all sides; `None` where an exponent ran out of room on the way.
pub open spec fn bounds_after(token: Seq<char>, i: nat) -> Option<ProductBounds>
    decreases i,
{
    if i == 0 {
        Some(
            ProductBounds {
                spread_low: Scaled { mantissa: 1, exponent: 0 },
                spread_high: Scaled { mantissa: 1, exponent: 0 },
                weight_low: Scaled { mantissa: 1, exponent: 0 },
                weight_high: Scaled { mantissa: 1, exponent: 0 },
            },
        )
    } else {
        match bounds_after(token, (i - 1) as nat) {
            Some(bounds) if bounds.has_room() => Some(
                bounds.with_place(
                    token.len() as u64,
                    token.to_multiset().count(token[i - 1]) as u64,
                ),
            ),
            _ => None,
        }
    }
}

/// What the bounds over all places of the token say of the comparison.
pub open spec fn decision_by_bounds(token: Seq<char>) -> Option<bool> {
    match bounds_after(token, token.len()) {
        Some(bounds) => bounds.verdict(),
        None => None,
    }
}

/// Bounds that ran out of room stay so for every longer prefix.
proof fn bounds_stay_undecided(token: Seq<char>, i: nat, j: nat)
    requires
        i <= j,
        bounds_after(token, i) is None,
    ensures
        bounds_after(token, j) is None,
    decreases j,
{
    if i < j {
        bounds_stay_undecided(token, i, (j - 1) as nat);
    }
}

/// Decides whether the entropy of `token` exceeds 4.5 bits per character.
///
/// The answer is exact. It is read off bounds on the two products where
/// they suffice, and off the products themselves where they do not.
pub fn entropy_exceeds_threshold(token: &[char]) -> (r: bool)
    ensures
        r == entropy_above_threshold(token@),
{
    if token.len() < MIN_ENTROPY_CHARS {
        proof {
            entropy_needs_length(token@);
        }
        return false;
    }
    let table = count_characters(token);
    match decide_by_bounds(token, &table) {
        Some(above) => above,
        None => decide_exactly(token, &table),
    }
}

proof fn filter_of_one(token: Seq<char>, pred: spec_fn(Seq<char>) -> bool)
    ensures
        seq![token].filter(pred) == if pred(token) {
            seq![token]
        } else {
            Seq::<Seq<char>>::empty()
        },
{
    reveal_with_fuel(Seq::filter, 2);
    assert(seq![token].drop_last() =~= Seq::<Seq<char>>::empty());
    assert(seq![token].last() == token);
    assert(Seq::<Seq<char>>::empty().push(token) =~= seq![token]);
}

/// Reports the tokens of `text` that look like secrets.
///
/// The text is split at whitespace. A token is reported when it has eight
/// characters or more and its entropy exceeds 4.5 bits per character.
/// Reported tokens stand in the order of the text, repeated ones repeatedly.
pub fn scan_entropy_fast(text: &str) -> (found: Vec<String>)
    ensures
        found.deep_view() == secrets(text@),
{
    let chars = chars_of(text);
    let n = chars.len();
    let mut found: Vec<String> = Vec::new();
    let ghost pred = |token: Seq<char>| is_suspicious(token);
    let mut i: usize = 0;
    while i < n
        invariant
            i <= n,
            n == chars@.len(),
            chars@ == text@,
            pred == |token: Seq<char>| is_suspicious(token),
            found.deep_view() + tokens_from(text@, i as int).filter(pred) == secrets(text@),
        decreases n - i,
    {
        if is_space(chars[i]) {
            i += 1;
        } else {
            let mut end: usize = i + 1;
            while end < n && !is_space(chars[end])
                invariant
                    i < end <= n,
                    n == chars@.len(),
                    chars@ == text@,
                    word_end(text@, end as int) == word_end(text@, i as int),
                decreases n - end,
            {
                end += 1;
            }
            let token = slice_subrange(chars.as_slice(), i, end);
            let ghost rest = tokens_from(text@, end as int);
            let ghost before = found.deep_view();
            proof {
                Seq::filter_distributes_over_add(seq![token@], rest, pred);
                filter_of_one(token@, pred);
            }
            if end - i >= MIN_TOKEN_CHARS && entropy_exceeds_threshold(token) {
                found.push(string_of(token));
                assert(found.deep_view() =~= before.push(token@));
                assert(before.push(token@) + rest.filter(pred) =~= before + (seq![token@]
                    + rest.filter(pred)));
            }
            i = end;
        }
    }
    assert(tokens_from(text@, n as int).filter(pred) =~= Seq::<Seq<char>>::empty());
    assert(found.deep_view() + Seq::<Seq<char>>::empty() =~= found.deep_view());
    found
}

/// Taking one place out of a sequence divides its weight by that place's
/// share.
proof fn weight_without(s: Seq<char>, k: int, counts: Multiset<char>)
    requires
        0 <= k < s.len(),
    ensures
        weight_over(s, counts) == weight_over(s.remove(k), counts) * place_weight(
            counts.count(s[k]),
        ),
    decreases s.len(),
{
    if k == s.len() - 1 {
        assert(s.remove(k) =~= s.drop_last());
    } else {
        weight_without(s.drop_last(), k, counts);
        assert(s.remove(k).drop_last() =~= s.drop_last().remove(k));
        assert(s.remove(k).last() == s.last());
        let w = weight_over(s.drop_last().remove(k), counts);
        let x = place_weight(counts.count(s[k]));
        let y = place_weight(counts.count(s.last()));
        assert(w * x * y == w * y * x) by (nonlinear_arith);
    }
}

/// Two sequences with the same characters, each as often as in the other,
/// have the same weight.
proof fn weight_of_rearranged(a: Seq<char>, b: Seq<char>, counts: Multiset<char>)
    requires
        a.to_multiset() == b.to_multiset(),
    ensures
        weight_over(a, counts) == weight_over(b, counts),
    decreases a.len(),
{
    a.to_multiset_ensures();
    b.to_multiset_ensures();
    if a.len() == 0 {
        assert(b =~= Seq::<char>::empty());
        assert(a =~= b);
    } else {
        let x = a.last();
        let front = a.drop_last();
        assert(a =~= front.push(x));
        front.to_multiset_ensures();
        assert(a.to_multiset().count(x) > 0);
        assert(b.to_multiset().count(x) > 0);
        assert(b.contains(x));
        let k = choose|k: int| 0 <= k < b.len() && b[k] == x;
        assert(b.remove(k).to_multiset() =~= front.to_multiset());
        weight_of_rearranged(front, b.remove(k), counts);
        weight_without(b, k, counts);
    }
}

/// The entropy test looks at how often each character occurs and at
/// nothing else: rearranging the characters of a token changes neither of
/// the two numbers that are compared, and so not the outcome.
pub proof fn entropy_ignores_order(a: Seq<char>, b: Seq<char>)
    requires
        a.to_multiset() == b.to_multiset(),
    ensures
        a.len() == b.len(),
        spread(a) == spread(b),
        weight(a) == weight(b),
        entropy_above_threshold(a) == entropy_above_threshold(b),
        is_suspicious(a) == is_suspicious(b),
{
    a.to_multiset_ensures();
    b.to_multiset_ensures();
    weight_of_rearranged(a, b, a.to_multiset());
}

/// What a filter keeps stood in the sequence and meets the condition.
proof fn kept_is_member(s: Seq<Seq<char>>, pred: spec_fn(Seq<char>) -> bool, x: Seq<char>)
    requires
        s.filter(pred).contains(x),
    ensures
        s.contains(x),
        pred(x),
    decreases s.len(),
{
    reveal(Seq::filter);
    if s.len() > 0 {
        let kept = s.drop_last().filter(pred);
        let j = choose|j: int| 0 <= j < s.filter(pred).len() && s.filter(pred)[j] == x;
        if pred(s.last()) && j == kept.len() {
            assert(s[s.len() - 1] == x);
        } else {
            assert(kept[j] == x);
            kept_is_member(s.drop_last(), pred, x);
            let k = choose|k: int| 0 <= k < s.drop_last().len() && s.drop_last()[k] == x;
            assert(s[k] == x);
        }
    }
}

/// No token of fewer than eight characters is reported, whatever it is made
/// of.
pub proof fn short_tokens_never_reported(text: Seq<char>, token: Seq<char>)
    requires
        token.len() < MIN_TOKEN_CHARS,
    ensures
        !is_suspicious(token),
        !secrets(text).contains(token),
{
    let pred = |t: Seq<char>| is_suspicious(t);
    if secrets(text).contains(token) {
        kept_is_member(tokens(text), pred, token);
    }
}

/// Every reported token is a token of the text that meets both conditions.
pub proof fn reported_tokens_are_suspicious(text: Seq<char>, i: int)
    requires
        0 <= i < secrets(text).len(),
    ensures
        is_suspicious(secrets(text)[i]),
        tokens(text).contains(secrets(text)[i]),
{
    let pred = |t: Seq<char>| is_suspicious(t);
    assert(secrets(text).contains(secrets(text)[i]));
    kept_is_member(tokens(text), pred, secrets(text)[i]);
}

/// Every place of a sequence whose characters all occur in the token weighs
/// at least 512, so the weight is at least the power of any base up to 512.
proof fn weight_at_least(s: Seq<char>, counts: Multiset<char>, base: int)
    requires
        0 <= base <= 512,
        forall|i: int| 0 <= i < s.len() ==> counts.count(#[trigger] s[i]) >= 1,
    ensures
        pow(base, s.len()) <= weight_over(s, counts),
    decreases s.len(),
{
    if s.len() == 0 {
        lemma_pow0(base);
    } else {
        let front = s.drop_last();
        let k = counts.count(s.last()) as int;
        let p = pow(base, front.len());
        let w = weight_over(front, counts) as int;
        assert(s[s.len() - 1] == s.last());
        weight_at_least(front, counts, base);
        pow_next(base, front.len());
        pow_not_negative(base, front.len());
        assert(p * base <= w * (512 * k * k)) by (nonlinear_arith)
            requires
                0 <= p <= w,
                0 <= base <= 512,
                k >= 1,
        ;
    }
}

proof fn pow_not_negative(base: int, e: nat)
    requires
        base >= 0,
    ensures
        pow(base, e) >= 0,
    decreases e,
{
    if e == 0 {
        lemma_pow0(base);
    } else {
        pow_not_negative(base, (e - 1) as nat);
        pow_next(base, (e - 1) as nat);
        let p = pow(base, (e - 1) as nat);
        assert(p * base >= 0) by (nonlinear_arith)
            requires
                p >= 0,
                base >= 0,
        ;
    }
}

/// A sequence of `n` places that weigh 512 each weighs `512^n`.
proof fn weight_of_distinct(s: Seq<char>, counts: Multiset<char>)
    requires
        forall|i: int| 0 <= i < s.len() ==> counts.count(#[trigger] s[i]) == 1,
    ensures
        weight_over(s, counts) == pow(512, s.len()),
    decreases s.len(),
{
    if s.len() == 0 {
        lemma_pow0(512);
    } else {
        assert(s[s.len() - 1] == s.last());
        weight_of_distinct(s.drop_last(), counts);
        pow_next(512, s.drop_last().len());
    }
}

/// The power of a greater base is greater, for an exponent above zero.
proof fn pow_of_greater_base(a: int, b: int, e: nat)
    requires
        0 <= a < b,
        e > 0,
    ensures
        0 <= pow(a, e) < pow(b, e),
    decreases e,
{
    pow_not_negative(a, e);
    pow_next(a, (e - 1) as nat);
    pow_next(b, (e - 1) as nat);
    let pa = pow(a, (e - 1) as nat);
    let pb = pow(b, (e - 1) as nat);
    if e == 1 {
        lemma_pow0(a);
        lemma_pow0(b);
    } else {
        pow_of_greater_base(a, b, (e - 1) as nat);
        assert(pa * a < pb * b) by (nonlinear_arith)
            requires
                0 <= pa < pb,
                0 <= a < b,
        ;
    }
}

/// The entropy of a token is at most the logarithm of its length, so a
/// token of fewer than 23 characters stays below 4.5 bits whatever it is
/// made of: 22 squared is less than 512.
pub proof fn entropy_needs_length(token: Seq<char>)
    requires
        token.len() < MIN_ENTROPY_CHARS,
    ensures
        !entropy_above_threshold(token),
{
    let n = token.len() as int;
    token.to_multiset_ensures();
    assert forall|i: int| 0 <= i < token.len() implies token.to_multiset().count(
        #[trigger] token[i],
    ) >= 1 by {
        assert(token.contains(token[i]));
    }
    assert(n * n <= 512) by (nonlinear_arith)
        requires
            0 <= n <= 22,
    ;
    weight_at_least(token, token.to_multiset(), n * n);
    pow_not_negative(n * n, token.len());
}

/// A token in which no character occurs twice has an entropy of the
/// logarithm of its length: it exceeds 4.5 bits exactly from 23 characters
/// on.
pub proof fn entropy_of_distinct_characters(token: Seq<char>)
    requires
        token.no_duplicates(),
    ensures
        entropy_above_threshold(token) <==> token.len() >= MIN_ENTROPY_CHARS,
{
    let n = token.len() as int;
    if n < 23 {
        entropy_needs_length(token);
    } else {
        token.to_multiset_ensures();
        token.lemma_multiset_has_no_duplicates();
        assert forall|i: int| 0 <= i < token.len() implies token.to_multiset().count(
            #[trigger] token[i],
        ) == 1 by {
            assert(token.contains(token[i]));
        }
        weight_of_distinct(token, token.to_multiset());
        assert(n * n > 512) by (nonlinear_arith)
            requires
                n >= 23,
        ;
        pow_of_greater_base(512, n * n, token.len());
    }
}

} // verus!
