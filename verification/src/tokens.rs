use vstd::prelude::*;

use crate::lexicon::{unit_token, NumToken};
use crate::rendering::is_mag;

verus! {

/// The tokens for a value in the units table (zero to ten): its single
/// lexicon word.
pub open spec fn units_tokens(n: int) -> Seq<NumToken>
    recommends
        0 <= n <= 10,
{
    seq![unit_token(n)]
}

/// The tokens for the tens tier (zero to 99). A tens count of one is
/// elided to the bare word "ten"; a zero remainder adds nothing.
pub open spec fn tens_tokens(n: int) -> Seq<NumToken>
    recommends
        0 <= n < 100,
{
    let d: int = n / 10;
    let r: int = n % 10;
    let head: Seq<NumToken> = if d == 0 {
        Seq::empty()
    } else if d == 1 {
        seq![NumToken::Ten]
    } else {
        seq![NumToken::Digit(d), NumToken::Ten]
    };
    let tail: Seq<NumToken> = if r == 0 {
        Seq::empty()
    } else {
        units_tokens(r)
    };
    head + tail
}

/// The tokens for the hundreds tier (zero to 999), with the elision of
/// a leading "one" before "hundred".
pub open spec fn hundreds_tokens(n: int) -> Seq<NumToken>
    recommends
        0 <= n < 1000,
{
    let h: int = n / 100;
    let head: Seq<NumToken> = if h == 0 {
        Seq::empty()
    } else if h == 1 {
        seq![NumToken::Hundred]
    } else {
        seq![NumToken::Digit(h), NumToken::Hundred]
    };
    head + tens_tokens(n % 100)
}

/// The tokens for the thousands tier (zero to 9999), with the elision
/// of a leading "one" before "thousand".
pub open spec fn thousands_tokens(n: int) -> Seq<NumToken>
    recommends
        0 <= n < 10000,
{
    let t: int = n / 1000;
    let head: Seq<NumToken> = if t == 0 {
        Seq::empty()
    } else if t == 1 {
        seq![NumToken::Thousand]
    } else {
        seq![NumToken::Digit(t), NumToken::Thousand]
    };
    head + hundreds_tokens(n % 1000)
}

/// The tokens for one base-10000 group; a zero group has none.
pub open spec fn group_tokens(n: int) -> Seq<NumToken>
    recommends
        0 <= n < 10000,
{
    thousands_tokens(n)
}

/// The magnitude word attached to a group at the given tier; the
/// lowest tier has none.
pub open spec fn magnitude_suffix(tier: int) -> Seq<NumToken>
    recommends
        0 <= tier,
{
    if tier == 0 {
        Seq::empty()
    } else {
        seq![NumToken::Magnitude(tier)]
    }
}

/// The tokens for a positive number whose lowest base-10000 group
/// stands at the given tier: higher groups first, each non-zero group
/// rendered with its magnitude word, zero groups skipped entirely.
pub open spec fn nonzero_tokens(n: int, tier: int) -> Seq<NumToken>
    recommends
        1 <= n,
        0 <= tier,
    decreases n,
{
    if n <= 0 {
        Seq::empty()
    } else {
        let g: int = n % 10000;
        let rest: int = n / 10000;
        let cur: Seq<NumToken> = if g == 0 {
            Seq::empty()
        } else {
            group_tokens(g) + magnitude_suffix(tier)
        };
        if rest == 0 {
            cur
        } else {
            nonzero_tokens(rest, tier + 1) + cur
        }
    }
}

/// The tokens for a whole number: zero is the zero word alone, any
/// other number is its group decomposition.
pub open spec fn number_tokens(n: int) -> Seq<NumToken>
    recommends
        0 <= n,
{
    if n <= 0 {
        seq![NumToken::Zero]
    } else {
        nonzero_tokens(n, 0)
    }
}

/// The number of base-10000 groups a number occupies.
pub open spec fn digits4(n: nat) -> nat
    decreases n,
{
    if n < 10000 {
        1
    } else {
        1 + digits4((n / 10000) as nat)
    }
}

/// A number below 10^20 occupies at most five base-10000 groups, so
/// the four magnitude words suffice for it.
pub proof fn lemma_digits4_bound(n: nat)
    requires
        n < 100000000000000000000,
    ensures
        digits4(n) <= 5,
{
    let n1: nat = n / 10000;
    let n2: nat = n1 / 10000;
    let n3: nat = n2 / 10000;
    let n4: nat = n3 / 10000;
    assert(n1 < 10000000000000000);
    assert(n2 < 1000000000000);
    assert(n3 < 100000000);
    assert(n4 < 10000);
    assert(digits4(n4) == 1);
    assert(digits4(n3) <= 2);
    assert(digits4(n2) <= 3);
    assert(digits4(n1) <= 4);
    assert(digits4(n) <= 5);
}

/// Whether a token can appear in a rendered number: digits are one to
/// nine and magnitude tiers stay within the lexicon's table.
pub open spec fn valid_tok(t: NumToken) -> bool {
    match t {
        NumToken::Zero => true,
        NumToken::Digit(d) => 1 <= d <= 9,
        NumToken::Ten => true,
        NumToken::Hundred => true,
        NumToken::Thousand => true,
        NumToken::Magnitude(k) => 1 <= k <= 4,
    }
}

/// The tens tier is empty exactly for zero, and never starts with a
/// magnitude word.
pub proof fn lemma_tens_shape(n: int)
    requires
        0 <= n < 100,
    ensures
        n == 0 ==> tens_tokens(n) =~= Seq::<NumToken>::empty(),
        n > 0 ==> tens_tokens(n).len() > 0 && !is_mag(tens_tokens(n).first()),
{
    let d: int = n / 10;
    let r: int = n % 10;
    if n == 0 {
        assert(tens_tokens(n) =~= Seq::<NumToken>::empty());
    } else if d == 0 {
        assert(r == n);
        assert(tens_tokens(n) =~= seq![unit_token(n)]);
    }
}

/// The hundreds tier is empty exactly for zero, and never starts with
/// a magnitude word.
pub proof fn lemma_hundreds_shape(n: int)
    requires
        0 <= n < 1000,
    ensures
        n == 0 ==> hundreds_tokens(n) =~= Seq::<NumToken>::empty(),
        n > 0 ==> hundreds_tokens(n).len() > 0 && !is_mag(hundreds_tokens(n).first()),
{
    let h: int = n / 100;
    let r: int = n % 100;
    lemma_tens_shape(r);
    if n == 0 {
        assert(hundreds_tokens(n) =~= Seq::<NumToken>::empty());
    } else if h == 0 {
        assert(r == n);
        assert(hundreds_tokens(n) =~= tens_tokens(n));
    }
}

/// A group's tokens are empty exactly for zero, and never start with a
/// magnitude word.
pub proof fn lemma_group_shape(n: int)
    requires
        0 <= n < 10000,
    ensures
        n == 0 ==> group_tokens(n) =~= Seq::<NumToken>::empty(),
        n > 0 ==> group_tokens(n).len() > 0 && !is_mag(group_tokens(n).first()),
{
    let t: int = n / 1000;
    let r: int = n % 1000;
    lemma_hundreds_shape(r);
    if n == 0 {
        assert(group_tokens(n) =~= Seq::<NumToken>::empty());
    } else if t == 0 {
        assert(r == n);
        assert(group_tokens(n) =~= hundreds_tokens(n));
    }
}

/// Whether a token may appear in the tens tier: a digit or the word
/// "ten".
pub open spec fn is_tens_tok(t: NumToken) -> bool {
    t matches NumToken::Digit(_) || t matches NumToken::Ten
}

/// Whether a token may appear in the hundreds tier.
pub open spec fn is_hundreds_tok(t: NumToken) -> bool {
    is_tens_tok(t) || t matches NumToken::Hundred
}

/// Whether a token may appear inside one base-10000 group.
pub open spec fn is_group_tok(t: NumToken) -> bool {
    is_hundreds_tok(t) || t matches NumToken::Thousand
}

/// The tier of a magnitude token; any other token has none.
pub open spec fn mag_idx(t: NumToken) -> int {
    match t {
        NumToken::Magnitude(k) => k,
        _ => -1,
    }
}

/// The tens tier holds only digit words and "ten".
pub proof fn lemma_tens_kinds(n: int)
    requires
        0 <= n < 100,
    ensures
        forall|i: int| 0 <= i < tens_tokens(n).len() ==> is_tens_tok(#[trigger] tens_tokens(n)[i]),
{
    let d: int = n / 10;
    let r: int = n % 10;
    assert forall|i: int| 0 <= i < tens_tokens(n).len() implies is_tens_tok(
        #[trigger] tens_tokens(n)[i],
    ) by {
        let head: Seq<NumToken> = if d == 0 {
            Seq::empty()
        } else if d == 1 {
            seq![NumToken::Ten]
        } else {
            seq![NumToken::Digit(d), NumToken::Ten]
        };
        if i < head.len() {
            assert(tens_tokens(n)[i] == head[i]);
        } else {
            assert(tens_tokens(n)[i] == unit_token(r));
        }
    }
}

/// The hundreds tier holds only digit words, "ten" and "hundred".
pub proof fn lemma_hundreds_kinds(n: int)
    requires
        0 <= n < 1000,
    ensures
        forall|i: int|
            0 <= i < hundreds_tokens(n).len() ==> is_hundreds_tok(
                #[trigger] hundreds_tokens(n)[i],
            ),
{
    let h: int = n / 100;
    let r: int = n % 100;
    lemma_tens_kinds(r);
    assert forall|i: int| 0 <= i < hundreds_tokens(n).len() implies is_hundreds_tok(
        #[trigger] hundreds_tokens(n)[i],
    ) by {
        let head: Seq<NumToken> = if h == 0 {
            Seq::empty()
        } else if h == 1 {
            seq![NumToken::Hundred]
        } else {
            seq![NumToken::Digit(h), NumToken::Hundred]
        };
        if i < head.len() {
            assert(hundreds_tokens(n)[i] == head[i]);
        } else {
            assert(hundreds_tokens(n)[i] == tens_tokens(r)[i - head.len()]);
        }
    }
}

/// A group holds only digit words and the small positional units,
/// never a magnitude word or the zero word.
pub proof fn lemma_group_kinds(n: int)
    requires
        0 <= n < 10000,
    ensures
        forall|i: int|
            0 <= i < group_tokens(n).len() ==> is_group_tok(#[trigger] group_tokens(n)[i]),
{
    let t: int = n / 1000;
    let r: int = n % 1000;
    lemma_hundreds_kinds(r);
    assert forall|i: int| 0 <= i < group_tokens(n).len() implies is_group_tok(
        #[trigger] group_tokens(n)[i],
    ) by {
        let head: Seq<NumToken> = if t == 0 {
            Seq::empty()
        } else if t == 1 {
            seq![NumToken::Thousand]
        } else {
            seq![NumToken::Digit(t), NumToken::Thousand]
        };
        if i < head.len() {
            assert(group_tokens(n)[i] == head[i]);
        } else {
            assert(group_tokens(n)[i] == hundreds_tokens(r)[i - head.len()]);
        }
    }
}

/// Equal concatenations with the same suffix have equal prefixes.
proof fn lemma_cancel_suffix(b: Seq<NumToken>, c: Seq<NumToken>, s: Seq<NumToken>)
    requires
        b + s == c + s,
    ensures
        b == c,
{
    let x = b + s;
    let y = c + s;
    assert(x.len() == b.len() + s.len());
    assert(y.len() == c.len() + s.len());
    assert(b.len() == c.len());
    assert forall|i: int| 0 <= i < b.len() implies b[i] == c[i] by {
        assert(x[i] == b[i]);
        assert(y[i] == c[i]);
    }
    assert(b =~= c);
}

/// Above the lowest tier, a positive number's tokens end with a
/// magnitude word of at least that tier.
pub proof fn lemma_nonzero_last(n: int, tier: int)
    requires
        1 <= n,
        1 <= tier,
    ensures
        nonzero_tokens(n, tier).len() > 0,
        mag_idx(nonzero_tokens(n, tier).last()) >= tier,
    decreases n,
{
    let g: int = n % 10000;
    let rest: int = n / 10000;
    lemma_nonzero_shape(n, tier);
    if g > 0 {
        let cur = group_tokens(g) + magnitude_suffix(tier);
        assert(cur.last() == NumToken::Magnitude(tier));
        if rest > 0 {
            assert(nonzero_tokens(n, tier).last() == cur.last());
        }
    } else {
        lemma_nonzero_last(rest, tier + 1);
        assert(nonzero_tokens(n, tier) =~= nonzero_tokens(rest, tier + 1));
    }
}

/// Equal concatenations with the same prefix have equal remainders.
proof fn lemma_cancel_prefix(a: Seq<NumToken>, b: Seq<NumToken>, c: Seq<NumToken>)
    requires
        a + b == a + c,
    ensures
        b == c,
{
    let x = a + b;
    let y = a + c;
    assert(x.len() == a.len() + b.len());
    assert(y.len() == a.len() + c.len());
    assert(b.len() == c.len());
    assert forall|i: int| 0 <= i < b.len() implies b[i] == c[i] by {
        assert(x[a.len() + i] == b[i]);
        assert(y[a.len() + i] == c[i]);
    }
    assert(b =~= c);
}

/// A token sequence splits in one way only into a part that ends with
/// a magnitude word and a part that holds none.
proof fn lemma_split_at_last_mag(
    h1: Seq<NumToken>,
    g1: Seq<NumToken>,
    h2: Seq<NumToken>,
    g2: Seq<NumToken>,
)
    requires
        h1 + g1 == h2 + g2,
        h1.len() > 0,
        h2.len() > 0,
        is_mag(h1.last()),
        is_mag(h2.last()),
        forall|i: int| 0 <= i < g1.len() ==> !is_mag(#[trigger] g1[i]),
        forall|i: int| 0 <= i < g2.len() ==> !is_mag(#[trigger] g2[i]),
    ensures
        h1 == h2,
        g1 == g2,
{
    let x = h1 + g1;
    let y = h2 + g2;
    assert(x.len() == h1.len() + g1.len());
    assert(y.len() == h2.len() + g2.len());
    if h1.len() < h2.len() {
        let i: int = h2.len() - 1;
        assert(y[i] == h2.last());
        assert(x[i] == g1[i - h1.len()]);
        assert(false);
    }
    if h2.len() < h1.len() {
        let i: int = h1.len() - 1;
        assert(x[i] == h1.last());
        assert(y[i] == g2[i - h2.len()]);
        assert(false);
    }
    assert forall|i: int| 0 <= i < h1.len() implies h1[i] == h2[i] by {
        assert(x[i] == h1[i]);
        assert(y[i] == h2[i]);
    }
    assert(h1 =~= h2);
    lemma_cancel_prefix(h1, g1, g2);
}

/// The digit a token stands for, for reading a group back.
pub open spec fn digit_val(t: NumToken) -> int {
    match t {
        NumToken::Digit(d) => d,
        _ => 0,
    }
}

/// Reads a tens-tier token sequence back to its value.
pub open spec fn tens_value(toks: Seq<NumToken>) -> int {
    if toks.len() == 0 {
        0
    } else if (toks[0] matches NumToken::Ten) {
        10 + (if toks.len() > 1 {
            digit_val(toks[1])
        } else {
            0
        })
    } else if toks.len() == 1 {
        digit_val(toks[0])
    } else {
        10 * digit_val(toks[0]) + (if toks.len() > 2 {
            digit_val(toks[2])
        } else {
            0
        })
    }
}

/// Reads a hundreds-tier token sequence back to its value.
pub open spec fn hundreds_value(toks: Seq<NumToken>) -> int {
    if toks.len() == 0 {
        0
    } else if (toks[0] matches NumToken::Hundred) {
        100 + tens_value(toks.drop_first())
    } else if toks.len() >= 2 && (toks[1] matches NumToken::Hundred) {
        100 * digit_val(toks[0]) + tens_value(toks.subrange(2, toks.len() as int))
    } else {
        tens_value(toks)
    }
}

/// Reads a group's token sequence back to its value.
pub open spec fn group_value(toks: Seq<NumToken>) -> int {
    if toks.len() == 0 {
        0
    } else if (toks[0] matches NumToken::Thousand) {
        1000 + hundreds_value(toks.drop_first())
    } else if toks.len() >= 2 && (toks[1] matches NumToken::Thousand) {
        1000 * digit_val(toks[0]) + hundreds_value(toks.subrange(2, toks.len() as int))
    } else {
        hundreds_value(toks)
    }
}

/// The tens tier is lossless: its token sequence reads back to the
/// value it was made from.
pub proof fn lemma_tens_value(n: int)
    requires
        0 <= n < 100,
    ensures
        tens_value(tens_tokens(n)) == n,
{
    let d: int = n / 10;
    let r: int = n % 10;
    if d == 0 {
        if r == 0 {
            assert(tens_tokens(n) =~= Seq::<NumToken>::empty());
        } else {
            assert(tens_tokens(n) =~= seq![unit_token(r)]);
        }
    } else if d == 1 {
        if r == 0 {
            assert(tens_tokens(n) =~= seq![NumToken::Ten]);
        } else {
            assert(tens_tokens(n) =~= seq![NumToken::Ten, unit_token(r)]);
        }
    } else {
        if r == 0 {
            assert(tens_tokens(n) =~= seq![NumToken::Digit(d), NumToken::Ten]);
        } else {
            assert(tens_tokens(n) =~= seq![NumToken::Digit(d), NumToken::Ten, unit_token(r)]);
        }
    }
}

/// The hundreds tier is lossless: its token sequence reads back to the
/// value it was made from.
pub proof fn lemma_hundreds_value(n: int)
    requires
        0 <= n < 1000,
    ensures
        hundreds_value(hundreds_tokens(n)) == n,
{
    let h: int = n / 100;
    let r: int = n % 100;
    let tail = tens_tokens(r);
    lemma_tens_kinds(r);
    lemma_tens_value(r);
    if h == 0 {
        assert(hundreds_tokens(n) =~= tail);
    } else if h == 1 {
        let toks = hundreds_tokens(n);
        assert(toks =~= seq![NumToken::Hundred] + tail);
        assert(toks.drop_first() =~= tail);
    } else {
        let toks = hundreds_tokens(n);
        assert(toks =~= seq![NumToken::Digit(h), NumToken::Hundred] + tail);
        assert(toks.subrange(2, toks.len() as int) =~= tail);
    }
}

/// A group is lossless: its token sequence reads back to the value it
/// was made from.
pub proof fn lemma_group_value(n: int)
    requires
        0 <= n < 10000,
    ensures
        group_value(group_tokens(n)) == n,
{
    let t: int = n / 1000;
    let r: int = n % 1000;
    let tail = hundreds_tokens(r);
    lemma_hundreds_kinds(r);
    lemma_hundreds_value(r);
    if t == 0 {
        assert(group_tokens(n) =~= tail);
    } else if t == 1 {
        let toks = group_tokens(n);
        assert(toks =~= seq![NumToken::Thousand] + tail);
        assert(toks.drop_first() =~= tail);
    } else {
        let toks = group_tokens(n);
        assert(toks =~= seq![NumToken::Digit(t), NumToken::Thousand] + tail);
        assert(toks.subrange(2, toks.len() as int) =~= tail);
    }
}

/// A group's token sequence is unambiguous: equal sequences come from
/// equal values.
pub proof fn lemma_group_injective(n: int, m: int)
    requires
        0 <= n < 10000,
        0 <= m < 10000,
        group_tokens(n) == group_tokens(m),
    ensures
        n == m,
{
    lemma_group_value(n);
    lemma_group_value(m);
}

/// A positive number always renders to at least one token, starting
/// with a word that is no magnitude suffix.
pub proof fn lemma_nonzero_shape(n: int, tier: int)
    requires
        1 <= n,
        0 <= tier,
    ensures
        nonzero_tokens(n, tier).len() > 0,
        !is_mag(nonzero_tokens(n, tier).first()),
    decreases n,
{
    let g: int = n % 10000;
    let rest: int = n / 10000;
    if rest == 0 {
        assert(g == n);
        lemma_group_shape(g);
        assert(nonzero_tokens(n, tier).first() == group_tokens(g).first());
    } else {
        lemma_nonzero_shape(rest, tier + 1);
        assert(nonzero_tokens(n, tier).first() == nonzero_tokens(rest, tier + 1).first());
    }
}

/// A number whose lowest group is empty never shares a token sequence
/// with one whose lowest group is filled.
proof fn lemma_zero_group_clash(n: int, m: int, tier: int)
    requires
        1 <= n,
        1 <= m,
        0 <= tier,
        n % 10000 == 0,
        m % 10000 > 0,
    ensures
        nonzero_tokens(n, tier) != nonzero_tokens(m, tier),
{
    let rn: int = n / 10000;
    assert(rn >= 1);
    let x = nonzero_tokens(n, tier);
    assert(x =~= nonzero_tokens(rn, tier + 1));
    lemma_nonzero_last(rn, tier + 1);
    assert(mag_idx(x.last()) >= tier + 1);

    let gm: int = m % 10000;
    let rm: int = m / 10000;
    let y = nonzero_tokens(m, tier);
    let curm = group_tokens(gm) + magnitude_suffix(tier);
    lemma_group_shape(gm);
    lemma_group_kinds(gm);
    if rm == 0 {
        assert(y == curm);
    } else {
        lemma_nonzero_shape(rm, tier + 1);
        assert(y =~= nonzero_tokens(rm, tier + 1) + curm);
        assert(y.last() == curm.last());
    }
    if tier == 0 {
        assert(curm =~= group_tokens(gm));
        assert(curm.last() == group_tokens(gm)[group_tokens(gm).len() - 1]);
        assert(is_group_tok(curm.last()));
        assert(mag_idx(y.last()) == -1);
    } else {
        assert(curm.last() == NumToken::Magnitude(tier));
        assert(mag_idx(y.last()) == tier);
    }
    assert(mag_idx(x.last()) != mag_idx(y.last()));
}

/// A bare group never shares a token sequence with a higher group
/// decomposition followed by a group.
proof fn lemma_flat_group_clash(rhigh: int, tier: int, ga: int, gb: int)
    requires
        1 <= rhigh,
        0 <= tier,
        1 <= ga <= 9999,
        1 <= gb <= 9999,
    ensures
        group_tokens(ga) != nonzero_tokens(rhigh, tier + 1) + group_tokens(gb),
{
    let h = nonzero_tokens(rhigh, tier + 1);
    let x = group_tokens(ga);
    let y = h + group_tokens(gb);
    lemma_nonzero_last(rhigh, tier + 1);
    lemma_group_kinds(ga);
    lemma_group_shape(gb);
    assert(y.len() == h.len() + group_tokens(gb).len());
    let i: int = h.len() - 1;
    assert(y[i] == h.last());
    assert(is_mag(h.last()));
    if x == y {
        assert(x[i] == y[i]);
        assert(is_group_tok(x[i]));
        assert(false);
    }
}

/// Group decompositions are unambiguous: equal token sequences at the
/// same tier come from equal numbers.
proof fn lemma_nonzero_injective(n: int, m: int, tier: int)
    requires
        1 <= n,
        1 <= m,
        0 <= tier,
        nonzero_tokens(n, tier) == nonzero_tokens(m, tier),
    ensures
        n == m,
    decreases n,
{
    let gn: int = n % 10000;
    let rn: int = n / 10000;
    let gm: int = m % 10000;
    let rm: int = m / 10000;
    if gn == 0 && gm == 0 {
        assert(rn >= 1 && rm >= 1);
        assert(nonzero_tokens(n, tier) =~= nonzero_tokens(rn, tier + 1));
        assert(nonzero_tokens(m, tier) =~= nonzero_tokens(rm, tier + 1));
        lemma_nonzero_injective(rn, rm, tier + 1);
    } else if gn == 0 {
        lemma_zero_group_clash(n, m, tier);
        assert(false);
    } else if gm == 0 {
        lemma_zero_group_clash(m, n, tier);
        assert(false);
    } else {
        lemma_group_shape(gn);
        lemma_group_shape(gm);
        let bn: Seq<NumToken> = if rn == 0 {
            group_tokens(gn)
        } else {
            nonzero_tokens(rn, tier + 1) + group_tokens(gn)
        };
        let bm: Seq<NumToken> = if rm == 0 {
            group_tokens(gm)
        } else {
            nonzero_tokens(rm, tier + 1) + group_tokens(gm)
        };
        if tier == 0 {
            assert(nonzero_tokens(n, tier) =~= bn);
            assert(nonzero_tokens(m, tier) =~= bm);
            assert(bn == bm);
        } else {
            assert(nonzero_tokens(n, tier) =~= bn + seq![NumToken::Magnitude(tier)]);
            assert(nonzero_tokens(m, tier) =~= bm + seq![NumToken::Magnitude(tier)]);
            lemma_cancel_suffix(bn, bm, seq![NumToken::Magnitude(tier)]);
        }
        if rn == 0 && rm == 0 {
            lemma_group_injective(gn, gm);
        } else if rn == 0 {
            lemma_flat_group_clash(rm, tier, gn, gm);
            assert(false);
        } else if rm == 0 {
            lemma_flat_group_clash(rn, tier, gm, gn);
            assert(false);
        } else {
            let hn = nonzero_tokens(rn, tier + 1);
            let hm = nonzero_tokens(rm, tier + 1);
            lemma_nonzero_last(rn, tier + 1);
            lemma_nonzero_last(rm, tier + 1);
            lemma_group_kinds(gn);
            lemma_group_kinds(gm);
            assert forall|i: int| 0 <= i < group_tokens(gn).len() implies !is_mag(
                #[trigger] group_tokens(gn)[i],
            ) by {
                assert(is_group_tok(group_tokens(gn)[i]));
            }
            assert forall|i: int| 0 <= i < group_tokens(gm).len() implies !is_mag(
                #[trigger] group_tokens(gm)[i],
            ) by {
                assert(is_group_tok(group_tokens(gm)[i]));
            }
            lemma_split_at_last_mag(hn, group_tokens(gn), hm, group_tokens(gm));
            lemma_nonzero_injective(rn, rm, tier + 1);
            lemma_group_injective(gn, gm);
        }
    }
}

/// The conversion is lossless: the token sequence of a number, and so
/// each script's rendering of it, determines the number exactly.
pub proof fn lemma_number_tokens_injective(n: int, m: int)
    requires
        0 <= n,
        0 <= m,
        number_tokens(n) == number_tokens(m),
    ensures
        n == m,
{
    if n == 0 && m == 0 {
    } else if n == 0 {
        lemma_nonzero_shape(m, 0);
        assert(number_tokens(n)[0] == NumToken::Zero);
        assert(!(number_tokens(m).first() matches NumToken::Zero)) by {
            lemma_first_not_zero(m);
        }
        assert(false);
    } else if m == 0 {
        lemma_nonzero_shape(n, 0);
        assert(number_tokens(m)[0] == NumToken::Zero);
        assert(!(number_tokens(n).first() matches NumToken::Zero)) by {
            lemma_first_not_zero(n);
        }
        assert(false);
    } else {
        lemma_nonzero_injective(n, m, 0);
    }
}

/// Every token of the tens tier is a well-formed word.
proof fn lemma_tens_valid(n: int)
    requires
        0 <= n < 100,
    ensures
        forall|i: int| 0 <= i < tens_tokens(n).len() ==> valid_tok(#[trigger] tens_tokens(n)[i]),
{
    let d: int = n / 10;
    let r: int = n % 10;
    assert forall|i: int| 0 <= i < tens_tokens(n).len() implies valid_tok(
        #[trigger] tens_tokens(n)[i],
    ) by {
        let head: Seq<NumToken> = if d == 0 {
            Seq::empty()
        } else if d == 1 {
            seq![NumToken::Ten]
        } else {
            seq![NumToken::Digit(d), NumToken::Ten]
        };
        if i < head.len() {
            assert(tens_tokens(n)[i] == head[i]);
        } else {
            assert(tens_tokens(n)[i] == unit_token(r));
        }
    }
}

/// Every token of the hundreds tier is a well-formed word.
proof fn lemma_hundreds_valid(n: int)
    requires
        0 <= n < 1000,
    ensures
        forall|i: int|
            0 <= i < hundreds_tokens(n).len() ==> valid_tok(#[trigger] hundreds_tokens(n)[i]),
{
    let h: int = n / 100;
    let r: int = n % 100;
    lemma_tens_valid(r);
    assert forall|i: int| 0 <= i < hundreds_tokens(n).len() implies valid_tok(
        #[trigger] hundreds_tokens(n)[i],
    ) by {
        let head: Seq<NumToken> = if h == 0 {
            Seq::empty()
        } else if h == 1 {
            seq![NumToken::Hundred]
        } else {
            seq![NumToken::Digit(h), NumToken::Hundred]
        };
        if i < head.len() {
            assert(hundreds_tokens(n)[i] == head[i]);
        } else {
            assert(hundreds_tokens(n)[i] == tens_tokens(r)[i - head.len()]);
        }
    }
}

/// Every token of a group is a well-formed word.
proof fn lemma_group_valid(n: int)
    requires
        0 <= n < 10000,
    ensures
        forall|i: int| 0 <= i < group_tokens(n).len() ==> valid_tok(#[trigger] group_tokens(n)[i]),
{
    let t: int = n / 1000;
    let r: int = n % 1000;
    lemma_hundreds_valid(r);
    assert forall|i: int| 0 <= i < group_tokens(n).len() implies valid_tok(
        #[trigger] group_tokens(n)[i],
    ) by {
        let head: Seq<NumToken> = if t == 0 {
            Seq::empty()
        } else if t == 1 {
            seq![NumToken::Thousand]
        } else {
            seq![NumToken::Digit(t), NumToken::Thousand]
        };
        if i < head.len() {
            assert(group_tokens(n)[i] == head[i]);
        } else {
            assert(group_tokens(n)[i] == hundreds_tokens(r)[i - head.len()]);
        }
    }
}

/// Every token of a group decomposition that fits the magnitude table
/// is a well-formed word.
proof fn lemma_nonzero_valid(n: int, tier: int)
    requires
        1 <= n,
        0 <= tier,
        digits4(n as nat) + tier <= 5,
    ensures
        forall|i: int|
            0 <= i < nonzero_tokens(n, tier).len() ==> valid_tok(
                #[trigger] nonzero_tokens(n, tier)[i],
            ),
    decreases n,
{
    let g: int = n % 10000;
    let rest: int = n / 10000;
    assert(digits4(n as nat) >= 1);
    let cur: Seq<NumToken> = if g == 0 {
        Seq::empty()
    } else {
        group_tokens(g) + magnitude_suffix(tier)
    };
    if g > 0 {
        lemma_group_valid(g);
        assert forall|i: int| 0 <= i < cur.len() implies valid_tok(#[trigger] cur[i]) by {
            if i < group_tokens(g).len() {
                assert(cur[i] == group_tokens(g)[i]);
            } else {
                assert(tier >= 1 && tier <= 4);
                assert(cur[i] == NumToken::Magnitude(tier));
            }
        }
    }
    if rest == 0 {
        assert(nonzero_tokens(n, tier) == cur);
    } else {
        assert(digits4(n as nat) == 1 + digits4(rest as nat));
        lemma_nonzero_valid(rest, tier + 1);
        let high = nonzero_tokens(rest, tier + 1);
        assert forall|i: int| 0 <= i < nonzero_tokens(n, tier).len() implies valid_tok(
            #[trigger] nonzero_tokens(n, tier)[i],
        ) by {
            assert(nonzero_tokens(n, tier) == high + cur);
            if i < high.len() {
                assert(nonzero_tokens(n, tier)[i] == high[i]);
            } else {
                assert(nonzero_tokens(n, tier)[i] == cur[i - high.len()]);
            }
        }
    }
}

/// Every token of a number below 10^20 is a well-formed word.
pub proof fn lemma_number_tokens_valid(n: int)
    requires
        0 <= n < 100000000000000000000,
    ensures
        forall|i: int|
            0 <= i < number_tokens(n).len() ==> valid_tok(#[trigger] number_tokens(n)[i]),
{
    if n > 0 {
        lemma_digits4_bound(n as nat);
        lemma_nonzero_valid(n, 0);
    }
}

/// A positive number's tokens never begin with the zero word.
proof fn lemma_first_not_zero(n: int)
    requires
        1 <= n,
    ensures
        nonzero_tokens(n, 0).len() > 0,
        !(nonzero_tokens(n, 0).first() matches NumToken::Zero),
{
    lemma_nonzero_shape(n, 0);
    lemma_first_not_zero_rec(n, 0);
}

/// A positive number's tokens begin with a group word at every tier.
proof fn lemma_first_not_zero_rec(n: int, tier: int)
    requires
        1 <= n,
        0 <= tier,
    ensures
        nonzero_tokens(n, tier).len() > 0,
        is_group_tok(nonzero_tokens(n, tier).first()),
    decreases n,
{
    let g: int = n % 10000;
    let rest: int = n / 10000;
    if rest == 0 {
        assert(g == n);
        lemma_group_shape(g);
        lemma_group_kinds(g);
        assert(nonzero_tokens(n, tier).first() == group_tokens(g)[0]);
    } else if g == 0 {
        lemma_first_not_zero_rec(rest, tier + 1);
        assert(nonzero_tokens(n, tier) =~= nonzero_tokens(rest, tier + 1));
    } else {
        lemma_first_not_zero_rec(rest, tier + 1);
        lemma_nonzero_shape(rest, tier + 1);
        assert(nonzero_tokens(n, tier).first() == nonzero_tokens(rest, tier + 1).first());
    }
}

} // verus!
