use vstd::prelude::*;

use crate::convert::less_than_10k;
use crate::lexicon::{magnitude_words, unit_words, NumToken, Script};
use crate::rendering::{lemma_render_join, lemma_render_single, render};
use crate::tokens::{
    digits4, group_tokens, lemma_digits4_bound, lemma_group_shape, lemma_nonzero_shape,
    magnitude_suffix,
    nonzero_tokens, number_tokens,
};

verus! {

/// A converted number: the value given and its three renderings.
/// Once built it is never changed.
pub struct JapaneseNumber {
    arabiasuji: usize,
    kanji: String,
    romaji: String,
    katakana: String,
}

impl JapaneseNumber {
    /// The value that was converted.
    pub closed spec fn spec_arabiasuji(self) -> usize {
        self.arabiasuji
    }

    /// The kanji rendering, as a character sequence.
    pub closed spec fn spec_kanji(self) -> Seq<char> {
        self.kanji@
    }

    /// The katakana rendering, as a character sequence.
    pub closed spec fn spec_katakana(self) -> Seq<char> {
        self.katakana@
    }

    /// The romaji rendering, as a character sequence.
    pub closed spec fn spec_romaji(self) -> Seq<char> {
        self.romaji@
    }

    /// The three renderings are exactly the renderings of the number's
    /// token sequence, one shared breakdown for all scripts.
    pub open spec fn wf(self) -> bool {
        &&& self.spec_kanji() == render(
            Script::Kanji,
            number_tokens(self.spec_arabiasuji() as int),
        )
        &&& self.spec_katakana() == render(
            Script::Katakana,
            number_tokens(self.spec_arabiasuji() as int),
        )
        &&& self.spec_romaji() == render(
            Script::Romaji,
            number_tokens(self.spec_arabiasuji() as int),
        )
    }

    /// Converts a number into its kanji, katakana and romaji
    /// renderings. The magnitude table reaches ten-quadrillion, which
    /// covers every value a usize can hold, so no input is rejected.
    pub fn convert(number: usize) -> (r: JapaneseNumber)
        ensures
            r.spec_arabiasuji() == number,
            r.wf(),
    {
        over_10k(number)
    }

    /// The value that was converted.
    pub fn arabiasuji(&self) -> (r: usize)
        ensures
            r == self.spec_arabiasuji(),
    {
        self.arabiasuji
    }

    /// The kanji rendering.
    pub fn kanji(&self) -> (r: &String)
        ensures
            r@ == self.spec_kanji(),
    {
        &self.kanji
    }

    /// The romaji rendering.
    pub fn romaji(&self) -> (r: &String)
        ensures
            r@ == self.spec_romaji(),
    {
        &self.romaji
    }

    /// The katakana rendering.
    pub fn katakana(&self) -> (r: &String)
        ensures
            r@ == self.spec_katakana(),
    {
        &self.katakana
    }
}

/// Every usize value occupies at most five base-10000 groups, so the
/// four magnitude words always suffice.
proof fn lemma_digits4_usize(n: nat)
    requires
        n <= usize::MAX,
    ensures
        digits4(n) <= 5,
{
    assert(n < 100000000000000000000);
    lemma_digits4_bound(n);
}

/// Renders the base-10000 groups of a positive number, the lowest
/// group standing at the given tier: higher groups first, each
/// non-zero group followed by its magnitude word, zero groups skipped.
#[verifier::rlimit(60)]
fn render_groups(n: usize, tier: usize) -> (r: (String, String, String))
    requires
        1 <= n,
        digits4(n as nat) + tier as nat <= 5,
    ensures
        r.0@ == render(Script::Kanji, nonzero_tokens(n as int, tier as int)),
        r.1@ == render(Script::Katakana, nonzero_tokens(n as int, tier as int)),
        r.2@ == render(Script::Romaji, nonzero_tokens(n as int, tier as int)),
    decreases n,
{
    proof {
        assert(digits4(n as nat) >= 1);
    }
    let group = n % 10000;
    let rest = n / 10000;
    if rest == 0 {
        let (mut result_kanji, mut result_katakana, mut result_romaji) = less_than_10k(n);
        if tier > 0 {
            let mag = magnitude_words(tier);
            result_kanji.append(mag.0);
            result_katakana.append(mag.1);
            result_romaji.append(" ");
            result_romaji.append(mag.2);
        }
        proof {
            reveal_strlit(" ");
            let n_i: int = n as int;
            let tier_i: int = tier as int;
            lemma_group_shape(n_i);
            if tier > 0 {
                lemma_render_join(
                    Script::Kanji,
                    group_tokens(n_i),
                    seq![NumToken::Magnitude(tier_i)],
                );
                lemma_render_join(
                    Script::Katakana,
                    group_tokens(n_i),
                    seq![NumToken::Magnitude(tier_i)],
                );
                lemma_render_join(
                    Script::Romaji,
                    group_tokens(n_i),
                    seq![NumToken::Magnitude(tier_i)],
                );
                lemma_render_single(Script::Kanji, NumToken::Magnitude(tier_i));
                lemma_render_single(Script::Katakana, NumToken::Magnitude(tier_i));
                lemma_render_single(Script::Romaji, NumToken::Magnitude(tier_i));
                assert(nonzero_tokens(n_i, tier_i) =~= group_tokens(n_i) + seq![
                    NumToken::Magnitude(tier_i),
                ]);
            } else {
                assert(nonzero_tokens(n_i, tier_i) =~= group_tokens(n_i));
            }
            assert(result_kanji@ =~= render(Script::Kanji, nonzero_tokens(n_i, tier_i)));
            assert(result_katakana@ =~= render(Script::Katakana, nonzero_tokens(n_i, tier_i)));
            assert(result_romaji@ =~= render(Script::Romaji, nonzero_tokens(n_i, tier_i)));
        }
        (result_kanji, result_katakana, result_romaji)
    } else {
        proof {
            assert(digits4(n as nat) == 1 + digits4(rest as nat));
        }
        let (mut result_kanji, mut result_katakana, mut result_romaji) = render_groups(
            rest,
            tier + 1,
        );
        if group > 0 {
            let cur = less_than_10k(group);
            result_katakana.append(" ");
            result_romaji.append(" ");
            result_kanji.append(cur.0.as_str());
            result_katakana.append(cur.1.as_str());
            result_romaji.append(cur.2.as_str());
            if tier > 0 {
                let mag = magnitude_words(tier);
                result_kanji.append(mag.0);
                result_katakana.append(mag.1);
                result_romaji.append(" ");
                result_romaji.append(mag.2);
            }
        }
        proof {
            reveal_strlit(" ");
            let n_i: int = n as int;
            let tier_i: int = tier as int;
            let g_i: int = group as int;
            let high = nonzero_tokens(rest as int, tier_i + 1);
            lemma_nonzero_shape(rest as int, tier_i + 1);
            if group == 0 {
                assert(nonzero_tokens(n_i, tier_i) =~= high);
            } else {
                let cur_toks = group_tokens(g_i) + magnitude_suffix(tier_i);
                lemma_group_shape(g_i);
                assert(cur_toks.first() == group_tokens(g_i).first());
                if tier > 0 {
                    lemma_render_join(
                        Script::Kanji,
                        group_tokens(g_i),
                        seq![NumToken::Magnitude(tier_i)],
                    );
                    lemma_render_join(
                        Script::Katakana,
                        group_tokens(g_i),
                        seq![NumToken::Magnitude(tier_i)],
                    );
                    lemma_render_join(
                        Script::Romaji,
                        group_tokens(g_i),
                        seq![NumToken::Magnitude(tier_i)],
                    );
                    lemma_render_single(Script::Kanji, NumToken::Magnitude(tier_i));
                    lemma_render_single(Script::Katakana, NumToken::Magnitude(tier_i));
                    lemma_render_single(Script::Romaji, NumToken::Magnitude(tier_i));
                    assert(cur_toks =~= group_tokens(g_i) + seq![NumToken::Magnitude(tier_i)]);
                } else {
                    assert(cur_toks =~= group_tokens(g_i));
                }
                lemma_render_join(Script::Kanji, high, cur_toks);
                lemma_render_join(Script::Katakana, high, cur_toks);
                lemma_render_join(Script::Romaji, high, cur_toks);
                assert(nonzero_tokens(n_i, tier_i) =~= high + cur_toks);
            }
            assert(result_kanji@ =~= render(Script::Kanji, nonzero_tokens(n_i, tier_i)));
            assert(result_katakana@ =~= render(Script::Katakana, nonzero_tokens(n_i, tier_i)));
            assert(result_romaji@ =~= render(Script::Romaji, nonzero_tokens(n_i, tier_i)));
        }
        (result_kanji, result_katakana, result_romaji)
    }
}

/// The whole-number formatter: zero becomes the zero word in each
/// script, anything else its group decomposition.
fn over_10k(number: usize) -> (r: JapaneseNumber)
    ensures
        r.spec_arabiasuji() == number,
        r.wf(),
{
    if number == 0 {
        let words = unit_words(0);
        proof {
            lemma_render_single(Script::Kanji, NumToken::Zero);
            lemma_render_single(Script::Katakana, NumToken::Zero);
            lemma_render_single(Script::Romaji, NumToken::Zero);
            assert(number_tokens(0) =~= seq![NumToken::Zero]);
        }
        JapaneseNumber {
            arabiasuji: number,
            kanji: words.0.to_owned(),
            romaji: words.2.to_owned(),
            katakana: words.1.to_owned(),
        }
    } else {
        proof {
            lemma_digits4_usize(number as nat);
        }
        let (result_kanji, result_katakana, result_romaji) = render_groups(number, 0);
        JapaneseNumber {
            arabiasuji: number,
            kanji: result_kanji,
            romaji: result_romaji,
            katakana: result_katakana,
        }
    }
}

} // verus!
