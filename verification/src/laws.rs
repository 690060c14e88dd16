use vstd::prelude::*;

use crate::japanese_number::JapaneseNumber;
use crate::lexicon::{
    kanji_word, katakana_word, romaji_word, unit_token, NumToken, Script,
};
use crate::rendering::{lead_word, lemma_render_single, render, render_more, separator};
use crate::tokens::{
    group_tokens, hundreds_tokens, lemma_group_shape, lemma_number_tokens_injective,
    lemma_number_tokens_valid, magnitude_suffix, nonzero_tokens, number_tokens, tens_tokens,
    thousands_tokens, valid_tok,
};
use vstd::arithmetic::div_mod::lemma_fundamental_div_mod_converse;

verus! {

/// A value up to ten is rendered as its single lexicon word in every
/// script, with no magnitude suffix and no separator.
pub proof fn lemma_single_word(n: int)
    requires
        0 <= n <= 10,
    ensures
        number_tokens(n) =~= seq![unit_token(n)],
        render(Script::Kanji, number_tokens(n)) == kanji_word(unit_token(n)),
        render(Script::Katakana, number_tokens(n)) == katakana_word(unit_token(n)),
        render(Script::Romaji, number_tokens(n)) == romaji_word(unit_token(n)),
{
    assert(number_tokens(n) =~= seq![unit_token(n)]);
    lemma_render_single(Script::Kanji, unit_token(n));
    lemma_render_single(Script::Katakana, unit_token(n));
    lemma_render_single(Script::Romaji, unit_token(n));
}

/// Elision at the tens tier: a tens count of one yields the bare word
/// "ten", never a leading "one".
pub proof fn lemma_tens_elision(n: int)
    requires
        10 <= n <= 19,
    ensures
        tens_tokens(n) =~= seq![NumToken::Ten] + (if n == 10 {
            Seq::<NumToken>::empty()
        } else {
            seq![unit_token(n - 10)]
        }),
{
    assert(n / 10 == 1);
    assert(n % 10 == n - 10);
}

/// Elision at the hundreds tier: a hundreds count of one yields the
/// bare word "hundred", never a leading "one".
pub proof fn lemma_hundreds_elision(n: int)
    requires
        100 <= n <= 199,
    ensures
        hundreds_tokens(n) =~= seq![NumToken::Hundred] + tens_tokens(n - 100),
{
    assert(n / 100 == 1);
    assert(n % 100 == n - 100);
}

/// A hundreds count above one carries its digit word before "hundred".
pub proof fn lemma_hundreds_digit(n: int)
    requires
        200 <= n <= 999,
    ensures
        hundreds_tokens(n) =~= seq![NumToken::Digit(n / 100), NumToken::Hundred] + tens_tokens(
            n % 100,
        ),
{
    assert(n / 100 > 1);
}

/// Elision at the thousands tier: a thousands count of one yields the
/// bare word "thousand", never a leading "one".
pub proof fn lemma_thousands_elision(n: int)
    requires
        1000 <= n <= 1999,
    ensures
        thousands_tokens(n) =~= seq![NumToken::Thousand] + hundreds_tokens(n - 1000),
{
    assert(n / 1000 == 1);
    assert(n % 1000 == n - 1000);
}

/// A thousands count above one carries its digit word before
/// "thousand".
pub proof fn lemma_thousands_digit(n: int)
    requires
        2000 <= n <= 9999,
    ensures
        thousands_tokens(n) =~= seq![NumToken::Digit(n / 1000), NumToken::Thousand]
            + hundreds_tokens(n % 1000),
{
    assert(n / 1000 > 1);
}

/// Zero is rendered as the fixed zero word in every script, and that
/// word is never the empty string.
pub proof fn lemma_zero_word()
    ensures
        number_tokens(0) =~= seq![NumToken::Zero],
        render(Script::Kanji, number_tokens(0)) == kanji_word(NumToken::Zero),
        render(Script::Katakana, number_tokens(0)) == katakana_word(NumToken::Zero),
        render(Script::Romaji, number_tokens(0)) == romaji_word(NumToken::Zero),
        render(Script::Kanji, number_tokens(0)).len() > 0,
        render(Script::Katakana, number_tokens(0)).len() > 0,
        render(Script::Romaji, number_tokens(0)).len() > 0,
{
    reveal_strlit("零");
    reveal_strlit("レ");
    reveal_strlit("rei");
    lemma_render_single(Script::Kanji, NumToken::Zero);
    lemma_render_single(Script::Katakana, NumToken::Zero);
    lemma_render_single(Script::Romaji, NumToken::Zero);
}

/// Splitting at the ten-thousands: the higher group is rendered with
/// the ten-thousand magnitude word, and the lower group follows with
/// no stray suffix; a zero lower group contributes nothing at all.
pub proof fn lemma_group_split(high: int, low: int)
    requires
        1 <= high <= 9999,
        0 <= low <= 9999,
    ensures
        number_tokens(high * 10000 + low) =~= group_tokens(high) + seq![NumToken::Magnitude(1)]
            + group_tokens(low),
{
    let n: int = high * 10000 + low;
    lemma_fundamental_div_mod_converse(n, 10000, high, low);
    assert(n / 10000 == high);
    assert(n % 10000 == low);
    lemma_group_shape(low);
    assert(nonzero_tokens(high, 1) =~= group_tokens(high) + seq![NumToken::Magnitude(1)]);
    if low == 0 {
        assert(nonzero_tokens(n, 0) =~= nonzero_tokens(high, 1));
    } else {
        assert(nonzero_tokens(n, 0) =~= nonzero_tokens(high, 1) + (group_tokens(low)
            + magnitude_suffix(0)));
    }
    assert(number_tokens(n) =~= group_tokens(high) + seq![NumToken::Magnitude(1)] + group_tokens(
        low,
    ));
}

/// All three scripts of a well-formed conversion result render one
/// common token sequence: the same magnitude breakdown, word for word.
pub proof fn lemma_same_breakdown(a: JapaneseNumber)
    requires
        a.wf(),
    ensures
        exists|toks: Seq<NumToken>|
            a.spec_kanji() == render(Script::Kanji, toks) && a.spec_katakana() == render(
                Script::Katakana,
                toks,
            ) && a.spec_romaji() == render(Script::Romaji, toks),
{
    let toks = number_tokens(a.spec_arabiasuji() as int);
    assert(a.spec_kanji() == render(Script::Kanji, toks) && a.spec_katakana() == render(
        Script::Katakana,
        toks,
    ) && a.spec_romaji() == render(Script::Romaji, toks));
}

/// The one kanji character a well-formed token renders to.
spec fn kanji_char(t: NumToken) -> char {
    match t {
        NumToken::Zero => '零',
        NumToken::Digit(d) => if d == 1 {
            '一'
        } else if d == 2 {
            'ニ'
        } else if d == 3 {
            '三'
        } else if d == 4 {
            '四'
        } else if d == 5 {
            '五'
        } else if d == 6 {
            '六'
        } else if d == 7 {
            '七'
        } else if d == 8 {
            '八'
        } else {
            '九'
        },
        NumToken::Ten => '十',
        NumToken::Hundred => '百',
        NumToken::Thousand => '千',
        NumToken::Magnitude(k) => if k == 1 {
            '万'
        } else if k == 2 {
            '億'
        } else if k == 3 {
            '兆'
        } else {
            '京'
        },
    }
}

/// Every well-formed token renders to exactly its one kanji character.
proof fn lemma_kanji_word_char(t: NumToken)
    requires
        valid_tok(t),
    ensures
        kanji_word(t) == seq![kanji_char(t)],
{
    match t {
        NumToken::Zero => {
            reveal_strlit("零");
            assert(kanji_word(t) =~= seq![kanji_char(t)]);
        },
        NumToken::Digit(d) => {
            if d == 1 {
                reveal_strlit("一");
            } else if d == 2 {
                reveal_strlit("ニ");
            } else if d == 3 {
                reveal_strlit("三");
            } else if d == 4 {
                reveal_strlit("四");
            } else if d == 5 {
                reveal_strlit("五");
            } else if d == 6 {
                reveal_strlit("六");
            } else if d == 7 {
                reveal_strlit("七");
            } else if d == 8 {
                reveal_strlit("八");
            } else {
                reveal_strlit("九");
            }
            assert(kanji_word(t) =~= seq![kanji_char(t)]);
        },
        NumToken::Ten => {
            reveal_strlit("十");
            assert(kanji_word(t) =~= seq![kanji_char(t)]);
        },
        NumToken::Hundred => {
            reveal_strlit("百");
            assert(kanji_word(t) =~= seq![kanji_char(t)]);
        },
        NumToken::Thousand => {
            reveal_strlit("千");
            assert(kanji_word(t) =~= seq![kanji_char(t)]);
        },
        NumToken::Magnitude(k) => {
            if k == 1 {
                reveal_strlit("万");
            } else if k == 2 {
                reveal_strlit("億");
            } else if k == 3 {
                reveal_strlit("兆");
            } else {
                reveal_strlit("京");
            }
            assert(kanji_word(t) =~= seq![kanji_char(t)]);
        },
    }
}

/// Distinct well-formed tokens render to distinct kanji characters.
proof fn lemma_kanji_char_injective(t1: NumToken, t2: NumToken)
    requires
        valid_tok(t1),
        valid_tok(t2),
        kanji_char(t1) == kanji_char(t2),
    ensures
        t1 == t2,
{
}

/// Kanji writes no separators, so the bare rendering and the
/// continuation rendering coincide.
proof fn lemma_kanji_render_plain(toks: Seq<NumToken>)
    ensures
        render(Script::Kanji, toks) == render_more(Script::Kanji, toks),
{
    if toks.len() > 0 {
        assert(separator(Script::Kanji, toks.first()) =~= Seq::<char>::empty());
        assert(lead_word(Script::Kanji, toks.first()) =~= kanji_word(toks.first()));
        assert(render(Script::Kanji, toks) =~= render_more(Script::Kanji, toks));
    }
}

/// The kanji rendering of well-formed tokens has one character per
/// token, each token's own.
proof fn lemma_kanji_render_chars(toks: Seq<NumToken>)
    requires
        forall|i: int| 0 <= i < toks.len() ==> valid_tok(#[trigger] toks[i]),
    ensures
        render_more(Script::Kanji, toks).len() == toks.len(),
        forall|i: int|
            0 <= i < toks.len() ==> #[trigger] render_more(Script::Kanji, toks)[i] == kanji_char(
                toks[i],
            ),
    decreases toks.len(),
{
    if toks.len() > 0 {
        let first = toks.first();
        let rest = toks.drop_first();
        assert(valid_tok(first)) by {
            assert(toks[0] == first);
        }
        lemma_kanji_word_char(first);
        assert(forall|i: int| 0 <= i < rest.len() ==> valid_tok(#[trigger] rest[i]));
        lemma_kanji_render_chars(rest);
        assert(separator(Script::Kanji, first) =~= Seq::<char>::empty());
        assert(lead_word(Script::Kanji, first) =~= kanji_word(first));
        let r = render_more(Script::Kanji, toks);
        assert(r =~= seq![kanji_char(first)] + render_more(Script::Kanji, rest));
        assert forall|i: int| 0 <= i < toks.len() implies #[trigger] r[i] == kanji_char(
            toks[i],
        ) by {
            if i == 0 {
                assert(r[0] == kanji_char(first));
            } else {
                assert(r[i] == render_more(Script::Kanji, rest)[i - 1]);
                assert(toks[i] == rest[i - 1]);
            }
        }
    }
}

/// Well-formed token sequences with the same kanji rendering are the
/// same sequence.
proof fn lemma_kanji_render_injective(a: Seq<NumToken>, b: Seq<NumToken>)
    requires
        forall|i: int| 0 <= i < a.len() ==> valid_tok(#[trigger] a[i]),
        forall|i: int| 0 <= i < b.len() ==> valid_tok(#[trigger] b[i]),
        render_more(Script::Kanji, a) == render_more(Script::Kanji, b),
    ensures
        a == b,
{
    lemma_kanji_render_chars(a);
    lemma_kanji_render_chars(b);
    assert forall|i: int| 0 <= i < a.len() implies a[i] == b[i] by {
        assert(render_more(Script::Kanji, a)[i] == kanji_char(a[i]));
        assert(render_more(Script::Kanji, b)[i] == kanji_char(b[i]));
        lemma_kanji_char_injective(a[i], b[i]);
    }
    assert(a =~= b);
}

/// The kanji output is lossless: within the supported range, equal
/// kanji renderings can only come from the same number.
pub proof fn lemma_kanji_lossless(n: int, m: int)
    requires
        0 <= n < 100000000000000000000,
        0 <= m < 100000000000000000000,
        render(Script::Kanji, number_tokens(n)) == render(Script::Kanji, number_tokens(m)),
    ensures
        n == m,
{
    lemma_number_tokens_valid(n);
    lemma_number_tokens_valid(m);
    lemma_kanji_render_plain(number_tokens(n));
    lemma_kanji_render_plain(number_tokens(m));
    lemma_kanji_render_injective(number_tokens(n), number_tokens(m));
    lemma_number_tokens_injective(n, m);
}

/// Conversion is a pure function of its input: two well-formed results
/// for the same number carry identical strings.
pub proof fn lemma_deterministic(a: JapaneseNumber, b: JapaneseNumber)
    requires
        a.wf(),
        b.wf(),
        a.spec_arabiasuji() == b.spec_arabiasuji(),
    ensures
        a.spec_kanji() == b.spec_kanji(),
        a.spec_katakana() == b.spec_katakana(),
        a.spec_romaji() == b.spec_romaji(),
{
}

} // verus!
