use vstd::prelude::*;

use crate::lexicon::{hundred_words, thousand_words, unit_token, unit_words, NumToken, Script};
use crate::rendering::{
    lemma_render_join, lemma_render_single, lemma_render_three, lemma_render_two, render,
};
use crate::tokens::{
    hundreds_tokens, lemma_hundreds_shape, lemma_tens_shape, tens_tokens, thousands_tokens,
    units_tokens,
};

verus! {

/// Renders a value of the units table (zero to ten) as its single
/// lexicon word in each script; any larger value yields empty strings.
pub fn less_than_11(number: usize) -> (r: (String, String, String))
    ensures
        number <= 10 ==> r.0@ == render(Script::Kanji, units_tokens(number as int)) && r.1@
            == render(Script::Katakana, units_tokens(number as int)) && r.2@ == render(
            Script::Romaji,
            units_tokens(number as int),
        ),
        number > 10 ==> r.0@ == Seq::<char>::empty() && r.1@ == Seq::<char>::empty() && r.2@
            == Seq::<char>::empty(),
{
    let mut result_kanji = String::new();
    let mut result_katakana = String::new();
    let mut result_romaji = String::new();
    if number <= 10 {
        let words = unit_words(number);
        result_kanji.append(words.0);
        result_katakana.append(words.1);
        result_romaji.append(words.2);
        proof {
            let t = unit_token(number as int);
            lemma_render_single(Script::Kanji, t);
            lemma_render_single(Script::Katakana, t);
            lemma_render_single(Script::Romaji, t);
            assert(result_kanji@ =~= render(Script::Kanji, units_tokens(number as int)));
            assert(result_katakana@ =~= render(Script::Katakana, units_tokens(number as int)));
            assert(result_romaji@ =~= render(Script::Romaji, units_tokens(number as int)));
        }
    }
    (result_kanji, result_katakana, result_romaji)
}

/// Renders a value of the tens tier (zero to 99): the tens word with
/// its elision rule, then the units; any larger value yields empty
/// strings.
pub fn less_than_100(number: usize) -> (r: (String, String, String))
    ensures
        number < 100 ==> r.0@ == render(Script::Kanji, tens_tokens(number as int)) && r.1@
            == render(Script::Katakana, tens_tokens(number as int)) && r.2@ == render(
            Script::Romaji,
            tens_tokens(number as int),
        ),
        number >= 100 ==> r.0@ == Seq::<char>::empty() && r.1@ == Seq::<char>::empty() && r.2@
            == Seq::<char>::empty(),
{
    let mut result_kanji = String::new();
    let mut result_katakana = String::new();
    let mut result_romaji = String::new();
    if number < 100 {
        let decimal = number / 10;
        let left = number % 10;
        if decimal > 0 {
            if decimal > 1 {
                let words = unit_words(decimal);
                result_kanji.append(words.0);
                result_katakana.append(words.1);
                result_katakana.append(" ");
                result_romaji.append(words.2);
                result_romaji.append(" ");
            }
            let ten = unit_words(10);
            result_kanji.append(ten.0);
            result_katakana.append(ten.1);
            result_romaji.append(ten.2);
        }
        if left > 0 {
            if decimal > 0 {
                result_katakana.append(" ");
                result_romaji.append(" ");
            }
            let words = unit_words(left);
            result_kanji.append(words.0);
            result_katakana.append(words.1);
            result_romaji.append(words.2);
        }
        proof {
            reveal_strlit(" ");
            let n: int = number as int;
            let d: int = n / 10;
            let rr: int = n % 10;
            let u = unit_token(rr);
            if d == 0 {
                if rr == 0 {
                    assert(tens_tokens(n) =~= Seq::<NumToken>::empty());
                } else {
                    assert(tens_tokens(n) =~= seq![u]);
                    lemma_render_single(Script::Kanji, u);
                    lemma_render_single(Script::Katakana, u);
                    lemma_render_single(Script::Romaji, u);
                }
            } else if d == 1 {
                if rr == 0 {
                    assert(tens_tokens(n) =~= seq![NumToken::Ten]);
                    lemma_render_single(Script::Kanji, NumToken::Ten);
                    lemma_render_single(Script::Katakana, NumToken::Ten);
                    lemma_render_single(Script::Romaji, NumToken::Ten);
                } else {
                    assert(tens_tokens(n) =~= seq![NumToken::Ten, u]);
                    lemma_render_two(Script::Kanji, NumToken::Ten, u);
                    lemma_render_two(Script::Katakana, NumToken::Ten, u);
                    lemma_render_two(Script::Romaji, NumToken::Ten, u);
                }
            } else {
                let dt = NumToken::Digit(d);
                if rr == 0 {
                    assert(tens_tokens(n) =~= seq![dt, NumToken::Ten]);
                    lemma_render_two(Script::Kanji, dt, NumToken::Ten);
                    lemma_render_two(Script::Katakana, dt, NumToken::Ten);
                    lemma_render_two(Script::Romaji, dt, NumToken::Ten);
                } else {
                    assert(tens_tokens(n) =~= seq![dt, NumToken::Ten, u]);
                    lemma_render_three(Script::Kanji, dt, NumToken::Ten, u);
                    lemma_render_three(Script::Katakana, dt, NumToken::Ten, u);
                    lemma_render_three(Script::Romaji, dt, NumToken::Ten, u);
                }
            }
            assert(result_kanji@ =~= render(Script::Kanji, tens_tokens(n)));
            assert(result_katakana@ =~= render(Script::Katakana, tens_tokens(n)));
            assert(result_romaji@ =~= render(Script::Romaji, tens_tokens(n)));
        }
    }
    (result_kanji, result_katakana, result_romaji)
}

/// Renders a value of the hundreds tier (zero to 999): the hundreds
/// word with its elision rule, then the tens tier; any larger value
/// yields empty strings.
pub fn less_than_1000(number: usize) -> (r: (String, String, String))
    ensures
        number < 1000 ==> r.0@ == render(Script::Kanji, hundreds_tokens(number as int)) && r.1@
            == render(Script::Katakana, hundreds_tokens(number as int)) && r.2@ == render(
            Script::Romaji,
            hundreds_tokens(number as int),
        ),
        number >= 1000 ==> r.0@ == Seq::<char>::empty() && r.1@ == Seq::<char>::empty() && r.2@
            == Seq::<char>::empty(),
{
    let mut result_kanji = String::new();
    let mut result_katakana = String::new();
    let mut result_romaji = String::new();
    if number < 1000 {
        let hundred = number / 100;
        let left = number % 100;
        if hundred > 0 {
            if hundred > 1 {
                let words = unit_words(hundred);
                result_kanji.append(words.0);
                result_katakana.append(words.1);
                result_katakana.append(" ");
                result_romaji.append(words.2);
                result_romaji.append(" ");
            }
            let unit = hundred_words();
            result_kanji.append(unit.0);
            result_katakana.append(unit.1);
            result_romaji.append(unit.2);
        }
        if left > 0 {
            let lower = less_than_100(left);
            if hundred > 0 {
                result_katakana.append(" ");
                result_romaji.append(" ");
            }
            result_kanji.append(lower.0.as_str());
            result_katakana.append(lower.1.as_str());
            result_romaji.append(lower.2.as_str());
        }
        proof {
            reveal_strlit(" ");
            let n: int = number as int;
            let h: int = n / 100;
            let rr: int = n % 100;
            let tail = tens_tokens(rr);
            lemma_tens_shape(rr);
            let head: Seq<NumToken> = if h == 1 {
                seq![NumToken::Hundred]
            } else {
                seq![NumToken::Digit(h), NumToken::Hundred]
            };
            if h == 0 {
                assert(hundreds_tokens(n) =~= tail);
            } else {
                assert(hundreds_tokens(n) =~= head + tail);
                if h == 1 {
                    lemma_render_single(Script::Kanji, NumToken::Hundred);
                    lemma_render_single(Script::Katakana, NumToken::Hundred);
                    lemma_render_single(Script::Romaji, NumToken::Hundred);
                } else {
                    lemma_render_two(Script::Kanji, NumToken::Digit(h), NumToken::Hundred);
                    lemma_render_two(Script::Katakana, NumToken::Digit(h), NumToken::Hundred);
                    lemma_render_two(Script::Romaji, NumToken::Digit(h), NumToken::Hundred);
                }
                if rr == 0 {
                    assert(hundreds_tokens(n) =~= head);
                } else {
                    lemma_render_join(Script::Kanji, head, tail);
                    lemma_render_join(Script::Katakana, head, tail);
                    lemma_render_join(Script::Romaji, head, tail);
                }
            }
            assert(result_kanji@ =~= render(Script::Kanji, hundreds_tokens(n)));
            assert(result_katakana@ =~= render(Script::Katakana, hundreds_tokens(n)));
            assert(result_romaji@ =~= render(Script::Romaji, hundreds_tokens(n)));
        }
    }
    (result_kanji, result_katakana, result_romaji)
}

/// Renders a value of the thousands tier (zero to 9999): the thousands
/// word with its elision rule, then the hundreds tier; any larger
/// value yields empty strings.
pub fn less_than_10k(number: usize) -> (r: (String, String, String))
    ensures
        number < 10000 ==> r.0@ == render(Script::Kanji, thousands_tokens(number as int)) && r.1@
            == render(Script::Katakana, thousands_tokens(number as int)) && r.2@ == render(
            Script::Romaji,
            thousands_tokens(number as int),
        ),
        number >= 10000 ==> r.0@ == Seq::<char>::empty() && r.1@ == Seq::<char>::empty() && r.2@
            == Seq::<char>::empty(),
{
    let mut result_kanji = String::new();
    let mut result_katakana = String::new();
    let mut result_romaji = String::new();
    if number < 10000 {
        let thousand = number / 1000;
        let left = number % 1000;
        if thousand > 0 {
            if thousand > 1 {
                let words = unit_words(thousand);
                result_kanji.append(words.0);
                result_katakana.append(words.1);
                result_katakana.append(" ");
                result_romaji.append(words.2);
                result_romaji.append(" ");
            }
            let unit = thousand_words();
            result_kanji.append(unit.0);
            result_katakana.append(unit.1);
            result_romaji.append(unit.2);
        }
        if left > 0 {
            let lower = less_than_1000(left);
            if thousand > 0 {
                result_katakana.append(" ");
                result_romaji.append(" ");
            }
            result_kanji.append(lower.0.as_str());
            result_katakana.append(lower.1.as_str());
            result_romaji.append(lower.2.as_str());
        }
        proof {
            reveal_strlit(" ");
            let n: int = number as int;
            let t: int = n / 1000;
            let rr: int = n % 1000;
            let tail = hundreds_tokens(rr);
            lemma_hundreds_shape(rr);
            let head: Seq<NumToken> = if t == 1 {
                seq![NumToken::Thousand]
            } else {
                seq![NumToken::Digit(t), NumToken::Thousand]
            };
            if t == 0 {
                assert(thousands_tokens(n) =~= tail);
            } else {
                assert(thousands_tokens(n) =~= head + tail);
                if t == 1 {
                    lemma_render_single(Script::Kanji, NumToken::Thousand);
                    lemma_render_single(Script::Katakana, NumToken::Thousand);
                    lemma_render_single(Script::Romaji, NumToken::Thousand);
                } else {
                    lemma_render_two(Script::Kanji, NumToken::Digit(t), NumToken::Thousand);
                    lemma_render_two(Script::Katakana, NumToken::Digit(t), NumToken::Thousand);
                    lemma_render_two(Script::Romaji, NumToken::Digit(t), NumToken::Thousand);
                }
                if rr == 0 {
                    assert(thousands_tokens(n) =~= head);
                } else {
                    lemma_render_join(Script::Kanji, head, tail);
                    lemma_render_join(Script::Katakana, head, tail);
                    lemma_render_join(Script::Romaji, head, tail);
                }
            }
            assert(result_kanji@ =~= render(Script::Kanji, thousands_tokens(n)));
            assert(result_katakana@ =~= render(Script::Katakana, thousands_tokens(n)));
            assert(result_romaji@ =~= render(Script::Romaji, thousands_tokens(n)));
        }
    }
    (result_kanji, result_katakana, result_romaji)
}

} // verus!
