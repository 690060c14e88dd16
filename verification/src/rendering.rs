use vstd::prelude::*;

use crate::lexicon::{tok_str, NumToken, Script};

verus! {

/// Whether a token is a magnitude word; these attach to their group
/// without a space in katakana and kanji.
pub open spec fn is_mag(t: NumToken) -> bool {
    t matches NumToken::Magnitude(_)
}

/// The separator written before a word. Kanji has none; katakana and
/// romaji separate words with one space, except that katakana attaches
/// a magnitude word directly to its group.
pub open spec fn separator(script: Script, t: NumToken) -> Seq<char> {
    match script {
        Script::Kanji => Seq::empty(),
        Script::Katakana => if is_mag(t) {
            Seq::empty()
        } else {
            seq![' ']
        },
        Script::Romaji => seq![' '],
    }
}

/// A word together with its leading separator.
pub open spec fn lead_word(script: Script, t: NumToken) -> Seq<char> {
    separator(script, t) + tok_str(script, t)
}

/// The rendering of a token sequence that continues an earlier one:
/// every word carries its leading separator.
pub open spec fn render_more(script: Script, toks: Seq<NumToken>) -> Seq<char>
    decreases toks.len(),
{
    if toks.len() == 0 {
        Seq::empty()
    } else {
        lead_word(script, toks.first()) + render_more(script, toks.drop_first())
    }
}

/// The rendering of a token sequence: the first word stands bare, each
/// later word carries its leading separator.
pub open spec fn render(script: Script, toks: Seq<NumToken>) -> Seq<char> {
    if toks.len() == 0 {
        Seq::empty()
    } else {
        tok_str(script, toks.first()) + render_more(script, toks.drop_first())
    }
}

/// Continuation renderings distribute over concatenation.
pub proof fn lemma_render_more_concat(script: Script, a: Seq<NumToken>, b: Seq<NumToken>)
    ensures
        render_more(script, a + b) == render_more(script, a) + render_more(script, b),
    decreases a.len(),
{
    if a.len() == 0 {
        assert(a + b =~= b);
        assert(render_more(script, a) + render_more(script, b) =~= render_more(script, b));
    } else {
        assert((a + b).drop_first() =~= a.drop_first() + b);
        lemma_render_more_concat(script, a.drop_first(), b);
        assert(render_more(script, a + b) =~= render_more(script, a) + render_more(script, b));
    }
}

/// A non-empty continuation is the separator for its first word
/// followed by the bare rendering.
pub proof fn lemma_render_more_nonempty(script: Script, toks: Seq<NumToken>)
    requires
        toks.len() > 0,
    ensures
        render_more(script, toks) == separator(script, toks.first()) + render(script, toks),
{
    assert(render_more(script, toks) =~= separator(script, toks.first()) + render(script, toks));
}

/// Rendering a concatenation: the first part bare, the second as a
/// continuation.
pub proof fn lemma_render_concat(script: Script, a: Seq<NumToken>, b: Seq<NumToken>)
    requires
        a.len() > 0,
    ensures
        render(script, a + b) == render(script, a) + render_more(script, b),
{
    assert((a + b).drop_first() =~= a.drop_first() + b);
    lemma_render_more_concat(script, a.drop_first(), b);
    assert(render(script, a + b) =~= render(script, a) + render_more(script, b));
}

/// Rendering a tier: a non-empty head followed by a non-empty lower
/// part, joined by the separator of the lower part's first word.
pub proof fn lemma_render_join(script: Script, head: Seq<NumToken>, tail: Seq<NumToken>)
    requires
        head.len() > 0,
        tail.len() > 0,
    ensures
        render(script, head + tail) == render(script, head) + separator(script, tail.first())
            + render(script, tail),
{
    lemma_render_concat(script, head, tail);
    lemma_render_more_nonempty(script, tail);
    assert(render(script, head + tail) =~= render(script, head) + separator(
        script,
        tail.first(),
    ) + render(script, tail));
}

/// Rendering one token is its word alone.
pub proof fn lemma_render_single(script: Script, t: NumToken)
    ensures
        render(script, seq![t]) == tok_str(script, t),
{
    assert(seq![t].drop_first() =~= Seq::<NumToken>::empty());
    assert(render(script, seq![t]) =~= tok_str(script, t));
}

/// A one-token continuation is the separator followed by the word.
pub proof fn lemma_render_more_single(script: Script, t: NumToken)
    ensures
        render_more(script, seq![t]) == separator(script, t) + tok_str(script, t),
{
    assert(seq![t].drop_first() =~= Seq::<NumToken>::empty());
    assert(render_more(script, Seq::<NumToken>::empty()) =~= Seq::<char>::empty());
    assert(render_more(script, seq![t]) =~= separator(script, t) + tok_str(script, t));
}

/// Rendering two tokens: the first word bare, the second led by its
/// separator.
pub proof fn lemma_render_two(script: Script, t1: NumToken, t2: NumToken)
    ensures
        render(script, seq![t1, t2]) == tok_str(script, t1) + separator(script, t2) + tok_str(
            script,
            t2,
        ),
{
    assert(seq![t1, t2] =~= seq![t1] + seq![t2]);
    lemma_render_concat(script, seq![t1], seq![t2]);
    lemma_render_single(script, t1);
    lemma_render_more_single(script, t2);
    assert(render(script, seq![t1, t2]) =~= tok_str(script, t1) + separator(script, t2) + tok_str(
        script,
        t2,
    ));
}

/// Rendering three tokens: the first word bare, the later two led by
/// their separators.
pub proof fn lemma_render_three(script: Script, t1: NumToken, t2: NumToken, t3: NumToken)
    ensures
        render(script, seq![t1, t2, t3]) == tok_str(script, t1) + separator(script, t2) + tok_str(
            script,
            t2,
        ) + separator(script, t3) + tok_str(script, t3),
{
    assert(seq![t1, t2, t3] =~= seq![t1, t2] + seq![t3]);
    lemma_render_concat(script, seq![t1, t2], seq![t3]);
    lemma_render_two(script, t1, t2);
    lemma_render_more_single(script, t3);
    assert(render(script, seq![t1, t2, t3]) =~= tok_str(script, t1) + separator(script, t2)
        + tok_str(script, t2) + separator(script, t3) + tok_str(script, t3));
}

} // verus!
