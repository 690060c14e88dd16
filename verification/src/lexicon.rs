use vstd::prelude::*;

verus! {

/// The three output scripts.
pub enum Script {
    Kanji,
    Katakana,
    Romaji,
}

/// One word of a rendered numeral: the zero word, a digit from one to
/// nine, a small positional unit (ten, hundred, thousand), or a
/// base-10000 magnitude tier (ten-thousand, hundred-million, ...).
pub enum NumToken {
    Zero,
    Digit(int),
    Ten,
    Hundred,
    Thousand,
    Magnitude(int),
}

/// The token for a value in the units table: zero, a digit, or ten.
pub open spec fn unit_token(d: int) -> NumToken {
    if d == 0 {
        NumToken::Zero
    } else if d == 10 {
        NumToken::Ten
    } else {
        NumToken::Digit(d)
    }
}

/// The kanji word for a digit from one to nine.
pub open spec fn kanji_digit(d: int) -> Seq<char> {
    if d == 1 {
        "一"@
    } else if d == 2 {
        "ニ"@
    } else if d == 3 {
        "三"@
    } else if d == 4 {
        "四"@
    } else if d == 5 {
        "五"@
    } else if d == 6 {
        "六"@
    } else if d == 7 {
        "七"@
    } else if d == 8 {
        "八"@
    } else if d == 9 {
        "九"@
    } else {
        Seq::empty()
    }
}

/// The katakana word for a digit from one to nine.
pub open spec fn katakana_digit(d: int) -> Seq<char> {
    if d == 1 {
        "イチ"@
    } else if d == 2 {
        "ニ"@
    } else if d == 3 {
        "サン"@
    } else if d == 4 {
        "よん"@
    } else if d == 5 {
        "ゴ"@
    } else if d == 6 {
        "ロク"@
    } else if d == 7 {
        "ナナ"@
    } else if d == 8 {
        "ハチ"@
    } else if d == 9 {
        "キュウ"@
    } else {
        Seq::empty()
    }
}

/// The romaji word for a digit from one to nine.
pub open spec fn romaji_digit(d: int) -> Seq<char> {
    if d == 1 {
        "ichi"@
    } else if d == 2 {
        "ni"@
    } else if d == 3 {
        "san"@
    } else if d == 4 {
        "yon"@
    } else if d == 5 {
        "go"@
    } else if d == 6 {
        "roku"@
    } else if d == 7 {
        "nana"@
    } else if d == 8 {
        "hachi"@
    } else if d == 9 {
        "kyū"@
    } else {
        Seq::empty()
    }
}

/// The kanji word for a magnitude tier (1 = ten-thousand, 2 =
/// hundred-million, 3 = trillion, 4 = ten-quadrillion).
pub open spec fn kanji_magnitude(k: int) -> Seq<char> {
    if k == 1 {
        "万"@
    } else if k == 2 {
        "億"@
    } else if k == 3 {
        "兆"@
    } else if k == 4 {
        "京"@
    } else {
        Seq::empty()
    }
}

/// The katakana word for a magnitude tier.
pub open spec fn katakana_magnitude(k: int) -> Seq<char> {
    if k == 1 {
        "マン"@
    } else if k == 2 {
        "オク"@
    } else if k == 3 {
        "チョオ"@
    } else if k == 4 {
        "ケイ"@
    } else {
        Seq::empty()
    }
}

/// The romaji word for a magnitude tier.
pub open spec fn romaji_magnitude(k: int) -> Seq<char> {
    if k == 1 {
        "man"@
    } else if k == 2 {
        "oku"@
    } else if k == 3 {
        "chō"@
    } else if k == 4 {
        "kei"@
    } else {
        Seq::empty()
    }
}

/// The kanji word for a token.
pub open spec fn kanji_word(t: NumToken) -> Seq<char> {
    match t {
        NumToken::Zero => "零"@,
        NumToken::Digit(d) => kanji_digit(d),
        NumToken::Ten => "十"@,
        NumToken::Hundred => "百"@,
        NumToken::Thousand => "千"@,
        NumToken::Magnitude(k) => kanji_magnitude(k),
    }
}

/// The katakana word for a token.
pub open spec fn katakana_word(t: NumToken) -> Seq<char> {
    match t {
        NumToken::Zero => "レ"@,
        NumToken::Digit(d) => katakana_digit(d),
        NumToken::Ten => "ジュウ"@,
        NumToken::Hundred => "ヒャク"@,
        NumToken::Thousand => "セン"@,
        NumToken::Magnitude(k) => katakana_magnitude(k),
    }
}

/// The romaji word for a token.
pub open spec fn romaji_word(t: NumToken) -> Seq<char> {
    match t {
        NumToken::Zero => "rei"@,
        NumToken::Digit(d) => romaji_digit(d),
        NumToken::Ten => "jū"@,
        NumToken::Hundred => "hyaku"@,
        NumToken::Thousand => "sen"@,
        NumToken::Magnitude(k) => romaji_magnitude(k),
    }
}

/// The word for a token in the given script.
pub open spec fn tok_str(script: Script, t: NumToken) -> Seq<char> {
    match script {
        Script::Kanji => kanji_word(t),
        Script::Katakana => katakana_word(t),
        Script::Romaji => romaji_word(t),
    }
}

/// The (kanji, katakana, romaji) words for a value in the units table.
pub fn unit_words(d: usize) -> (r: (&'static str, &'static str, &'static str))
    requires
        d <= 10,
    ensures
        r.0@ == kanji_word(unit_token(d as int)),
        r.1@ == katakana_word(unit_token(d as int)),
        r.2@ == romaji_word(unit_token(d as int)),
{
    if d == 0 {
        ("零", "レ", "rei")
    } else if d == 1 {
        ("一", "イチ", "ichi")
    } else if d == 2 {
        ("ニ", "ニ", "ni")
    } else if d == 3 {
        ("三", "サン", "san")
    } else if d == 4 {
        ("四", "よん", "yon")
    } else if d == 5 {
        ("五", "ゴ", "go")
    } else if d == 6 {
        ("六", "ロク", "roku")
    } else if d == 7 {
        ("七", "ナナ", "nana")
    } else if d == 8 {
        ("八", "ハチ", "hachi")
    } else if d == 9 {
        ("九", "キュウ", "kyū")
    } else {
        ("十", "ジュウ", "jū")
    }
}

/// The (kanji, katakana, romaji) words for the hundreds unit.
pub fn hundred_words() -> (r: (&'static str, &'static str, &'static str))
    ensures
        r.0@ == kanji_word(NumToken::Hundred),
        r.1@ == katakana_word(NumToken::Hundred),
        r.2@ == romaji_word(NumToken::Hundred),
{
    ("百", "ヒャク", "hyaku")
}

/// The (kanji, katakana, romaji) words for the thousands unit.
pub fn thousand_words() -> (r: (&'static str, &'static str, &'static str))
    ensures
        r.0@ == kanji_word(NumToken::Thousand),
        r.1@ == katakana_word(NumToken::Thousand),
        r.2@ == romaji_word(NumToken::Thousand),
{
    ("千", "セン", "sen")
}

/// The (kanji, katakana, romaji) words for a magnitude tier.
pub fn magnitude_words(k: usize) -> (r: (&'static str, &'static str, &'static str))
    requires
        1 <= k <= 4,
    ensures
        r.0@ == kanji_word(NumToken::Magnitude(k as int)),
        r.1@ == katakana_word(NumToken::Magnitude(k as int)),
        r.2@ == romaji_word(NumToken::Magnitude(k as int)),
{
    if k == 1 {
        ("万", "マン", "man")
    } else if k == 2 {
        ("億", "オク", "oku")
    } else if k == 3 {
        ("兆", "チョオ", "chō")
    } else {
        ("京", "ケイ", "kei")
    }
}

} // verus!
