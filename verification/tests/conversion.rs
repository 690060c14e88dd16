use japanese_number_converter::japanese_number::JapaneseNumber;

fn expect(number: usize, kanji: &str, katakana: &str, romaji: &str) {
    let r = JapaneseNumber::convert(number);
    assert_eq!(r.arabiasuji(), number);
    assert_eq!(r.kanji().as_str(), kanji);
    assert_eq!(r.katakana().as_str(), katakana);
    assert_eq!(r.romaji().as_str(), romaji);
}

#[test]
fn single_words_zero_to_ten() {
    expect(0, "零", "レ", "rei");
    expect(1, "一", "イチ", "ichi");
    expect(2, "ニ", "ニ", "ni");
    expect(3, "三", "サン", "san");
    expect(4, "四", "よん", "yon");
    expect(5, "五", "ゴ", "go");
    expect(6, "六", "ロク", "roku");
    expect(7, "七", "ナナ", "nana");
    expect(8, "八", "ハチ", "hachi");
    expect(9, "九", "キュウ", "kyū");
    expect(10, "十", "ジュウ", "jū");
}

#[test]
fn ten_elides_leading_one() {
    let r = JapaneseNumber::convert(10);
    assert_eq!(r.romaji().as_str(), "jū");
    assert!(!r.romaji().contains("ichi"));
    assert_eq!(r.kanji().as_str(), "十");
    assert_eq!(r.katakana().as_str(), "ジュウ");
}

#[test]
fn eleven_is_ten_plus_one() {
    expect(11, "十一", "ジュウ イチ", "jū ichi");
}

#[test]
fn hundred_elides_leading_one() {
    expect(100, "百", "ヒャク", "hyaku");
}

#[test]
fn two_hundred_keeps_digit_word() {
    expect(200, "ニ百", "ニ ヒャク", "ni hyaku");
}

#[test]
fn thousand_elides_leading_one() {
    expect(1000, "千", "セン", "sen");
}

#[test]
fn two_thousand_keeps_digit_word() {
    expect(2000, "ニ千", "ニ セン", "ni sen");
}

#[test]
fn zero_is_never_empty() {
    let r = JapaneseNumber::convert(0);
    assert!(!r.kanji().is_empty());
    assert!(!r.katakana().is_empty());
    assert!(!r.romaji().is_empty());
    assert_eq!(r.kanji().as_str(), "零");
    assert_eq!(r.katakana().as_str(), "レ");
    assert_eq!(r.romaji().as_str(), "rei");
}

#[test]
fn ten_thousand_one_skips_empty_tiers() {
    expect(10001, "一万一", "イチマン イチ", "ichi man ichi");
}

#[test]
fn twenty_thousand_has_no_trailing_separator() {
    expect(20000, "ニ万", "ニマン", "ni man");
}

#[test]
fn breakdown_matches_across_scripts_for_sample() {
    expect(0, "零", "レ", "rei");
    expect(1, "一", "イチ", "ichi");
    expect(10, "十", "ジュウ", "jū");
    expect(11, "十一", "ジュウ イチ", "jū ichi");
    expect(99, "九十九", "キュウ ジュウ キュウ", "kyū jū kyū");
    expect(100, "百", "ヒャク", "hyaku");
    expect(101, "百一", "ヒャク イチ", "hyaku ichi");
    expect(999, "九百九十九", "キュウ ヒャク キュウ ジュウ キュウ", "kyū hyaku kyū jū kyū");
    expect(1000, "千", "セン", "sen");
    expect(
        9999,
        "九千九百九十九",
        "キュウ セン キュウ ヒャク キュウ ジュウ キュウ",
        "kyū sen kyū hyaku kyū jū kyū",
    );
    expect(10000, "一万", "イチマン", "ichi man");
    expect(100000000, "一億", "イチオク", "ichi oku");
}

#[test]
fn converting_twice_is_identical() {
    for n in [0usize, 7, 10, 11, 99, 110, 2345, 10001, 123456789] {
        let a = JapaneseNumber::convert(n);
        let b = JapaneseNumber::convert(n);
        assert_eq!(a.arabiasuji(), b.arabiasuji());
        assert_eq!(a.kanji(), b.kanji());
        assert_eq!(a.katakana(), b.katakana());
        assert_eq!(a.romaji(), b.romaji());
    }
}

#[test]
fn hundred_ten_joins_tiers() {
    expect(110, "百十", "ヒャク ジュウ", "hyaku jū");
}

#[test]
fn nine_digit_number_spans_three_groups() {
    expect(
        123456789,
        "一億ニ千三百四十五万六千七百八十九",
        "イチオク ニ セン サン ヒャク よん ジュウ ゴマン ロク セン ナナ ヒャク ハチ ジュウ キュウ",
        "ichi oku ni sen san hyaku yon jū go man roku sen nana hyaku hachi jū kyū",
    );
}

#[test]
fn ten_quadrillion_uses_highest_magnitude() {
    expect(10000000000000000, "一京", "イチケイ", "ichi kei");
}

#[test]
fn ten_quintillion_renders_thousand_of_highest_magnitude() {
    expect(10000000000000000000, "千京", "センケイ", "sen kei");
}

#[test]
fn distinct_values_render_distinct_kanji() {
    let sample: [usize; 12] = [0, 1, 10, 11, 99, 100, 101, 999, 1000, 9999, 10000, 100000000];
    for (i, a) in sample.iter().enumerate() {
        for b in sample.iter().skip(i + 1) {
            let ra = JapaneseNumber::convert(*a);
            let rb = JapaneseNumber::convert(*b);
            assert_ne!(ra.kanji(), rb.kanji());
        }
    }
}

#[test]
fn largest_value_renders_all_five_groups() {
    expect(
        18446744073709551615,
        "千八百四十四京六千七百四十四兆七百三十七億九百五十五万千六百十五",
        "セン ハチ ヒャク よん ジュウ よんケイ ロク セン ナナ ヒャク よん ジュウ よんチョオ \
         ナナ ヒャク サン ジュウ ナナオク キュウ ヒャク ゴ ジュウ ゴマン セン ロク ヒャク ジュウ ゴ",
        "sen hachi hyaku yon jū yon kei roku sen nana hyaku yon jū yon chō \
         nana hyaku san jū nana oku kyū hyaku go jū go man sen roku hyaku jū go",
    );
}
