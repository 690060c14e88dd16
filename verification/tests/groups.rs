use japanese_number_converter::convert::{
    less_than_10k, less_than_100, less_than_1000, less_than_11,
};

fn expect(r: (String, String, String), kanji: &str, katakana: &str, romaji: &str) {
    assert_eq!(r.0.as_str(), kanji);
    assert_eq!(r.1.as_str(), katakana);
    assert_eq!(r.2.as_str(), romaji);
}

#[test]
fn units_render_single_words() {
    expect(less_than_11(0), "零", "レ", "rei");
    expect(less_than_11(4), "四", "よん", "yon");
    expect(less_than_11(10), "十", "ジュウ", "jū");
}

#[test]
fn units_out_of_range_is_empty() {
    expect(less_than_11(11), "", "", "");
}

#[test]
fn tens_tier_renders_with_elision() {
    expect(less_than_100(0), "", "", "");
    expect(less_than_100(7), "七", "ナナ", "nana");
    expect(less_than_100(10), "十", "ジュウ", "jū");
    expect(less_than_100(11), "十一", "ジュウ イチ", "jū ichi");
    expect(less_than_100(45), "四十五", "よん ジュウ ゴ", "yon jū go");
    expect(less_than_100(90), "九十", "キュウ ジュウ", "kyū jū");
}

#[test]
fn tens_out_of_range_is_empty() {
    expect(less_than_100(100), "", "", "");
}

#[test]
fn hundreds_tier_renders_with_elision() {
    expect(less_than_1000(0), "", "", "");
    expect(less_than_1000(100), "百", "ヒャク", "hyaku");
    expect(less_than_1000(105), "百五", "ヒャク ゴ", "hyaku go");
    expect(less_than_1000(300), "三百", "サン ヒャク", "san hyaku");
    expect(
        less_than_1000(999),
        "九百九十九",
        "キュウ ヒャク キュウ ジュウ キュウ",
        "kyū hyaku kyū jū kyū",
    );
}

#[test]
fn hundreds_out_of_range_is_empty() {
    expect(less_than_1000(1000), "", "", "");
}

#[test]
fn thousands_tier_renders_with_elision() {
    expect(less_than_10k(0), "", "", "");
    expect(less_than_10k(1000), "千", "セン", "sen");
    expect(less_than_10k(1001), "千一", "セン イチ", "sen ichi");
    expect(
        less_than_10k(2345),
        "ニ千三百四十五",
        "ニ セン サン ヒャク よん ジュウ ゴ",
        "ni sen san hyaku yon jū go",
    );
}

#[test]
fn thousands_out_of_range_is_empty() {
    expect(less_than_10k(10000), "", "", "");
}
