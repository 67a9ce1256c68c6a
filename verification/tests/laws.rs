//! What holds of the segmentation for every text, tried on chosen texts.

use voca_rs::count::{count, count_graphemes};
use voca_rs::escape::{escape_html, unescape_html};
use voca_rs::manipulate::{pad, pad_left, pad_right};
use voca_rs::split::{chars, graphemes, words};

const SAMPLES: [&str; 10] = [
    "",
    "rain",
    "cafe\u{0301}",
    "a\u{0310}e\u{0301}o\u{0308}\u{0332}\r\n",
    "b\u{0142}\u{0105}d",
    "Die Schildkröte fliegt über das Floß.",
    "LazyLoad with XMLHttpRequest and snake_case",
    "\r\n\r\n",
    "🇷🇺🇸🇹 flags",
    "한국어 text",
];

#[test]
fn never_more_graphemes_than_scalars() {
    for s in SAMPLES {
        assert!(count(s) >= count_graphemes(s), "{:?}", s);
    }
}

#[test]
fn as_many_graphemes_as_scalars_when_every_cluster_is_single() {
    for s in SAMPLES {
        if s.is_empty() {
            continue;
        }
        let all_single = graphemes(s).iter().all(|g| g.chars().count() == 1);
        assert_eq!(count(s) == count_graphemes(s), all_single, "{:?}", s);
    }
    assert_eq!(count("rain"), count_graphemes("rain"));
    assert_eq!(count("cafe\u{0301}"), 5);
    assert_eq!(count_graphemes("cafe\u{0301}"), 4);
    // No combining mark, and yet one cluster of two scalars.
    assert_eq!(count("\r\n"), 2);
    assert_eq!(count_graphemes("\r\n"), 1);
}

#[test]
fn graphemes_joined_give_the_text_back() {
    for s in SAMPLES {
        assert_eq!(graphemes(s).concat(), s);
    }
}

#[test]
fn chars_joined_give_the_text_back() {
    for s in SAMPLES {
        assert_eq!(chars(s).concat(), s);
    }
}

#[test]
fn empty_text_has_one_empty_token() {
    assert_eq!(chars(""), [""]);
    assert_eq!(graphemes(""), [""]);
    assert_eq!(words("").len(), 0);
}

#[test]
fn words_of_joined_words_are_the_same_words() {
    let texts = [
        "LazyLoad with XMLHttpRequest and snake_case",
        "split-some kind_of_mixed CaseHere",
        "Zażółć gęślą jaźń",
        "say  ***    Hello\r\n   to--ME++",
        "fooBar3 ABc aBC",
    ];
    for s in texts {
        let once = words(s);
        let joined = once.join(" ");
        let twice = words(&joined);
        assert_eq!(once, twice, "{:?}", s);
    }
}

#[test]
fn camel_case_words_lose_no_scalar() {
    for s in ["XMLHttpRequest", "fooBar", "ABc", "aBC", "foo1Bar", "x", "ÜberGrößeÄndern"] {
        assert_eq!(words(s).concat(), s);
    }
    assert_eq!(words("XMLHttpRequest"), ["XML", "Http", "Request"]);
    assert_eq!(words("foo1Bar"), ["foo1", "Bar"]);
    assert_eq!(words("ABc"), ["A", "Bc"]);
    assert_eq!(words("aBC"), ["a", "BC"]);
}

#[test]
fn unescaping_gives_the_escaped_text_back() {
    for s in ["", "<p>wonderful world</p>", "a < b > c \"d\" 'e' `f`", "<<>>''\"\"``", "no entity"] {
        assert_eq!(unescape_html(&escape_html(s)), s);
    }
    assert_eq!(unescape_html(&escape_html("a & b")), "a & b");
    // An ampersand before the name of an entity: the entities are taken one
    // kind after the other, and the one of the ampersand is not the last.
    assert_eq!(escape_html("&quot;"), "&amp;quot;");
    assert_eq!(unescape_html("&amp;quot;"), "\"");
    assert_eq!(unescape_html("&amp;lt;"), "&lt;");
}

#[test]
fn padding_with_one_byte_scalars_fills_the_gap() {
    for s in ["a", "rain", "cafe\u{0301}", "Zażółć"] {
        let scalars = s.chars().count();
        let clusters = count_graphemes(s);
        for length in clusters + 1..clusters + 9 {
            for unit in ["", "-", "-=", "abc", "0123456789"] {
                let gap = length - clusters;
                assert_eq!(pad(s, length, unit).chars().count(), scalars + gap);
                assert_eq!(pad_left(s, length, unit).chars().count(), scalars + gap);
                assert_eq!(pad_right(s, length, unit).chars().count(), scalars + gap);
            }
        }
    }
}
