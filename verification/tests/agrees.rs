//! The library against the standard library, where both answer the same

//! question.

use voca_rs::{case, count, manipulate, number, query, split, utils};

const TEXTS: [&str; 12] = [
    "",
    " ",
    "rain",
    "  padded\t\n",
    "\u{a0}\u{2003}wide\u{3000}\u{85}",
    "aaa aa a",
    "*dying*star*",
    "a::b::::c",
    "Zażółć gęślą jaźń",
    "ΌΣΟΣ ΣΑΣ",
    "ǅ ǆ ﬁ ß İ",
    "cafe\u{0301} 𝄞",
];

#[test]
fn white_space_is_what_std_trims() {
    for code in 0..=0x10FFFFu32 {
        if let Some(c) = char::from_u32(code) {
            assert_eq!(utils::white_space(c), c.is_whitespace(), "U+{:04X}", code);
        }
    }
    for s in TEXTS {
        assert_eq!(manipulate::trim(s, ""), s.trim());
        assert_eq!(manipulate::trim_left(s, ""), s.trim_start());
        assert_eq!(manipulate::trim_right(s, ""), s.trim_end());
        assert_eq!(query::is_blank(s), s.trim().is_empty());
    }
}

#[test]
fn trim_by_a_set_is_what_std_trims() {
    for s in TEXTS {
        for set in ["a", "ar", " *", "ńZ"] {
            assert_eq!(manipulate::trim(s, set), s.trim_matches(|c| set.contains(c)));
            assert_eq!(manipulate::trim_left(s, set), s.trim_start_matches(|c| set.contains(c)));
            assert_eq!(manipulate::trim_right(s, set), s.trim_end_matches(|c| set.contains(c)));
        }
    }
}

#[test]
fn punctuation_and_digits_are_the_constants() {
    for code in 0..=0x10FFFFu32 {
        if let Some(c) = char::from_u32(code) {
            assert_eq!(utils::punctuation(c), utils::PUNCTUATION.contains(c));
            assert_eq!(utils::plain_space(c), utils::WHITESPACE.contains(c));
            assert_eq!(utils::decimal_digit(c), utils::DIGITS.contains(c));
        }
    }
}

#[test]
fn replacing_and_splitting_as_std_does() {
    for s in TEXTS {
        for pattern in ["a", "aa", "::", "*", " ", "ą j", "zzz"] {
            assert_eq!(manipulate::replace_all(s, pattern, "<>"), s.replace(pattern, "<>"));
            assert_eq!(manipulate::replace_all(s, pattern, ""), s.replace(pattern, ""));
            assert_eq!(count::count_substrings(s, pattern), s.matches(pattern).count());
            if !s.is_empty() {
                let pieces: Vec<&str> = s.split_terminator(pattern).collect();
                assert_eq!(split::split(s, pattern), pieces);
            }
            assert_eq!(query::starts_with(s, pattern), s.is_empty() || s.starts_with(pattern));
            assert_eq!(query::ends_with(s, pattern), s.is_empty() || s.ends_with(pattern));
            assert_eq!(
                query::includes(s, pattern, 0),
                s.is_empty() || s.contains(pattern)
            );
        }
        assert_eq!(manipulate::reverse(s), s.chars().rev().collect::<String>());
        assert_eq!(manipulate::repeat(s, 3), s.repeat(3));
        assert_eq!(manipulate::expand_tabs(s, 2), s.replace('\t', "  "));
    }
}

#[test]
fn case_mappings_are_those_of_std() {
    for s in TEXTS {
        assert_eq!(case::upper_case(s), s.to_uppercase());
        let lower: String = s.chars().flat_map(|c| c.to_lowercase()).collect();
        assert_eq!(case::lower_case(s), lower);
        assert_eq!(query::is_lowercase(s), !s.chars().any(|c| c.is_uppercase()));
        assert_eq!(query::is_uppercase(s), !s.chars().any(|c| c.is_lowercase()));
    }
    // A capital sigma at the end of a word: scalar by scalar it is no final
    // sigma.
    assert_eq!(case::lower_case("ΣΑΣ"), "σασ");
    assert_eq!(case::upper_case("ß"), "SS");
    assert_eq!(case::swap_case("ßa"), "SA");
    assert_eq!(case::capitalize("ßa", true), "SSa");
}

fn parses(n: &str) -> bool {
    match n.find('.') {
        Some(_) => n.parse::<f32>().is_ok(),
        None => n.parse::<i32>().is_ok(),
    }
}

fn numeric_by_std(subject: &str) -> bool {
    if subject.is_empty() {
        return true;
    }
    let lowered = subject.to_lowercase();
    match lowered.find('e') {
        Some(_) => {
            let pieces: Vec<&str> = lowered.split('e').collect();
            parses(pieces[0]) && parses(pieces[1])
        }
        None => {
            if lowered.starts_with("0x") {
                i32::from_str_radix(lowered.trim_start_matches("0x"), 16).is_ok()
            } else {
                parses(subject)
            }
        }
    }
}

const NUMBERS: [&str; 60] = [
    "", "0", "+0", "-0", "+", "-", "+-1", "--1", "007", "2147483647", "2147483648", "-2147483648",
    "-2147483649", "99999999999999999999", "00000000000000000000001", "1.", ".1", ".", "+.", "-.5",
    "+5.", "1.5", "1..5", "1.5.5", "1 .5", " 1.5", "1.5 ", "1.5e", "1.5e+", "1.5e+2", "1.5E-2",
    "1e2e3", "e", "e5", "5e", "1.e5", ".e5", "1e.5", "1e5.", "1e5.5", "0x", "0xFF", "0XFF", "0xff",
    "0x0x1F", "0x7fffffff", "0x80000000", "0x-1", "0x+1", "0x-80000000", "0x-80000001", "0xg",
    "x10", "ten", "١٢٣", "1_000", "1,5", "inf.", "nan", "1.5f",
];

#[test]
fn numeric_texts_are_what_std_parses() {
    for s in NUMBERS {
        assert_eq!(query::is_numeric(s), numeric_by_std(s), "{:?}", s);
        assert_eq!(
            query::is_numeric_form(s, &s.to_lowercase()),
            numeric_by_std(s),
            "{:?}",
            s
        );
    }
}

#[test]
fn numbers_read_as_std_reads_them() {
    for s in NUMBERS {
        let scalars: Vec<char> = s.chars().collect();
        assert_eq!(number::reads_as_integer(&scalars, 10), s.parse::<i32>().is_ok(), "{:?}", s);
        assert_eq!(
            number::reads_as_integer(&scalars, 16),
            i32::from_str_radix(s, 16).is_ok(),
            "{:?}",
            s
        );
        if s.contains('.') {
            assert_eq!(number::reads_as_fraction(&scalars), s.parse::<f32>().is_ok(), "{:?}", s);
        }
    }
}
