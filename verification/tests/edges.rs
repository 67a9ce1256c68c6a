//! Positions, lengths and texts at and past the edges.

use voca_rs::strip::StateMode::{Comment, Exclamation, Html, Output};
use voca_rs::{chop, count, index, manipulate, query, split, strip};

#[test]
fn char_at_clamps() {
    assert_eq!(chop::char_at("rain", 4), "n");
    assert_eq!(chop::char_at("rain", usize::MAX), "n");
    assert_eq!(chop::char_at("", 7), "");
    // Two clusters, three scalars: positions count scalars.
    assert_eq!(chop::char_at("e\u{0301}x", 1), "\u{0301}");
    assert_eq!(chop::char_at("e\u{0301}x", 2), "x");
    assert_eq!(chop::char_at("e\u{0301}x", 3), "x");
}

#[test]
fn first_and_last_give_the_subject_for_a_length_past_the_end() {
    assert_eq!(chop::first("e\u{0301}", 1), "e");
    assert_eq!(chop::first("e\u{0301}", 2), "e\u{0301}");
    assert_eq!(chop::first("e\u{0301}", 5), "e\u{0301}");
    assert_eq!(chop::last("e\u{0301}", 1), "\u{0301}");
    assert_eq!(chop::last("e\u{0301}", 2), "e\u{0301}");
    assert_eq!(chop::last("e\u{0301}", 5), "e\u{0301}");
    for s in ["", "rain", "cafe\u{0301}", "a\u{0310}e\u{0301}o\u{0308}\u{0332}\r\n"] {
        let scalars = s.chars().count();
        for length in [scalars, scalars + 1, usize::MAX] {
            assert_eq!(chop::first(s, length), s);
            assert_eq!(chop::last(s, length), s);
        }
    }
    assert_eq!(chop::last("", 3), "");
}

#[test]
fn slice_with_crossed_and_extreme_bounds() {
    assert_eq!(chop::slice("abc", 2, 1), "");
    assert_eq!(chop::slice("abc", 3, 0), "");
    assert_eq!(chop::slice("abc", isize::MIN, 0), "abc");
    assert_eq!(chop::slice("abc", 1, isize::MIN), "");
    assert_eq!(chop::slice("abc", isize::MAX, isize::MAX), "");
    assert_eq!(chop::slice("abc", -1, -1), "");
    assert_eq!(chop::slice("abc", -2, -1), "b");
}

#[test]
fn substr_and_substring_with_extreme_lengths() {
    assert_eq!(chop::substr("abc", 1, usize::MAX), "bc");
    assert_eq!(chop::substr("abc", usize::MAX, usize::MAX), "");
    assert_eq!(chop::substring("abc", 1, usize::MAX), "bc");
    assert_eq!(chop::substring("abc", 2, 1), "");
    assert_eq!(chop::substring("abc", 2, 2), "");
}

#[test]
fn truncate_at_the_subject_length() {
    assert_eq!(chop::truncate("abc", 3, ""), "abc");
    assert_eq!(chop::truncate("abcdef", 6, "~"), "abcdef");
    assert_eq!(chop::truncate("abcdef", 5, "~"), "abcd~");
    assert_eq!(chop::truncate("abcdef", 4, ""), "a...");
    assert_eq!(chop::truncate("abcdef", 3, ""), "...");
    // The suffix does not fit: nothing is cut.
    assert_eq!(chop::truncate("abcdef", 2, ""), "abcdef");
    assert_eq!(chop::truncate("abcdef", 0, ""), "");
}

#[test]
fn prune_cuts_where_a_word_ends() {
    assert_eq!(chop::prune("Once upon a time", 7, ""), "Once...");
    assert_eq!(chop::prune("Once upon a time", 8, ""), "Once...");
    assert_eq!(chop::prune("Once upon a time", 12, ""), "Once upon...");
    assert_eq!(chop::prune("Once upon a time", 16, ""), "Once upon a time");
    assert_eq!(chop::prune("Once, upon", 8, "~"), "Once~");
    assert_eq!(chop::prune("Onceuponatime", 7, ""), "...");
    // Not even the suffix fits: nothing is left.
    assert_eq!(chop::prune("abcdef", 2, ""), "");
    assert_eq!(chop::prune("abcdef", 3, ""), "...");
    for length in 0..20 {
        assert!(chop::prune("Once upon a time", length, "").chars().count() <= length);
        assert!(chop::prune("Once upon a time", length, "~").chars().count() <= length);
    }
}

#[test]
fn index_search_at_the_end() {
    assert_eq!(index::index_of("rain", "a", 4), -1);
    assert_eq!(index::index_of("", "a", 0), -1);
    assert_eq!(index::last_index_of("rain", "n", 4), -1);
    assert_eq!(index::last_index_of("nn", "n", 0), 1);
    assert_eq!(index::last_index_of("nn", "n", 1), 0);
    assert_eq!(index::index_all("rain", "n", 4), []);
    assert_eq!(index::index_all("rain", "", 0), []);
    assert_eq!(query::includes("abc", "c", 3), false);
    assert_eq!(query::query("abc", "c", 3), false);
}

#[test]
fn index_is_narrowed_to_eight_bits() {
    let subject = format!("{}b", "a".repeat(130));
    assert_eq!(index::index_of(&subject, "b", 0), -126);
    assert_eq!(index::index_of(&subject, "b", 10), 120);
    assert_eq!(index::narrow(127), 127);
    assert_eq!(index::narrow(128), -128);
    assert_eq!(index::narrow(255), -1);
    assert_eq!(index::narrow(256), 0);
    assert_eq!(index::search_outcome(None), -1);
    assert_eq!(index::search_outcome(Some(300)), 44);
}

#[test]
fn code_points_are_utf16_units() {
    assert_eq!(split::code_points("a\\nb"), [97, 92, 110, 98]);
    assert_eq!(split::code_points("\\"), [92]);
    assert_eq!(split::code_points("😀"), [0xD83D, 0xDE00]);
    assert_eq!(split::code_points("a😀\\z"), [97, 0xD83D, 0xDE00, 92, 122]);
    for s in ["", "rain", "Un garçon de café", "\\\\x\\", "𝄞 clef"] {
        let expected: Vec<u16> = s.encode_utf16().collect();
        assert_eq!(split::code_points(s), expected);
    }
    assert_eq!(chop::code_point_at("a😀", 1), [0xD83D, 0xDE00]);
}

#[test]
fn min_and_max_write_the_unit_out() {
    assert_eq!(chop::max("a😀"), "\\u00DE00");
    assert_eq!(chop::min("😀"), "\\u00D83D");
    assert_eq!(chop::min("a\nb"), "\\n");
    assert_eq!(chop::min("a\tb"), "\\t");
    assert_eq!(chop::min("a\rb"), "\\r");
    assert_eq!(chop::min("\u{1}z"), "\\x01");
    assert_eq!(chop::min("\u{1f}z"), "\\x1F");
    assert_eq!(chop::max("\\"), "\\\\");
    assert_eq!(chop::max("\u{7f}"), "\u{7f}");
}

#[test]
fn foreign_key_takes_what_follows_the_last_separator() {
    assert_eq!(chop::foreign_key("a:::b"), "b_id");
    assert_eq!(chop::foreign_key("Foo::"), "_id");
    assert_eq!(chop::foreign_key("user_id"), "user_id");
    assert_eq!(chop::foreign_key("id"), "id_id");
}

#[test]
fn after_takes_what_follows_the_match() {
    assert_eq!(chop::after("This is my name", "This is"), " my name");
    assert_eq!(chop::after("This is my name", "name"), "");
    assert_eq!(chop::after("This is my name", "nothing"), "");
    assert_eq!(chop::after("This is my name", ""), "This is my name");
    assert_eq!(chop::after("", "a"), "");
    assert_eq!(chop::after_last("To be, or not to be, that is", "be,"), " that is");
    assert_eq!(chop::after_last("abab", "ab"), "");
    assert_eq!(chop::after_last("abab", ""), "abab");
}

#[test]
fn a_match_far_into_the_subject() {
    // The match stands past what eight bits hold.
    let far = format!("{}<b>tail", "a".repeat(130));
    assert_eq!(chop::after(&far, "<b>"), "tail");
    assert_eq!(chop::after_last(&far, "<b>"), "tail");
    assert_eq!(manipulate::replace(&far, "<b>", "-"), format!("{}-tail", "a".repeat(130)));
    let at_255 = format!("{}b!", "a".repeat(255));
    assert_eq!(index::index_of(&at_255, "b", 0), -1);
    assert_eq!(chop::after(&at_255, "b"), "!");
    assert_eq!(manipulate::replace(&at_255, "b", "c"), format!("{}c!", "a".repeat(255)));
}

#[test]
fn patterns() {
    assert_eq!(index::search("we have a mission", "m.s+", 0), 10);
    assert_eq!(index::search("we have a mission", "m.s+", 11), -1);
    assert_eq!(index::search("we have a mission", "(", 0), -1);
    assert_eq!(index::search("we have a mission", "", 16), 0);
    assert_eq!(index::search("we have a mission", "n", 17), -1);
    assert_eq!(index::search(&format!("{}b", "a".repeat(130)), "b", 0), -126);
    assert_eq!(query::matches("we have a mission", "m.s+", 10), true);
    assert_eq!(query::matches("we have a mission", "m.s+", 11), false);
    assert_eq!(query::matches("we have a mission", "(", 0), false);
    assert_eq!(query::matches("we have a mission", "", 16), true);
    assert_eq!(query::matches("we have a mission", "", 17), false);
    // The start counts bytes and may fall inside a scalar.
    assert_eq!(index::search("ééé", "é", 1), 2);
    assert_eq!(query::matches("éé", "é", 1), true);
}

#[test]
fn strip_tags_follows_comments_and_doctypes() {
    assert_eq!(strip::strip_tags("a <!-- x > y --> b"), "a  b");
    assert_eq!(strip::strip_tags("a <!-- x < y --> b"), "a  b");
    assert_eq!(strip::strip_tags("<!DOCTYPE html \"a>b\">x"), "x");
    assert_eq!(strip::strip_tags("<!doctype html 'a>b'>x"), "x");
    assert_eq!(strip::strip_tags("<!ELEMENT \"a>b\">x"), "b\">x");
    assert_eq!(strip::strip_tags("a < b"), "a < b");
    assert_eq!(strip::strip_tags("a <b"), "a ");
    assert_eq!(strip::strip_tags("a > b"), "a > b");
    assert_eq!(strip::strip_tags("<a <b> c>d"), "d");
    assert_eq!(strip::strip_tags("<!--"), "");
    assert_eq!(strip::strip_tags("x<!-- y"), "x");
    assert_eq!(strip::strip_tags("1 - 2 ! e E \" '"), "1 - 2 ! e E \" '");
    assert_eq!(strip::strip_tags("<e\u{0301}>é</e\u{0301}>"), "é");
}

#[test]
fn tag_stripper_steps() {
    let tokens = vec!["<", "!", "-", "-", "x", "-", "-", ">", "y"];
    let mut state = strip::TagStripperState {
        mode: Output,
        depth: 0,
        quote: None,
    };
    let mut modes = Vec::new();
    let mut emitted = Vec::new();
    for i in 0..tokens.len() {
        let (next, emit) = strip::advance(state, &tokens, i);
        state = next;
        modes.push(state.mode);
        emitted.push(emit);
    }
    assert_eq!(
        modes,
        [Html, Exclamation, Exclamation, Comment, Comment, Comment, Comment, Output, Output]
    );
    assert_eq!(emitted, [false, false, false, false, false, false, false, false, true]);
    assert_eq!(strip::strip_html_tags(&tokens), "y");
}

#[test]
fn strip_bom_takes_one_mark() {
    assert_eq!(strip::strip_bom("\u{FEFF}\u{FEFF}x"), "\u{FEFF}x");
    assert_eq!(strip::strip_bom("x\u{FEFF}"), "x\u{FEFF}");
}

#[test]
fn pad_with_a_unit_of_several_bytes() {
    assert_eq!(manipulate::pad_left("ab", 7, "é"), "éééab");
    assert_eq!(manipulate::pad_right("ab", 7, "é"), "abééé");
    assert_eq!(manipulate::pad("ab", 7, "é"), "éabéé");
    assert_eq!(manipulate::pad_left("ab", 7, "12"), "12121ab");
    assert_eq!(manipulate::pad("ab", 3, "12"), "ab1");
    assert_eq!(manipulate::pad("ab", 4, "12"), "1ab1");
}

#[test]
fn insert_and_splice_at_the_edges() {
    assert_eq!(manipulate::insert("é", "x", 2), "éx");
    assert_eq!(manipulate::insert("é", "x", usize::MAX), "éx");
    assert_eq!(manipulate::insert("", "x", 0), "");
    assert_eq!(manipulate::splice("test", isize::MIN, 0, "."), ".test");
    assert_eq!(manipulate::splice("test", isize::MAX, 0, "."), "test.");
    assert_eq!(manipulate::splice("test", 1, usize::MAX, "."), "t.");
    assert_eq!(manipulate::splice("test", -1, 1, ""), "tes");
    assert_eq!(manipulate::splice("", 0, 3, "x"), "x");
}

#[test]
fn word_wrap_ends() {
    assert_eq!(manipulate::word_wrap("Hi   ", 3, "", ""), "Hi\n");
    assert_eq!(manipulate::word_wrap("Hello world", usize::MAX, "", "> "), "> Hello world");
    assert_eq!(manipulate::word_wrap("Hello world", 0, "", ""), "Hello world");
    // The count that decides on more wrapping is taken before punctuation
    // moves to the line, so a rest that would fit is wrapped once more.
    assert_eq!(manipulate::word_wrap("Hello, world", 6, "", ""), "Hello,\nworl\nd");
    assert_eq!(manipulate::word_wrap("Hello, world", 7, "", ""), "Hello,\nworld");
}

#[test]
fn expand_with_large_tab_sizes() {
    assert_eq!(manipulate::expand_spaces("a  b", usize::MAX), "a  b");
    assert_eq!(manipulate::expand_spaces("a   b", 2), "a\t b");
    assert_eq!(manipulate::expand_tabs("a\tb", 0), "ab");
    assert_eq!(manipulate::repeat("ab", 0), "");
    assert_eq!(manipulate::repeat("", usize::MAX), "");
}

#[test]
fn translate_symbol_by_symbol() {
    let from = vec!["a", "b"];
    let to = vec!["b"];
    assert_eq!(manipulate::translate("aabbc", &from, &to), "c");
    assert_eq!(manipulate::tr("aabbc", "ab", "b"), "c");
    assert_eq!(manipulate::tr("cafe\u{0301}", "e\u{0301}", "E"), "cafE");
    assert_eq!(manipulate::reverse_tokens(&from), "ba");
}

#[test]
fn counting() {
    assert_eq!(count::count_substrings("aaaa", "aa"), 2);
    assert_eq!(count::count_substrings("aaa", "aa"), 1);
    assert_eq!(count::count_substrings("aa", "aaa"), 0);
    assert_eq!(count::count_unique_words("", "x"), 0);
    assert_eq!(count::count_unique_words("hello world wonderful world", ""), 3);
    assert_eq!(count::count_unique_words("a-b-a-b-c", "-"), 3);
    assert_eq!(count::count_unique_words("***", ""), 0);
    assert_eq!(count::count_distinct(&vec!["a", "b", "a", ""]), 3);
    assert_eq!(count::count_distinct(&Vec::new()), 0);
    assert_eq!(count::count_words("a-b-", "-"), 2);
    assert_eq!(count::count_words("-", "-"), 1);
}
