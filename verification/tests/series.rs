use anime_organizer_rs::clean::{
    string_remove_duplicate_spaces, string_remove_empty_brackets, string_remove_episode_range,
    string_remove_file_extension, string_remove_square_brackets, string_remove_years,
};
use anime_organizer_rs::filter::{string_remove_filtered, FilterWords};
use anime_organizer_rs::roman::{roman_to_int, string_remove_roman_number};
use anime_organizer_rs::series::{
    extract_episode_number, extract_series_name, extract_series_season_number,
    string_find_episode_number, Episode,
};

fn no_filters() -> FilterWords {
    FilterWords::new(Vec::new(), Vec::new(), Vec::new())
}

fn some_filters() -> FilterWords {
    FilterWords::new(
        vec![String::from("SubGroup")],
        vec![String::from("1080p")],
        Vec::new(),
    )
}

#[test]
fn series_series_name_extraction() {
    let fw = no_filters();
    assert_eq!(
        extract_series_name("My Show 2015 01-13 II", &fw).unwrap(),
        "My Show"
    );
}

#[test]
fn tests_series_name_extraction() {
    let fw = some_filters();
    assert_eq!(
        extract_series_name("[SubGroup] My Show [1080p] II", &fw).unwrap(),
        "My Show"
    );
}

#[test]
fn series_series_season_number_extraction() {
    let fw = no_filters();
    assert_eq!(extract_series_season_number("My Show II", &fw).unwrap(), 2);
}

#[test]
fn tests_series_season_number_extraction() {
    let fw = no_filters();
    assert_eq!(
        extract_series_season_number("My Show Season 3", &fw).unwrap(),
        3
    );
    assert_eq!(extract_series_season_number("My Show S05", &fw).unwrap(), 5);
}

#[test]
fn season_defaults_to_one() {
    let fw = no_filters();
    assert_eq!(extract_series_season_number("My Show", &fw).unwrap(), 1);
}

#[test]
fn season_huge_number_falls_back_to_one() {
    let fw = no_filters();
    assert_eq!(
        extract_series_season_number("My Show S99999", &fw).unwrap(),
        1
    );
}

#[test]
fn season_lower_case_roman_falls_through() {
    // the numeral matches the trailing pattern but decoding is
    // case-sensitive, so the resolver moves on and defaults
    let fw = no_filters();
    assert_eq!(extract_series_season_number("My Show ii", &fw).unwrap(), 1);
}

#[test]
fn series_string_duplication_space_removal() {
    assert_eq!(string_remove_duplicate_spaces("a   b  c").unwrap(), "a b c");
}

#[test]
fn tests_string_duplication_space_removal() {
    assert_eq!(string_remove_duplicate_spaces("  x  y  ").unwrap(), "x y");
}

#[test]
fn space_removal_second_pass_is_fixed_point() {
    let once = string_remove_duplicate_spaces(" a \t b  c ").unwrap();
    let twice = string_remove_duplicate_spaces(&once).unwrap();
    assert_eq!(once, twice);
}

#[test]
fn series_string_year_removal() {
    assert_eq!(string_remove_years("Show 2015 1080p").unwrap(), "Show 1080p");
}

#[test]
fn tests_string_year_removal() {
    // a four-digit number outside 1928..=2030 is never removed
    assert_eq!(string_remove_years("Show 9999").unwrap(), "Show 9999");
    assert_eq!(string_remove_years("Show 1927 1928").unwrap(), "Show 1927");
}

#[test]
fn series_string_episode_number_discovery() {
    let fw = no_filters();
    let cands = string_find_episode_number("Show - 01 [1080p]", &fw).unwrap();
    assert_eq!(cands[0], 1);
    assert_eq!(cands, vec![1, 10]);
}

#[test]
fn tests_string_episode_number_discovery() {
    let fw = no_filters();
    let cands = string_find_episode_number("a5a a77a", &fw).unwrap();
    assert_eq!(cands[0], 5);
    assert_eq!(cands, vec![5, 77]);
}

#[test]
fn episode_discovery_trailing_roman_comes_first() {
    let fw = no_filters();
    let cands = string_find_episode_number("a5a XIV", &fw).unwrap();
    assert_eq!(cands, vec![14, 5]);
}

#[test]
fn episode_number_extraction_with_context() {
    let fw = no_filters();
    let files = vec![
        String::from("Show - 01 [1080p]"),
        String::from("Show - 02 [1080p]"),
        String::from("Show - 03 [1080p]"),
    ];
    let episodes = extract_episode_number(files, &fw).unwrap();
    let numbers: Vec<u16> = episodes.iter().map(|e| e.sequence).collect();
    assert_eq!(numbers, vec![1, 2, 3]);
}

#[test]
fn episode_number_single_file_takes_first() {
    let fw = no_filters();
    let episodes = extract_episode_number(vec![String::from("a5a a77a")], &fw).unwrap();
    assert_eq!(episodes.len(), 1);
    assert_eq!(episodes[0].sequence, 5);
}

#[test]
fn episode_number_empty_batch_is_absent() {
    let fw = no_filters();
    assert!(extract_episode_number(Vec::new(), &fw).is_none());
}

#[test]
fn episode_number_single_file_without_candidates_is_absent() {
    let fw = no_filters();
    assert!(extract_episode_number(vec![String::from("Show")], &fw).is_none());
}

#[test]
fn episode_number_skips_files_without_candidates() {
    let fw = no_filters();
    let files = vec![
        String::from("Show - 01 [1080p]"),
        String::from("NoNumbers"),
    ];
    let episodes = extract_episode_number(files, &fw).unwrap();
    let numbers: Vec<u16> = episodes.iter().map(|e| e.sequence).collect();
    assert_eq!(numbers, vec![1]);
}

#[test]
fn roman_decode() {
    assert_eq!(roman_to_int("XIV").unwrap(), 14);
    assert_eq!(roman_to_int("IX").unwrap(), 9);
    assert_eq!(roman_to_int("IIII").unwrap(), 4);
}

#[test]
fn roman_decode_invalid_symbol_fails() {
    assert!(roman_to_int("XIZ").is_err());
    assert!(roman_to_int("xiv").is_err());
}

#[test]
fn roman_number_stage_strips_trailing_numeral() {
    assert_eq!(string_remove_roman_number("Show II").unwrap(), "Show ");
    assert_eq!(string_remove_roman_number("Show mcmxcix").unwrap(), "Show ");
    assert_eq!(string_remove_roman_number("Show 2").unwrap(), "Show 2");
}

#[test]
fn empty_bracket_stage() {
    assert_eq!(string_remove_empty_brackets("a [ ] b").unwrap(), "a   b");
}

#[test]
fn episode_range_stage() {
    assert_eq!(string_remove_episode_range("Show [01-13]").unwrap(), "Show  ");
}

#[test]
fn square_bracket_stage() {
    assert_eq!(string_remove_square_brackets("Show [**] x").unwrap(), "Show   x");
}

#[test]
fn file_extension_stage() {
    assert_eq!(string_remove_file_extension("My.Show.mkv"), "My.Show");
    assert_eq!(string_remove_file_extension("Show.x"), "Show.x");
}

#[test]
fn filtered_fragment_takes_its_whole_bracket() {
    // the whole bracketed annotation disappears, not only the matched text
    let fw = FilterWords::new(vec![String::from("GroupName")], Vec::new(), Vec::new());
    assert_eq!(
        string_remove_filtered("[GroupName] Show - 01.mkv", &fw).unwrap(),
        "  Show - 01.mkv"
    );
}

#[test]
fn filtered_fragment_in_parentheses() {
    let fw = FilterWords::new(Vec::new(), vec![String::from("x264")], Vec::new());
    assert_eq!(
        string_remove_filtered("Show (x264 fansub) - 02", &fw).unwrap(),
        "Show   - 02"
    );
}

#[test]
fn invalid_filter_pattern_is_an_error() {
    let fw = FilterWords::new(vec![String::from("(")], Vec::new(), Vec::new());
    assert!(string_remove_filtered("Show", &fw).is_err());
    assert!(extract_series_name("Show", &fw).is_err());
    assert!(extract_series_season_number("Show", &fw).is_err());
    assert!(string_find_episode_number("Show", &fw).is_err());
    assert!(extract_episode_number(vec![String::from("Show")], &fw).is_none());
    let two = extract_episode_number(
        vec![String::from("Show - 01"), String::from("Show - 02")],
        &fw,
    )
    .unwrap();
    assert_eq!(two.len(), 0);
}

#[test]
fn default_episode_is_blank() {
    let e = Episode::default();
    assert_eq!(e.sequence, 0);
    assert_eq!(e.location, "");
    assert_eq!(e.subtitles.len(), 0);
}

#[test]
fn season_keyword_needs_space_before_it() {
    // the explicit pattern wants white space before the keyword, so a name
    // that is nothing but "Season 5" carries no marker
    let fw = FilterWords::new(Vec::new(), Vec::new(), Vec::new());
    assert_eq!(extract_series_season_number("Season 5", &fw).unwrap(), 1);
}

#[test]
fn empty_bracket_stage_keeps_mismatched_pairs() {
    // only a bracket closed by its own kind is an empty pair
    assert_eq!(string_remove_empty_brackets("a ( ] b").unwrap(), "a ( ] b");
    assert_eq!(string_remove_empty_brackets("x { } y").unwrap(), "x   y");
    assert_eq!(string_remove_empty_brackets("( )").unwrap(), " ");
}

#[test]
fn filter_stage_is_noop_without_fragments() {
    // with no fragments configured, even a name that spells the internal
    // marker passes through untouched
    let fw = FilterWords::new(Vec::new(), Vec::new(), Vec::new());
    assert_eq!(
        string_remove_filtered("[%ReM0vE%] Show", &fw).unwrap(),
        "[%ReM0vE%] Show"
    );
}

#[test]
fn square_brackets_keep_text_in_any_script() {
    assert_eq!(
        string_remove_square_brackets("[\u{6771}\u{4eac}] x").unwrap(),
        "[\u{6771}\u{4eac}] x"
    );
}
