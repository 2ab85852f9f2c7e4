use goes_truecolor::decimal::{is_decimal_digit, parse_folder_number};
use goes_truecolor::error::PipelineError;
use goes_truecolor::locator::{
    append_folder, biggest_folder, hour_segment, most_recent_file_path, Search, Stage,
};

fn names(items: &[&str]) -> Vec<String> {
    items.iter().map(|s| s.to_string()).collect()
}

#[test]
fn greatest_number_wins_over_longer_and_later_names() {
    assert_eq!(biggest_folder(&names(&["2", "10", "9"])), Ok("10".to_string()));
    assert_eq!(biggest_folder(&names(&["10", "9"])), Ok("10".to_string()));
    assert_eq!(biggest_folder(&names(&["9", "10"])), Ok("10".to_string()));
    assert_eq!(biggest_folder(&names(&["100", "99", "0100"])), Ok("100".to_string()));
}

#[test]
fn a_single_folder_is_the_greatest() {
    assert_eq!(biggest_folder(&names(&["2024"])), Ok("2024".to_string()));
    assert_eq!(biggest_folder(&names(&["0"])), Ok("0".to_string()));
}

#[test]
fn the_number_is_written_anew_without_zeros_in_front() {
    assert_eq!(biggest_folder(&names(&["007", "0050"])), Ok("50".to_string()));
    assert_eq!(biggest_folder(&names(&["+12", "3"])), Ok("12".to_string()));
    assert_eq!(biggest_folder(&names(&["-0", "000"])), Ok("0".to_string()));
}

#[test]
fn numbers_of_any_size_are_compared() {
    assert_eq!(biggest_folder(&names(&["2147483648", "5"])), Ok("2147483648".to_string()));
    assert_eq!(biggest_folder(&names(&["5", "2147483648"])), Ok("2147483648".to_string()));
    assert_eq!(
        biggest_folder(&names(&["18446744073709551616", "18446744073709551615"])),
        Ok("18446744073709551616".to_string())
    );
    assert_eq!(
        biggest_folder(&names(&[
            "99999999999999999999999999999999999999998",
            "99999999999999999999999999999999999999999",
            "9999999999999999999999999999999999999999",
        ])),
        Ok("99999999999999999999999999999999999999999".to_string())
    );
    assert_eq!(
        biggest_folder(&names(&["000000000000000000000000000000000000007", "12"])),
        Ok("12".to_string())
    );
    assert_eq!(
        biggest_folder(&names(&["0000123456789012345678901234567890", "123456789012345678901234567891"])),
        Ok("123456789012345678901234567891".to_string())
    );
}

#[test]
fn of_two_numbers_of_one_length_the_first_differing_digit_decides() {
    assert_eq!(biggest_folder(&names(&["1299", "1300"])), Ok("1300".to_string()));
    assert_eq!(biggest_folder(&names(&["1300", "1299"])), Ok("1300".to_string()));
    assert_eq!(biggest_folder(&names(&["2023", "2024", "2019"])), Ok("2024".to_string()));
    assert_eq!(biggest_folder(&names(&["41", "14"])), Ok("41".to_string()));
    assert_eq!(biggest_folder(&names(&["7", "07", "+7"])), Ok("7".to_string()));
}

#[test]
fn a_name_that_is_no_number_is_malformed() {
    assert_eq!(biggest_folder(&names(&["3", "abc"])), Err(PipelineError::MalformedHierarchy));
    assert_eq!(biggest_folder(&names(&["abc", "3"])), Err(PipelineError::MalformedHierarchy));
    assert_eq!(biggest_folder(&names(&["3", ""])), Err(PipelineError::MalformedHierarchy));
    assert_eq!(biggest_folder(&names(&["3", "4/"])), Err(PipelineError::MalformedHierarchy));
    assert_eq!(biggest_folder(&names(&["-5", "3"])), Err(PipelineError::MalformedHierarchy));
    assert_eq!(biggest_folder(&names(&["3", "1.5"])), Err(PipelineError::MalformedHierarchy));
}

#[test]
fn no_folder_is_an_empty_directory() {
    assert_eq!(biggest_folder(&Vec::new()), Err(PipelineError::EmptyDirectory));
}

#[test]
fn folder_numbers_are_read_as_decimal_integers() {
    let read = |name: &str| parse_folder_number(name);
    assert_eq!(read("0"), Some("0".to_string()));
    assert_eq!(read("2024"), Some("2024".to_string()));
    assert_eq!(read("0012"), Some("12".to_string()));
    assert_eq!(read("000"), Some("0".to_string()));
    assert_eq!(read("+7"), Some("7".to_string()));
    assert_eq!(read("+007"), Some("7".to_string()));
    assert_eq!(read("-0"), Some("0".to_string()));
    assert_eq!(read("-000"), Some("0".to_string()));
    assert_eq!(read("100"), Some("100".to_string()));
    assert_eq!(read("2147483647"), Some("2147483647".to_string()));
    assert_eq!(read("2147483648"), Some("2147483648".to_string()));
    assert_eq!(read("00000000002147483648"), Some("2147483648".to_string()));
    assert_eq!(
        read("99999999999999999999999"),
        Some("99999999999999999999999".to_string())
    );
}

#[test]
fn what_is_no_folder_number_is_not_read() {
    assert_eq!(parse_folder_number(""), None);
    assert_eq!(parse_folder_number("+"), None);
    assert_eq!(parse_folder_number("-"), None);
    assert_eq!(parse_folder_number("-5"), None);
    assert_eq!(parse_folder_number("-05"), None);
    assert_eq!(parse_folder_number("-2147483649"), None);
    assert_eq!(parse_folder_number("1 2"), None);
    assert_eq!(parse_folder_number(" 12"), None);
    assert_eq!(parse_folder_number("12a"), None);
    assert_eq!(parse_folder_number("a12"), None);
    assert_eq!(parse_folder_number("++1"), None);
    assert_eq!(parse_folder_number("1+"), None);
    assert_eq!(parse_folder_number("0x10"), None);
    assert_eq!(parse_folder_number("\u{0661}\u{0662}"), None);
}

#[test]
fn the_ten_digits_are_the_digits() {
    for code in 0u32..0x11_0000 {
        if let Some(c) = char::from_u32(code) {
            assert_eq!(is_decimal_digit(c), c.is_ascii_digit(), "U+{:04X}", code);
        }
    }
}

#[test]
fn a_number_that_is_written_plainly_is_read_as_it_stands() {
    for n in [0u64, 1, 9, 10, 11, 99, 100, 365, 2024, 65535, 2147483647, 2147483648, u64::MAX] {
        let s = n.to_string();
        assert_eq!(parse_folder_number(&s), Some(s.clone()));
        assert_eq!(parse_folder_number(&hour_segment(&s)), Some(s.clone()));
        assert_eq!(parse_folder_number(&format!("000{}", s)), Some(s.clone()));
        assert_eq!(biggest_folder(&names(&[&s])), Ok(s));
    }
}

#[test]
fn the_greatest_is_the_greatest_of_the_numbers() {
    let listing: Vec<u64> = vec![17, 4, 2147483648, 99, 4294967296, 4294967295, 0, 1000];
    let written: Vec<String> = listing.iter().map(|n| n.to_string()).collect();
    for k in 1..=written.len() {
        let greatest = listing[..k].iter().max().unwrap().to_string();
        assert_eq!(biggest_folder(&written[..k].to_vec()), Ok(greatest));
    }
}

#[test]
fn the_hour_takes_two_characters() {
    assert_eq!(hour_segment("5"), "05");
    assert_eq!(hour_segment("14"), "14");
    assert_eq!(hour_segment("0"), "00");
    assert_eq!(hour_segment("23"), "23");
    for hour in 0u32..100 {
        let segment = hour_segment(&hour.to_string());
        assert_eq!(segment.chars().count(), 2);
        assert_eq!(segment, format!("{:02}", hour));
    }
}

#[test]
fn an_hour_of_three_digits_keeps_them() {
    assert_eq!(hour_segment("100"), "100");
    assert_eq!(hour_segment(""), "00");
}

#[test]
fn a_folder_is_put_below_a_path_with_a_slash() {
    let mut path = String::from("noaa-goes16/ABI-L2-MCMIPF");
    append_folder(&mut path, String::from("2024"));
    assert_eq!(path, "noaa-goes16/ABI-L2-MCMIPF/2024");
    append_folder(&mut path, String::new());
    assert_eq!(path, "noaa-goes16/ABI-L2-MCMIPF/2024/");
    let mut empty = String::new();
    append_folder(&mut empty, String::from("x"));
    assert_eq!(empty, "/x");
}

#[test]
fn the_file_listed_last_is_the_newest() {
    let files = names(&["... fileA.nc", "... fileB.nc"]);
    assert_eq!(most_recent_file_path("p/2024/50/23", &files), Ok("p/2024/50/23/fileB.nc".to_string()));
}

#[test]
fn the_name_of_a_file_is_the_last_word_of_its_line() {
    let files = names(&["-02-19 23:50:11  123456 a.nc", "-02-19 23:59:59\t 98765   b.nc \t "]);
    assert_eq!(most_recent_file_path("bucket", &files), Ok("bucket/b.nc".to_string()));
    assert_eq!(most_recent_file_path("bucket", &names(&["only"])), Ok("bucket/only".to_string()));
    assert_eq!(
        most_recent_file_path("bucket", &names(&["x\u{3000}y\u{a0}z"])),
        Ok("bucket/z".to_string())
    );
}

#[test]
fn an_hour_without_files_is_an_empty_directory() {
    assert_eq!(most_recent_file_path("bucket", &Vec::new()), Err(PipelineError::EmptyDirectory));
}

#[test]
fn a_last_line_without_a_word_is_malformed() {
    assert_eq!(
        most_recent_file_path("bucket", &names(&["a.nc", ""])),
        Err(PipelineError::MalformedListingLine)
    );
    assert_eq!(
        most_recent_file_path("bucket", &names(&["a.nc", " \t\u{2003} "])),
        Err(PipelineError::MalformedListingLine)
    );
}

#[test]
fn a_search_goes_down_year_day_and_hour() {
    let search = Search::new("noaa-goes16/ABI-L2-MCMIPF");
    assert_eq!(search.path, "noaa-goes16/ABI-L2-MCMIPF");
    assert_eq!(search.stage, Stage::Year);
    assert!(!search.is_done());

    let search = search.advance(&names(&["2023", "2024"])).unwrap();
    assert_eq!(search.path, "noaa-goes16/ABI-L2-MCMIPF/2024");
    assert_eq!(search.stage, Stage::Day);

    let search = search.advance(&names(&["10", "50"])).unwrap();
    assert_eq!(search.path, "noaa-goes16/ABI-L2-MCMIPF/2024/50");
    assert_eq!(search.stage, Stage::Hour);

    let search = search.advance(&names(&["00", "23"])).unwrap();
    assert_eq!(search.path, "noaa-goes16/ABI-L2-MCMIPF/2024/50/23");
    assert_eq!(search.stage, Stage::File);
    assert!(!search.is_done());

    let search = search.advance(&names(&["... fileA.nc", "... fileB.nc"])).unwrap();
    assert_eq!(search.path, "noaa-goes16/ABI-L2-MCMIPF/2024/50/23/fileB.nc");
    assert_eq!(search.stage, Stage::Done);
    assert!(search.is_done());
}

#[test]
fn a_search_goes_into_folders_with_numbers_of_any_size() {
    let search = Search::new("p");
    let search = search.advance(&names(&["2147483648", "5"])).unwrap();
    assert_eq!(search.path, "p/2147483648");
    let search = search.advance(&names(&["365", "00000000000000000000366"])).unwrap();
    assert_eq!(search.path, "p/2147483648/366");
    let search = search.advance(&names(&["7", "100000000000000000000"])).unwrap();
    assert_eq!(search.path, "p/2147483648/366/100000000000000000000");
    assert_eq!(search.stage, Stage::File);
}

#[test]
fn a_search_pads_the_hour_only() {
    let search = Search::new("p");
    let search = search.advance(&names(&["7"])).unwrap();
    assert_eq!(search.path, "p/7");
    let search = search.advance(&names(&["3", "005"])).unwrap();
    assert_eq!(search.path, "p/7/5");
    let search = search.advance(&names(&["4", "5"])).unwrap();
    assert_eq!(search.path, "p/7/5/05");
}

#[test]
fn a_search_that_is_done_stays_where_it_is() {
    let search = Search { path: String::from("p/1/2/03/f.nc"), stage: Stage::Done };
    let search = search.advance(&names(&["9"])).unwrap();
    assert_eq!(search.path, "p/1/2/03/f.nc");
    assert_eq!(search.stage, Stage::Done);
    let search = search.advance(&Vec::new()).unwrap();
    assert_eq!(search.path, "p/1/2/03/f.nc");
    assert!(search.is_done());
}

#[test]
fn a_search_fails_on_a_bad_level() {
    let at = |stage: Stage| Search { path: String::from("p"), stage };
    for stage in [Stage::Year, Stage::Day, Stage::Hour] {
        assert_eq!(at(stage).advance(&Vec::new()).err(), Some(PipelineError::EmptyDirectory));
        assert_eq!(
            at(stage).advance(&names(&["3", "abc"])).err(),
            Some(PipelineError::MalformedHierarchy)
        );
    }
    assert_eq!(at(Stage::File).advance(&Vec::new()).err(), Some(PipelineError::EmptyDirectory));
    assert_eq!(
        at(Stage::File).advance(&names(&["  "])).err(),
        Some(PipelineError::MalformedListingLine)
    );
    assert_eq!(
        at(Stage::File).advance(&names(&["3", "abc"])).map(|s| s.path),
        Ok("p/abc".to_string())
    );
}
