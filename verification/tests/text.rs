use tpu_monitor::number::{
    pad_left, pad_right, read_i32, read_u32, read_u64, show, show_i64, show_two,
};
use tpu_monitor::ranges::compress;
use tpu_monitor::text::{
    after_prefix, begins, head, in_order, join, lines, sort, split, strip_prefixes, trim, words,
};

fn owned(list: &[&str]) -> Vec<String> {
    list.iter().map(|s| s.to_string()).collect()
}

#[test]
fn cutting_agrees_with_std() {
    let samples = [
        "",
        "a",
        "a:b:c",
        ":",
        "::a:",
        " a  b\tc\u{a0}d\u{3000}e ",
        "one\ntwo\r\nthree",
        "one\n\n",
        "\r\n",
        "x\r",
        "é:ü\nß",
        "\u{2003}\u{200b} z",
    ];
    for s in samples {
        assert_eq!(split(s, ':'), s.split(':').collect::<Vec<_>>());
        assert_eq!(words(s), s.split_whitespace().collect::<Vec<_>>());
        assert_eq!(lines(s), s.lines().collect::<Vec<_>>());
        assert_eq!(trim(s), s.trim());
        for p in ["", "a", "one", "é:", "http://"] {
            assert_eq!(begins(s, p), s.starts_with(p));
            assert_eq!(after_prefix(s, p), s.strip_prefix(p).map(|r| r.to_string()));
        }
        for n in 0..6 {
            assert_eq!(head(s, n), s.chars().take(n).collect::<String>());
        }
    }
}

#[test]
fn prefixes_come_off_as_often_as_they_stand() {
    assert_eq!(strip_prefixes("aaab", "a"), "b");
    assert_eq!(strip_prefixes("http://http://x", "http://"), "x");
    assert_eq!(strip_prefixes("x", "http://"), "x");
    assert_eq!(strip_prefixes("x", ""), "x");
}

#[test]
fn joining_puts_the_separator_between() {
    assert_eq!(join(&owned(&[]), ", "), "");
    assert_eq!(join(&owned(&["a"]), ", "), "a");
    assert_eq!(join(&owned(&["a", "", "c"]), ", "), "a, , c");
}

#[test]
fn strings_are_put_in_order() {
    let list = owned(&["0000:00:05.0", "0000:00:04.0", "", "0000:00:04.1", "é", "z", "0000:00:04.0"]);
    let mut wanted = list.clone();
    wanted.sort();
    assert_eq!(sort(&list), wanted);
    assert!(in_order("a", "a"));
    assert!(in_order("a", "ab"));
    assert!(!in_order("b", "ab"));
}

#[test]
fn numbers_are_read_as_std_reads_them() {
    let samples = [
        "",
        "0",
        "7",
        "+7",
        "-7",
        "-0",
        "+",
        "-",
        "007",
        " 7",
        "7 ",
        "7a",
        "2147483647",
        "2147483648",
        "-2147483648",
        "-2147483649",
        "4294967295",
        "4294967296",
        "18446744073709551615",
        "18446744073709551616",
        "99999999999999999999999999",
        "٣",
    ];
    for s in samples {
        assert_eq!(read_u64(s), s.parse::<u64>().ok(), "{s}");
        assert_eq!(read_u32(s), s.parse::<u32>().ok(), "{s}");
        assert_eq!(read_i32(s), s.parse::<i32>().ok(), "{s}");
    }
}

#[test]
fn numbers_are_written_as_std_writes_them() {
    for n in [0u64, 7, 10, 99, 100, 12345, u64::MAX] {
        assert_eq!(show(n), n.to_string());
        assert_eq!(show_two(n), format!("{n:02}"));
    }
    for n in [0i64, -1, 42, i64::MIN, i64::MAX] {
        assert_eq!(show_i64(n), n.to_string());
    }
}

#[test]
fn padding_fills_up_and_never_cuts() {
    for s in ["", "ab", "é", "abcdef"] {
        assert_eq!(pad_right(s, 4), format!("{s:<4}"));
        assert_eq!(pad_left(s, 4), format!("{s:>4}"));
    }
}

#[test]
fn device_numbers_are_shown_in_runs() {
    assert_eq!(compress(&vec![0, 1, 2, 3]), "0-3");
    assert_eq!(compress(&vec![3, 1, 0, 2, 2]), "0-3");
    assert_eq!(compress(&vec![0, 2, 3, 7]), "0,2-3,7");
    assert_eq!(compress(&vec![]), "");
    assert_eq!(compress(&vec![5]), "5");
    assert_eq!(compress(&vec![-2, -1, 0]), "-2-0");
    assert_eq!(compress(&vec![i64::MAX, i64::MIN, i64::MAX - 1]), "-9223372036854775808,9223372036854775806-9223372036854775807");
}
