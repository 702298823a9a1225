use tetris::config::{parse_args, Config};

fn args(v: &[&str]) -> Vec<String> {
    v.iter().map(|s| s.to_string()).collect()
}

fn same(a: &Config, text_only: bool, seed: Option<u64>, level: i32, f1: &str, f2: &str) {
    assert_eq!(a.text_only, text_only);
    assert_eq!(a.seed, seed);
    assert_eq!(a.level, level);
    assert_eq!(a.script_file1, f1);
    assert_eq!(a.script_file2, f2);
}

const F1: &str = "tetris_sequence1.txt";
const F2: &str = "tetris_sequence2.txt";

#[test]
fn the_default_settings() {
    same(&Config::default(), false, None, 0, F1, F2);
    same(&parse_args(&[]), false, None, 0, F1, F2);
}

#[test]
fn every_option_sets_its_setting() {
    let cfg = parse_args(&args(&[
        "-text", "-seed", "42", "-scriptfile1", "a.txt", "-scriptfile2", "b.txt", "-startlevel", "3",
    ]));
    same(&cfg, true, Some(42), 3, "a.txt", "b.txt");
}

#[test]
fn the_last_of_two_values_stays() {
    let cfg = parse_args(&args(&["-seed", "1", "-startlevel", "2", "-seed", "9", "-startlevel", "4"]));
    same(&cfg, false, Some(9), 4, F1, F2);
}

#[test]
fn a_value_that_is_no_number_leaves_the_setting() {
    let cfg = parse_args(&args(&["-seed", "7", "-seed", "x", "-startlevel", "1", "-startlevel", "1.5"]));
    same(&cfg, false, Some(7), 1, F1, F2);
    let cfg = parse_args(&args(&["-seed", "-1", "-startlevel", "-1"]));
    same(&cfg, false, None, -1, F1, F2);
    let cfg = parse_args(&args(&["-seed", "18446744073709551616", "-startlevel", "2147483648"]));
    same(&cfg, false, None, 0, F1, F2);
    let cfg = parse_args(&args(&["-seed", "+18446744073709551615", "-startlevel", "+7"]));
    same(&cfg, false, Some(18446744073709551615), 7, F1, F2);
}

#[test]
fn the_value_of_an_option_is_not_read_as_an_option() {
    let cfg = parse_args(&args(&["-seed", "-text", "-scriptfile1", "-seed", "5"]));
    same(&cfg, false, None, 0, "-seed", F2);
    let cfg = parse_args(&args(&["-scriptfile2", "-text", "-text"]));
    same(&cfg, true, None, 0, F1, "-text");
}

#[test]
fn an_option_without_a_value_is_passed_over() {
    same(&parse_args(&args(&["-seed"])), false, None, 0, F1, F2);
    same(&parse_args(&args(&["-text", "-startlevel"])), true, None, 0, F1, F2);
    same(&parse_args(&args(&["-scriptfile1"])), false, None, 0, F1, F2);
}

#[test]
fn other_arguments_are_passed_over() {
    let cfg = parse_args(&args(&["play", "-Text", "--seed", "3", "-startlevel", "2", "now"]));
    same(&cfg, false, None, 2, F1, F2);
}
