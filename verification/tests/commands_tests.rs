use tetris::commands::{read_script, CommandError, CommandTable, Polled, Source, TokenStream};

fn words(v: &[&str]) -> Vec<String> {
    v.iter().map(|s| s.to_string()).collect()
}

fn parsed(t: &CommandTable, token: &str) -> Result<(i32, String), CommandError> {
    t.parse_command_token(token)
}

fn ok(n: i32, command: &str) -> Result<(i32, String), CommandError> {
    Ok((n, command.to_string()))
}

fn drain(stream: &mut TokenStream, pending: &mut Vec<String>) -> (Vec<String>, bool) {
    let mut out = Vec::new();
    loop {
        match stream.poll(pending) {
            Polled::Token(w) => out.push(w),
            Polled::NeedLine => return (out, true),
            Polled::End => return (out, false),
        }
    }
}

#[test]
fn a_new_table_knows_the_base_commands() {
    let t = CommandTable::new();
    assert_eq!(
        t.names,
        words(&[
            "left", "right", "down", "cw", "ccw", "drop", "levelup", "leveldown", "sequence",
            "restart", "random", "norandom", "quit", "I", "J", "L", "S", "T", "O", "Z", "rename",
            "macro",
        ])
    );
    assert_eq!(t.bindings.len(), 22);
    for (name, binding) in t.names.iter().zip(t.bindings.iter()) {
        assert!(!binding.is_macro);
        assert_eq!(&binding.single, name);
        assert!(binding.seq.is_empty());
    }
    assert!(t.pending.is_empty());
}

#[test]
fn a_stem_stands_for_the_one_name_it_starts() {
    let t = CommandTable::new();
    assert_eq!(t.resolve_stem("left"), Ok("left".to_string()));
    assert_eq!(t.resolve_stem("lef"), Ok("left".to_string()));
    assert_eq!(t.resolve_stem("levelu"), Ok("levelup".to_string()));
    assert_eq!(t.resolve_stem("ri"), Ok("right".to_string()));
    assert_eq!(t.resolve_stem("q"), Ok("quit".to_string()));
    assert_eq!(t.resolve_stem("cc"), Ok("ccw".to_string()));
    assert_eq!(t.resolve_stem("I"), Ok("I".to_string()));
}

#[test]
fn a_name_wins_over_the_names_it_starts() {
    let mut t = CommandTable::new();
    // cw starts no other name, but r starts several
    assert_eq!(t.resolve_stem("cw"), Ok("cw".to_string()));
    t.define_alias("r", "right").unwrap();
    assert_eq!(t.resolve_stem("r"), Ok("r".to_string()));
}

#[test]
fn a_stem_of_several_names_or_of_none_is_refused() {
    let t = CommandTable::new();
    assert_eq!(t.resolve_stem("le"), Err(CommandError::AmbiguousStem));
    assert_eq!(t.resolve_stem("l"), Err(CommandError::AmbiguousStem));
    assert_eq!(t.resolve_stem("r"), Err(CommandError::AmbiguousStem));
    assert_eq!(t.resolve_stem("c"), Err(CommandError::AmbiguousStem));
    assert_eq!(t.resolve_stem(""), Err(CommandError::AmbiguousStem));
    assert_eq!(t.resolve_stem("x"), Err(CommandError::InvalidStem));
    assert_eq!(t.resolve_stem("lefty"), Err(CommandError::InvalidStem));
    assert_eq!(t.resolve_stem("i"), Err(CommandError::InvalidStem));
    assert_eq!(t.resolve_stem("LEFT"), Err(CommandError::InvalidStem));
}

#[test]
fn a_word_gives_a_count_and_a_command() {
    let t = CommandTable::new();
    assert_eq!(parsed(&t, "left"), ok(1, "left"));
    assert_eq!(parsed(&t, "3left"), ok(3, "left"));
    assert_eq!(parsed(&t, "left3"), ok(3, "left"));
    assert_eq!(parsed(&t, "12ri"), ok(12, "right"));
    assert_eq!(parsed(&t, "2levelu"), ok(2, "levelup"));
    assert_eq!(parsed(&t, "007down"), ok(7, "down"));
    assert_eq!(parsed(&t, "4I"), ok(4, "I"));
}

#[test]
fn the_count_in_front_wins_over_the_count_behind() {
    let t = CommandTable::new();
    assert_eq!(parsed(&t, "2left5"), ok(2, "left"));
    assert_eq!(parsed(&t, "0left5"), ok(1, "left"));
}

#[test]
fn a_count_of_zero_or_beyond_the_machine_counts_as_one() {
    let t = CommandTable::new();
    assert_eq!(parsed(&t, "0left"), ok(1, "left"));
    assert_eq!(parsed(&t, "left0"), ok(1, "left"));
    assert_eq!(parsed(&t, "2147483647left"), ok(2147483647, "left"));
    assert_eq!(parsed(&t, "2147483648left"), ok(1, "left"));
    assert_eq!(parsed(&t, "99999999999999999999left"), ok(1, "left"));
}

#[test]
fn some_commands_are_carried_out_once_whatever_the_count() {
    let t = CommandTable::new();
    for name in ["drop", "restart", "quit", "sequence", "random", "norandom", "macro"] {
        assert_eq!(parsed(&t, &format!("5{}", name)), ok(1, name));
        assert_eq!(parsed(&t, &format!("{}9", name)), ok(1, name));
    }
    assert_eq!(parsed(&t, "5rename"), ok(5, "rename"));
    assert_eq!(parsed(&t, "3dr"), ok(1, "drop"));
}

#[test]
fn words_that_are_no_commands_are_refused() {
    let t = CommandTable::new();
    assert_eq!(parsed(&t, ""), Err(CommandError::Empty));
    assert_eq!(parsed(&t, "\n"), Err(CommandError::Newline));
    assert_eq!(parsed(&t, "3x"), Err(CommandError::InvalidStem));
    assert_eq!(parsed(&t, "le"), Err(CommandError::AmbiguousStem));
    assert_eq!(parsed(&t, "3le4"), Err(CommandError::AmbiguousStem));
    assert_eq!(parsed(&t, "le3ft"), Err(CommandError::InvalidStem));
    assert_eq!(parsed(&t, "+"), Err(CommandError::InvalidStem));
}

#[test]
fn an_alias_stands_for_the_command_of_the_name_it_was_made_for() {
    let mut t = CommandTable::new();
    assert_eq!(t.define_alias("fall", "drop"), Ok("drop".to_string()));
    assert_eq!(t.define_alias("plummet", "fall"), Ok("drop".to_string()));
    assert_eq!(parsed(&t, "fall"), ok(1, "drop"));
    assert_eq!(parsed(&t, "3plummet"), ok(1, "drop"));
    assert_eq!(t.define_alias("west", "left"), Ok("left".to_string()));
    assert_eq!(parsed(&t, "4west"), ok(4, "left"));
    assert_eq!(parsed(&t, "4we"), ok(4, "left"));
    assert_eq!(t.names.len(), 25);
    assert_eq!(t.bindings.len(), 25);
    assert!(!t.is_macro_name("west"));
}

#[test]
fn an_alias_needs_a_free_name_and_a_command() {
    let mut t = CommandTable::new();
    assert_eq!(t.define_alias("left", "right"), Err(CommandError::AliasInUse));
    assert_eq!(t.define_alias("west", "lef"), Err(CommandError::NotBaseCommand));
    assert_eq!(t.define_alias("west", "nothing"), Err(CommandError::NotBaseCommand));
    t.define_macro("zig", words(&["left", "right"])).unwrap();
    assert_eq!(t.define_alias("zag", "zig"), Err(CommandError::NotBaseCommand));
    assert_eq!(t.define_alias("zig", "left"), Err(CommandError::AliasInUse));
    assert_eq!(t.define_alias("left", "nothing"), Err(CommandError::AliasInUse));
    assert_eq!(t.names.len(), 23);
}

#[test]
fn a_macro_stands_for_its_words() {
    let mut t = CommandTable::new();
    assert_eq!(t.define_macro("zig", words(&["left", "2down", "right"])), Ok(()));
    assert!(t.is_macro_name("zig"));
    assert!(!t.is_macro_name("zi"));
    assert!(!t.is_macro_name("left"));
    assert!(!t.is_macro_name("nothing"));
    assert_eq!(t.macro_seq("zig"), Some(words(&["left", "2down", "right"])));
    assert_eq!(t.macro_seq("left"), None);
    assert_eq!(t.macro_seq("nothing"), None);
    assert_eq!(parsed(&t, "zig"), ok(1, "zig"));
    assert_eq!(parsed(&t, "3zi"), ok(3, "zig"));
}

#[test]
fn a_macro_needs_a_free_name_and_a_word() {
    let mut t = CommandTable::new();
    assert_eq!(t.define_macro("left", words(&["right"])), Err(CommandError::MacroInUse));
    assert_eq!(t.define_macro("zig", Vec::new()), Err(CommandError::EmptyMacro));
    assert_eq!(t.define_macro("left", Vec::new()), Err(CommandError::MacroInUse));
    assert_eq!(t.names.len(), 22);
    t.define_macro("zig", words(&["left"])).unwrap();
    assert_eq!(t.define_macro("zig", words(&["right"])), Err(CommandError::MacroInUse));
    assert_eq!(t.macro_seq("zig"), Some(words(&["left"])));
}

#[test]
fn a_script_is_read_line_by_line() {
    let read = |s: &str| -> Vec<String> { read_script(s).into_iter().collect() };
    assert_eq!(read("left 2down\nright\n"), words(&["left", "2down", "\n", "right", "\n"]));
    assert_eq!(read("left\nright"), words(&["left", "\n", "right", "\n"]));
    assert_eq!(read(""), Vec::<String>::new());
    assert_eq!(read("\n"), words(&["\n"]));
    assert_eq!(read("\n\n a \n"), words(&["\n", "\n", "a", "\n"]));
    assert_eq!(read("a\r\nb\r\n"), words(&["a", "\n", "b", "\n"]));
    assert_eq!(read("  "), words(&["\n"]));
    assert_eq!(read("a\u{2028}b\u{b}c"), words(&["a", "b", "c", "\n"]));
}

#[test]
fn a_script_is_read_as_the_standard_library_splits_it() {
    let samples = ["", "a", "a\n", "a\nb", "\n\na b\n\n", " x  y \n z", "r\r\n\r\n", "\r", "a\n "];
    for s in samples {
        let mut expect = Vec::new();
        for line in s.lines() {
            for w in line.split_whitespace() {
                expect.push(w.to_string());
            }
            expect.push("\n".to_string());
        }
        let got: Vec<String> = read_script(s).into_iter().collect();
        assert_eq!(got, expect, "{:?}", s);
    }
}

#[test]
fn a_new_stream_reads_the_keyboard() {
    let mut s = TokenStream::new();
    assert_eq!(s.sources.len(), 1);
    assert!(matches!(s.sources[0], Source::Stdin));
    let mut pending = Vec::new();
    assert!(matches!(s.poll(&mut pending), Polled::NeedLine));
    assert!(matches!(s.poll(&mut pending), Polled::NeedLine));
}

#[test]
fn a_line_of_the_keyboard_is_read_word_by_word() {
    let mut s = TokenStream::new();
    let mut pending = Vec::new();
    s.feed_line("left  3down\n");
    assert_eq!(drain(&mut s, &mut pending), (words(&["left", "3down", "\n"]), true));
    s.feed_line("\n");
    s.feed_line("drop");
    assert_eq!(drain(&mut s, &mut pending), (words(&["\n", "drop", "\n"]), true));
}

#[test]
fn a_script_is_read_before_the_keyboard_and_the_last_script_first() {
    let mut s = TokenStream::new();
    let mut pending = Vec::new();
    s.feed_line("quit");
    s.push_script("a b\nc");
    s.push_script("x");
    assert_eq!(s.sources.len(), 3);
    assert_eq!(
        drain(&mut s, &mut pending),
        (words(&["x", "\n", "a", "b", "\n", "c", "\n", "quit", "\n"]), true)
    );
    assert_eq!(s.sources.len(), 1);
}

#[test]
fn an_empty_script_gives_no_word() {
    let mut s = TokenStream::new();
    let mut pending = Vec::new();
    s.push_script("");
    assert!(matches!(s.poll(&mut pending), Polled::NeedLine));
    assert_eq!(s.sources.len(), 1);
}

#[test]
fn waiting_words_of_macros_go_first_the_last_one_first() {
    let mut s = TokenStream::new();
    s.push_script("a");
    let mut pending = words(&["third", "second", "first"]);
    assert_eq!(
        drain(&mut s, &mut pending),
        (words(&["first", "second", "third", "a", "\n"]), true)
    );
    assert!(pending.is_empty());
}

#[test]
fn a_stream_without_sources_is_at_its_end() {
    let mut s = TokenStream::new();
    s.sources.clear();
    let mut pending = Vec::new();
    assert!(matches!(s.poll(&mut pending), Polled::End));
    s.sources.push(Source::File { tokens: read_script("a") });
    assert_eq!(drain(&mut s, &mut pending), (words(&["a", "\n"]), false));
    assert!(s.sources.is_empty());
}
