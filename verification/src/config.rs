//! The settings of a match, as the command line gives them.

use crate::text::{parse_i32, parse_u64, parsed_i32, parsed_u64, same_text, texts};
use vstd::prelude::*;

verus! {

/// The settings of a match.
#[derive(Debug, Clone)]
pub struct Config {
    /// Whether the match is played in the terminal.
    pub text_only: bool,
    /// The seed of the generator, if one was given.
    pub seed: Option<u64>,
    /// The level on which both players start.
    pub level: i32,
    /// The path of the first player's sequence script.
    pub script_file1: String,
    /// The path of the second player's sequence script.
    pub script_file2: String,
}

/// The mathematical value of a [`Config`].
pub struct ConfigView {
    pub text_only: bool,
    pub seed: Option<u64>,
    pub level: i32,
    pub script_file1: Seq<char>,
    pub script_file2: Seq<char>,
}

impl View for Config {
    type V = ConfigView;

    open spec fn view(&self) -> ConfigView {
        ConfigView {
            text_only: self.text_only,
            seed: self.seed,
            level: self.level,
            script_file1: self.script_file1@,
            script_file2: self.script_file2@,
        }
    }
}

/// The settings of a match for which the command line says nothing.
pub open spec fn default_config() -> ConfigView {
    ConfigView {
        text_only: false,
        seed: None,
        level: 0,
        script_file1: "tetris_sequence1.txt"@,
        script_file2: "tetris_sequence2.txt"@,
    }
}

impl Default for Config {
    fn default() -> (cfg: Config)
        ensures
            cfg@ == default_config(),
    {
        Config {
            text_only: false,
            seed: None,
            level: 0,
            script_file1: "tetris_sequence1.txt".to_owned(),
            script_file2: "tetris_sequence2.txt".to_owned(),
        }
    }
}

/// The settings after the arguments from `i` on were read into `cfg`. `-text`
/// stands alone. `-seed`, `-scriptfile1`, `-scriptfile2` and `-startlevel`
/// take the argument that follows as their value; a seed or a level that is no
/// number leaves the setting as it is, and an option without a value is
/// passed over. So is any other argument.
pub open spec fn read_args(args: Seq<Seq<char>>, i: int, cfg: ConfigView) -> ConfigView
    decreases args.len() - i,
{
    if i < 0 || i >= args.len() {
        cfg
    } else if args[i] == "-text"@ {
        read_args(args, i + 1, ConfigView { text_only: true, ..cfg })
    } else if !(args[i] == "-seed"@ || args[i] == "-scriptfile1"@ || args[i] == "-scriptfile2"@
        || args[i] == "-startlevel"@) || i + 1 >= args.len() {
        read_args(args, i + 1, cfg)
    } else if args[i] == "-seed"@ {
        read_args(
            args,
            i + 2,
            match parsed_u64(args[i + 1]) {
                Some(v) => ConfigView { seed: Some(v), ..cfg },
                None => cfg,
            },
        )
    } else if args[i] == "-scriptfile1"@ {
        read_args(args, i + 2, ConfigView { script_file1: args[i + 1], ..cfg })
    } else if args[i] == "-scriptfile2"@ {
        read_args(args, i + 2, ConfigView { script_file2: args[i + 1], ..cfg })
    } else {
        read_args(
            args,
            i + 2,
            match parsed_i32(args[i + 1]) {
                Some(v) => ConfigView { level: v, ..cfg },
                None => cfg,
            },
        )
    }
}

/// The settings that the arguments give.
pub open spec fn parsed_args(args: Seq<Seq<char>>) -> ConfigView {
    read_args(args, 0, default_config())
}

/// The settings that the arguments of the command line give; what they do not
/// name keeps its default.
pub fn parse_args(args: &[String]) -> (cfg: Config)
    ensures
        cfg@ == parsed_args(texts(args@)),
{
    let mut cfg = Config::default();
    let ghost all = texts(args@);
    let mut i: usize = 0;
    while i < args.len()
        invariant
            i <= args@.len(),
            all == texts(args@),
            read_args(all, i as int, cfg@) == parsed_args(all),
        decreases args@.len() - i,
    {
        let arg = args[i].as_str();
        assert(arg@ == all[i as int]);
        let has_value = i + 1 < args.len();
        if same_text(arg, "-text") {
            cfg.text_only = true;
        } else if same_text(arg, "-seed") {
            if has_value {
                assert(args@[i + 1]@ == all[i + 1]);
                match parse_u64(args[i + 1].as_str()) {
                    Some(v) => {
                        cfg.seed = Some(v);
                    },
                    None => {},
                }
                i += 1;
            }
        } else if same_text(arg, "-scriptfile1") {
            if has_value {
                assert(args@[i + 1]@ == all[i + 1]);
                cfg.script_file1 = args[i + 1].clone();
                i += 1;
            }
        } else if same_text(arg, "-scriptfile2") {
            if has_value {
                assert(args@[i + 1]@ == all[i + 1]);
                cfg.script_file2 = args[i + 1].clone();
                i += 1;
            }
        } else if same_text(arg, "-startlevel") {
            if has_value {
                assert(args@[i + 1]@ == all[i + 1]);
                match parse_i32(args[i + 1].as_str()) {
                    Some(v) => {
                        cfg.level = v;
                    },
                    None => {},
                }
                i += 1;
            }
        }
        i += 1;
    }
    cfg
}

} // verus!
