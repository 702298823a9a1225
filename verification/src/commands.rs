//! The command language of the terminal driver: the table of command names,
//! aliases and macros, the reading of one command word, and the stream of
//! words that scripts and the keyboard feed.

use crate::text::{
    all_digits, chars_of, is_ascii_digit, is_prefix, leading_digits, lemma_digit_runs,
    number_of, parse_digits, same_text, starts_with, texts, trailing_digits, word_spans, words,
};
use std::collections::VecDeque;
use vstd::prelude::*;

verus! {

/// What a name of the table stands for: a command, or a macro.
#[derive(Clone, Debug)]
pub struct Binding {
    pub is_macro: bool,
    /// The command that a name which is no macro stands for.
    pub single: String,
    /// The words of a macro.
    pub seq: Vec<String>,
}

/// The mathematical value of a [`Binding`].
pub struct BindingView {
    pub is_macro: bool,
    pub single: Seq<char>,
    pub seq: Seq<Seq<char>>,
}

impl View for Binding {
    type V = BindingView;

    open spec fn view(&self) -> BindingView {
        BindingView { is_macro: self.is_macro, single: self.single@, seq: texts(self.seq@) }
    }
}

/// Why a command word, an alias or a macro was refused.
#[derive(Debug, Clone, Copy, PartialEq, Eq, Structural)]
pub enum CommandError {
    /// The word is empty.
    Empty,
    /// The word is the mark of a line's end.
    Newline,
    /// No name starts with the stem of the word.
    InvalidStem,
    /// More than one name starts with the stem of the word.
    AmbiguousStem,
    /// The name of the alias is taken.
    AliasInUse,
    /// The name that the alias is for is no command.
    NotBaseCommand,
    /// The name of the macro is taken.
    MacroInUse,
    /// The macro has no words.
    EmptyMacro,
}

/// The table of names. The bindings stand in the order of the names, one for
/// each, and no name occurs twice.
pub struct CommandTable {
    pub names: Vec<String>,
    pub bindings: Vec<Binding>,
    /// Words of macros that wait to be read, the next one last.
    pub pending: Vec<String>,
}

/// The mathematical value of a [`CommandTable`].
pub struct CommandTableView {
    pub names: Seq<Seq<char>>,
    pub bindings: Seq<BindingView>,
    pub pending: Seq<Seq<char>>,
}

impl View for CommandTable {
    type V = CommandTableView;

    open spec fn view(&self) -> CommandTableView {
        CommandTableView {
            names: texts(self.names@),
            bindings: Seq::new(self.bindings@.len(), |i: int| self.bindings@[i]@),
            pending: texts(self.pending@),
        }
    }
}

/// The names of the commands that every table starts with.
pub open spec fn base_names() -> Seq<Seq<char>> {
    seq![
        "left"@,
        "right"@,
        "down"@,
        "cw"@,
        "ccw"@,
        "drop"@,
        "levelup"@,
        "leveldown"@,
        "sequence"@,
        "restart"@,
        "random"@,
        "norandom"@,
        "quit"@,
        "I"@,
        "J"@,
        "L"@,
        "S"@,
        "T"@,
        "O"@,
        "Z"@,
        "rename"@,
        "macro"@,
    ]
}

/// The binding of a command to itself.
pub open spec fn plain_binding(name: Seq<char>) -> BindingView {
    BindingView { is_macro: false, single: name, seq: Seq::empty() }
}

/// The first place from `from` on at which `name` stands among the names, or
/// -1 if it stands at none.
pub open spec fn first_at(names: Seq<Seq<char>>, name: Seq<char>, from: int) -> int
    decreases names.len() - from,
{
    if from < 0 || from >= names.len() {
        -1
    } else if names[from] == name {
        from
    } else {
        first_at(names, name, from + 1)
    }
}

/// The place at which `name` stands among the names, or -1.
pub open spec fn position(names: Seq<Seq<char>>, name: Seq<char>) -> int {
    first_at(names, name, 0)
}

/// The names that start with `stem`, in their order.
pub open spec fn matching(names: Seq<Seq<char>>, stem: Seq<char>) -> Seq<Seq<char>>
    decreases names.len(),
{
    if names.len() == 0 {
        Seq::empty()
    } else if is_prefix(stem, names.last()) {
        matching(names.drop_last(), stem).push(names.last())
    } else {
        matching(names.drop_last(), stem)
    }
}

/// The name that a stem stands for: the stem itself where it is a name, else
/// the one name that starts with it.
pub open spec fn resolved(names: Seq<Seq<char>>, stem: Seq<char>) -> Result<
    Seq<char>,
    CommandError,
> {
    if position(names, stem) >= 0 {
        Ok(stem)
    } else if matching(names, stem).len() == 0 {
        Err(CommandError::InvalidStem)
    } else if matching(names, stem).len() > 1 {
        Err(CommandError::AmbiguousStem)
    } else {
        Ok(matching(names, stem)[0])
    }
}

/// The number of repetitions that a command word asks for: the number before
/// its stem, else the number after it, else one. Zero, and a number too large
/// for a machine integer, count as one.
pub open spec fn repeat_asked(token: Seq<char>) -> int {
    let lead = leading_digits(token);
    let trail = trailing_digits(token);
    let run = if lead > 0 {
        token.take(lead as int)
    } else {
        token.skip(token.len() - trail)
    };
    match number_of(run, i32::MAX as int) {
        Some(v) => if v == 0 {
            1
        } else {
            v
        },
        None => 1,
    }
}

/// The stem of a command word: what stands between the digits it starts with
/// and the digits it ends with.
pub open spec fn stem_of(token: Seq<char>) -> Seq<char> {
    token.subrange(leading_digits(token) as int, token.len() - trailing_digits(token))
}

/// Whether a command is carried out once whatever count its word gives.
pub open spec fn takes_no_count(command: Seq<char>) -> bool {
    command == "drop"@ || command == "restart"@ || command == "quit"@ || command == "sequence"@
        || command == "random"@ || command == "norandom"@ || command == "macro"@
}

/// The command that a name stands for: the name itself for a macro, else the
/// command it is bound to.
pub open spec fn command_of(table: CommandTableView, name: Seq<char>) -> Seq<char> {
    let b = table.bindings[position(table.names, name)];
    if b.is_macro || b.single.len() == 0 {
        name
    } else {
        b.single
    }
}

/// What a command word says: how often to carry out which command.
pub open spec fn parsed_command(table: CommandTableView, token: Seq<char>) -> Result<
    (int, Seq<char>),
    CommandError,
> {
    if token.len() == 0 {
        Err(CommandError::Empty)
    } else if token == "\n"@ {
        Err(CommandError::Newline)
    } else {
        match resolved(table.names, stem_of(token)) {
            Err(e) => Err(e),
            Ok(name) => {
                let command = command_of(table, name);
                Ok(
                    (
                        if takes_no_count(command) {
                            1
                        } else {
                            repeat_asked(token)
                        },
                        command,
                    ),
                )
            },
        }
    }
}

impl CommandTableView {
    /// Each name has its binding, and no name occurs twice.
    pub open spec fn wf(self) -> bool {
        self.names.len() == self.bindings.len() && self.names.no_duplicates()
    }

    /// Whether `name` is a name of the table.
    pub open spec fn has(self, name: Seq<char>) -> bool {
        position(self.names, name) >= 0
    }

    /// The binding of a name of the table.
    pub open spec fn binding(self, name: Seq<char>) -> BindingView {
        self.bindings[position(self.names, name)]
    }

    /// The table with one more name and its binding.
    pub open spec fn with_name(self, name: Seq<char>, binding: BindingView) -> CommandTableView {
        CommandTableView {
            names: self.names.push(name),
            bindings: self.bindings.push(binding),
            ..self
        }
    }
}

/// Where a name stands, it stands at the place found; where it stands at none,
/// none is found.
pub proof fn lemma_first_at(names: Seq<Seq<char>>, name: Seq<char>, from: int)
    requires
        0 <= from <= names.len(),
    ensures
        first_at(names, name, from) == -1 || (from <= first_at(names, name, from) < names.len()
            && names[first_at(names, name, from)] == name),
        first_at(names, name, from) == -1 ==> forall|i: int|
            from <= i < names.len() ==> #[trigger] names[i] != name,
    decreases names.len() - from,
{
    if from < names.len() && names[from] != name {
        lemma_first_at(names, name, from + 1);
    }
}

/// Every name that starts with the stem is a name of the table.
pub proof fn lemma_matching_are_names(names: Seq<Seq<char>>, stem: Seq<char>)
    ensures
        forall|k: int|
            0 <= k < matching(names, stem).len() ==> names.contains(#[trigger] matching(names, stem)[k])
                && is_prefix(stem, matching(names, stem)[k]),
    decreases names.len(),
{
    if names.len() > 0 {
        let front = names.drop_last();
        lemma_matching_are_names(front, stem);
        let m = matching(names, stem);
        let mf = matching(front, stem);
        assert forall|k: int| 0 <= k < m.len() implies names.contains(#[trigger] m[k])
            && is_prefix(stem, m[k]) by {
            if k < mf.len() {
                assert(m[k] == mf[k]);
                assert(front.contains(mf[k]));
                let i = choose|i: int| 0 <= i < front.len() && front[i] == mf[k];
                assert(names[i] == mf[k]);
            } else {
                assert(names[names.len() - 1] == m[k]);
            }
        }
    }
}

/// The name that a stem stands for is a name of the table.
pub proof fn lemma_resolved_is_name(names: Seq<Seq<char>>, stem: Seq<char>)
    ensures
        resolved(names, stem) is Ok ==> 0 <= position(names, resolved(names, stem)->Ok_0) < names.len(),
{
    lemma_first_at(names, stem, 0);
    if resolved(names, stem) is Ok && position(names, stem) < 0 {
        lemma_matching_are_names(names, stem);
        let name = matching(names, stem)[0];
        assert(names.contains(name));
        lemma_first_at(names, name, 0);
    }
}

/// A key that tells the base names apart: the length of a name and its first
/// two characters.
spec fn name_key(name: Seq<char>) -> (nat, char, char) {
    (
        name.len(),
        if name.len() > 0 {
            name[0]
        } else {
            ' '
        },
        if name.len() > 1 {
            name[1]
        } else {
            ' '
        },
    )
}

/// No two of the base names are the same.
pub proof fn lemma_base_names_differ()
    ensures
        base_names().no_duplicates(),
{
    reveal_strlit("left");
    reveal_strlit("right");
    reveal_strlit("down");
    reveal_strlit("cw");
    reveal_strlit("ccw");
    reveal_strlit("drop");
    reveal_strlit("levelup");
    reveal_strlit("leveldown");
    reveal_strlit("sequence");
    reveal_strlit("restart");
    reveal_strlit("random");
    reveal_strlit("norandom");
    reveal_strlit("quit");
    reveal_strlit("I");
    reveal_strlit("J");
    reveal_strlit("L");
    reveal_strlit("S");
    reveal_strlit("T");
    reveal_strlit("O");
    reveal_strlit("Z");
    reveal_strlit("rename");
    reveal_strlit("macro");
    let names = base_names();
    let keys = Seq::new(names.len(), |i: int| name_key(names[i]));
    assert(keys[0] == (4nat, 'l', 'e'));
    assert(keys[1] == (5nat, 'r', 'i'));
    assert(keys[2] == (4nat, 'd', 'o'));
    assert(keys[3] == (2nat, 'c', 'w'));
    assert(keys[4] == (3nat, 'c', 'c'));
    assert(keys[5] == (4nat, 'd', 'r'));
    assert(keys[6] == (7nat, 'l', 'e'));
    assert(keys[7] == (9nat, 'l', 'e'));
    assert(keys[8] == (8nat, 's', 'e'));
    assert(keys[9] == (7nat, 'r', 'e'));
    assert(keys[10] == (6nat, 'r', 'a'));
    assert(keys[11] == (8nat, 'n', 'o'));
    assert(keys[12] == (4nat, 'q', 'u'));
    assert(keys[13] == (1nat, 'I', ' '));
    assert(keys[14] == (1nat, 'J', ' '));
    assert(keys[15] == (1nat, 'L', ' '));
    assert(keys[16] == (1nat, 'S', ' '));
    assert(keys[17] == (1nat, 'T', ' '));
    assert(keys[18] == (1nat, 'O', ' '));
    assert(keys[19] == (1nat, 'Z', ' '));
    assert(keys[20] == (6nat, 'r', 'e'));
    assert(keys[21] == (5nat, 'm', 'a'));
    assert forall|i: int, j: int| 0 <= i < names.len() && 0 <= j < names.len() && i != j implies names[i]
        != names[j] by {
        assert(keys[i] != keys[j]);
    }
}

/// The binding of a command to itself.
fn plain(name: &str) -> (b: Binding)
    ensures
        b@ == plain_binding(name@),
{
    let b = Binding { is_macro: false, single: name.to_owned(), seq: Vec::new() };
    assert(b@.seq =~= Seq::<Seq<char>>::empty());
    b
}

/// A copy of the words.
fn copy_words(words: &Vec<String>) -> (copy: Vec<String>)
    ensures
        texts(copy@) == texts(words@),
{
    let mut copy: Vec<String> = Vec::new();
    let mut k: usize = 0;
    while k < words.len()
        invariant
            k <= words@.len(),
            copy@.len() == k,
            forall|i: int| 0 <= i < k ==> (#[trigger] copy@[i])@ == words@[i]@,
        decreases words@.len() - k,
    {
        copy.push(words[k].clone());
        k += 1;
    }
    assert(texts(copy@) =~= texts(words@));
    copy
}

/// The number of digits that the characters start with, and the number of
/// digits that they end with.
fn digit_runs(chars: &Vec<char>) -> (runs: (usize, usize))
    ensures
        runs.0 == leading_digits(chars@),
        runs.1 == trailing_digits(chars@),
{
    let ghost word = chars@;
    let n = chars.len();
    let mut lead: usize = 0;
    proof {
        assert(word.skip(0) =~= word);
    }
    while lead < n && is_ascii_digit(chars[lead])
        invariant
            lead <= n,
            n == word.len(),
            chars@ == word,
            leading_digits(word) == lead + leading_digits(word.skip(lead as int)),
        decreases n - lead,
    {
        proof {
            let rest = word.skip(lead as int);
            assert(rest[0] == word[lead as int]);
            assert(rest.drop_first() =~= word.skip(lead + 1));
        }
        lead += 1;
    }
    proof {
        if lead < n {
            assert(word.skip(lead as int)[0] == word[lead as int]);
        }
    }
    let mut trail: usize = 0;
    proof {
        assert(word.take(n as int) =~= word);
    }
    while trail < n && is_ascii_digit(chars[n - 1 - trail])
        invariant
            trail <= n,
            n == word.len(),
            chars@ == word,
            trailing_digits(word) == trail + trailing_digits(word.take(n - trail)),
        decreases n - trail,
    {
        proof {
            let front = word.take(n - trail);
            assert(front.last() == word[n - 1 - trail]);
            assert(front.drop_last() =~= word.take(n - trail - 1));
        }
        trail += 1;
    }
    proof {
        if trail < n {
            assert(word.take(n - trail).last() == word[n - 1 - trail]);
        }
    }
    (lead, trail)
}

/// The stem of a command word: what stands between the digits it starts with
/// and the digits it ends with.
pub fn token_stem(token: &str) -> (stem: String)
    requires
        token@.len() == 0 || !all_digits(token@),
    ensures
        stem@ == stem_of(token@),
{
    let chars = chars_of(token);
    let (lead, trail) = digit_runs(&chars);
    proof {
        lemma_digit_runs(token@);
    }
    token.substring_char(lead, chars.len() - trail).to_owned()
}

impl CommandTable {
    /// Each name has its binding, and no name occurs twice.
    pub open spec fn wf(&self) -> bool {
        self@.wf()
    }

    /// The table of the commands that every match knows, each bound to itself.
    pub fn new() -> (table: CommandTable)
        ensures
            table.wf(),
            table@.names == base_names(),
            table@.bindings == Seq::new(base_names().len(), |i: int| plain_binding(base_names()[i])),
            table@.pending == Seq::<Seq<char>>::empty(),
    {
        let mut table = CommandTable { names: Vec::new(), bindings: Vec::new(), pending: Vec::new() };
        table.add_plain("left");
        table.add_plain("right");
        table.add_plain("down");
        table.add_plain("cw");
        table.add_plain("ccw");
        table.add_plain("drop");
        table.add_plain("levelup");
        table.add_plain("leveldown");
        table.add_plain("sequence");
        table.add_plain("restart");
        table.add_plain("random");
        table.add_plain("norandom");
        table.add_plain("quit");
        table.add_plain("I");
        table.add_plain("J");
        table.add_plain("L");
        table.add_plain("S");
        table.add_plain("T");
        table.add_plain("O");
        table.add_plain("Z");
        table.add_plain("rename");
        table.add_plain("macro");
        proof {
            assert(table@.names =~= base_names());
            assert(table@.bindings =~= Seq::new(
                base_names().len(),
                |i: int| plain_binding(base_names()[i]),
            ));
            assert(table@.pending =~= Seq::<Seq<char>>::empty());
            lemma_base_names_differ();
        }
        table
    }

    /// Adds a command that is bound to itself.
    fn add_plain(&mut self, name: &str)
        ensures
            final(self)@ == old(self)@.with_name(name@, plain_binding(name@)),
    {
        self.add(name.to_owned(), plain(name));
    }

    /// Adds a name with its binding.
    fn add(&mut self, name: String, binding: Binding)
        ensures
            final(self)@ == old(self)@.with_name(name@, binding@),
    {
        self.names.push(name);
        self.bindings.push(binding);
        proof {
            let want = old(self)@.with_name(name@, binding@);
            assert(self@.names =~= want.names);
            assert(self@.bindings =~= want.bindings);
        }
    }

    /// The place of a name in the table, if it has one.
    fn find(&self, name: &str) -> (at: Option<usize>)
        ensures
            match at {
                Some(k) => k == position(self@.names, name@) && k < self.names@.len(),
                None => position(self@.names, name@) == -1,
            },
    {
        let mut k: usize = 0;
        while k < self.names.len()
            invariant
                k <= self.names@.len(),
                first_at(self@.names, name@, k as int) == position(self@.names, name@),
            decreases self.names@.len() - k,
        {
            assert(self@.names[k as int] == self.names@[k as int]@);
            if same_text(self.names[k].as_str(), name) {
                return Some(k);
            }
            k += 1;
        }
        None
    }

    /// The name that a stem stands for: the stem itself where it is a name,
    /// else the one name that starts with it. A stem with which no name starts,
    /// or more than one, is refused.
    pub fn resolve_stem(&self, stem: &str) -> (name: Result<String, CommandError>)
        ensures
            match name {
                Ok(n) => resolved(self@.names, stem@) == Ok::<Seq<char>, CommandError>(n@),
                Err(e) => resolved(self@.names, stem@) == Err::<Seq<char>, CommandError>(e),
            },
    {
        if self.find(stem).is_some() {
            return Ok(stem.to_owned());
        }
        let ghost names = self@.names;
        let mut found: Vec<usize> = Vec::new();
        let mut k: usize = 0;
        proof {
            assert(names.take(0) =~= Seq::<Seq<char>>::empty());
        }
        while k < self.names.len()
            invariant
                k <= self.names@.len(),
                names == self@.names,
                found@.len() == matching(names.take(k as int), stem@).len(),
                forall|i: int|
                    0 <= i < found@.len() ==> (#[trigger] found@[i]) < k && names[found@[i] as int]
                        == matching(names.take(k as int), stem@)[i],
            decreases self.names@.len() - k,
        {
            proof {
                let upto = names.take(k + 1);
                assert(upto.drop_last() =~= names.take(k as int));
                assert(upto.last() == self.names@[k as int]@);
            }
            if starts_with(self.names[k].as_str(), stem) {
                found.push(k);
            }
            k += 1;
        }
        proof {
            assert(names.take(names.len() as int) =~= names);
        }
        if found.len() == 0 {
            return Err(CommandError::InvalidStem);
        }
        if found.len() > 1 {
            return Err(CommandError::AmbiguousStem);
        }
        Ok(self.names[found[0]].clone())
    }

    /// Whether `name` is the name of a macro.
    pub fn is_macro_name(&self, name: &str) -> (b: bool)
        requires
            self.wf(),
        ensures
            b == (self@.has(name@) && self@.binding(name@).is_macro),
    {
        match self.find(name) {
            Some(k) => self.bindings[k].is_macro,
            None => false,
        }
    }

    /// The words of the macro `name`, if it is one.
    pub fn macro_seq(&self, name: &str) -> (seq: Option<Vec<String>>)
        requires
            self.wf(),
        ensures
            match seq {
                Some(words) => self@.has(name@) && self@.binding(name@).is_macro && texts(words@)
                    == self@.binding(name@).seq,
                None => !(self@.has(name@) && self@.binding(name@).is_macro),
            },
    {
        match self.find(name) {
            Some(k) => {
                if self.bindings[k].is_macro {
                    Some(copy_words(&self.bindings[k].seq))
                } else {
                    None
                }
            },
            None => None,
        }
    }

    /// Makes `new_name` stand for the command that `old_name` stands for. The
    /// new name must be free, and the old one the name of a command, not of a
    /// macro. Gives the command.
    pub fn define_alias(&mut self, new_name: &str, old_name: &str) -> (made: Result<
        String,
        CommandError,
    >)
        requires
            old(self).wf(),
        ensures
            final(self).wf(),
            match made {
                Ok(command) => {
                    &&& !old(self)@.has(new_name@)
                    &&& old(self)@.has(old_name@)
                    &&& !old(self)@.binding(old_name@).is_macro
                    &&& command@ == command_of(old(self)@, old_name@)
                    &&& final(self)@ == old(self)@.with_name(new_name@, plain_binding(command@))
                },
                Err(e) => final(self)@ == old(self)@ && e == if old(self)@.has(new_name@) {
                    CommandError::AliasInUse
                } else {
                    CommandError::NotBaseCommand
                } && (old(self)@.has(new_name@) || !old(self)@.has(old_name@) || old(self)@.binding(
                    old_name@,
                ).is_macro),
            },
    {
        proof {
            lemma_first_at(self@.names, new_name@, 0);
        }
        if self.find(new_name).is_some() {
            return Err(CommandError::AliasInUse);
        }
        let k = match self.find(old_name) {
            Some(k) => k,
            None => {
                return Err(CommandError::NotBaseCommand);
            },
        };
        if self.bindings[k].is_macro {
            return Err(CommandError::NotBaseCommand);
        }
        let canonical = if self.bindings[k].single.as_str().is_empty() {
            old_name.to_owned()
        } else {
            self.bindings[k].single.clone()
        };
        self.add(new_name.to_owned(), plain(canonical.as_str()));
        Ok(canonical)
    }

    /// Makes `name` a macro for the given words. The name must be free, and
    /// there must be a word at least.
    pub fn define_macro(&mut self, name: &str, seq: Vec<String>) -> (made: Result<(), CommandError>)
        requires
            old(self).wf(),
        ensures
            final(self).wf(),
            match made {
                Ok(_) => !old(self)@.has(name@) && seq@.len() > 0 && final(self)@ == old(
                    self,
                )@.with_name(
                    name@,
                    BindingView { is_macro: true, single: Seq::empty(), seq: texts(seq@) },
                ),
                Err(e) => final(self)@ == old(self)@ && e == if old(self)@.has(name@) {
                    CommandError::MacroInUse
                } else {
                    CommandError::EmptyMacro
                } && (old(self)@.has(name@) || seq@.len() == 0),
            },
    {
        proof {
            lemma_first_at(self@.names, name@, 0);
        }
        if self.find(name).is_some() {
            return Err(CommandError::MacroInUse);
        }
        if seq.len() == 0 {
            return Err(CommandError::EmptyMacro);
        }
        self.add(name.to_owned(), Binding { is_macro: true, single: String::new(), seq });
        Ok(())
    }

    /// Reads a command word: an optional count before or after a stem that
    /// names a command. Gives the count and the command; commands that are
    /// carried out once whatever the count get the count one.
    pub fn parse_command_token(&self, token: &str) -> (parsed: Result<(i32, String), CommandError>)
        requires
            self.wf(),
            token@.len() == 0 || !all_digits(token@),
        ensures
            match parsed {
                Ok(p) => parsed_command(self@, token@) == Ok::<(int, Seq<char>), CommandError>(
                    (p.0 as int, p.1@),
                ),
                Err(e) => parsed_command(self@, token@) == Err::<(int, Seq<char>), CommandError>(e),
            },
    {
        let chars = chars_of(token);
        let n = chars.len();
        if n == 0 {
            return Err(CommandError::Empty);
        }
        if same_text(token, "\n") {
            return Err(CommandError::Newline);
        }
        let (lead, trail) = digit_runs(&chars);
        proof {
            lemma_digit_runs(token@);
            assert(token@.subrange(0, lead as int) =~= token@.take(lead as int));
            assert(token@.subrange(n - trail, n as int) =~= token@.skip(n - trail));
        }
        let counted = if lead > 0 {
            parse_digits(&chars, 0, lead, 2147483647)
        } else {
            parse_digits(&chars, n - trail, n, 2147483647)
        };
        let mut repeat: i32 = match counted {
            Some(v) => v as i32,
            None => 1,
        };
        if repeat <= 0 {
            repeat = 1;
        }
        let stem = token.substring_char(lead, n - trail);
        let name = match self.resolve_stem(stem) {
            Ok(name) => name,
            Err(e) => {
                return Err(e);
            },
        };
        proof {
            lemma_resolved_is_name(self@.names, stem@);
        }
        let k = match self.find(name.as_str()) {
            Some(k) => k,
            None => {
                return Err(CommandError::InvalidStem);
            },
        };
        let binding = &self.bindings[k];
        let command = if binding.is_macro || binding.single.as_str().is_empty() {
            name
        } else {
            binding.single.clone()
        };
        let text = command.as_str();
        if same_text(text, "drop") || same_text(text, "restart") || same_text(text, "quit")
            || same_text(text, "sequence") || same_text(text, "random") || same_text(
            text,
            "norandom",
        ) || same_text(text, "macro") {
            repeat = 1;
        }
        Ok((repeat, command))
    }
}

/// The word that marks the end of a line.
pub open spec fn newline_word() -> Seq<char> {
    "\n"@
}

/// The length of the first line of `s`, without the line feed that ends it.
pub open spec fn line_len(s: Seq<char>) -> nat
    decreases s.len(),
{
    if s.len() == 0 || s[0] == '\n' {
        0
    } else {
        1 + line_len(s.drop_first())
    }
}

/// A line is no longer than the text it starts.
pub proof fn lemma_line_len_bound(s: Seq<char>)
    ensures
        line_len(s) <= s.len(),
    decreases s.len(),
{
    if s.len() > 0 && s[0] != '\n' {
        lemma_line_len_bound(s.drop_first());
    }
}

/// The words of one line, and the mark of its end.
pub open spec fn line_words(line: Seq<char>) -> Seq<Seq<char>> {
    words(line).push(newline_word())
}

/// The words of a script: for each of its lines the words of the line and the
/// mark of its end. Lines end at a line feed; a last line without one counts
/// if it is not empty.
pub open spec fn script_words(s: Seq<char>) -> Seq<Seq<char>>
    decreases s.len(),
    via lemma_script_words_decreases
{
    if s.len() == 0 {
        Seq::empty()
    } else if line_len(s) < s.len() {
        line_words(s.take(line_len(s) as int)) + script_words(s.skip(line_len(s) as int + 1))
    } else {
        line_words(s)
    }
}

#[via_fn]
proof fn lemma_script_words_decreases(s: Seq<char>) {
    lemma_line_len_bound(s);
}

/// Where words come from: the keyboard, or the words of a script.
pub enum Source {
    Stdin,
    File { tokens: VecDeque<String> },
}

/// The mathematical value of a [`Source`].
pub enum SourceView {
    Stdin,
    File(Seq<Seq<char>>),
}

impl View for Source {
    type V = SourceView;

    open spec fn view(&self) -> SourceView {
        match self {
            Source::Stdin => SourceView::Stdin,
            Source::File { tokens } => SourceView::File(texts(tokens@)),
        }
    }
}

/// The stream of words that the driver reads: a stack of sources, the
/// keyboard at its bottom, and the words of the keyboard line read last.
pub struct TokenStream {
    pub sources: Vec<Source>,
    stdin_buf: VecDeque<String>,
}

/// The mathematical value of a [`TokenStream`].
pub struct TokenStreamView {
    /// The sources, the one that is read first last.
    pub sources: Seq<SourceView>,
    /// The words of the keyboard that were not read yet.
    pub waiting: Seq<Seq<char>>,
}

impl View for TokenStream {
    type V = TokenStreamView;

    closed spec fn view(&self) -> TokenStreamView {
        TokenStreamView {
            sources: Seq::new(self.sources@.len(), |i: int| self.sources@[i]@),
            waiting: texts(self.stdin_buf@),
        }
    }
}

/// What the stream gives when it is asked for a word.
pub enum Polled {
    /// The next word.
    Token(String),
    /// The keyboard is to be read: a line must be fed before the next word.
    NeedLine,
    /// There is no source left.
    End,
}

/// The mathematical value of a [`Polled`].
pub enum PolledView {
    Token(Seq<char>),
    NeedLine,
    End,
}

impl View for Polled {
    type V = PolledView;

    open spec fn view(&self) -> PolledView {
        match self {
            Polled::Token(word) => PolledView::Token(word@),
            Polled::NeedLine => PolledView::NeedLine,
            Polled::End => PolledView::End,
        }
    }
}

/// The stream, the waiting words of macros, and the answer, after the stream
/// was asked for a word. Words of macros go first, the last one first. Then
/// the topmost source is read: a script gives its next word, and leaves the
/// stack when it has none; the keyboard gives the next word of its line, and
/// asks for a line when it has none.
pub open spec fn polled(stream: TokenStreamView, pending: Seq<Seq<char>>) -> (
    TokenStreamView,
    Seq<Seq<char>>,
    PolledView,
)
    decreases stream.sources.len(),
{
    if pending.len() > 0 {
        (stream, pending.drop_last(), PolledView::Token(pending.last()))
    } else if stream.sources.len() == 0 {
        (stream, pending, PolledView::End)
    } else {
        match stream.sources.last() {
            SourceView::File(tokens) => {
                if tokens.len() > 0 {
                    (
                        TokenStreamView {
                            sources: stream.sources.drop_last().push(
                                SourceView::File(tokens.drop_first()),
                            ),
                            ..stream
                        },
                        pending,
                        PolledView::Token(tokens[0]),
                    )
                } else {
                    polled(TokenStreamView { sources: stream.sources.drop_last(), ..stream }, pending)
                }
            },
            SourceView::Stdin => {
                if stream.waiting.len() > 0 {
                    (
                        TokenStreamView { waiting: stream.waiting.drop_first(), ..stream },
                        pending,
                        PolledView::Token(stream.waiting[0]),
                    )
                } else {
                    (stream, pending, PolledView::NeedLine)
                }
            },
        }
    }
}

/// Appends the words of the characters from `from` to `to`, and the mark of a
/// line's end, to `out`.
fn push_line(text: &str, chars: &Vec<char>, from: usize, to: usize, out: &mut VecDeque<String>)
    requires
        chars@ == text@,
        from <= to <= chars@.len(),
    ensures
        texts(final(out)@) == texts(old(out)@) + line_words(chars@.subrange(from as int, to as int)),
{
    let spans = word_spans(chars, from, to);
    let ghost ws = words(chars@.subrange(from as int, to as int));
    let mut k: usize = 0;
    proof {
        assert(texts(out@) =~= texts(old(out)@) + ws.take(0));
    }
    while k < spans.len()
        invariant
            k <= spans@.len(),
            chars@ == text@,
            spans@.len() == ws.len(),
            forall|i: int|
                0 <= i < spans@.len() ==> from <= (#[trigger] spans@[i]).0 < spans@[i].1 <= to
                    && chars@.subrange(spans@[i].0 as int, spans@[i].1 as int) == ws[i],
            to <= chars@.len(),
            texts(out@) == texts(old(out)@) + ws.take(k as int),
        decreases spans@.len() - k,
    {
        let (a, b) = spans[k];
        let ghost before = out@;
        out.push_back(text.substring_char(a, b).to_owned());
        proof {
            assert(ws.take(k + 1) =~= ws.take(k as int).push(ws[k as int]));
            assert(texts(out@) =~= texts(before).push(ws[k as int]));
        }
        k += 1;
    }
    let ghost before = out@;
    out.push_back("\n".to_owned());
    proof {
        assert(ws.take(ws.len() as int) =~= ws);
        assert(texts(out@) =~= texts(before).push(newline_word()));
        assert(texts(out@) =~= texts(old(out)@) + line_words(
            chars@.subrange(from as int, to as int),
        ));
    }
}

/// The words of a script.
pub fn read_script(text: &str) -> (tokens: VecDeque<String>)
    ensures
        texts(tokens@) == script_words(text@),
{
    let chars = chars_of(text);
    let n = chars.len();
    let mut tokens: VecDeque<String> = VecDeque::new();
    let mut start: usize = 0;
    proof {
        assert(text@.skip(0) =~= text@);
        assert(texts(tokens@) =~= Seq::<Seq<char>>::empty());
    }
    while start < n
        invariant
            start <= n,
            n == text@.len(),
            chars@ == text@,
            script_words(text@) == texts(tokens@) + script_words(text@.skip(start as int)),
        decreases n - start,
    {
        let ghost rest = text@.skip(start as int);
        let mut end: usize = start;
        proof {
            assert(text@.skip(end as int) =~= rest);
        }
        while end < n && chars[end] != '\n'
            invariant
                start <= end <= n,
                n == text@.len(),
                chars@ == text@,
                rest == text@.skip(start as int),
                line_len(rest) == (end - start) + line_len(text@.skip(end as int)),
            decreases n - end,
        {
            proof {
                let tail = text@.skip(end as int);
                assert(tail[0] == text@[end as int]);
                assert(tail.drop_first() =~= text@.skip(end + 1));
            }
            end += 1;
        }
        proof {
            if end < n {
                assert(text@.skip(end as int)[0] == text@[end as int]);
            }
            assert(line_len(rest) == end - start);
            assert(rest.take(end - start) =~= chars@.subrange(start as int, end as int));
            if end < n {
                assert(rest.skip(end - start + 1) =~= text@.skip(end + 1));
            } else {
                assert(rest.take(end - start) =~= rest);
                assert(text@.skip(n as int) =~= Seq::<char>::empty());
            }
        }
        push_line(text, &chars, start, end, &mut tokens);
        start = if end < n {
            end + 1
        } else {
            n
        };
    }
    proof {
        assert(text@.skip(n as int) =~= Seq::<char>::empty());
    }
    tokens
}

impl TokenStream {
    /// A stream that reads the keyboard.
    pub fn new() -> (stream: TokenStream)
        ensures
            stream@ == (TokenStreamView {
                sources: seq![SourceView::Stdin],
                waiting: Seq::empty(),
            }),
    {
        let mut sources: Vec<Source> = Vec::new();
        sources.push(Source::Stdin);
        let stream = TokenStream { sources, stdin_buf: VecDeque::new() };
        proof {
            assert(stream@.sources =~= seq![SourceView::Stdin]);
            assert(stream@.waiting =~= Seq::<Seq<char>>::empty());
        }
        stream
    }

    /// Puts the words of a script on top of the sources: they are read before
    /// anything below.
    pub fn push_script(&mut self, text: &str)
        ensures
            final(self)@ == (TokenStreamView {
                sources: old(self)@.sources.push(SourceView::File(script_words(text@))),
                ..old(self)@
            }),
    {
        let tokens = read_script(text);
        self.sources.push(Source::File { tokens });
        proof {
            assert(self@.sources =~= old(self)@.sources.push(SourceView::File(script_words(text@))));
        }
    }

    /// Feeds a line that was read from the keyboard: its words are appended
    /// to the waiting words, and the mark of a line's end after them.
    pub fn feed_line(&mut self, line: &str)
        ensures
            final(self)@ == (TokenStreamView {
                waiting: old(self)@.waiting + line_words(line@),
                ..old(self)@
            }),
    {
        let chars = chars_of(line);
        proof {
            assert(chars@.subrange(0, chars@.len() as int) =~= line@);
        }
        push_line(line, &chars, 0, chars.len(), &mut self.stdin_buf);
        proof {
            assert(self@.sources =~= old(self)@.sources);
        }
    }

    /// Asks the stream for the next word. Waiting words of macros go first.
    /// The answer is a word, the request to feed a line of the keyboard and
    /// ask again, or the end of the stream.
    pub fn poll(&mut self, pending: &mut Vec<String>) -> (answer: Polled)
        ensures
            (final(self)@, texts(final(pending)@), answer@) == polled(
                old(self)@,
                texts(old(pending)@),
            ),
    {
        match pending.pop() {
            Some(word) => {
                proof {
                    assert(texts(pending@) =~= texts(old(pending)@).drop_last());
                }
                return Polled::Token(word);
            },
            None => {},
        }
        proof {
            assert(texts(pending@) =~= Seq::<Seq<char>>::empty());
        }
        loop
            invariant
                pending@.len() == 0,
                polled(self@, texts(pending@)) == polled(old(self)@, texts(old(pending)@)),
            decreases self.sources@.len(),
        {
            let ghost before = self@;
            let top = match self.sources.pop() {
                Some(source) => source,
                None => {
                    return Polled::End;
                },
            };
            proof {
                assert(before.sources.last() == top@);
                assert(self@.sources =~= before.sources.drop_last());
                assert(self@.waiting == before.waiting);
            }
            match top {
                Source::File { mut tokens } => {
                    match tokens.pop_front() {
                        Some(word) => {
                            let ghost left = texts(tokens@);
                            self.sources.push(Source::File { tokens });
                            proof {
                                assert(left =~= top@->File_0.drop_first());
                                assert(self@.sources =~= before.sources.drop_last().push(
                                    SourceView::File(left),
                                ));
                            }
                            return Polled::Token(word);
                        },
                        None => {},
                    }
                },
                Source::Stdin => {
                    self.sources.push(Source::Stdin);
                    proof {
                        assert(self@.sources =~= before.sources);
                    }
                    match self.stdin_buf.pop_front() {
                        Some(word) => {
                            proof {
                                assert(self@.waiting =~= before.waiting.drop_first());
                                assert(self@.sources =~= before.sources);
                            }
                            return Polled::Token(word);
                        },
                        None => {
                            proof {
                                assert(self@.sources =~= before.sources);
                            }
                            return Polled::NeedLine;
                        },
                    }
                },
            }
        }
    }
}

} // verus!
