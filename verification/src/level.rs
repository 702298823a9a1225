//! Level policies: which kind of piece comes next. Level 0 replays a fixed
//! sequence, levels 1 to 3 draw by weight and may replay a loaded sequence
//! instead, and level 4 also counts the pieces placed since the last clear and
//! asks for a bonus piece at every fifth.

use crate::block::{kind_of_char, BlockKind};
use crate::text::{chars_of, word_spans, words};
use rand::distributions::{Distribution, WeightedIndex};
use rand::rngs::StdRng;
use vstd::prelude::*;

verus! {

/// The seeded generator of `rand` from which all pieces are drawn. Nothing is
/// known of its state.
#[verifier::external_type_specification]
#[verifier::external_body]
pub struct ExStdRng(rand::rngs::StdRng);

/// Why a level could not be made or changed.
#[derive(Debug, Clone, Copy, PartialEq, Eq, Structural)]
pub enum LevelError {
    /// The sequence script could not be read.
    Unreadable,
    /// The sequence script names no standard kind.
    EmptySequence,
    /// The level has no random mode to switch and takes no sequence.
    NotApplicable,
}

/// The kind that a word of a sequence script names: a word of one character
/// that is the glyph of a standard kind.
pub open spec fn kind_of_word(w: Seq<char>) -> Option<BlockKind> {
    if w.len() == 1 && kind_of_char(w[0]) is Some && kind_of_char(w[0])->0.is_standard() {
        kind_of_char(w[0])
    } else {
        None
    }
}

/// The kinds that the words name, in order; words that name none are skipped.
pub open spec fn kinds_of(ws: Seq<Seq<char>>) -> Seq<BlockKind>
    decreases ws.len(),
{
    if ws.len() == 0 {
        Seq::empty()
    } else if kind_of_word(ws.last()) is Some {
        kinds_of(ws.drop_last()).push(kind_of_word(ws.last())->0)
    } else {
        kinds_of(ws.drop_last())
    }
}

/// The sequence of kinds that a script holds: its words, separated by white
/// space, each one of `I J L S T O Z`; any other word is skipped.
pub open spec fn sequence_of(text: Seq<char>) -> Seq<BlockKind> {
    kinds_of(words(text))
}

/// The sequence of kinds that a script holds.
pub fn parse_sequence(text: &str) -> (seq: Vec<BlockKind>)
    ensures
        seq@ == sequence_of(text@),
{
    let chars = chars_of(text);
    let spans = word_spans(&chars, 0, chars.len());
    let ghost ws = words(text@);
    proof {
        assert(chars@.subrange(0, chars@.len() as int) =~= text@);
        assert(ws.take(0) =~= Seq::<Seq<char>>::empty());
    }
    let mut seq: Vec<BlockKind> = Vec::new();
    let mut k: usize = 0;
    while k < spans.len()
        invariant
            k <= spans@.len(),
            spans@.len() == ws.len(),
            forall|i: int|
                0 <= i < spans@.len() ==> 0 <= (#[trigger] spans@[i]).0 < spans@[i].1 <= chars@.len()
                    && chars@.subrange(spans@[i].0 as int, spans@[i].1 as int) == ws[i],
            seq@ == kinds_of(ws.take(k as int)),
        decreases spans@.len() - k,
    {
        let (start, end) = spans[k];
        proof {
            let upto = ws.take(k + 1);
            assert(upto.drop_last() =~= ws.take(k as int));
            assert(upto.last() == ws[k as int]);
            assert(ws[k as int] == chars@.subrange(start as int, end as int));
            assert(ws[k as int].len() == end - start);
            if end - start == 1 {
                assert(ws[k as int][0] == chars@[start as int]);
            }
        }
        if end - start == 1 {
            match BlockKind::from_char(chars[start]) {
                Some(kind) => {
                    if kind != BlockKind::Star {
                        seq.push(kind);
                    }
                },
                None => {},
            }
        }
        k += 1;
    }
    proof {
        assert(ws.take(ws.len() as int) =~= ws);
    }
    seq
}

/// The sum of the weights.
pub open spec fn total_weight(w: Seq<usize>) -> nat
    decreases w.len(),
{
    if w.len() == 0 {
        0
    } else {
        total_weight(w.drop_last()) + w.last() as nat
    }
}

/// Weights from which an index can be drawn: there is one at least, they are
/// not all zero, and their sum is a machine integer.
pub open spec fn valid_weights(w: Seq<usize>) -> bool {
    w.len() > 0 && 0 < total_weight(w) <= usize::MAX
}

/// The kind that a drawn index stands for: `T S Z I J L O` for 0 to 6.
pub open spec fn index_kind(i: int) -> BlockKind {
    if i == 1 {
        BlockKind::S
    } else if i == 2 {
        BlockKind::Z
    } else if i == 3 {
        BlockKind::I
    } else if i == 4 {
        BlockKind::J
    } else if i == 5 {
        BlockKind::L
    } else if i == 6 {
        BlockKind::O
    } else {
        BlockKind::T
    }
}

/// Whether a draw by these weights can give `kind`: some index of positive
/// weight stands for it.
pub open spec fn drawable(w: Seq<usize>, kind: BlockKind) -> bool {
    exists|i: int| 0 <= i < w.len() && #[trigger] w[i] > 0 && kind == index_kind(i)
}

/// The kind that a drawn index stands for.
pub fn kind_of_index(i: usize) -> (kind: BlockKind)
    ensures
        kind == index_kind(i as int),
        kind.is_standard(),
{
    if i == 1 {
        BlockKind::S
    } else if i == 2 {
        BlockKind::Z
    } else if i == 3 {
        BlockKind::I
    } else if i == 4 {
        BlockKind::J
    } else if i == 5 {
        BlockKind::L
    } else if i == 6 {
        BlockKind::O
    } else {
        BlockKind::T
    }
}

/// Draws an index with `rand`'s `WeightedIndex::new(..)` and `sample`: the
/// index of one of the weights, each drawn with a chance in proportion to its
/// weight, so never one of weight zero. Which index comes is not stated.
#[verifier::external_body]
fn weighted_pick(weights: &Vec<usize>, rng: &mut StdRng) -> (i: usize)
    requires
        valid_weights(weights@),
    ensures
        i < weights@.len(),
        weights@[i as int] > 0,
{
    WeightedIndex::new(weights.clone()).unwrap().sample(rng)
}

/// The three forms of level policy.
#[derive(PartialEq, Eq, Structural)]
pub enum Policy {
    /// A fixed sequence, replayed for ever.
    Fixed,
    /// Draws by weight, or the replay of a loaded sequence.
    Weighted,
    /// As `Weighted`, and counts the pieces placed since the last clear.
    Stagnant,
}

/// The mathematical value of a level policy.
pub struct LevelView {
    /// The form of the policy.
    pub policy: Policy,
    /// The level number.
    pub number: int,
    /// Whether pieces of this level are heavy.
    pub heavy: bool,
    /// Whether kinds are drawn rather than replayed.
    pub random: bool,
    /// The weights of the seven standard kinds, in the order `T S Z I J L O`.
    pub weights: Seq<usize>,
    /// The sequence that is replayed.
    pub sequence: Seq<BlockKind>,
    /// The place in the sequence.
    pub cursor: int,
    /// The pieces placed since the last clear.
    pub since_clear: int,
}

impl LevelView {
    /// Whether the next kind comes from the sequence rather than from a draw.
    pub open spec fn replaying(self) -> bool {
        self.policy is Fixed || (!self.random && self.sequence.len() > 0)
    }

    /// Whether the policy takes a sequence and has a random mode to switch.
    pub open spec fn switchable(self) -> bool {
        (self.policy is Weighted && self.number >= 3) || self.policy is Stagnant
    }

    /// The policy is consistent: the cursor lies in the sequence, a policy that
    /// draws has valid weights, and the counter is not negative.
    pub open spec fn wf(self) -> bool {
        &&& self.sequence.len() > 0 ==> 0 <= self.cursor < self.sequence.len()
        &&& self.sequence.len() == 0 ==> self.cursor == 0
        &&& self.policy is Fixed ==> self.sequence.len() > 0
        &&& !(self.policy is Fixed) ==> valid_weights(self.weights)
        &&& self.since_clear >= 0
    }

    /// The kind under the cursor.
    pub open spec fn current(self) -> BlockKind {
        self.sequence[self.cursor]
    }

    /// Whether `kind` can be the answer when the policy is asked for a kind
    /// where it stands: the kind under the cursor when it replays, else any
    /// kind that a draw can give.
    pub open spec fn offers(self, kind: BlockKind) -> bool {
        if self.replaying() {
            kind == self.current()
        } else {
            drawable(self.weights, kind)
        }
    }

    /// The policy after it was advanced: a replay moves its cursor on, round
    /// the end of the sequence to its start; a draw changes nothing.
    pub open spec fn advanced(self) -> LevelView {
        if self.replaying() {
            LevelView { cursor: (self.cursor + 1) % (self.sequence.len() as int), ..self }
        } else {
            self
        }
    }

    /// Whether a bonus piece is due: the policy counts, and the count is a
    /// positive multiple of five.
    pub open spec fn bonus_due(self) -> bool {
        self.policy is Stagnant && self.since_clear > 0 && self.since_clear % 5 == 0
    }

    /// The policy after it was told that a lock cleared `cleared` rows.
    pub open spec fn after_clear(self, cleared: int) -> LevelView {
        if self.policy is Stagnant && cleared > 0 {
            LevelView { since_clear: 0, ..self }
        } else {
            self
        }
    }

    /// The policy after it was told that a piece was placed.
    pub open spec fn after_placement(self) -> LevelView {
        if self.policy is Stagnant {
            LevelView { since_clear: self.since_clear + 1, ..self }
        } else {
            self
        }
    }
}

/// A policy that replays offers one kind only: what it gives is determined by
/// where it stands.
pub proof fn lemma_replay_determined(level: LevelView, a: BlockKind, b: BlockKind)
    requires
        level.replaying(),
        level.offers(a),
        level.offers(b),
    ensures
        a == b,
{
}

/// Level 0: a fixed sequence of kinds, replayed for ever.
#[derive(Clone)]
pub struct Level0 {
    order: Vec<BlockKind>,
    pos: usize,
}

impl View for Level0 {
    type V = LevelView;

    closed spec fn view(&self) -> LevelView {
        LevelView {
            policy: Policy::Fixed,
            number: 0,
            heavy: false,
            random: false,
            weights: Seq::empty(),
            sequence: self.order@,
            cursor: self.pos as int,
            since_clear: 0,
        }
    }
}

impl Level0 {
    /// What every value of this type shows, whatever its sequence.
    pub proof fn lemma_view(&self)
        ensures
            self@.policy is Fixed,
            self@.number == 0,
            !self@.heavy,
            !self@.random,
            self@.weights.len() == 0,
            self@.cursor >= 0,
            self@.since_clear == 0,
    {
    }

    /// The level that replays the sequence of the given script. There is none
    /// where the script could not be read or names no standard kind.
    pub fn from_script(script: Option<&str>) -> (made: Result<Level0, LevelError>)
        ensures
            match made {
                Ok(level) => script is Some && level@.wf() && level@.sequence == sequence_of(
                    script->0@,
                ) && level@.cursor == 0 && sequence_of(script->0@).len() > 0,
                Err(e) => e == if script is None {
                    LevelError::Unreadable
                } else {
                    LevelError::EmptySequence
                } && (script is Some ==> sequence_of(script->0@).len() == 0),
            },
    {
        match script {
            None => Err(LevelError::Unreadable),
            Some(text) => {
                let order = parse_sequence(text);
                if order.len() == 0 {
                    Err(LevelError::EmptySequence)
                } else {
                    Ok(Level0 { order, pos: 0 })
                }
            },
        }
    }

    /// The kind under the cursor.
    pub fn peek(&self) -> (kind: BlockKind)
        requires
            self@.wf(),
        ensures
            kind == self@.current(),
    {
        self.order[self.pos]
    }

    /// Moves the cursor on, round the end of the sequence to its start, and
    /// gives the kind then under it.
    pub fn advance(&mut self) -> (kind: BlockKind)
        requires
            old(self)@.wf(),
        ensures
            final(self)@ == old(self)@.advanced(),
            final(self)@.wf(),
            kind == final(self)@.current(),
    {
        let n = self.order.len();
        self.pos = (self.pos + 1) % n;
        self.order[self.pos]
    }
}

/// Levels 1 to 3: kinds are drawn by weight, or replayed from a loaded
/// sequence while random mode is off.
#[derive(Clone)]
pub struct RandomLevel {
    pub level: i32,
    pub heavy: bool,
    /// The weights of the kinds, in the order `T S Z I J L O`.
    pub weights: Vec<usize>,
    pub use_random: bool,
    /// The loaded sequence; empty where none was loaded.
    pub seq: Vec<BlockKind>,
    /// The place in the loaded sequence.
    pub seq_pos: usize,
}

impl View for RandomLevel {
    type V = LevelView;

    open spec fn view(&self) -> LevelView {
        LevelView {
            policy: Policy::Weighted,
            number: self.level as int,
            heavy: self.heavy,
            random: self.use_random,
            weights: self.weights@,
            sequence: self.seq@,
            cursor: self.seq_pos as int,
            since_clear: 0,
        }
    }
}

impl RandomLevel {
    /// What every value of this type shows, and how its fields show in its
    /// view.
    pub proof fn lemma_view(&self)
        ensures
            self@.policy is Weighted,
            self@.number == self.level,
            self@.heavy == self.heavy,
            self@.random == self.use_random,
            self@.weights == self.weights@,
            self@.sequence == self.seq@,
            self@.cursor == self.seq_pos,
            self@.since_clear == 0,
    {
    }

    /// A level that draws by the given weights, in random mode and with no
    /// sequence loaded.
    pub fn new(level: i32, heavy: bool, weights: Vec<usize>) -> (made: RandomLevel)
        requires
            valid_weights(weights@),
        ensures
            made@ == (LevelView {
                policy: Policy::Weighted,
                number: level as int,
                heavy,
                random: true,
                weights: weights@,
                sequence: Seq::empty(),
                cursor: 0,
                since_clear: 0,
            }),
            made@.wf(),
    {
        RandomLevel { level, heavy, weights, use_random: true, seq: Vec::new(), seq_pos: 0 }
    }

    /// Draws a kind by the weights of the level.
    fn sample(&self, rng: &mut StdRng) -> (kind: BlockKind)
        requires
            self@.wf(),
        ensures
            drawable(self@.weights, kind),
            kind.is_standard(),
    {
        let i = weighted_pick(&self.weights, rng);
        kind_of_index(i)
    }

    /// Loads the sequence of the given script and sets the cursor to its start.
    /// A script that names no standard kind is refused, and nothing changes.
    pub fn load_sequence(&mut self, text: &str) -> (done: Result<(), LevelError>)
        requires
            old(self)@.wf(),
        ensures
            final(self)@.wf(),
            match done {
                Ok(_) => sequence_of(text@).len() > 0 && final(self)@ == (LevelView {
                    sequence: sequence_of(text@),
                    cursor: 0,
                    ..old(self)@
                }),
                Err(e) => e == LevelError::EmptySequence && sequence_of(text@).len() == 0 && final(self)@ == old(self)@,
            },
    {
        let seq = parse_sequence(text);
        if seq.len() == 0 {
            return Err(LevelError::EmptySequence);
        }
        self.seq = seq;
        self.seq_pos = 0;
        Ok(())
    }

    /// The next kind where the policy stands: the kind under the cursor when it
    /// replays, else a kind drawn by weight. A replay leaves the generator as it
    /// is.
    pub fn peek(&mut self, rng: &mut StdRng) -> (kind: BlockKind)
        requires
            old(self)@.wf(),
        ensures
            final(self)@ == old(self)@,
            old(self)@.offers(kind),
            old(self)@.replaying() ==> *final(rng) == *old(rng),
    {
        if !self.use_random && self.seq.len() > 0 {
            self.seq[self.seq_pos]
        } else {
            self.sample(rng)
        }
    }

    /// Advances the policy and gives the next kind: a replay moves its cursor
    /// on and gives the kind then under it, else a kind is drawn by weight. A
    /// replay leaves the generator as it is.
    pub fn advance(&mut self, rng: &mut StdRng) -> (kind: BlockKind)
        requires
            old(self)@.wf(),
        ensures
            final(self)@ == old(self)@.advanced(),
            final(self)@.wf(),
            final(self)@.offers(kind),
            old(self)@.replaying() ==> *final(rng) == *old(rng),
    {
        if !self.use_random && self.seq.len() > 0 {
            let n = self.seq.len();
            self.seq_pos = (self.seq_pos + 1) % n;
            self.seq[self.seq_pos]
        } else {
            self.sample(rng)
        }
    }
}

/// Level 4: as level 3, always heavy, and a bonus piece is due at every fifth
/// piece placed since the last clear.
#[derive(Clone)]
pub struct Level4 {
    pub level: i32,
    pub heavy: bool,
    /// The weights of the kinds, in the order `T S Z I J L O`.
    pub weights: Vec<usize>,
    pub use_random: bool,
    /// The loaded sequence; empty where none was loaded.
    pub seq: Vec<BlockKind>,
    /// The place in the loaded sequence.
    pub seq_pos: usize,
    /// The pieces placed since the last clear.
    pub blocks_since_clear: i32,
}

impl View for Level4 {
    type V = LevelView;

    open spec fn view(&self) -> LevelView {
        LevelView {
            policy: Policy::Stagnant,
            number: self.level as int,
            heavy: self.heavy,
            random: self.use_random,
            weights: self.weights@,
            sequence: self.seq@,
            cursor: self.seq_pos as int,
            since_clear: self.blocks_since_clear as int,
        }
    }
}

/// The weights by which levels 3 and 4 draw.
pub open spec fn skewed_weights() -> Seq<usize> {
    seq![1usize, 2, 2, 1, 1, 1, 1]
}

/// The weights by which level 1 draws.
pub open spec fn easy_weights() -> Seq<usize> {
    seq![2usize, 1, 1, 2, 2, 2, 2]
}

/// The weights by which level 2 draws.
pub open spec fn even_weights() -> Seq<usize> {
    seq![1usize, 1, 1, 1, 1, 1, 1]
}

/// The weights of the three tables are valid.
pub proof fn lemma_weight_tables()
    ensures
        valid_weights(easy_weights()),
        valid_weights(even_weights()),
        valid_weights(skewed_weights()),
{
    lemma_total_of_seven(easy_weights());
    lemma_total_of_seven(even_weights());
    lemma_total_of_seven(skewed_weights());
}

/// The place of a standard kind among the weights.
pub open spec fn kind_index(kind: BlockKind) -> int {
    match kind {
        BlockKind::T => 0,
        BlockKind::S => 1,
        BlockKind::Z => 2,
        BlockKind::I => 3,
        BlockKind::J => 4,
        BlockKind::L => 5,
        BlockKind::O => 6,
        BlockKind::Star => 0,
    }
}

/// On each of the levels 1 to 4 every standard kind can be drawn, and no
/// other.
pub proof fn lemma_every_standard_kind_drawable(level: int, kind: BlockKind)
    requires
        1 <= level <= 4,
    ensures
        drawable(initial_level(level, None).weights, kind) <==> kind.is_standard(),
{
    let w = initial_level(level, None).weights;
    if kind.is_standard() {
        let i = kind_index(kind);
        assert(0 <= i < w.len() && w[i] > 0 && kind == index_kind(i));
    }
}

/// The sum of seven weights, written out.
proof fn lemma_total_of_seven(w: Seq<usize>)
    requires
        w.len() == 7,
    ensures
        total_weight(w) == w[0] + w[1] + w[2] + w[3] + w[4] + w[5] + w[6],
{
    let w6 = w.drop_last();
    let w5 = w6.drop_last();
    let w4 = w5.drop_last();
    let w3 = w4.drop_last();
    let w2 = w3.drop_last();
    let w1 = w2.drop_last();
    let w0 = w1.drop_last();
    assert(total_weight(w0) == 0);
    assert(total_weight(w1) == w[0] as nat);
    assert(total_weight(w2) == w[0] + w[1]);
    assert(total_weight(w3) == w[0] + w[1] + w[2]);
    assert(total_weight(w4) == w[0] + w[1] + w[2] + w[3]);
    assert(total_weight(w5) == w[0] + w[1] + w[2] + w[3] + w[4]);
    assert(total_weight(w6) == w[0] + w[1] + w[2] + w[3] + w[4] + w[5]);
}

impl Level4 {
    /// What every value of this type shows, and how its fields show in its
    /// view.
    pub proof fn lemma_view(&self)
        ensures
            self@.policy is Stagnant,
            self@.number == self.level,
            self@.heavy == self.heavy,
            self@.random == self.use_random,
            self@.weights == self.weights@,
            self@.sequence == self.seq@,
            self@.cursor == self.seq_pos,
            self@.since_clear == self.blocks_since_clear,
    {
    }

    /// Level 4 as a match starts it: heavy, in random mode, no sequence loaded,
    /// nothing placed yet.
    pub fn new() -> (made: Level4)
        ensures
            made@ == (LevelView {
                policy: Policy::Stagnant,
                number: 4,
                heavy: true,
                random: true,
                weights: skewed_weights(),
                sequence: Seq::empty(),
                cursor: 0,
                since_clear: 0,
            }),
            made@.wf(),
    {
        proof {
            lemma_weight_tables();
        }
        let weights: Vec<usize> = vec![1, 2, 2, 1, 1, 1, 1];
        assert(weights@ =~= skewed_weights());
        Level4 {
            level: 4,
            heavy: true,
            weights,
            use_random: true,
            seq: Vec::new(),
            seq_pos: 0,
            blocks_since_clear: 0,
        }
    }

    /// Draws a kind by the weights of the level.
    fn sample(&self, rng: &mut StdRng) -> (kind: BlockKind)
        requires
            self@.wf(),
        ensures
            drawable(self@.weights, kind),
            kind.is_standard(),
    {
        let i = weighted_pick(&self.weights, rng);
        kind_of_index(i)
    }

    /// Loads the sequence of the given script and sets the cursor to its start.
    /// A script that names no standard kind is refused, and nothing changes.
    pub fn load_sequence(&mut self, text: &str) -> (done: Result<(), LevelError>)
        requires
            old(self)@.wf(),
        ensures
            final(self)@.wf(),
            match done {
                Ok(_) => sequence_of(text@).len() > 0 && final(self)@ == (LevelView {
                    sequence: sequence_of(text@),
                    cursor: 0,
                    ..old(self)@
                }),
                Err(e) => e == LevelError::EmptySequence && sequence_of(text@).len() == 0 && final(self)@ == old(self)@,
            },
    {
        let seq = parse_sequence(text);
        if seq.len() == 0 {
            return Err(LevelError::EmptySequence);
        }
        self.seq = seq;
        self.seq_pos = 0;
        Ok(())
    }

    /// The next kind where the policy stands: the kind under the cursor when it
    /// replays, else a kind drawn by weight. A replay leaves the generator as it
    /// is.
    pub fn peek(&mut self, rng: &mut StdRng) -> (kind: BlockKind)
        requires
            old(self)@.wf(),
        ensures
            final(self)@ == old(self)@,
            old(self)@.offers(kind),
            old(self)@.replaying() ==> *final(rng) == *old(rng),
    {
        if !self.use_random && self.seq.len() > 0 {
            self.seq[self.seq_pos]
        } else {
            self.sample(rng)
        }
    }

    /// Advances the policy and gives the next kind: a replay moves its cursor
    /// on and gives the kind then under it, else a kind is drawn by weight. A
    /// replay leaves the generator as it is.
    pub fn advance(&mut self, rng: &mut StdRng) -> (kind: BlockKind)
        requires
            old(self)@.wf(),
        ensures
            final(self)@ == old(self)@.advanced(),
            final(self)@.wf(),
            final(self)@.offers(kind),
            old(self)@.replaying() ==> *final(rng) == *old(rng),
    {
        if !self.use_random && self.seq.len() > 0 {
            let n = self.seq.len();
            self.seq_pos = (self.seq_pos + 1) % n;
            self.seq[self.seq_pos]
        } else {
            self.sample(rng)
        }
    }

    /// A lock cleared `cleared` rows: a clear sets the counter back to zero.
    pub fn notify_rows_cleared(&mut self, cleared: i32)
        ensures
            final(self)@ == old(self)@.after_clear(cleared as int),
    {
        if cleared > 0 {
            self.blocks_since_clear = 0;
        }
    }

    /// A piece was placed: the counter goes up by one.
    pub fn notify_block_placed(&mut self)
        requires
            old(self)@.since_clear < i32::MAX,
        ensures
            final(self)@ == old(self)@.after_placement(),
    {
        self.blocks_since_clear += 1;
    }

    /// Whether a bonus piece is due: the counter is a positive multiple of
    /// five.
    pub fn should_drop_star(&self) -> (due: bool)
        ensures
            due == self@.bonus_due(),
    {
        self.blocks_since_clear > 0 && (self.blocks_since_clear % 5 == 0)
    }
}

/// The level policy of a player.
#[derive(Clone)]
pub enum Level {
    Zero(Level0),
    Random(RandomLevel),
    Four(Level4),
}

impl View for Level {
    type V = LevelView;

    open spec fn view(&self) -> LevelView {
        match self {
            Level::Zero(l0) => l0@,
            Level::Random(rl) => rl@,
            Level::Four(l4) => l4@,
        }
    }
}

impl Level {
    /// The policy is consistent and its number is one of 0 to 4.
    pub open spec fn wf(&self) -> bool {
        self@.wf() && 0 <= self@.number <= 4
    }

    /// The form of the policy goes with the variant.
    pub proof fn lemma_policy(&self)
        ensures
            self is Zero <==> self@.policy is Fixed,
            self is Random <==> self@.policy is Weighted,
            self is Four <==> self@.policy is Stagnant,
            self is Zero ==> self@.number == 0 && !self@.heavy,
    {
        match self {
            Level::Zero(l0) => l0.lemma_view(),
            Level::Random(rl) => rl.lemma_view(),
            Level::Four(l4) => l4.lemma_view(),
        }
    }

    /// The level number.
    pub fn number(&self) -> (n: i32)
        ensures
            n == self@.number,
    {
        match self {
            Level::Zero(l0) => {
                proof {
                    l0.lemma_view();
                }
                0
            },
            Level::Random(r) => {
                proof {
                    r.lemma_view();
                }
                r.level
            },
            Level::Four(f) => {
                proof {
                    f.lemma_view();
                }
                f.level
            },
        }
    }

    /// Whether pieces of this level are heavy.
    pub fn is_heavy(&self) -> (heavy: bool)
        ensures
            heavy == self@.heavy,
    {
        match self {
            Level::Zero(l0) => {
                proof {
                    l0.lemma_view();
                }
                false
            },
            Level::Random(r) => {
                proof {
                    r.lemma_view();
                }
                r.heavy
            },
            Level::Four(f) => {
                proof {
                    f.lemma_view();
                }
                f.heavy
            },
        }
    }

    /// The next kind where the policy stands, without advancing it: the kind
    /// under the cursor when it replays, else a kind drawn by weight. A replay
    /// leaves the generator as it is.
    pub fn peek_kind(&mut self, rng: &mut StdRng) -> (kind: BlockKind)
        requires
            old(self)@.wf(),
        ensures
            final(self)@ == old(self)@,
            old(self)@.offers(kind),
            old(self)@.replaying() ==> *final(rng) == *old(rng),
    {
        match self {
            Level::Zero(l0) => {
                proof {
                    l0.lemma_view();
                }
                l0.peek()
            },
            Level::Random(rl) => rl.peek(rng),
            Level::Four(l4) => l4.peek(rng),
        }
    }

    /// Advances the policy and gives the next kind: a replay moves its cursor
    /// on and gives the kind then under it, else a kind is drawn by weight. A
    /// replay leaves the generator as it is.
    pub fn advance_kind(&mut self, rng: &mut StdRng) -> (kind: BlockKind)
        requires
            old(self)@.wf(),
        ensures
            final(self)@ == old(self)@.advanced(),
            final(self)@.wf(),
            final(self)@.offers(kind),
            old(self)@.replaying() ==> *final(rng) == *old(rng),
    {
        match self {
            Level::Zero(l0) => {
                proof {
                    l0.lemma_view();
                }
                let kind = l0.advance();
                proof {
                    l0.lemma_view();
                }
                kind
            },
            Level::Random(rl) => rl.advance(rng),
            Level::Four(l4) => l4.advance(rng),
        }
    }

    /// A lock cleared `cleared` rows.
    pub fn notify_rows_cleared(&mut self, cleared: i32)
        ensures
            final(self)@ == old(self)@.after_clear(cleared as int),
    {
        proof {
            self.lemma_policy();
        }
        match self {
            Level::Four(l4) => {
                l4.notify_rows_cleared(cleared);
            },
            _ => {},
        }
    }

    /// A piece was placed.
    pub fn notify_block_placed(&mut self)
        requires
            old(self)@.since_clear < i32::MAX,
        ensures
            final(self)@ == old(self)@.after_placement(),
    {
        proof {
            self.lemma_policy();
        }
        match self {
            Level::Four(l4) => {
                l4.notify_block_placed();
            },
            _ => {},
        }
    }

    /// The number of pieces placed since the last clear, as far as the policy
    /// counts them: only level 4 does.
    pub fn placed_since_clear(&self) -> (n: i32)
        ensures
            n == self@.since_clear,
    {
        match self {
            Level::Zero(l0) => {
                proof {
                    l0.lemma_view();
                }
                0
            },
            Level::Random(rl) => {
                proof {
                    rl.lemma_view();
                }
                0
            },
            Level::Four(l4) => l4.blocks_since_clear,
        }
    }

    /// Whether a bonus piece is due.
    pub fn should_drop_star(&self) -> (due: bool)
        ensures
            due == self@.bonus_due(),
    {
        proof {
            self.lemma_policy();
        }
        match self {
            Level::Four(l4) => l4.should_drop_star(),
            _ => false,
        }
    }

    /// Switches random mode on or off. Only levels 3 and 4 have the switch; on
    /// another level the call is refused and nothing changes.
    pub fn set_random(&mut self, val: bool) -> (done: Result<(), LevelError>)
        ensures
            match done {
                Ok(_) => old(self)@.switchable() && final(self)@ == (LevelView {
                    random: val,
                    ..old(self)@
                }),
                Err(e) => e == LevelError::NotApplicable && !old(self)@.switchable() && final(self)@
                    == old(self)@,
            },
    {
        proof {
            self.lemma_policy();
        }
        match self {
            Level::Random(rl) => {
                proof {
                    rl.lemma_view();
                }
                if rl.level >= 3 {
                    rl.use_random = val;
                    proof {
                        rl.lemma_view();
                    }
                    Ok(())
                } else {
                    Err(LevelError::NotApplicable)
                }
            },
            Level::Four(l4) => {
                proof {
                    l4.lemma_view();
                }
                l4.use_random = val;
                proof {
                    l4.lemma_view();
                }
                Ok(())
            },
            Level::Zero(_) => Err(LevelError::NotApplicable),
        }
    }

    /// Loads the sequence of the given script, to be replayed while random mode
    /// is off. Only levels 3 and 4 take one. The call is refused, and nothing
    /// changes, on another level, where the script could not be read, and where
    /// it names no standard kind.
    pub fn load_sequence(&mut self, script: Option<&str>) -> (done: Result<(), LevelError>)
        requires
            old(self)@.wf(),
        ensures
            final(self)@.wf(),
            match done {
                Ok(_) => old(self)@.switchable() && script is Some && sequence_of(script->0@).len() > 0
                    && final(self)@ == (LevelView {
                    sequence: sequence_of(script->0@),
                    cursor: 0,
                    ..old(self)@
                }),
                Err(e) => final(self)@ == old(self)@ && e == if !old(self)@.switchable() {
                    LevelError::NotApplicable
                } else if script is None {
                    LevelError::Unreadable
                } else {
                    LevelError::EmptySequence
                } && (old(self)@.switchable() && script is Some ==> sequence_of(script->0@).len()
                    == 0),
            },
    {
        proof {
            self.lemma_policy();
        }
        match self {
            Level::Random(rl) => {
                proof {
                    rl.lemma_view();
                }
                if rl.level >= 3 {
                    match script {
                        Some(text) => rl.load_sequence(text),
                        None => Err(LevelError::Unreadable),
                    }
                } else {
                    Err(LevelError::NotApplicable)
                }
            },
            Level::Four(l4) => {
                match script {
                    Some(text) => l4.load_sequence(text),
                    None => Err(LevelError::Unreadable),
                }
            },
            Level::Zero(_) => Err(LevelError::NotApplicable),
        }
    }
}

/// `level` brought into the range 0 to 4: a number below counts as 0, a number
/// above as 4.
pub open spec fn clamped(level: int) -> int {
    if level < 0 {
        0
    } else if level > 4 {
        4
    } else {
        level
    }
}

/// `level` brought into the range 0 to 4.
pub open spec fn clamped_level(level: i32) -> i32 {
    clamped(level as int) as i32
}

/// `level` brought into the range 0 to 4.
pub fn clamp_level(level: i32) -> (n: i32)
    ensures
        n == clamped_level(level),
        0 <= n <= 4,
{
    if level < 0 {
        0
    } else if level > 4 {
        4
    } else {
        level
    }
}

/// The policy with which a level starts. The number is brought into the range
/// 0 to 4 first. Levels 1 to 4 draw by their weights, levels 3 and 4 are
/// heavy, and level 0 replays the script.
pub open spec fn initial_level(level: int, script: Option<Seq<char>>) -> LevelView {
    let level = clamped(level);
    if 1 <= level <= 3 {
        LevelView {
            policy: Policy::Weighted,
            number: level,
            heavy: level == 3,
            random: true,
            weights: if level == 1 {
                easy_weights()
            } else if level == 2 {
                even_weights()
            } else {
                skewed_weights()
            },
            sequence: Seq::empty(),
            cursor: 0,
            since_clear: 0,
        }
    } else if level == 4 {
        LevelView {
            policy: Policy::Stagnant,
            number: 4,
            heavy: true,
            random: true,
            weights: skewed_weights(),
            sequence: Seq::empty(),
            cursor: 0,
            since_clear: 0,
        }
    } else {
        LevelView {
            policy: Policy::Fixed,
            number: 0,
            heavy: false,
            random: false,
            weights: Seq::empty(),
            sequence: if script is Some {
                sequence_of(script->0)
            } else {
                Seq::empty()
            },
            cursor: 0,
            since_clear: 0,
        }
    }
}

/// Why the level cannot start, if it cannot. The number is brought into the
/// range 0 to 4 first; level 0 needs a script that could be read and that
/// names a standard kind.
pub open spec fn initial_level_error(level: int, script: Option<Seq<char>>) -> Option<LevelError> {
    if clamped(level) >= 1 {
        None
    } else if script is None {
        Some(LevelError::Unreadable)
    } else if sequence_of(script->0).len() == 0 {
        Some(LevelError::EmptySequence)
    } else {
        None
    }
}

/// The view of an optional script text.
pub open spec fn script_view(script: Option<&str>) -> Option<Seq<char>> {
    match script {
        Some(text) => Some(text@),
        None => None,
    }
}

/// The policy of the given level as a match starts it. The number is brought
/// into the range 0 to 4 first: a number above 4 gives level 4, a number below
/// 0 gives level 0. Levels 1 to 4 need no script; level 0 replays the script
/// and cannot be made where the script could not be read or names no standard
/// kind.
pub fn generate_level(level: i32, script: Option<&str>) -> (made: Result<Level, LevelError>)
    ensures
        match made {
            Ok(l) => l.wf() && l@ == initial_level(level as int, script_view(script))
                && initial_level_error(level as int, script_view(script)) is None,
            Err(e) => initial_level_error(level as int, script_view(script)) == Some(e),
        },
{
    proof {
        lemma_weight_tables();
    }
    let level = clamp_level(level);
    if level == 1 {
        let weights: Vec<usize> = vec![2, 1, 1, 2, 2, 2, 2];
        assert(weights@ =~= easy_weights());
        Ok(Level::Random(RandomLevel::new(1, false, weights)))
    } else if level == 2 {
        let weights: Vec<usize> = vec![1, 1, 1, 1, 1, 1, 1];
        assert(weights@ =~= even_weights());
        Ok(Level::Random(RandomLevel::new(2, false, weights)))
    } else if level == 3 {
        let weights: Vec<usize> = vec![1, 2, 2, 1, 1, 1, 1];
        assert(weights@ =~= skewed_weights());
        Ok(Level::Random(RandomLevel::new(3, true, weights)))
    } else if level == 4 {
        Ok(Level::Four(Level4::new()))
    } else {
        match Level0::from_script(script) {
            Ok(l0) => {
                proof {
                    l0.lemma_view();
                }
                Ok(Level::Zero(l0))
            },
            Err(e) => Err(e),
        }
    }
}

} // verus!
