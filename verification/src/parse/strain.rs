//! How hard source text would work a recursive parser, measured before one is pointed at it.
//!
//! Delimiters and runs of operators are one way to nest. A path in a `use`, a run of `return`s, a type
//! behind an arrow or a list of types in angle brackets are others, and each costs a parser, and
//! whatever walks its tree, one level of recursion. This walk adds up what lies on one path of the
//! tree, and starts again only where one expression cannot go on: at a separator, behind a block, and
//! between two words that no operator joins.
use crate::parse::comment;
use crate::parse::comment::{block_end, lemma_ends, lemma_literal_end, line_end, literal_end_of, pair_at};
use crate::text;
use crate::text::{byte_len, char_from, is_white, slice, width};
use vstd::prelude::*;
use vstd::utf8::*;

verus! {

/// What a delimiter costs, and a keyword or a mark that is parsed by descending into what follows it.
pub const HEAVY: usize = 4;

/// The most that may lie on one path.
///
/// It is twelve times the number of delimiters that may be open at once, so that ordinary code that
/// nests as deeply as that allows is still accepted, whatever keywords it nests.
pub const STRAIN_LIMIT: usize = 768;

// ---- What lies on a path. ----

/// What is known of what is written directly inside one open delimiter.
#[derive(Clone, Copy, Debug, PartialEq, Eq, Structural)]
pub struct Load {
    /// The cost of the path being read.
    pub cost: usize,
    /// The cost that the delimiter begins with, where a new path starts again.
    pub base: usize,
    /// The highest cost that was reached, here or in a delimiter closed since.
    pub peak: usize,
    /// How much of the cost a block that follows lies beneath.
    pub heavy: usize,
    /// How many angle brackets may be open.
    pub angles: usize,
    /// Whether the parameters of a closure are being read.
    pub params: bool,
    /// Whether a block has just been closed.
    pub ended: bool,
    /// Whether an import is being read, whose path is a tree.
    pub importing: bool,
    /// Whether the delimiter is that of an attribute, which is no operand.
    pub attribute: bool,
}

impl Load {
    /// A delimiter that begins with a cost.
    pub open spec fn from(cost: usize) -> Load {
        Load { cost, base: cost, peak: cost, heavy: 0, angles: 0, params: false, ended: false, importing: false, attribute: false }
    }

    /// A new path.
    pub open spec fn restarted(self) -> Load {
        Load { cost: self.base, heavy: 0, angles: 0, params: false, ended: false, ..self }
    }

    /// A token that begins a new path where a block has just been closed.
    pub open spec fn begun(self) -> Load {
        if self.ended {
            self.restarted()
        } else {
            self
        }
    }

    /// A token that goes on with the path.
    pub open spec fn going_on(self) -> Load {
        Load { ended: false, ..self }
    }

    /// The path is longer, which is too much past the limit.
    pub open spec fn longer(self, cost: usize, heavy: usize) -> Option<Load> {
        if self.cost + cost > STRAIN_LIMIT || self.heavy + heavy > STRAIN_LIMIT {
            None
        } else {
            let total = (self.cost + cost) as usize;
            Some(
                Load {
                    cost: total,
                    peak: if self.peak >= total {
                        self.peak
                    } else {
                        total
                    },
                    heavy: (self.heavy + heavy) as usize,
                    ..self
                },
            )
        }
    }

    /// The path of what is done otherwise, which the condition does not lie on.
    pub open spec fn otherwise(self) -> Option<Load> {
        if self.base + self.heavy > STRAIN_LIMIT {
            None
        } else {
            Load { cost: (self.base + self.heavy) as usize, angles: 0, params: false, ended: false, ..self }.longer(1, 1)
        }
    }

    /// A path that contains one of the given cost.
    pub open spec fn raised(self, cost: usize, ended: bool) -> Load {
        Load {
            cost: if self.cost >= cost {
                self.cost
            } else {
                cost
            },
            peak: if self.peak >= cost {
                self.peak
            } else {
                cost
            },
            ended,
            ..self
        }
    }
}

/// Where a walk over a text stands.
#[verifier::ext_equal]
pub ghost struct Strain {
    /// The open delimiters.
    pub loads: Seq<Load>,
    /// Whether what was read last can end an operand.
    pub operand: bool,
    /// Whether what was read last is a name, which angle brackets may follow.
    pub named: bool,
    /// Whether what was read last is an `else`.
    pub rung: bool,
    /// Whether what was read last is a `#`.
    pub hash: bool,
}

impl Strain {
    /// Nothing has been read yet.
    pub open spec fn start() -> Strain {
        Strain { loads: seq![Load::from(0)], operand: false, named: false, rung: false, hash: false }
    }

    pub open spec fn top(self) -> Load {
        self.loads.last()
    }

    /// The walk with its innermost load replaced.
    pub open spec fn with(self, top: Load, operand: bool) -> Strain {
        Strain { loads: self.loads.drop_last().push(top), operand, named: false, rung: false, hash: false }
    }

    /// The walk with its innermost load replaced, unless that is too much.
    pub open spec fn unless_too_much(self, top: Option<Load>, operand: bool) -> Option<Strain> {
        match top {
            Some(top) => Some(self.with(top, operand)),
            None => None,
        }
    }

    /// The walk inside a delimiter that begins with a cost, unless that is too much.
    pub open spec fn opened(self, top: Load, cost: int) -> Option<Strain> {
        if cost > STRAIN_LIMIT {
            None
        } else {
            Some(
                Strain {
                    loads: self.loads.drop_last().push(top).push(
                        Load { importing: top.importing, attribute: self.hash, ..Load::from(cost as usize) },
                    ),
                    operand: false,
                    named: false,
                    rung: false,
                    hash: false,
                },
            )
        }
    }

    /// The walk behind a delimiter. A closer with nothing open closes nothing.
    pub open spec fn closed(self, block: bool) -> Strain {
        let outer = if self.loads.len() > 1 {
            self.loads.drop_last()
        } else {
            self.loads
        };
        Strain {
            loads: outer.drop_last().push(outer.last().raised(self.top().peak, block)),
            operand: !self.top().attribute,
            named: false,
            rung: false,
            hash: false,
        }
    }

    /// Whether an angle bracket here may be one that opens a list.
    pub open spec fn expects_list(self) -> bool {
        self.named || !self.operand
    }
}

// ---- Words. ----

/// Whether a word is a keyword that is parsed by descending into what follows it.
pub open spec fn descends(word: Seq<char>) -> bool {
    ||| word == "return"@
    ||| word == "break"@
    ||| word == "yield"@
    ||| word == "become"@
    ||| word == "if"@
    ||| word == "match"@
    ||| word == "while"@
    ||| word == "for"@
}

/// Whether a word goes on with what is in front of it.
pub open spec fn goes_on(word: Seq<char>) -> bool {
    word == "as"@ || word == "in"@
}

/// Whether a word is a keyword that an operand follows.
pub open spec fn leads(word: Seq<char>) -> bool {
    ||| word == "let"@
    ||| word == "mut"@
    ||| word == "ref"@
    ||| word == "move"@
    ||| word == "async"@
    ||| word == "static"@
    ||| word == "const"@
    ||| word == "unsafe"@
    ||| word == "dyn"@
    ||| word == "impl"@
    ||| word == "fn"@
    ||| word == "where"@
}

/// Reads a word.
pub open spec fn read_word(s: Strain, word: Seq<char>) -> Option<Strain> {
    if word == "else"@ {
        match s.top().otherwise() {
            Some(top) => Some(Strain { rung: true, ..s.with(top, false) }),
            None => None,
        }
    } else if goes_on(word) {
        s.unless_too_much(s.top().going_on().longer(1, 0), false)
    } else if word == "use"@ {
        Some(s.with(Load { importing: true, ..s.top().begun() }, false))
    } else if descends(word) {
        if word == "if"@ && s.rung {
            Some(s.with(s.top(), false))
        } else {
            s.unless_too_much(s.top().begun().longer(HEAVY, HEAVY), false)
        }
    } else if s.named && (word == "const"@ || word == "mut"@) {
        s.unless_too_much(s.top().begun().longer(HEAVY, HEAVY), false)
    } else if leads(word) {
        Some(s.with(s.top().begun(), false))
    } else {
        Some(
            Strain {
                named: true,
                ..s.with(
                    if s.operand {
                        s.top().restarted()
                    } else {
                        s.top().begun()
                    },
                    true,
                )
            },
        )
    }
}

// ---- Marks. ----

/// Reads two bytes that are one mark, if they are one.
pub open spec fn read_pair(s: Strain, first: u8, second: u8) -> Option<Option<Strain>> {
    let top = s.top().going_on();
    if first == 58u8 && second == 58u8 {
        Some(
            s.unless_too_much(
                if top.importing {
                    top.longer(1, 1)
                } else {
                    Some(top)
                },
                false,
            ),
        )
    } else if first == 45u8 && second == 62u8 {
        Some(s.unless_too_much(top.longer(HEAVY, HEAVY), false))
    } else if first == 61u8 && second == 62u8 {
        Some(Some(s.with(top.restarted(), false)))
    } else if first == 62u8 && second == 62u8 {
        Some(s.unless_too_much(Load { angles: less(less(top.angles)), ..top }.longer(1, 0), false))
    } else if first == 124u8 && second == 124u8 {
        Some(
            s.unless_too_much(
                if s.operand && !top.params {
                    top.longer(1, 0)
                } else {
                    top.longer(HEAVY, HEAVY)
                },
                false,
            ),
        )
    } else if first == 60u8 && second == 60u8 && s.expects_list() {
        Some(
            if top.angles + 1 >= STRAIN_LIMIT {
                None
            } else {
                s.unless_too_much(Load { angles: (top.angles + 2) as usize, ..top }.longer((2 * HEAVY) as usize, 0), false)
            },
        )
    } else if (first == 60u8 && second == 60u8) || ((first == 60u8 || first == 62u8 || first == 124u8) && second == 61u8) {
        Some(s.unless_too_much(top.longer(1, 0), false))
    } else {
        None
    }
}

/// One less, but no less than nothing.
pub open spec fn less(n: usize) -> usize {
    if n > 0 {
        (n - 1) as usize
    } else {
        0
    }
}

/// Whether a byte is an operator that is written between operands, or in front of one.
pub open spec fn plain_operator(byte: u8) -> bool {
    byte == 43u8 || byte == 45u8 || byte == 42u8 || byte == 47u8 || byte == 37u8 || byte == 38u8 || byte == 94u8 || byte == 33u8
}

/// Reads a byte that stands for itself.
pub open spec fn read_byte(s: Strain, byte: u8) -> Option<Strain> {
    let top = s.top().going_on();
    if plain_operator(byte) {
        s.unless_too_much(
            if s.operand {
                top.longer(1, 0)
            } else {
                top.longer(1, 1)
            },
            false,
        )
    } else if byte == 61u8 {
        s.unless_too_much(top.longer(1, 1), false)
    } else if byte == 46u8 || byte == 63u8 {
        s.unless_too_much(
            if s.operand {
                top.longer(1, 0)
            } else {
                top.longer(1, 1)
            },
            byte == 63u8,
        )
    } else if byte == 60u8 {
        if !s.expects_list() {
            s.unless_too_much(top.longer(1, 0), false)
        } else if top.angles >= STRAIN_LIMIT {
            None
        } else {
            s.unless_too_much(Load { angles: (top.angles + 1) as usize, ..top }.longer(HEAVY, 0), false)
        }
    } else if byte == 62u8 {
        s.unless_too_much(Load { angles: less(top.angles), ..top }.longer(1, 0), false)
    } else if byte == 124u8 {
        if top.params {
            s.unless_too_much(Load { params: false, ..top }.longer(1, 0), false)
        } else if s.operand {
            s.unless_too_much(top.longer(1, 0), false)
        } else {
            s.unless_too_much(Load { params: true, ..top }.longer(HEAVY, HEAVY), false)
        }
    } else if byte == 64u8 {
        s.unless_too_much(top.longer(HEAVY, HEAVY), false)
    } else if byte == 40u8 || byte == 91u8 {
        match (if s.operand {
            top.longer(1, 0)
        } else {
            Some(top)
        }) {
            Some(next) => s.opened(next, next.cost + HEAVY),
            None => None,
        }
    } else if byte == 123u8 {
        s.opened(
            top,
            if top.angles > 0 {
                top.cost + HEAVY
            } else {
                top.base + top.heavy + HEAVY
            },
        )
    } else if byte == 41u8 || byte == 93u8 {
        Some(s.closed(false))
    } else if byte == 125u8 {
        Some(s.closed(true))
    } else if byte == 59u8 {
        Some(s.with(Load { importing: false, ..top.restarted() }, false))
    } else if byte == 44u8 {
        Some(
            s.with(
                if top.angles == 0 && !top.params {
                    top.restarted()
                } else {
                    top
                },
                false,
            ),
        )
    } else if byte == 35u8 {
        Some(Strain { hash: true, ..s.with(s.top().begun(), false) })
    } else if byte == 36u8 {
        Some(s.with(s.top().begun(), false))
    } else if byte == 58u8 {
        Some(s.with(top, false))
    } else {
        Some(s)
    }
}

// ---- Tokens. ----

/// Whether a character is part of a word. A character outside ASCII separates words where it is white space
/// or a mark of direction, and can be nothing else outside literals and comments.
pub open spec fn word_char(c: char) -> bool {
    let n = c as u32;
    if n <= 0x7f {
        'a' <= c <= 'z' || 'A' <= c <= 'Z' || '0' <= c <= '9' || c == '_'
    } else {
        !is_white(c) && n != 0x200e && n != 0x200f
    }
}

/// Where the characters from `at` on that are part of a word end.
pub open spec fn word_tail(text: Seq<char>, at: int) -> int
    decreases byte_len(text) - at,
{
    proof {
        text::lemma_char_from(text, at);
    }
    match char_from(text, at) {
        Some(c) => if word_char(c) {
            word_tail(text, at + width(c))
        } else {
            at
        },
        None => at,
    }
}

/// A word ends within the text.
proof fn lemma_word_tail(text: Seq<char>, at: int)
    requires
        0 <= at <= byte_len(text),
    ensures
        at <= word_tail(text, at) <= byte_len(text),
    decreases byte_len(text) - at,
{
    text::lemma_char_from(text, at);
    if let Some(c) = char_from(text, at) {
        if word_char(c) {
            lemma_word_tail(text, at + width(c));
        }
    }
}

/// Where the literal that begins at `at` ends, if one does, with the letter that may stand in front. A word
/// that follows it at once is its suffix.
pub open spec fn prefixed_end(bytes: Seq<u8>, at: int) -> Option<int> {
    if bytes[at] == 98u8 || bytes[at] == 99u8 {
        literal_end_of(bytes, at + 1)
    } else {
        literal_end_of(bytes, at)
    }
}

/// Reads the token at `at`: how the walk stands behind it, and where it ends.
///
/// There is no walk behind a token that is too much.
pub open spec fn read_token(text: Seq<char>, at: int, s: Strain) -> (Option<Strain>, int) {
    let bytes = encode_utf8(text);
    if pair_at(bytes, at, 47u8, 47u8) {
        (Some(s), line_end(bytes, at + 2))
    } else if pair_at(bytes, at, 47u8, 42u8) {
        (Some(s), block_end(bytes, at + 2, 1))
    } else if let Some(end) = prefixed_end(bytes, at) {
        (Some(s.with(s.top().begun(), true)), word_tail(text, end))
    } else if bytes[at] == 39u8 {
        (Some(s.with(s.top().begun(), false)), word_tail(text, at + 1))
    } else if 48u8 <= bytes[at] <= 57u8 {
        (
            Some(
                s.with(
                    if s.operand {
                        s.top().restarted()
                    } else {
                        s.top().begun()
                    },
                    true,
                ),
            ),
            word_tail(text, at + 1),
        )
    } else if word_tail(text, at) > at {
        (read_word(s, slice(text, at, word_tail(text, at))), word_tail(text, at))
    } else if at + 1 < bytes.len() && read_pair(s, bytes[at], bytes[at + 1]) is Some {
        (read_pair(s, bytes[at], bytes[at + 1])->0, at + 2)
    } else {
        (
            read_byte(s, bytes[at]),
            if bytes[at] <= 0x7f {
                at + 1
            } else {
                match char_from(text, at) {
                    Some(c) => at + width(c),
                    None => at + 1,
                }
            },
        )
    }
}

/// A token ends behind its beginning and within the text.
pub proof fn lemma_token_end(text: Seq<char>, at: int, s: Strain)
    requires
        0 <= at < byte_len(text),
    ensures
        at < read_token(text, at, s).1 <= byte_len(text),
{
    let bytes = encode_utf8(text);
    lemma_ends(bytes, at + 2, 1);
    lemma_literal_end(bytes, at);
    lemma_literal_end(bytes, at + 1);
    if let Some(end) = prefixed_end(bytes, at) {
        lemma_word_tail(text, end);
    }
    lemma_word_tail(text, at);
    lemma_word_tail(text, at + 1);
    text::lemma_char_from(text, at);
}

/// How many bytes are left to read.
pub open spec fn left(text: Seq<char>, at: int) -> nat {
    if at <= byte_len(text) {
        (byte_len(text) - at) as nat
    } else {
        0
    }
}

/// The offset of the first token, from `at` on, that puts too much on one path.
pub open spec fn straining(text: Seq<char>, at: int, s: Strain) -> Option<int>
    decreases left(text, at),
{
    if at < 0 || at >= byte_len(text) {
        None
    } else {
        proof {
            lemma_token_end(text, at, s);
        }
        match read_token(text, at, s).0 {
            None => Some(at),
            Some(after) => straining(text, read_token(text, at, s).1, after),
        }
    }
}

// ---- Walking a text. ----

/// Where a walk over a text stands, as the machine keeps it.
struct Walker {
    loads: Vec<Load>,
    operand: bool,
    named: bool,
    rung: bool,
    hash: bool,
}

impl View for Walker {
    type V = Strain;

    closed spec fn view(&self) -> Strain {
        Strain { loads: self.loads@, operand: self.operand, named: self.named, rung: self.rung, hash: self.hash }
    }
}

/// Whether a load is within the limit.
spec fn fits(load: Load) -> bool {
    load.cost <= STRAIN_LIMIT && load.base <= STRAIN_LIMIT && load.peak <= STRAIN_LIMIT && load.heavy <= STRAIN_LIMIT && load.angles
        <= STRAIN_LIMIT
}

impl Load {
    fn begin(cost: usize) -> (r: Load)
        ensures
            r == Load::from(cost),
    {
        Load { cost, base: cost, peak: cost, heavy: 0, angles: 0, params: false, ended: false, importing: false, attribute: false }
    }

    fn restart(self) -> (r: Load)
        ensures
            r == self.restarted(),
    {
        let mut next = self;
        next.cost = self.base;
        next.heavy = 0;
        next.angles = 0;
        next.params = false;
        next.ended = false;
        next
    }

    fn enter(self) -> (r: Load)
        ensures
            r == self.begun(),
    {
        if self.ended {
            self.restart()
        } else {
            self
        }
    }

    fn go_on(self) -> (r: Load)
        ensures
            r == self.going_on(),
    {
        let mut next = self;
        next.ended = false;
        next
    }

    fn lengthen(self, cost: usize, heavy: usize) -> (r: Option<Load>)
        requires
            fits(self),
            cost <= 2 * HEAVY,
            heavy <= HEAVY,
        ensures
            r == self.longer(cost, heavy),
            r matches Some(load) ==> fits(load),
    {
        if self.cost + cost > STRAIN_LIMIT || self.heavy + heavy > STRAIN_LIMIT {
            return None;
        }
        let mut next = self;
        next.cost = self.cost + cost;
        next.heavy = self.heavy + heavy;
        if next.peak < next.cost {
            next.peak = next.cost;
        }
        Some(next)
    }

    fn turn(self) -> (r: Option<Load>)
        requires
            fits(self),
        ensures
            r == self.otherwise(),
            r matches Some(load) ==> fits(load),
    {
        if self.base + self.heavy > STRAIN_LIMIT {
            return None;
        }
        let mut next = self;
        next.cost = self.base + self.heavy;
        next.angles = 0;
        next.params = false;
        next.ended = false;
        next.lengthen(1, 1)
    }

    fn raise(self, cost: usize, ended: bool) -> (r: Load)
        ensures
            r == self.raised(cost, ended),
    {
        let mut next = self;
        if next.cost < cost {
            next.cost = cost;
        }
        if next.peak < cost {
            next.peak = cost;
        }
        next.ended = ended;
        next
    }
}

/// One less, but no less than nothing.
fn lessen(n: usize) -> (r: usize)
    ensures
        r == less(n),
        r <= n,
{
    n.saturating_sub(1)
}

impl Walker {
    /// Whether everything is within the limit.
    spec fn wf(&self) -> bool {
        self.loads@.len() > 0 && forall|i: int| 0 <= i < self.loads@.len() ==> fits(#[trigger] self.loads@[i])
    }

    fn top(&self) -> (r: Load)
        requires
            self.wf(),
        ensures
            r == self@.top(),
            fits(r),
    {
        let last: usize = self.loads.len() - 1;
        self.loads[last]
    }

    /// Replaces the innermost load.
    fn set(&mut self, top: Load, operand: bool)
        requires
            old(self).wf(),
            fits(top),
        ensures
            final(self).wf(),
            final(self)@ == old(self)@.with(top, operand),
    {
        let last: usize = self.loads.len() - 1;
        self.loads.set(last, top);
        self.operand = operand;
        self.named = false;
        self.rung = false;
        self.hash = false;
        proof {
            assert(self@.loads =~= old(self)@.with(top, operand).loads);
        }
    }

    /// Replaces the innermost load, and says whether that is not too much.
    fn put(&mut self, top: Option<Load>, operand: bool) -> (r: bool)
        requires
            old(self).wf(),
            top matches Some(top) ==> fits(top),
        ensures
            r <==> top is Some,
            r ==> final(self).wf() && old(self)@.unless_too_much(top, operand) == Some(final(self)@),
    {
        match top {
            Some(top) => {
                self.set(top, operand);
                true
            },
            None => false,
        }
    }

    /// Enters a delimiter that begins with a cost, and says whether that is not too much.
    fn open(&mut self, top: Load, cost: usize) -> (r: bool)
        requires
            old(self).wf(),
            fits(top),
        ensures
            r <==> cost <= STRAIN_LIMIT,
            r ==> final(self).wf() && old(self)@.opened(top, cost as int) == Some(final(self)@),
    {
        if cost > STRAIN_LIMIT {
            return false;
        }
        let ghost before = self@;
        let mut inner = Load::begin(cost);
        inner.importing = top.importing;
        inner.attribute = self.hash;
        self.set(top, false);
        self.loads.push(inner);
        proof {
            assert(self@.loads =~= before.loads.drop_last().push(top).push(inner));
        }
        true
    }

    /// Leaves the innermost delimiter, if one is open.
    fn close(&mut self, block: bool)
        requires
            old(self).wf(),
        ensures
            final(self).wf(),
            final(self)@ == old(self)@.closed(block),
    {
        let inner = self.top();
        let ghost before = self@;
        if self.loads.len() > 1 {
            let _ = self.loads.pop();
        }
        let top = self.top().raise(inner.peak, block);
        self.set(top, !inner.attribute);
        proof {
            assert(self@ =~= before.closed(block));
        }
    }

    /// Whether an angle bracket here may be one that opens a list.
    fn is_before_list(&self) -> (r: bool)
        ensures
            r == self@.expects_list(),
    {
        self.named || !self.operand
    }

    /// Reads a word, and says whether it is not too much.
    fn read_word(&mut self, word: &str) -> (r: bool)
        requires
            old(self).wf(),
        ensures
            r <==> read_word(old(self)@, word@) is Some,
            r ==> final(self).wf() && read_word(old(self)@, word@) == Some(final(self)@),
    {
        let top = self.top();
        if text::same(word, "else") {
            let fitting = self.put(top.turn(), false);
            if fitting {
                self.rung = true;
            }
            return fitting;
        }
        if text::same(word, "as") || text::same(word, "in") {
            return self.put(top.go_on().lengthen(1, 0), false);
        }
        if text::same(word, "use") {
            let mut begun = top.enter();
            begun.importing = true;
            self.set(begun, false);
            return true;
        }
        let branch = text::same(word, "if");
        if branch || text::same(word, "return") || text::same(word, "break") || text::same(word, "yield") || text::same(
            word,
            "become",
        ) || text::same(word, "match") || text::same(word, "while") || text::same(word, "for") {
            if branch && self.rung {
                self.set(top, false);
                return true;
            }
            return self.put(top.enter().lengthen(HEAVY, HEAVY), false);
        }
        if self.named && (text::same(word, "const") || text::same(word, "mut")) {
            return self.put(top.enter().lengthen(HEAVY, HEAVY), false);
        }
        if is_leading(word) {
            self.set(top.enter(), false);
            return true;
        }
        if self.operand {
            self.set(top.restart(), true);
        } else {
            self.set(top.enter(), true);
        }
        self.named = true;
        true
    }

    /// Reads two bytes that are one mark, if they are one, and says whether it is not too much.
    fn read_pair(&mut self, first: u8, second: u8) -> (r: Option<bool>)
        requires
            old(self).wf(),
        ensures
            match r {
                Some(fitting) => match read_pair(old(self)@, first, second) {
                    Some(after) => (fitting <==> after is Some) && (fitting ==> final(self).wf() && after == Some(final(self)@)),
                    None => false,
                },
                None => read_pair(old(self)@, first, second) is None && *final(self) == *old(self),
            },
    {
        let mut top = self.top().go_on();
        if first == 58u8 && second == 58u8 {
            if top.importing {
                Some(self.put(top.lengthen(1, 1), false))
            } else {
                self.set(top, false);
                Some(true)
            }
        } else if first == 45u8 && second == 62u8 {
            Some(self.put(top.lengthen(HEAVY, HEAVY), false))
        } else if first == 61u8 && second == 62u8 {
            self.set(top.restart(), false);
            Some(true)
        } else if first == 62u8 && second == 62u8 {
            top.angles = lessen(lessen(top.angles));
            Some(self.put(top.lengthen(1, 0), false))
        } else if first == 124u8 && second == 124u8 {
            if self.operand && !top.params {
                Some(self.put(top.lengthen(1, 0), false))
            } else {
                Some(self.put(top.lengthen(HEAVY, HEAVY), false))
            }
        } else if first == 60u8 && second == 60u8 && self.is_before_list() {
            if top.angles + 1 >= STRAIN_LIMIT {
                return Some(false);
            }
            top.angles = top.angles + 2;
            Some(self.put(top.lengthen(2 * HEAVY, 0), false))
        } else if (first == 60u8 && second == 60u8) || ((first == 60u8 || first == 62u8 || first == 124u8) && second == 61u8) {
            Some(self.put(top.lengthen(1, 0), false))
        } else {
            None
        }
    }

    /// Reads a byte that stands for itself, and says whether it is not too much.
    fn read_byte(&mut self, byte: u8) -> (r: bool)
        requires
            old(self).wf(),
        ensures
            r <==> read_byte(old(self)@, byte) is Some,
            r ==> final(self).wf() && read_byte(old(self)@, byte) == Some(final(self)@),
    {
        let mut top = self.top().go_on();
        if is_plain_operator(byte) {
            if self.operand {
                self.put(top.lengthen(1, 0), false)
            } else {
                self.put(top.lengthen(1, 1), false)
            }
        } else if byte == 61u8 {
            self.put(top.lengthen(1, 1), false)
        } else if byte == 46u8 || byte == 63u8 {
            if self.operand {
                self.put(top.lengthen(1, 0), byte == 63u8)
            } else {
                self.put(top.lengthen(1, 1), byte == 63u8)
            }
        } else if byte == 60u8 {
            if !self.is_before_list() {
                return self.put(top.lengthen(1, 0), false);
            }
            if top.angles >= STRAIN_LIMIT {
                return false;
            }
            top.angles = top.angles + 1;
            self.put(top.lengthen(HEAVY, 0), false)
        } else if byte == 62u8 {
            top.angles = lessen(top.angles);
            self.put(top.lengthen(1, 0), false)
        } else if byte == 124u8 {
            if top.params {
                top.params = false;
                self.put(top.lengthen(1, 0), false)
            } else if self.operand {
                self.put(top.lengthen(1, 0), false)
            } else {
                top.params = true;
                self.put(top.lengthen(HEAVY, HEAVY), false)
            }
        } else if byte == 64u8 {
            self.put(top.lengthen(HEAVY, HEAVY), false)
        } else if byte == 40u8 || byte == 91u8 {
            if self.operand {
                match top.lengthen(1, 0) {
                    Some(next) => {
                        top = next;
                    },
                    None => {
                        return false;
                    },
                }
            }
            self.open(top, top.cost + HEAVY)
        } else if byte == 123u8 {
            if top.angles > 0 {
                self.open(top, top.cost + HEAVY)
            } else {
                self.open(top, top.base + top.heavy + HEAVY)
            }
        } else if byte == 41u8 || byte == 93u8 {
            self.close(false);
            true
        } else if byte == 125u8 {
            self.close(true);
            true
        } else if byte == 59u8 {
            let mut next = top.restart();
            next.importing = false;
            self.set(next, false);
            true
        } else if byte == 44u8 {
            if top.angles == 0 && !top.params {
                top = top.restart();
            }
            self.set(top, false);
            true
        } else if byte == 35u8 || byte == 36u8 {
            let begun = self.top().enter();
            self.set(begun, false);
            self.hash = byte == 35u8;
            true
        } else {
            if byte == 58u8 {
                self.set(top, false);
            }
            true
        }
    }
}

/// Whether a word is a keyword that an operand follows.
fn is_leading(word: &str) -> (r: bool)
    ensures
        r == leads(word@),
{
    text::same(word, "let") || text::same(word, "mut") || text::same(word, "ref") || text::same(word, "move") || text::same(
        word,
        "async",
    ) || text::same(word, "static") || text::same(word, "const") || text::same(word, "unsafe") || text::same(word, "dyn")
        || text::same(word, "impl") || text::same(word, "fn") || text::same(word, "where")
}

/// Whether a byte is an operator that is written between operands, or in front of one.
fn is_plain_operator(byte: u8) -> (r: bool)
    ensures
        r == plain_operator(byte),
{
    byte == 43u8 || byte == 45u8 || byte == 42u8 || byte == 47u8 || byte == 37u8 || byte == 38u8 || byte == 94u8 || byte == 33u8
}

/// Whether a character is part of a word.
fn is_word_char(c: char) -> (r: bool)
    ensures
        r == word_char(c),
{
    let n: u32 = c as u32;
    if n <= 0x7f {
        'a' <= c && c <= 'z' || 'A' <= c && c <= 'Z' || '0' <= c && c <= '9' || c == '_'
    } else {
        !text::is_whitespace(c) && n != 0x200e && n != 0x200f
    }
}

/// Where the characters from `from` on that are part of a word end.
fn past_word(text: &str, from: usize) -> (r: usize)
    requires
        from <= byte_len(text@),
    ensures
        r == word_tail(text@, from as int),
        from <= r <= byte_len(text@),
{
    let size: usize = text::length(text);
    let mut at: usize = from;
    proof {
        lemma_word_tail(text@, from as int);
    }
    loop
        invariant
            from <= at <= size,
            size == byte_len(text@),
            word_tail(text@, at as int) == word_tail(text@, from as int),
        decreases size - at,
    {
        proof {
            text::lemma_char_from(text@, at as int);
        }
        match text::char_at(text, at) {
            Some(c) => {
                if !is_word_char(c) {
                    return at;
                }
                at = at + text::char_width(c);
            },
            None => return at,
        }
    }
}

/// The offset of the first token that puts too much on one path for a recursive parser.
///
/// The scan is a byte walk with counters, and steps over comments and literals.
pub fn overstrained(text: &str) -> (r: Option<usize>)
    ensures
        match r {
            Some(at) => straining(text@, 0, Strain::start()) == Some(at as int),
            None => straining(text@, 0, Strain::start()) is None,
        },
{
    let bytes = text.as_bytes();
    let mut loads: Vec<Load> = Vec::new();
    loads.push(Load::begin(0));
    let mut walker = Walker { loads, operand: false, named: false, rung: false, hash: false };
    let mut at: usize = 0;
    let ghost goal = straining(text@, 0, Strain::start());
    proof {
        assert(walker@ =~= Strain::start());
    }
    while at < bytes.len()
        invariant
            bytes@ == encode_utf8(text@),
            walker.wf(),
            goal == straining(text@, 0, Strain::start()),
            goal == straining(text@, at as int, walker@),
        decreases left(text@, at as int),
    {
        proof {
            lemma_token_end(text@, at as int, walker@);
        }
        if comment::is_pair(bytes, at, 47u8, 47u8) {
            at = comment::line_comment_end(bytes, at);
            continue;
        }
        if comment::is_pair(bytes, at, 47u8, 42u8) {
            at = comment::block_comment_end(bytes, at);
            continue;
        }
        let quoted: usize = if bytes[at] == 98u8 || bytes[at] == 99u8 {
            at + 1
        } else {
            at
        };
        if let Some(end) = comment::literal_end(text, quoted) {
            let top = walker.top().enter();
            walker.set(top, true);
            proof {
                lemma_literal_end(bytes@, quoted as int);
            }
            at = past_word(text, end);
            continue;
        }
        let byte = bytes[at];
        if byte == 39u8 {
            let top = walker.top().enter();
            walker.set(top, false);
            at = past_word(text, at + 1);
            continue;
        }
        if 48u8 <= byte && byte <= 57u8 {
            let top = if walker.operand {
                walker.top().restart()
            } else {
                walker.top().enter()
            };
            walker.set(top, true);
            at = past_word(text, at + 1);
            continue;
        }
        let end: usize = past_word(text, at);
        if end > at {
            if !walker.read_word(text::between(text, at, end)) {
                return Some(at);
            }
            at = end;
            continue;
        }
        if bytes.len() - at > 1 {
            match walker.read_pair(byte, bytes[at + 1]) {
                Some(fitting) => {
                    if !fitting {
                        return Some(at);
                    }
                    at += 2;
                    continue;
                },
                None => {},
            }
        }
        if !walker.read_byte(byte) {
            return Some(at);
        }
        if byte <= 0x7f {
            at += 1;
        } else {
            match text::char_at(text, at) {
                Some(c) => {
                    at = at + text::char_width(c);
                },
                None => {
                    at += 1;
                },
            }
        }
    }
    None
}

// ---- What the measurement promises. ----

/// What is reported lies in the text, so that it can be named by its line.
pub proof fn law_a_straining_token_lies_in_the_text(text: Seq<char>, at: int, s: Strain)
    requires
        0 <= at,
    ensures
        straining(text, at, s) matches Some(found) ==> at <= found < byte_len(text),
    decreases left(text, at),
{
    if at < byte_len(text) {
        lemma_token_end(text, at, s);
        if let Some(after) = read_token(text, at, s).0 {
            law_a_straining_token_lies_in_the_text(text, read_token(text, at, s).1, after);
        }
    }
}

} // verus!
