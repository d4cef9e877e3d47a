//! How deeply source text nests, measured before anything recursive is pointed at it.
use crate::lexer;
use crate::lexer::identifier_from;
use crate::parse::comment;
use crate::parse::comment::{literal_end_of, Comment};
use crate::text;
use crate::text::{byte_len, char_from, slice, width};
use vstd::prelude::*;
use vstd::utf8::*;

verus! {

/// The deepest delimiter nesting a file may have and still be analyzed.
///
/// Everything downstream descends by recursion, so a file deep enough exhausts the stack. Refusing
/// the file by name costs one file's worth of coverage; the alternative costs the whole run.
pub const NESTING_LIMIT: usize = 64;

/// How many links a chain may have per level of delimiter nesting allowed.
///
/// One operator in a chain costs a shallower stack than one delimiter does, so the two bounds are
/// not the same number.
pub const CHAIN_FACTOR: usize = 4;

// ---- The cost of one open delimiter, and of those around it. ----

/// What is known of the expressions written directly inside one open delimiter.
pub struct Level {
    /// The cost of the expression being read.
    pub path: nat,
    /// The cost inherited from the delimiters around it, where a new expression starts again.
    pub base: nat,
    /// The highest cost that was reached, here or in a delimiter closed since.
    pub peak: nat,
    /// The length of the `else` ladder being read.
    pub rungs: nat,
    /// Whether a block has just been closed, which an `else` would continue.
    pub awaiting: bool,
}

/// The larger of two costs.
pub open spec fn larger(left: nat, right: nat) -> nat {
    if left >= right {
        left
    } else {
        right
    }
}

impl Level {
    /// A level that inherits a cost from outside.
    pub open spec fn inheriting(cost: nat) -> Level {
        Level { path: cost, base: cost, peak: cost, rungs: 0, awaiting: false }
    }

    /// One more link of the expression being read.
    pub open spec fn linked(self) -> Level {
        Level { path: self.path + 1, peak: larger(self.peak, self.path + 1), ..self }
    }

    /// A new expression.
    pub open spec fn restarted(self) -> Level {
        Level { path: self.base, ..self }
    }

    /// An expression that contains one of the given cost.
    pub open spec fn raised(self, cost: nat) -> Level {
        Level { path: larger(self.path, cost), peak: larger(self.peak, cost), ..self }
    }
}

/// Where a walk over a text stands: the open delimiters, and whether what was read last can end an
/// expression.
pub struct Walk {
    pub levels: Seq<Level>,
    pub expression: bool,
}

impl Walk {
    /// Nothing has been read yet.
    pub open spec fn start() -> Walk {
        Walk { levels: seq![Level::inheriting(0)], expression: false }
    }

    pub open spec fn top(self) -> Level {
        self.levels.last()
    }

    /// The walk with its innermost level replaced.
    pub open spec fn with(self, top: Level, expression: bool) -> Walk {
        Walk { levels: self.levels.drop_last().push(top), expression }
    }

    /// The walk inside a delimiter that was just opened.
    pub open spec fn opened(self, cost: nat) -> Walk {
        Walk { levels: self.levels.push(Level::inheriting(cost)), expression: false }
    }

    /// The walk behind a delimiter that was just closed.
    ///
    /// A closer with nothing open closes nothing.
    pub open spec fn closed(self, awaiting: bool) -> Walk {
        let nested = self.top().peak;
        let outer = if self.levels.len() > 1 {
            self.levels.drop_last()
        } else {
            self.levels
        };
        let top = outer.last().raised(nested);
        Walk {
            levels: outer.drop_last().push(
                Level { awaiting: if awaiting { true } else { top.awaiting }, ..top },
            ),
            expression: true,
        }
    }
}

/// Whether a byte can be part of an operator token.
///
/// `.` is among them because a field access and a method call nest their receiver exactly as a
/// binary operator nests its left operand. `:` is not, because a path is flat.
pub open spec fn operator_byte(byte: u8) -> bool {
    ||| byte == 43u8
    ||| byte == 45u8
    ||| byte == 42u8
    ||| byte == 47u8
    ||| byte == 37u8
    ||| byte == 38u8
    ||| byte == 124u8
    ||| byte == 94u8
    ||| byte == 33u8
    ||| byte == 60u8
    ||| byte == 62u8
    ||| byte == 61u8
    ||| byte == 63u8
    ||| byte == 46u8
}

/// Whether a byte is ASCII white space.
pub open spec fn blank_byte(byte: u8) -> bool {
    byte == 32u8 || byte == 9u8 || byte == 10u8 || byte == 12u8 || byte == 13u8
}

// ---- Reading one token. ----

/// Reads a word: a keyword that continues an expression, or the beginning of a new one.
pub open spec fn read_word(walk: Walk, word: Seq<char>, limit: nat) -> Option<Walk> {
    let top = walk.top();
    if word == "else"@ && top.awaiting {
        let next = Level { rungs: top.rungs + 1, awaiting: false, ..top };
        if next.rungs > limit || next.path + 1 > limit {
            None
        } else {
            Some(walk.with(next.linked(), false))
        }
    } else if word == "as"@ {
        let next = Level { awaiting: false, ..top };
        if next.path + 1 > limit {
            None
        } else {
            Some(walk.with(next.linked(), false))
        }
    } else {
        let next = if top.awaiting {
            Level { rungs: 0, awaiting: false, ..top }
        } else {
            top
        };
        Some(
            walk.with(
                if walk.expression {
                    next.restarted()
                } else {
                    next
                },
                true,
            ),
        )
    }
}

/// Reads a byte that stands for itself.
pub open spec fn read_byte(walk: Walk, byte: u8, limit: nat) -> Option<Walk> {
    let top = walk.top();
    if operator_byte(byte) {
        if top.path + 1 > limit {
            None
        } else {
            Some(walk.with(top.linked(), byte == 63u8 || byte == 62u8))
        }
    } else if byte == 40u8 || byte == 91u8 {
        // A call or an index continues the expression it follows.
        if walk.expression && top.path + 1 > limit {
            None
        } else {
            let next = if walk.expression {
                top.linked()
            } else {
                top
            };
            if next.path + CHAIN_FACTOR > limit {
                None
            } else {
                Some(walk.with(next, walk.expression).opened(next.path + CHAIN_FACTOR as nat))
            }
        }
    } else if byte == 123u8 {
        if limit < CHAIN_FACTOR || top.base > limit - CHAIN_FACTOR {
            None
        } else {
            Some(walk.opened(top.base + CHAIN_FACTOR as nat))
        }
    } else if byte == 41u8 || byte == 93u8 {
        Some(walk.closed(false))
    } else if byte == 125u8 {
        Some(walk.closed(true))
    } else if byte == 59u8 || byte == 44u8 {
        Some(walk.with(Level { rungs: 0, awaiting: false, ..top.restarted() }, false))
    } else if byte == 58u8 || byte == 35u8 || byte == 64u8 || byte == 36u8 || byte == 39u8 {
        Some(walk.with(top, false))
    } else if blank_byte(byte) {
        Some(walk)
    } else if byte <= 0x7f {
        Some(
            walk.with(
                if walk.expression {
                    top.restarted()
                } else {
                    top
                },
                true,
            ),
        )
    } else {
        Some(walk)
    }
}

/// Reads the token at `at`: how the walk stands behind it, and where it ends.
///
/// There is no walk behind a token that crosses the limit.
pub open spec fn read_token(text: Seq<char>, at: int, walk: Walk, limit: nat) -> (Option<Walk>, int) {
    let bytes = encode_utf8(text);
    if let Some(end) = literal_end_of(bytes, at) {
        (
            Some(
                walk.with(
                    if walk.expression {
                        walk.top().restarted()
                    } else {
                        walk.top()
                    },
                    true,
                ),
            ),
            end,
        )
    } else if let Some(end) = identifier_from(text, at) {
        (read_word(walk, slice(text, at, end), limit), end)
    } else {
        (
            read_byte(walk, bytes[at], limit),
            if bytes[at] <= 0x7f {
                at + 1
            } else {
                match char_from(text, at) {
                    Some(c) => at + width(c),
                    None => at + 1,
                }
            },
        )
    }
}

/// A token ends behind its beginning and within the text.
pub proof fn lemma_token_end(text: Seq<char>, at: int, walk: Walk, limit: nat)
    requires
        0 <= at < byte_len(text),
    ensures
        at < read_token(text, at, walk, limit).1 <= byte_len(text),
{
    comment::lemma_literal_end(encode_utf8(text), at);
    text::lemma_char_from(text, at);
    if let Some(c) = char_from(text, at) {
        lexer::lemma_identifier_tail(text, at + width(c));
    }
}

/// The cost a path may have under a limit on delimiters, as far as the machine can count.
pub open spec fn path_limit(limit: usize) -> nat {
    if limit * CHAIN_FACTOR <= usize::MAX {
        (limit * CHAIN_FACTOR) as nat
    } else {
        usize::MAX as nat
    }
}

/// How many bytes are left to read.
pub open spec fn left(text: Seq<char>, at: int) -> nat {
    if at <= byte_len(text) {
        (byte_len(text) - at) as nat
    } else {
        0
    }
}

/// The offset of the token that first takes a text past `limit`, read from `at` on.
///
/// Comments are stepped over: those from `next` on are still ahead.
pub open spec fn crossing(text: Seq<char>, comments: Seq<Comment>, limit: nat, at: int, next: int, walk: Walk) -> Option<
    int,
>
    decreases left(text, at), comments.len() - next,
{
    if at < 0 || at >= byte_len(text) {
        None
    } else if 0 <= next < comments.len() && comments[next].span.start <= at {
        let end = comments[next].span.end as int;
        crossing(
            text,
            comments,
            limit,
            if at >= end {
                at
            } else {
                end
            },
            next + 1,
            walk,
        )
    } else {
        proof {
            lemma_token_end(text, at, walk, limit);
        }
        match read_token(text, at, walk, limit).0 {
            None => Some(at),
            Some(after) => crossing(text, comments, limit, read_token(text, at, walk, limit).1, next, after),
        }
    }
}

// ---- Walking a text. ----

/// One open delimiter, as the machine keeps it.
#[derive(Clone, Copy)]
struct Frame {
    path: usize,
    base: usize,
    peak: usize,
    rungs: usize,
    awaiting: bool,
}

impl View for Frame {
    type V = Level;

    closed spec fn view(&self) -> Level {
        Level {
            path: self.path as nat,
            base: self.base as nat,
            peak: self.peak as nat,
            rungs: self.rungs as nat,
            awaiting: self.awaiting,
        }
    }
}

/// The levels that frames hold.
spec fn levels_of(frames: Seq<Frame>) -> Seq<Level> {
    frames.map_values(|frame: Frame| frame@)
}

/// Where a walk over a text stands, as the machine keeps it.
struct Walker {
    frames: Vec<Frame>,
    expression: bool,
}

impl View for Walker {
    type V = Walk;

    closed spec fn view(&self) -> Walk {
        Walk { levels: levels_of(self.frames@), expression: self.expression }
    }
}

impl Frame {
    fn inheriting(cost: usize) -> (r: Frame)
        ensures
            r@ == Level::inheriting(cost as nat),
    {
        Frame { path: cost, base: cost, peak: cost, rungs: 0, awaiting: false }
    }

    /// Counts one more link.
    fn link(&self) -> (r: Frame)
        requires
            self.path < usize::MAX,
        ensures
            r@ == self@.linked(),
    {
        let path: usize = self.path + 1;
        let peak: usize = if self.peak >= path {
            self.peak
        } else {
            path
        };
        Frame { path, peak, base: self.base, rungs: self.rungs, awaiting: self.awaiting }
    }

    fn restart(&self) -> (r: Frame)
        ensures
            r@ == self@.restarted(),
    {
        Frame { path: self.base, base: self.base, peak: self.peak, rungs: self.rungs, awaiting: self.awaiting }
    }

    /// Retains the deeper of the current and completed nested paths.
    fn raise(&self, cost: usize) -> (r: Frame)
        ensures
            r@ == self@.raised(cost as nat),
    {
        let path: usize = if self.path >= cost {
            self.path
        } else {
            cost
        };
        let peak: usize = if self.peak >= cost {
            self.peak
        } else {
            cost
        };
        Frame { path, peak, base: self.base, rungs: self.rungs, awaiting: self.awaiting }
    }
}

impl Walker {
    /// Whether every cost is within what the limit allows.
    spec fn wf(&self, limit: usize) -> bool {
        &&& self.frames@.len() > 0
        &&& forall|i: int|
            0 <= i < self.frames@.len() ==> {
                &&& (#[trigger] self.frames@[i]).path <= limit
                &&& self.frames@[i].base <= limit
                &&& self.frames@[i].peak <= limit
                &&& self.frames@[i].rungs <= limit
            }
    }

    fn top(&self, Ghost(limit): Ghost<usize>) -> (r: Frame)
        requires
            self.wf(limit),
        ensures
            r@ == self@.top(),
            r.path <= limit,
            r.base <= limit,
            r.peak <= limit,
            r.rungs <= limit,
    {
        let last: usize = self.frames.len() - 1;
        proof {
            assert(levels_of(self.frames@).last() == self.frames@[last as int]@);
        }
        self.frames[last]
    }

    /// Replaces the innermost level.
    fn set(&mut self, top: Frame, expression: bool, Ghost(limit): Ghost<usize>)
        requires
            old(self).wf(limit),
            top.path <= limit,
            top.base <= limit,
            top.peak <= limit,
            top.rungs <= limit,
        ensures
            final(self).wf(limit),
            final(self)@ == old(self)@.with(top@, expression),
    {
        let last: usize = self.frames.len() - 1;
        self.frames.set(last, top);
        self.expression = expression;
        proof {
            assert(self@.levels =~= old(self)@.with(top@, expression).levels);
        }
    }

    /// Enters a delimiter that inherits a cost.
    fn open(&mut self, cost: usize, Ghost(limit): Ghost<usize>)
        requires
            old(self).wf(limit),
            cost <= limit,
        ensures
            final(self).wf(limit),
            final(self)@ == old(self)@.opened(cost as nat),
    {
        self.frames.push(Frame::inheriting(cost));
        self.expression = false;
        proof {
            assert(self@.levels =~= old(self)@.opened(cost as nat).levels);
        }
    }

    /// Leaves the innermost delimiter, if one is open.
    fn close(&mut self, awaiting: bool, Ghost(limit): Ghost<usize>)
        requires
            old(self).wf(limit),
        ensures
            final(self).wf(limit),
            final(self)@ == old(self)@.closed(awaiting),
    {
        let nested = self.top(Ghost(limit)).peak;
        let ghost before = self@;
        let ghost outer = if before.levels.len() > 1 {
            before.levels.drop_last()
        } else {
            before.levels
        };
        if self.frames.len() > 1 {
            let _ = self.frames.pop();
        }
        proof {
            assert(self@.levels =~= outer);
        }
        let mut top = self.top(Ghost(limit)).raise(nested);
        if awaiting {
            top.awaiting = true;
        }
        self.set(top, true, Ghost(limit));
        proof {
            assert(self@.levels =~= before.closed(awaiting).levels);
        }
    }

    /// Reads a literal.
    fn read_literal(&mut self, Ghost(limit): Ghost<usize>)
        requires
            old(self).wf(limit),
        ensures
            final(self).wf(limit),
            final(self)@ == old(self)@.with(
                if old(self)@.expression {
                    old(self)@.top().restarted()
                } else {
                    old(self)@.top()
                },
                true,
            ),
    {
        let mut top = self.top(Ghost(limit));
        if self.expression {
            top = top.restart();
        }
        self.set(top, true, Ghost(limit));
    }

    /// Reads a word, and says whether the walk is still within the limit.
    fn read_word(&mut self, word: &str, limit: usize) -> (r: bool)
        requires
            old(self).wf(limit),
        ensures
            r <==> read_word(old(self)@, word@, limit as nat) is Some,
            r ==> final(self).wf(limit) && read_word(old(self)@, word@, limit as nat) == Some(final(self)@),
    {
        let mut top = self.top(Ghost(limit));
        if text::same(word, "else") && top.awaiting {
            if top.rungs >= limit || top.path >= limit {
                return false;
            }
            top.rungs = top.rungs + 1;
            top.awaiting = false;
            self.set(top.link(), false, Ghost(limit));
        } else if text::same(word, "as") {
            if top.path >= limit {
                return false;
            }
            top.awaiting = false;
            self.set(top.link(), false, Ghost(limit));
        } else {
            if top.awaiting {
                top.rungs = 0;
                top.awaiting = false;
            }
            if self.expression {
                top = top.restart();
            }
            self.set(top, true, Ghost(limit));
        }
        true
    }

    /// Reads a byte that stands for itself, and says whether the walk is still within the limit.
    fn read_byte(&mut self, byte: u8, limit: usize) -> (r: bool)
        requires
            old(self).wf(limit),
        ensures
            r <==> read_byte(old(self)@, byte, limit as nat) is Some,
            r ==> final(self).wf(limit) && read_byte(old(self)@, byte, limit as nat) == Some(final(self)@),
    {
        let mut top = self.top(Ghost(limit));
        let ghost before = self@;
        if is_operator(byte) {
            if top.path >= limit {
                return false;
            }
            self.set(top.link(), byte == 63u8 || byte == 62u8, Ghost(limit));
        } else if byte == 40u8 || byte == 91u8 {
            let postfix = self.expression;
            if postfix {
                if top.path >= limit {
                    return false;
                }
                top = top.link();
            }
            if limit < CHAIN_FACTOR || top.path > limit - CHAIN_FACTOR {
                return false;
            }
            self.set(top, postfix, Ghost(limit));
            self.open(top.path + CHAIN_FACTOR, Ghost(limit));
        } else if byte == 123u8 {
            if limit < CHAIN_FACTOR || top.base > limit - CHAIN_FACTOR {
                return false;
            }
            self.open(top.base + CHAIN_FACTOR, Ghost(limit));
        } else if byte == 41u8 || byte == 93u8 {
            self.close(false, Ghost(limit));
        } else if byte == 125u8 {
            self.close(true, Ghost(limit));
        } else if byte == 59u8 || byte == 44u8 {
            top = top.restart();
            top.rungs = 0;
            top.awaiting = false;
            self.set(top, false, Ghost(limit));
        } else if byte == 58u8 || byte == 35u8 || byte == 64u8 || byte == 36u8 || byte == 39u8 {
            self.set(top, false, Ghost(limit));
        } else if is_blank(byte) || byte > 0x7f {
            proof {
                assert(self@ == before);
            }
        } else {
            if self.expression {
                top = top.restart();
            }
            self.set(top, true, Ghost(limit));
        }
        true
    }
}

/// Whether a byte can be part of an operator token.
fn is_operator(byte: u8) -> (r: bool)
    ensures
        r == operator_byte(byte),
{
    byte == 43u8 || byte == 45u8 || byte == 42u8 || byte == 47u8 || byte == 37u8 || byte == 38u8 || byte == 124u8
        || byte == 94u8 || byte == 33u8 || byte == 60u8 || byte == 62u8 || byte == 61u8 || byte == 63u8 || byte == 46u8
}

/// Whether a byte is ASCII white space.
fn is_blank(byte: u8) -> (r: bool)
    ensures
        r == blank_byte(byte),
{
    byte == 32u8 || byte == 9u8 || byte == 10u8 || byte == 12u8 || byte == 13u8
}

/// The offset of the token that first takes `text` past what `limit` allows.
///
/// The scan is a byte walk with counters: a recursive measurement of how deeply something recurses
/// would be the same defect over again. Delimiters, prefix runs, binary chains, `else` ladders and
/// postfix chains all count, because each builds a tree one level deeper per token. `comments` are
/// the comments of the text, which are stepped over, as literals are.
pub fn beyond(text: &str, comments: &Vec<Comment>, limit: usize) -> (r: Option<usize>)
    ensures
        r is Some <==> crossing(text@, comments@, path_limit(limit), 0, 0, Walk::start()) is Some,
        r matches Some(at) ==> crossing(text@, comments@, path_limit(limit), 0, 0, Walk::start()) == Some(at as int),
{
    let bytes = text.as_bytes();
    let allowed: usize = match limit.checked_mul(CHAIN_FACTOR) {
        Some(allowed) => allowed,
        None => usize::MAX,
    };
    let mut frames: Vec<Frame> = Vec::new();
    frames.push(Frame::inheriting(0));
    let mut walker = Walker { frames, expression: false };
    let mut at: usize = 0;
    let mut next: usize = 0;
    let ghost goal = crossing(text@, comments@, allowed as nat, 0, 0, Walk::start());
    proof {
        assert(walker@.levels =~= Walk::start().levels);
    }
    while at < bytes.len()
        invariant
            bytes@ == encode_utf8(text@),
            walker.wf(allowed),
            allowed == path_limit(limit),
            next <= comments@.len(),
            goal == crossing(text@, comments@, path_limit(limit), 0, 0, Walk::start()),
            goal == crossing(text@, comments@, allowed as nat, at as int, next as int, walker@),
        decreases left(text@, at as int), comments@.len() - next,
    {
        if next < comments.len() && comments[next].span.start <= at {
            let end: usize = comments[next].span.end;
            if at < end {
                at = end;
            }
            next += 1;
            continue ;
        }
        proof {
            lemma_token_end(text@, at as int, walker@, allowed as nat);
        }
        if let Some(end) = comment::literal_end(text, at) {
            walker.read_literal(Ghost(allowed));
            at = end;
            continue ;
        }
        if let Some(end) = lexer::identifier_end(text, at) {
            if !walker.read_word(text::between(text, at, end), allowed) {
                return Some(at);
            }
            at = end;
            continue ;
        }
        let byte = bytes[at];
        if !walker.read_byte(byte, allowed) {
            return Some(at);
        }
        if byte <= 0x7f {
            at += 1;
        } else {
            match text::char_at(text, at) {
                Some(c) => {
                    at = at + text::char_width(c);
                },
                None => {
                    at += 1;
                },
            }
        }
    }
    None
}

// ---- What the measurement promises. ----

/// Where the token at `at` ends, whatever was read before it.
pub open spec fn token_end(text: Seq<char>, at: int) -> int {
    read_token(text, at, Walk::start(), 0).1
}

/// How many delimiters are open behind the token at `at`, given how many are open before it.
pub open spec fn depth_behind(text: Seq<char>, at: int, depth: nat) -> nat {
    let byte = encode_utf8(text)[at];
    if literal_end_of(encode_utf8(text), at) is Some || identifier_from(text, at) is Some {
        depth
    } else if byte == 40u8 || byte == 91u8 || byte == 123u8 {
        depth + 1
    } else if (byte == 41u8 || byte == 93u8 || byte == 125u8) && depth > 0 {
        (depth - 1) as nat
    } else {
        depth
    }
}

/// The most delimiters that are ever open at once, outside literals and comments.
pub open spec fn deepest(text: Seq<char>, comments: Seq<Comment>, at: int, next: int, depth: nat) -> nat
    decreases left(text, at), comments.len() - next,
{
    if at < 0 || at >= byte_len(text) {
        depth
    } else if 0 <= next < comments.len() && comments[next].span.start <= at {
        let end = comments[next].span.end as int;
        deepest(
            text,
            comments,
            if at >= end {
                at
            } else {
                end
            },
            next + 1,
            depth,
        )
    } else {
        proof {
            lemma_token_end(text, at, Walk::start(), 0);
        }
        larger(depth, deepest(text, comments, token_end(text, at), next, depth_behind(text, at, depth)))
    }
}

/// Whether every level inherits at least what the delimiters around it cost.
spec fn pays(walk: Walk) -> bool {
    &&& walk.levels.len() > 0
    &&& forall|i: int|
        0 <= i < walk.levels.len() ==> {
            &&& CHAIN_FACTOR * i <= (#[trigger] walk.levels[i]).base
            &&& walk.levels[i].base <= walk.levels[i].path
        }
}

/// Reading a token keeps every level paid for, and enters no level the limit does not allow.
proof fn lemma_token_pays(text: Seq<char>, at: int, walk: Walk, limit: nat)
    requires
        pays(walk),
        read_token(text, at, walk, limit).0 is Some,
        CHAIN_FACTOR * (walk.levels.len() - 1) <= limit,
    ensures
        ({
            let after = read_token(text, at, walk, limit).0->0;
            &&& pays(after)
            &&& after.levels.len() == depth_behind(text, at, (walk.levels.len() - 1) as nat) + 1
            &&& CHAIN_FACTOR * (after.levels.len() - 1) <= limit
        }),
{
    let after = read_token(text, at, walk, limit).0->0;
    let top = walk.levels.len() - 1;
    assert(CHAIN_FACTOR * top <= walk.levels[top].base);
    assert forall|i: int| 0 <= i < after.levels.len() implies {
        &&& CHAIN_FACTOR * i <= (#[trigger] after.levels[i]).base
        &&& after.levels[i].base <= after.levels[i].path
    } by {
        if i < walk.levels.len() {
            assert(CHAIN_FACTOR * i <= walk.levels[i].base);
        }
    }
}

proof fn lemma_depth_within(
    text: Seq<char>,
    comments: Seq<Comment>,
    limit: nat,
    at: int,
    next: int,
    walk: Walk,
)
    requires
        crossing(text, comments, limit, at, next, walk) is None,
        pays(walk),
        CHAIN_FACTOR * (walk.levels.len() - 1) <= limit,
        0 <= next,
    ensures
        CHAIN_FACTOR * deepest(text, comments, at, next, (walk.levels.len() - 1) as nat) <= limit,
    decreases left(text, at), comments.len() - next,
{
    if at < 0 || at >= byte_len(text) {
    } else if next < comments.len() && comments[next].span.start <= at {
        let end = comments[next].span.end as int;
        lemma_depth_within(
            text,
            comments,
            limit,
            if at >= end {
                at
            } else {
                end
            },
            next + 1,
            walk,
        );
    } else {
        lemma_token_end(text, at, walk, limit);
        lemma_token_end(text, at, Walk::start(), 0);
        lemma_token_pays(text, at, walk, limit);
        let after = read_token(text, at, walk, limit).0->0;
        lemma_depth_within(text, comments, limit, token_end(text, at), next, after);
    }
}

/// A text that is accepted never has more delimiters open at once than the limit allows.
pub proof fn law_accepted_text_is_no_deeper_than_the_limit(text: Seq<char>, comments: Seq<Comment>, limit: usize)
    requires
        crossing(text, comments, path_limit(limit), 0, 0, Walk::start()) is None,
    ensures
        deepest(text, comments, 0, 0, 0) <= limit,
{
    lemma_depth_within(text, comments, path_limit(limit), 0, 0, Walk::start());
}

proof fn lemma_larger_limit(
    text: Seq<char>,
    comments: Seq<Comment>,
    limit: nat,
    more: nat,
    at: int,
    next: int,
    walk: Walk,
)
    requires
        limit <= more,
        0 <= at,
        0 <= next,
    ensures
        crossing(text, comments, more, at, next, walk) matches Some(late) ==> (crossing(text, comments, limit, at, next, walk) matches Some(
            early,
        ) && early <= late),
    decreases left(text, at), comments.len() - next,
{
    if at >= byte_len(text) {
    } else if next < comments.len() && comments[next].span.start <= at {
        let end = comments[next].span.end as int;
        lemma_larger_limit(
            text,
            comments,
            limit,
            more,
            if at >= end {
                at
            } else {
                end
            },
            next + 1,
            walk,
        );
    } else {
        lemma_token_end(text, at, walk, limit);
        lemma_crossing_in_text(text, comments, more, at, next, walk);
        let (after, end) = read_token(text, at, walk, limit);
        if after is Some {
            assert(read_token(text, at, walk, more) == read_token(text, at, walk, limit));
            lemma_larger_limit(text, comments, limit, more, end, next, after->0);
        }
    }
}

/// A text that one limit accepts is accepted by every larger one.
pub proof fn law_a_larger_limit_accepts_more(text: Seq<char>, comments: Seq<Comment>, limit: usize, more: usize)
    requires
        crossing(text, comments, path_limit(limit), 0, 0, Walk::start()) is None,
        limit <= more,
    ensures
        crossing(text, comments, path_limit(more), 0, 0, Walk::start()) is None,
{
    lemma_larger_limit(text, comments, path_limit(limit), path_limit(more), 0, 0, Walk::start());
}

/// A text that one limit refuses is refused by every smaller one, and no later in the text.
pub proof fn law_a_smaller_limit_refuses_no_later(text: Seq<char>, comments: Seq<Comment>, limit: usize, more: usize)
    requires
        crossing(text, comments, path_limit(more), 0, 0, Walk::start()) is Some,
        limit <= more,
    ensures
        crossing(text, comments, path_limit(limit), 0, 0, Walk::start()) matches Some(early) && early <= crossing(
            text,
            comments,
            path_limit(more),
            0,
            0,
            Walk::start(),
        )->0,
{
    lemma_larger_limit(text, comments, path_limit(limit), path_limit(more), 0, 0, Walk::start());
}

proof fn lemma_crossing_in_text(
    text: Seq<char>,
    comments: Seq<Comment>,
    limit: nat,
    at: int,
    next: int,
    walk: Walk,
)
    requires
        0 <= next,
        0 <= at,
    ensures
        crossing(text, comments, limit, at, next, walk) matches Some(found) ==> at <= found < byte_len(text),
    decreases left(text, at), comments.len() - next,
{
    if at >= byte_len(text) {
    } else if next < comments.len() && comments[next].span.start <= at {
        let end = comments[next].span.end as int;
        lemma_crossing_in_text(
            text,
            comments,
            limit,
            if at >= end {
                at
            } else {
                end
            },
            next + 1,
            walk,
        );
    } else {
        lemma_token_end(text, at, walk, limit);
        let (after, end) = read_token(text, at, walk, limit);
        if after is Some {
            lemma_crossing_in_text(text, comments, limit, end, next, after->0);
        }
    }
}

/// What is reported lies in the text, so that it can be named by its line.
pub proof fn law_a_reported_offset_lies_in_the_text(text: Seq<char>, comments: Seq<Comment>, limit: usize)
    ensures
        crossing(text, comments, path_limit(limit), 0, 0, Walk::start()) matches Some(at) ==> 0 <= at < byte_len(text),
{
    lemma_crossing_in_text(text, comments, path_limit(limit), 0, 0, Walk::start());
}

} // verus!
