//! The scanner and bracket-matcher: source bytes to the program tree.
//!
//! The token stream of a source text is the subsequence of its instruction
//! bytes (`tokens_from`); every other byte is a comment and is skipped.
//! `Parser::parse` returns a program whose rendering is exactly that token
//! stream, succeeds if and only if the stream's brackets are balanced, and
//! otherwise reports an unmatched bracket with its 1-based source line.

use vstd::prelude::*;

use crate::program::{flatten_instr, flatten_instrs, lemma_flatten_instrs_push, Instruction, Program,
    CLOSE, COMMA, DOT, GREATER, HASH, LESS, MINUS, NEWLINE, OPEN, PLUS};

verus! {

broadcast use {vstd::seq::group_seq_axioms, vstd::std_specs::vec::group_vec_axioms};

/// The nine instruction bytes; everything else is a comment.
pub open spec fn is_token(b: u8) -> bool {
    ||| b == PLUS
    ||| b == MINUS
    ||| b == GREATER
    ||| b == LESS
    ||| b == DOT
    ||| b == COMMA
    ||| b == OPEN
    ||| b == CLOSE
    ||| b == HASH
}

/// The token stream of the source from position `i` on.
pub open spec fn tokens_from(src: Seq<u8>, i: int) -> Seq<u8>
    decreases src.len() - i,
{
    if i < 0 || i >= src.len() {
        Seq::empty()
    } else if is_token(src[i]) {
        seq![src[i]] + tokens_from(src, i + 1)
    } else {
        tokens_from(src, i + 1)
    }
}

/// The whole token stream of a source text.
pub open spec fn tokens(src: Seq<u8>) -> Seq<u8> {
    tokens_from(src, 0)
}

/// The bracket weight of one byte.
pub open spec fn net(b: u8) -> int {
    if b == OPEN {
        1
    } else if b == CLOSE {
        -1
    } else {
        0
    }
}

/// The nesting depth reached after a byte sequence: opens minus closes.
pub open spec fn depth(s: Seq<u8>) -> int
    decreases s.len(),
{
    if s.len() == 0 {
        0
    } else {
        net(s[0]) + depth(s.subrange(1, s.len() as int))
    }
}

/// Balanced brackets: every open has its close (total depth zero) and no
/// prefix closes more than it has opened.
pub open spec fn balanced(s: Seq<u8>) -> bool {
    &&& depth(s) == 0
    &&& forall|i: int| 0 <= i <= s.len() ==> depth(#[trigger] s.subrange(0, i)) >= 0
}

/// The number of newline bytes strictly before position `i`.
pub open spec fn newlines_upto(src: Seq<u8>, i: int) -> int
    decreases i,
{
    if i <= 0 {
        0
    } else {
        newlines_upto(src, i - 1) + if src[i - 1] == NEWLINE {
            1int
        } else {
            0int
        }
    }
}

/// The 1-based source line of position `i`.
pub open spec fn line_of(src: Seq<u8>, i: int) -> int {
    newlines_upto(src, i) + 1
}

/// Position `bi` holds an open bracket that is never closed: the token
/// stream after it is itself balanced. Such a position is unique — it is
/// the rightmost unmatched open bracket, the one the parser reports.
pub open spec fn unclosed_open_at(src: Seq<u8>, bi: int) -> bool {
    &&& 0 <= bi < src.len()
    &&& src[bi] == OPEN
    &&& balanced(tokens_from(src, bi + 1))
}

/// Position `bi` holds the first stray close bracket: the token stream
/// before it is balanced, so this close has nothing left to match.
pub open spec fn stray_close_at(src: Seq<u8>, bi: int) -> bool {
    &&& 0 <= bi < src.len()
    &&& src[bi] == CLOSE
    &&& balanced(tokens(src.subrange(0, bi)))
}

/// A reported parse error carries the 1-based line of the offending
/// bracket byte: the first stray close, or the rightmost unclosed open.
pub open spec fn error_line_ok(src: Seq<u8>, e: ParserError) -> bool {
    match e {
        ParserError::MismatchedBracket(line) => {
            &&& 1 <= line
            &&& exists|bi: int|
                #![trigger stray_close_at(src, bi)]
                #![trigger unclosed_open_at(src, bi)]
                (stray_close_at(src, bi) || unclosed_open_at(src, bi)) && line as int == line_of(
                    src,
                    bi,
                )
        },
    }
}

pub open spec fn at_token(src: Seq<u8>, i: int) -> bool {
    0 <= i < src.len() && is_token(src[i])
}

pub open spec fn at_token_or_end(src: Seq<u8>, i: int) -> bool {
    at_token(src, i) || i >= src.len()
}

/// Depth distributes over concatenation.
pub proof fn lemma_depth_concat(a: Seq<u8>, b: Seq<u8>)
    ensures
        depth(a + b) == depth(a) + depth(b),
    decreases a.len(),
{
    if a.len() == 0 {
        assert(a + b =~= b);
    } else {
        assert((a + b).subrange(1, (a + b).len() as int) =~= a.subrange(1, a.len() as int) + b);
        lemma_depth_concat(a.subrange(1, a.len() as int), b);
    }
}

/// Appending one byte to the source appends its token, if it is one.
proof fn lemma_tokens_from_snoc(s: Seq<u8>, b: u8, i: int)
    requires
        0 <= i <= s.len(),
    ensures
        tokens_from(s.push(b), i) == tokens_from(s, i) + (if is_token(b) {
            seq![b]
        } else {
            Seq::<u8>::empty()
        }),
    decreases s.len() - i,
{
    let t = s.push(b);
    let tail = if is_token(b) {
        seq![b]
    } else {
        Seq::<u8>::empty()
    };
    if i == s.len() {
        assert(tokens_from(t, i + 1) =~= Seq::<u8>::empty());
        assert(tokens_from(s, i) =~= Seq::<u8>::empty());
        if is_token(b) {
            assert(t[i] == b);
            assert(tokens_from(t, i) == seq![t[i]] + tokens_from(t, i + 1));
            assert(tokens_from(t, i) =~= tokens_from(s, i) + tail);
        } else {
            assert(tokens_from(t, i) == tokens_from(t, i + 1));
            assert(tokens_from(t, i) =~= tokens_from(s, i) + tail);
        }
    } else {
        lemma_tokens_from_snoc(s, b, i + 1);
        assert(t[i] == s[i]);
        if is_token(s[i]) {
            assert(tokens_from(t, i) == seq![t[i]] + tokens_from(t, i + 1));
            assert(tokens_from(s, i) == seq![s[i]] + tokens_from(s, i + 1));
            assert(seq![s[i]] + (tokens_from(s, i + 1) + tail) =~= (seq![s[i]] + tokens_from(
                s,
                i + 1,
            )) + tail);
            assert(tokens_from(t, i) =~= tokens_from(s, i) + tail);
        } else {
            assert(tokens_from(t, i) == tokens_from(t, i + 1));
            assert(tokens_from(t, i) =~= tokens_from(s, i) + tail);
        }
    }
}

/// The token stream splits at any source position.
proof fn lemma_tokens_split(src: Seq<u8>, i: int)
    requires
        0 <= i <= src.len(),
    ensures
        tokens(src) == tokens(src.subrange(0, i)) + tokens_from(src, i),
    decreases i,
{
    if i == 0 {
        assert(src.subrange(0, 0) =~= Seq::<u8>::empty());
        assert(tokens(src.subrange(0, 0)) =~= Seq::<u8>::empty());
        assert(tokens(src) =~= tokens(src.subrange(0, 0)) + tokens_from(src, 0));
    } else {
        lemma_tokens_split(src, i - 1);
        let a = src.subrange(0, i - 1);
        let b = src.subrange(0, i);
        assert(b =~= a.push(src[i - 1]));
        lemma_tokens_from_snoc(a, src[i - 1], 0);
        let tail = if is_token(src[i - 1]) {
            seq![src[i - 1]]
        } else {
            Seq::<u8>::empty()
        };
        assert(tokens(b) == tokens(a) + tail);
        if is_token(src[i - 1]) {
            assert(tokens_from(src, i - 1) == seq![src[i - 1]] + tokens_from(src, i));
        } else {
            assert(tokens_from(src, i - 1) == tokens_from(src, i));
        }
        assert(tail + tokens_from(src, i) =~= tokens_from(src, i - 1));
        assert((tokens(a) + tail) + tokens_from(src, i) =~= tokens(a) + (tail + tokens_from(
            src,
            i,
        )));
        assert(tokens(src) =~= tokens(b) + tokens_from(src, i));
    }
}

/// Equal concatenations with the same right part have equal left parts.
proof fn lemma_concat_cancel_right(a: Seq<u8>, b: Seq<u8>, c: Seq<u8>)
    requires
        a + c == b + c,
    ensures
        a == b,
{
    assert((a + c).len() == (b + c).len());
    assert((a + c).len() == a.len() + c.len());
    assert((b + c).len() == b.len() + c.len());
    assert(a.len() == b.len());
    assert forall|k: int| 0 <= k < a.len() implies a[k] == b[k] by {
        assert((a + c)[k] == a[k]);
        assert((b + c)[k] == b[k]);
    }
    assert(a =~= b);
}

/// The rendering of any program is balanced.
pub proof fn lemma_flatten_instr_balanced(i: Instruction)
    ensures
        depth(flatten_instr(i)) == 0,
        forall|k: int|
            0 <= k <= flatten_instr(i).len() ==> depth(
                #[trigger] flatten_instr(i).subrange(0, k),
            ) >= 0,
    decreases i, 0int,
{
    match i {
        Instruction::Loop(body) => {
            let f = flatten_instrs(body@);
            let open = seq![OPEN];
            let close = seq![CLOSE];
            lemma_flatten_instrs_balanced(body@);
            lemma_depth_concat(open, f);
            lemma_depth_concat(open + f, close);
            assert(flatten_instr(i) == open + f + close);
            assert(depth(close) == net(CLOSE) + depth(close.subrange(1, 1)));
            assert(close.subrange(1, 1) =~= Seq::<u8>::empty());
            assert(depth(open) == net(OPEN) + depth(open.subrange(1, 1)));
            assert(open.subrange(1, 1) =~= Seq::<u8>::empty());
            assert(depth(flatten_instr(i)) == 0);
            assert forall|k: int| 0 <= k <= flatten_instr(i).len() implies depth(
                flatten_instr(i).subrange(0, k),
            ) >= 0 by {
                let whole = open + f + close;
                if k == 0 {
                    assert(whole.subrange(0, 0) =~= Seq::<u8>::empty());
                } else if k <= 1 + f.len() {
                    assert(whole.subrange(0, k) =~= open + f.subrange(0, k - 1));
                    lemma_depth_concat(open, f.subrange(0, k - 1));
                } else {
                    assert(whole.subrange(0, k) =~= open + f + close.subrange(0, k - 1 - f.len()));
                    lemma_depth_concat(open + f, close.subrange(0, k - 1 - f.len()));
                    lemma_depth_concat(open, f);
                    assert(close.subrange(0, k - 1 - f.len()) =~= close);
                }
            }
        },
        _ => {
            let f = flatten_instr(i);
            assert(f.len() == 1);
            assert(f.subrange(1, 1) =~= Seq::<u8>::empty());
            assert(depth(f.subrange(1, 1)) == 0);
            assert(depth(f) == net(f[0]) + depth(f.subrange(1, f.len() as int)));
            assert(net(f[0]) == 0);
            assert forall|k: int| 0 <= k <= f.len() implies depth(f.subrange(0, k)) >= 0 by {
                if k == 0 {
                    assert(f.subrange(0, 0) =~= Seq::<u8>::empty());
                } else {
                    assert(f.subrange(0, 1) =~= f);
                }
            }
        },
    }
}

/// The rendering of any instruction sequence is balanced.
pub proof fn lemma_flatten_instrs_balanced(s: Seq<Instruction>)
    ensures
        depth(flatten_instrs(s)) == 0,
        forall|k: int|
            0 <= k <= flatten_instrs(s).len() ==> depth(
                #[trigger] flatten_instrs(s).subrange(0, k),
            ) >= 0,
    decreases s, 1int,
{
    if s.len() == 0 {
        assert(flatten_instrs(s).subrange(0, 0) =~= Seq::<u8>::empty());
    } else {
        let f0 = flatten_instr(s[0]);
        let fr = flatten_instrs(s.subrange(1, s.len() as int));
        lemma_flatten_instr_balanced(s[0]);
        lemma_flatten_instrs_balanced(s.subrange(1, s.len() as int));
        lemma_depth_concat(f0, fr);
        assert forall|k: int| 0 <= k <= flatten_instrs(s).len() implies depth(
            flatten_instrs(s).subrange(0, k),
        ) >= 0 by {
            if k <= f0.len() {
                assert(flatten_instrs(s).subrange(0, k) =~= f0.subrange(0, k));
            } else {
                assert(flatten_instrs(s).subrange(0, k) =~= f0 + fr.subrange(0, k - f0.len()));
                lemma_depth_concat(f0, fr.subrange(0, k - f0.len()));
            }
        }
    }
}

/// A parse error: an unmatched bracket, with the 1-based source line of
/// the offending bracket byte.
#[derive(Clone, Copy, PartialEq, Eq, Structural, Debug)]
pub enum ParserError {
    MismatchedBracket(usize),
}

/// A recursive-descent parser over a byte source.
pub struct Parser {
    pub source: Vec<u8>,
    pub index: usize,
}

impl Parser {
    pub open spec fn wf(&self) -> bool {
        self.index <= self.source@.len()
    }

    pub fn new(source: Vec<u8>) -> (r: Parser)
        ensures
            r.wf(),
            r.source@ == source@,
            r.index == 0,
    {
        Parser { source, index: 0 }
    }

    /// Parse the whole source. Succeeds exactly when the token stream's
    /// brackets are balanced, and then the program's rendering is exactly
    /// the token stream; otherwise reports an unmatched bracket.
    pub fn parse(&mut self) -> (r: Result<Program, ParserError>)
        requires
            old(self).wf(),
            old(self).index == 0,
        ensures
            final(self).source@ == old(self).source@,
            match r {
                Ok(p) => {
                    &&& flatten_instrs(p.instructions@) == tokens(old(self).source@)
                    &&& balanced(tokens(old(self).source@))
                },
                Err(e) => {
                    &&& !balanced(tokens(old(self).source@))
                    &&& error_line_ok(old(self).source@, e)
                },
            },
    {
        let ghost src = self.source@;
        let mut instructions: Vec<Instruction> = Vec::new();
        if !self.is_at_end() {
            let b = self.current();
            if !is_token_byte(b) {
                self.advance();
            }
        }
        proof {
            assert(tokens(src) == flatten_instrs(instructions@) + tokens_from(src, self.index as int))
                by {
                assert(flatten_instrs(instructions@) + tokens_from(src, self.index as int)
                    =~= tokens_from(src, self.index as int));
                if self.index != 0 {
                    assert(!is_token(src[0]));
                }
            };
        }
        loop
            invariant_except_break
                self.wf(),
                src == old(self).source@,
                self.source@ == src,
                at_token_or_end(src, self.index as int),
                tokens(src) == flatten_instrs(instructions@) + tokens_from(src, self.index as int),
            ensures
                src == old(self).source@,
                self.source@ == src,
                tokens(src) == flatten_instrs(instructions@),
            decreases src.len() - self.index,
        {
            if self.is_at_end() {
                proof {
                    assert(tokens_from(src, self.index as int) =~= Seq::<u8>::empty());
                    assert(flatten_instrs(instructions@) + Seq::<u8>::empty()
                        =~= flatten_instrs(instructions@));
                }
                break;
            }
            let b = self.current();
            if b == CLOSE {
                let line = self.line_number(self.index);
                proof {
                    let done = flatten_instrs(instructions@);
                    let t = tokens(src);
                    lemma_flatten_instrs_balanced(instructions@);
                    assert(tokens_from(src, self.index as int)[0] == CLOSE);
                    assert(t.subrange(0, done.len() as int + 1) =~= done.push(CLOSE));
                    assert(done.push(CLOSE) =~= done + seq![CLOSE]);
                    lemma_depth_concat(done, seq![CLOSE]);
                    assert(seq![CLOSE].subrange(1, 1) =~= Seq::<u8>::empty());
                    assert(depth(seq![CLOSE].subrange(1, 1)) == 0);
                    assert(depth(seq![CLOSE]) == -1);
                    assert(depth(t.subrange(0, done.len() as int + 1)) == -1);
                    assert(!balanced(t));
                    lemma_tokens_split(src, self.index as int);
                    lemma_concat_cancel_right(
                        tokens(src.subrange(0, self.index as int)),
                        done,
                        tokens_from(src, self.index as int),
                    );
                    assert(balanced(done));
                    assert(tokens(src.subrange(0, self.index as int)) == done);
                    assert(stray_close_at(src, self.index as int));
                    assert(error_line_ok(src, ParserError::MismatchedBracket(line)));
                }
                return Err(ParserError::MismatchedBracket(line));
            }
            let ghost pos = self.index as int;
            let ghost done = instructions@;
            let inst = match self.instruction() {
                Ok(inst) => inst,
                Err(e) => {
                    proof {
                        lemma_flatten_instrs_balanced(done);
                        lemma_depth_concat(flatten_instrs(done), tokens_from(src, pos));
                        assert(depth(tokens_from(src, pos)) >= 1);
                        assert(depth(tokens(src)) >= 1);
                    }
                    return Err(e);
                },
            };
            let ghost fin = self.index as int;
            instructions.push(inst);
            self.advance();
            proof {
                lemma_flatten_instrs_push(done, inst);
                assert(done.push(inst) =~= instructions@);
                assert(flatten_instrs(instructions@) == flatten_instrs(done) + flatten_instr(inst));
                assert(tokens_from(src, pos) == flatten_instr(inst) + tokens_from(src, fin + 1));
                assert(tokens_from(src, fin + 1) == tokens_from(src, self.index as int));
                assert(flatten_instrs(done) + (flatten_instr(inst) + tokens_from(src, self.index as int))
                    =~= (flatten_instrs(done) + flatten_instr(inst)) + tokens_from(src, self.index as int));
                assert(tokens(src) == flatten_instrs(instructions@) + tokens_from(
                    src,
                    self.index as int,
                ));
            }
        }
        proof {
            lemma_flatten_instrs_balanced(instructions@);
        }
        Ok(Program { instructions })
    }

    /// Parse one instruction starting at the current token (never `]`).
    /// On success the parser sits on the instruction's last token and the
    /// tokens consumed are exactly the instruction's rendering; on failure
    /// an open bracket is unmatched, so the remaining tokens' depth is
    /// positive.
    fn instruction(&mut self) -> (r: Result<Instruction, ParserError>)
        requires
            old(self).wf(),
            at_token(old(self).source@, old(self).index as int),
            old(self).source@[old(self).index as int] != CLOSE,
        ensures
            final(self).wf(),
            final(self).source@ == old(self).source@,
            old(self).index <= final(self).index,
            match r {
                Ok(inst) => {
                    &&& at_token(old(self).source@, final(self).index as int)
                    &&& tokens_from(old(self).source@, old(self).index as int) == flatten_instr(
                        inst,
                    ) + tokens_from(old(self).source@, final(self).index as int + 1)
                },
                Err(e) => {
                    &&& depth(tokens_from(old(self).source@, old(self).index as int)) >= 1
                    &&& error_line_ok(old(self).source@, e)
                },
            },
        decreases old(self).source@.len() - old(self).index,
    {
        let ghost src = self.source@;
        let ghost i0 = self.index as int;
        let b = self.current();
        if b == HASH {
            return Ok(Instruction::Debug);
        }
        if b == PLUS {
            return Ok(Instruction::Increment);
        }
        if b == MINUS {
            return Ok(Instruction::Decrement);
        }
        if b == GREATER {
            return Ok(Instruction::Right);
        }
        if b == LESS {
            return Ok(Instruction::Left);
        }
        if b == DOT {
            return Ok(Instruction::Output);
        }
        if b == COMMA {
            return Ok(Instruction::Input);
        }
        // the only token left is `[`
        assert(src[i0] == OPEN);
        let index = self.index;
        self.advance();
        let mut nested: Vec<Instruction> = Vec::new();
        proof {
            assert(tokens_from(src, i0) == seq![OPEN] + tokens_from(src, i0 + 1));
            assert(seq![OPEN] + flatten_instrs(nested@) + tokens_from(src, self.index as int)
                =~= seq![OPEN] + tokens_from(src, self.index as int));
        }
        loop
            invariant_except_break
                self.wf(),
                src == old(self).source@,
                i0 == old(self).index as int,
                index == old(self).index,
                self.source@ == src,
                i0 < self.index,
                at_token_or_end(src, self.index as int),
                tokens_from(src, i0) == seq![OPEN] + flatten_instrs(nested@) + tokens_from(
                    src,
                    self.index as int,
                ),
            ensures
                src == old(self).source@,
                i0 == old(self).index as int,
                index == old(self).index,
                self.source@ == src,
                i0 < self.index,
                self.wf(),
                at_token_or_end(src, self.index as int),
                tokens_from(src, i0) == seq![OPEN] + flatten_instrs(nested@) + tokens_from(
                    src,
                    self.index as int,
                ),
                self.index >= src.len() || src[self.index as int] == CLOSE,
            decreases src.len() - self.index,
        {
            if self.is_at_end() {
                break;
            }
            let b2 = self.current();
            if b2 == CLOSE {
                break;
            }
            let ghost pos = self.index as int;
            let ghost done = nested@;
            let inst = match self.instruction() {
                Ok(inst) => inst,
                Err(e) => {
                    proof {
                        let fd = flatten_instrs(done);
                        lemma_flatten_instrs_balanced(done);
                        lemma_depth_concat(seq![OPEN], fd + tokens_from(src, pos));
                        lemma_depth_concat(fd, tokens_from(src, pos));
                        assert(seq![OPEN] + fd + tokens_from(src, pos)
                            =~= seq![OPEN] + (fd + tokens_from(src, pos)));
                        assert(seq![OPEN].subrange(1, 1) =~= Seq::<u8>::empty());
                        assert(depth(seq![OPEN].subrange(1, 1)) == 0);
                        assert(depth(seq![OPEN]) == 1);
                        assert(depth(tokens_from(src, pos)) >= 1);
                        assert(depth(tokens_from(src, i0)) >= 1);
                    }
                    return Err(e);
                },
            };
            let ghost fin = self.index as int;
            nested.push(inst);
            self.advance();
            proof {
                lemma_flatten_instrs_push(done, inst);
                assert(done.push(inst) =~= nested@);
                assert(flatten_instrs(nested@) == flatten_instrs(done) + flatten_instr(inst));
                assert(tokens_from(src, pos) == flatten_instr(inst) + tokens_from(src, fin + 1));
                assert(tokens_from(src, fin + 1) == tokens_from(src, self.index as int));
                assert(seq![OPEN] + flatten_instrs(done) + (flatten_instr(inst) + tokens_from(src, self.index as int))
                    =~= seq![OPEN] + (flatten_instrs(done) + flatten_instr(inst)) + tokens_from(src, self.index as int));
                assert(seq![OPEN] + flatten_instrs(done) + tokens_from(src, pos)
                    =~= seq![OPEN] + flatten_instrs(done) + (flatten_instr(inst) + tokens_from(src, fin + 1)));
                assert(tokens_from(src, i0) == seq![OPEN] + flatten_instrs(nested@) + tokens_from(
                    src,
                    self.index as int,
                ));
            }
        }
        if self.is_at_end() {
            let line = self.line_number(index);
            proof {
                let done = flatten_instrs(nested@);
                lemma_flatten_instrs_balanced(nested@);
                assert(tokens_from(src, self.index as int) =~= Seq::<u8>::empty());
                assert(done + Seq::<u8>::empty() =~= done);
                lemma_depth_concat(seq![OPEN], done);
                assert(seq![OPEN] + done + Seq::<u8>::empty() =~= seq![OPEN] + done);
                assert(seq![OPEN].subrange(1, 1) =~= Seq::<u8>::empty());
                assert(depth(seq![OPEN].subrange(1, 1)) == 0);
                assert(depth(seq![OPEN]) == 1);
                assert(depth(seq![OPEN] + done) == 1);
                assert(depth(tokens_from(src, i0)) >= 1);
                assert(tokens_from(src, i0) == seq![src[i0]] + tokens_from(src, i0 + 1));
                assert(tokens_from(src, i0) == seq![OPEN] + done);
                assert(tokens_from(src, i0 + 1).len() == done.len());
                assert forall|k: int| 0 <= k < done.len() implies tokens_from(src, i0 + 1)[k]
                    == done[k] by {
                    assert((seq![src[i0 as int]] + tokens_from(src, i0 + 1))[k + 1] == tokens_from(
                        src,
                        i0 + 1,
                    )[k]);
                    assert((seq![OPEN] + done)[k + 1] == done[k]);
                }
                assert(tokens_from(src, i0 + 1) =~= done);
                assert(balanced(done));
                assert(unclosed_open_at(src, i0));
                assert(error_line_ok(src, ParserError::MismatchedBracket(line)));
            }
            return Err(ParserError::MismatchedBracket(line));
        }
        proof {
            assert(src[self.index as int] == CLOSE);
            assert(tokens_from(src, self.index as int) == seq![CLOSE] + tokens_from(
                src,
                self.index as int + 1,
            ));
            assert(flatten_instr(Instruction::Loop(nested)) =~= seq![OPEN] + flatten_instrs(nested@)
                + seq![CLOSE]);
            assert(tokens_from(src, i0) =~= flatten_instr(Instruction::Loop(nested)) + tokens_from(
                src,
                self.index as int + 1,
            ));
        }
        Ok(Instruction::Loop(nested))
    }

    /// The byte at the parser position, or 0 at the end of the source.
    fn current(&self) -> (b: u8)
        requires
            self.wf(),
        ensures
            b == if self.index < self.source@.len() {
                self.source@[self.index as int]
            } else {
                0u8
            },
    {
        if self.is_at_end() {
            0
        } else {
            self.source[self.index]
        }
    }

    /// Step past the current byte, then past every comment byte, stopping
    /// on the next token or at the end of the source. The token stream
    /// after the old position's byte is untouched.
    fn advance(&mut self)
        requires
            old(self).wf(),
        ensures
            final(self).wf(),
            final(self).source@ == old(self).source@,
            old(self).index >= old(self).source@.len() ==> final(self).index == old(self).index,
            old(self).index < old(self).source@.len() ==> {
                &&& old(self).index < final(self).index
                &&& at_token_or_end(old(self).source@, final(self).index as int)
                &&& tokens_from(old(self).source@, old(self).index as int + 1) == tokens_from(
                    old(self).source@,
                    final(self).index as int,
                )
            },
    {
        let n = self.source.len();
        if self.index >= n {
            return;
        }
        let ghost src = self.source@;
        let ghost start = self.index as int;
        self.index = self.index + 1;
        loop
            invariant_except_break
                src == old(self).source@,
                start == old(self).index as int,
                self.source@ == src,
                start < self.index,
                self.index <= src.len(),
                tokens_from(src, start + 1) == tokens_from(src, self.index as int),
            ensures
                src == old(self).source@,
                start == old(self).index as int,
                self.source@ == src,
                start < self.index,
                self.index <= src.len(),
                at_token_or_end(src, self.index as int),
                tokens_from(src, start + 1) == tokens_from(src, self.index as int),
            decreases src.len() - self.index,
        {
            if self.index >= self.source.len() {
                break;
            }
            let b = self.source[self.index];
            if is_token_byte(b) {
                break;
            }
            self.index = self.index + 1;
        }
    }

    fn is_at_end(&self) -> (r: bool)
        ensures
            r == (self.index >= self.source@.len()),
    {
        self.index >= self.source.len()
    }

    /// The 1-based line number of a source position: one more than the
    /// newlines strictly before it.
    #[verifier::loop_isolation(false)]
    fn line_number(&self, index: usize) -> (line: usize)
        requires
            index < self.source@.len(),
        ensures
            line as int == line_of(self.source@, index as int),
            1 <= line,
    {
        let n = self.source.len();
        let mut count: usize = 0;
        let mut k: usize = 0;
        while k < index
            invariant
                k <= index,
                index < n,
                n == self.source@.len(),
                count <= k,
                count as int == newlines_upto(self.source@, k as int),
            decreases index - k,
        {
            if self.source[k] == NEWLINE {
                count = count + 1;
            }
            k = k + 1;
        }
        count + 1
    }
}

/// Exec test for the nine instruction bytes.
fn is_token_byte(b: u8) -> (r: bool)
    ensures
        r == is_token(b),
{
    b == PLUS || b == MINUS || b == GREATER || b == LESS || b == DOT || b == COMMA || b == OPEN
        || b == CLOSE || b == HASH
}

} // verus!
