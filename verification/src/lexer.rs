//! The lexer: the classifier driven one token at a time, behind a FIFO
//! lookahead buffer.
//!
//! The abstraction of a `Lexer` is `toks()`: the sequence of all results not
//! yet delivered to the consumer, buffered entries first, in exactly the
//! order the classifier produces them.  `peek` never changes `toks()` and
//! `inner_next` pops its head, so peeking is idempotent, delivery follows
//! production order, and exhaustion is sticky.

use vstd::prelude::*;

use crate::scan;
use crate::token::Token;

verus! {

/// The closed set of lexical failure kinds.
#[derive(Clone, Copy, Debug, PartialEq, Eq, Structural)]
pub enum LexerError {
    /// No rule matches the remaining input, or a sub-scanner could not find a
    /// valid terminator.
    UnknownToken,
    /// A matched numeric-type-suffix digit run does not fit in the natural
    /// unsigned width.
    InvalidInteger,
    /// A block comment whose nesting never closes before end of input.
    UnterminatedBlockComment,
}

/// One result of the classifier: a token, or a per-token recoverable error.
pub type TokenResult = Result<Token, LexerError>;

/// Ordering law: delivery follows production order.  `peek` reads the stream
/// view at an offset without changing it, and `inner_next` pops the view's
/// head, leaving its tail; so the result peeked at offset `n + 1` stands at
/// offset `n` after one consumption, and peeking offsets 0, 1, 2, ... up
/// front returns exactly the sequence that repeated consumption delivers.
pub proof fn lemma_delivery_order(v: Seq<TokenResult>, n: int)
    requires
        0 <= n,
        n + 1 < v.len(),
    ensures
        v.skip(1)[n] == v[n + 1],
{
}

/// A pull-based tokenizer over an in-memory source buffer, with arbitrary
/// lookahead.  Each input position is classified at most once; results are
/// delivered first scanned, first consumed.
pub struct Lexer {
    source: Vec<u8>,
    pos: usize,
    queue: Vec<TokenResult>,
}

impl Lexer {
    /// The source buffer being scanned.
    pub closed spec fn src(self) -> Seq<u8> {
        self.source@
    }

    /// The cursor never leaves the source buffer.
    pub closed spec fn wf(self) -> bool {
        self.pos <= self.source.len()
    }

    /// The results not yet delivered to the consumer, in production order:
    /// the buffered lookahead entries, then everything the classifier will
    /// still produce.
    pub closed spec fn toks(self) -> Seq<TokenResult> {
        self.queue@ + scan::remaining(self.source@, self.pos as int)
    }

    /// Starts a lexing session over the given source buffer.
    pub fn new(source: Vec<u8>) -> (l: Lexer)
        ensures
            l.wf(),
            l.src() == source@,
            l.toks() == scan::remaining(source@, 0),
    {
        let l = Lexer { source, pos: 0, queue: Vec::new() };
        proof {
            assert(l.toks() =~= scan::remaining(l.source@, 0));
        }
        l
    }

    /// One classifier step: advances the cursor past the next result, or to
    /// the end of the input when only whitespace is left.  Leaves the
    /// lookahead buffer alone.
    fn pull_one(&mut self) -> (r: Option<TokenResult>)
        requires
            old(self).wf(),
        ensures
            final(self).wf(),
            final(self).source == old(self).source,
            final(self).queue == old(self).queue,
            match r {
                None => scan::remaining(old(self).src(), old(self).pos as int).len() == 0
                    && scan::remaining(final(self).src(), final(self).pos as int).len() == 0,
                Some(x) => scan::remaining(old(self).src(), old(self).pos as int) == seq![x]
                    + scan::remaining(final(self).src(), final(self).pos as int),
            },
    {
        proof {
            scan::lemma_remaining_unfold(self.source@, self.pos as int);
        }
        let w = scan::skip_ws(&self.source, self.pos);
        if w >= self.source.len() {
            self.pos = self.source.len();
            proof {
                scan::lemma_remaining_unfold(self.source@, self.pos as int);
            }
            None
        } else {
            let (res, next) = scan::scan_token_step(&self.source, w);
            proof {
                scan::lemma_token_step_shape(self.source@, w as int);
            }
            self.pos = next;
            Some(res)
        }
    }

    /// Pops and returns the earliest not-yet-delivered result, or `None` once
    /// the input is exhausted.  Exhaustion is sticky: an empty stream stays
    /// empty, so every later call returns `None` as well.
    pub fn inner_next(&mut self) -> (r: Option<TokenResult>)
        requires
            old(self).wf(),
        ensures
            final(self).wf(),
            final(self).src() == old(self).src(),
            old(self).toks().len() == 0 ==> r is None && final(self).toks() == old(self).toks(),
            old(self).toks().len() > 0 ==> r == Some(old(self).toks()[0]) && final(self).toks()
                == old(self).toks().skip(1),
    {
        if self.queue.len() > 0 {
            let x = self.queue.remove(0);
            proof {
                assert(old(self).toks()[0] == x);
                assert(self.toks() =~= old(self).toks().skip(1));
            }
            Some(x)
        } else {
            let r = self.pull_one();
            proof {
                match r {
                    None => {
                        assert(old(self).toks() =~= self.toks());
                        assert(self.toks().len() == 0);
                    },
                    Some(x) => {
                        assert(old(self).toks() =~= seq![x] + self.toks());
                        assert(self.toks() =~= old(self).toks().skip(1));
                    },
                }
            }
            r
        }
    }

    /// Returns the result at lookahead offset `n` without consuming anything,
    /// buffering as many further results as that takes; `None` when fewer
    /// than `n + 1` results remain.  The stream itself is untouched, so any
    /// number of peeks at the same offset return the identical result.
    pub fn peek(&mut self, n: usize) -> (r: Option<TokenResult>)
        requires
            old(self).wf(),
        ensures
            final(self).wf(),
            final(self).src() == old(self).src(),
            final(self).toks() == old(self).toks(),
            n < old(self).toks().len() ==> r == Some(old(self).toks()[n as int]),
            n >= old(self).toks().len() ==> r is None,
    {
        while self.queue.len() <= n
            invariant
                self.wf(),
                self.src() == old(self).src(),
                self.toks() == old(self).toks(),
            decreases n + 1 - self.queue.len(),
        {
            let ghost before = self.toks();
            let pulled = self.pull_one();
            match pulled {
                None => {
                    proof {
                        assert(self.toks() =~= before);
                        assert(self.toks() =~= self.queue@);
                    }
                    return None;
                },
                Some(x) => {
                    self.queue.push(x);
                    proof {
                        assert(self.toks() =~= before);
                    }
                },
            }
        }
        proof {
            assert(self.toks()[n as int] == self.queue@[n as int]);
        }
        Some(self.queue[n])
    }

    /// The exact substring of the source that a token's stored range covers.
    /// Together with the classifier's span stamping this recovers, for every
    /// successful token, precisely the text the producing rule consumed.
    pub fn slice(&self, t: &Token) -> (r: Vec<u8>)
        requires
            t.span.start <= t.span.end,
            t.span.end <= self.src().len(),
        ensures
            r@ == self.src().subrange(t.span.start as int, t.span.end as int),
    {
        let mut out: Vec<u8> = Vec::new();
        let mut i: usize = t.span.start;
        while i < t.span.end
            invariant
                t.span.start <= i <= t.span.end,
                t.span.end <= self.source.len(),
                out@ == self.source@.subrange(t.span.start as int, i as int),
            decreases t.span.end - i,
        {
            let b = self.source[i];
            out.push(b);
            proof {
                assert(out@ =~= self.source@.subrange(t.span.start as int, i + 1));
            }
            i = i + 1;
        }
        out
    }
}

} // verus!
