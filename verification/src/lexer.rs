//! The stream cursor with its two-slot lookahead, and the tokenizer.

use vstd::prelude::*;
use crate::token::{classify_spec, LexErr, PostgresTk, Token};

verus! {

/// The characters of a (position, character) stream, positions dropped.
pub open spec fn chars_of(s: Seq<(u32, char)>) -> Seq<char> {
    s.map_values(|p: (u32, char)| p.1)
}

/// Index of the first semicolon of `s`, or `s.len()` if there is none.
pub open spec fn first_semi(s: Seq<char>) -> int
    decreases s.len(),
{
    if s.len() == 0 {
        0
    } else if s[0] == ';' {
        0
    } else {
        1 + first_semi(s.skip(1))
    }
}

/// The token, if any, that finalizing an accumulator at a space or
/// semicolon boundary emits: nothing for an empty accumulator.
pub open spec fn flush(acc: Seq<char>) -> Seq<Token> {
    if acc.len() == 0 {
        Seq::<Token>::empty()
    } else {
        seq![classify_spec(acc)]
    }
}

/// The tokens of the remaining input `s`, with `acc` already accumulated.
/// A comma finalizes the accumulator unconditionally (an empty accumulator
/// becomes an empty identifier) and emits a comma; a space finalizes a
/// non-empty accumulator; a semicolon does the same and ends the pass; any
/// other character joins the accumulator. An accumulator still open when
/// the input runs out is discarded.
pub open spec fn tokens_from(s: Seq<char>, acc: Seq<char>) -> Seq<Token>
    decreases s.len(),
{
    if s.len() == 0 {
        Seq::<Token>::empty()
    } else if s[0] == ',' {
        seq![classify_spec(acc), Token::Comma] + tokens_from(s.skip(1), Seq::<char>::empty())
    } else if s[0] == ';' {
        flush(acc)
    } else if s[0] == ' ' {
        flush(acc) + tokens_from(s.skip(1), Seq::<char>::empty())
    } else {
        tokens_from(s.skip(1), acc.push(s[0]))
    }
}

/// The tokens of a whole input.
pub open spec fn tokens_of(s: Seq<char>) -> Seq<Token> {
    tokens_from(s, Seq::<char>::empty())
}

/// The meanings of a sequence of emitted tokens.
pub open spec fn views_of(ts: Seq<PostgresTk>) -> Seq<Token> {
    ts.map_values(|t: PostgresTk| t@)
}

/// `first_semi(s)` is the index of the first semicolon: no semicolon
/// stands before `k`, and `k` is either a semicolon or the end of `s`.
proof fn lemma_first_semi(s: Seq<char>, k: int)
    requires
        0 <= k <= s.len(),
        forall|i: int| 0 <= i < k ==> s[i] != ';',
        k < s.len() ==> s[k] == ';',
    ensures
        first_semi(s) == k,
    decreases s.len(),
{
    if s.len() == 0 {
    } else if s[0] == ';' {
        assert(k == 0);
    } else {
        assert(k >= 1);
        assert forall|i: int| 0 <= i < k - 1 implies s.skip(1)[i] != ';' by {
            assert(s.skip(1)[i] == s[i + 1]);
        }
        if k - 1 < s.skip(1).len() {
            assert(s.skip(1)[k - 1] == s[k]);
        }
        lemma_first_semi(s.skip(1), k - 1);
    }
}

/// The character the cursor's window shows at offset `i` of the stream:
/// present inside the stream, end of input on either side of it.
pub open spec fn window_char(s: Seq<(u32, char)>, i: int) -> Option<char> {
    if 0 <= i && i < s.len() {
        Some(s[i].1)
    } else {
        None
    }
}

/// The position the cursor's bookkeeping records for offset `i`: the
/// position at `i` while inside the stream, the last recorded position
/// once past the end, and the initial zero before the start.
pub open spec fn loc_at(s: Seq<(u32, char)>, i: int) -> u32 {
    if i < 0 || s.len() == 0 {
        0u32
    } else if i < s.len() {
        s[i].0
    } else {
        s[s.len() - 1].0
    }
}

/// The stream cursor: owns the (position, character) stream and exposes a
/// two-slot lookahead window. `curr_char` is the character the tokenizer is
/// examining and `next_char` the one a single position ahead; both saturate
/// to end of input when the stream runs out, `next_char` first.
pub struct LexSQL {
    pub chars: Vec<(u32, char)>,
    pub pulled: usize,
    pub pos: Ghost<int>,
    pub curr_char: Option<char>,
    pub next_char: Option<char>,
    pub curr_loc: u32,
    pub next_loc: u32,
}

impl LexSQL {
    /// The underlying (position, character) stream.
    pub open spec fn stream(self) -> Seq<(u32, char)> {
        self.chars@
    }

    /// How often the cursor has advanced since construction.
    pub open spec fn advances(self) -> int {
        self.pos@
    }

    /// Well-formedness: after `advances()` shifts of the window, both
    /// lookahead slots and both recorded positions are determined by the
    /// stream, and `pulled` counts the pairs taken from it so far.
    pub open spec fn wf(self) -> bool {
        &&& 0 <= self.pos@
        &&& self.pulled as int == vstd::math::min(self.pos@, self.chars@.len() as int)
        &&& self.curr_char == window_char(self.chars@, self.pos@ - 2)
        &&& self.next_char == window_char(self.chars@, self.pos@ - 1)
        &&& self.curr_loc == loc_at(self.chars@, self.pos@ - 2)
        &&& self.next_loc == loc_at(self.chars@, self.pos@ - 1)
    }

    /// A cursor is primed once both lookahead slots have been populated by
    /// the two advances of construction.
    pub open spec fn primed(self) -> bool {
        self.pos@ >= 2
    }

    /// The characters not yet examined: the current character and
    /// everything behind it, empty once the cursor is exhausted.
    pub open spec fn upcoming(self) -> Seq<char> {
        if self.curr_char is Some && 0 <= self.pos@ - 2 && self.pos@ - 2 < self.chars@.len() {
            chars_of(self.chars@).skip(self.pos@ - 2)
        } else {
            Seq::<char>::empty()
        }
    }

    /// Wraps a (position, character) stream and primes the lookahead by
    /// advancing twice, so the window shows the first two characters of the
    /// input, or end of input where the input is shorter.
    pub fn new(content: Vec<(u32, char)>) -> (lexer: LexSQL)
        ensures
            lexer.wf(),
            lexer.primed(),
            lexer.stream() == content@,
            lexer.upcoming() == chars_of(content@),
            content@.len() >= 1 ==> lexer.curr_char == Some(content@[0].1)
                && lexer.curr_loc == content@[0].0,
            content@.len() >= 2 ==> lexer.next_char == Some(content@[1].1)
                && lexer.next_loc == content@[1].0,
            content@.len() == 1 ==> lexer.next_char is None && lexer.next_loc == content@[0].0,
            content@.len() == 0 ==> lexer.curr_char is None && lexer.next_char is None,
    {
        let mut lexer = LexSQL {
            chars: content,
            pulled: 0,
            pos: Ghost(0),
            curr_char: None,
            next_char: None,
            curr_loc: 0,
            next_loc: 0,
        };
        let _ = lexer.get_next_char();
        let _ = lexer.get_next_char();
        proof {
            assert(lexer.upcoming() =~= chars_of(lexer.chars@));
        }
        lexer
    }

    /// Advances the cursor: shifts the lookahead window forward by one, so
    /// the previous `next_char` becomes `curr_char`, and the freshly pulled
    /// pair (or end of input, once the stream is exhausted) fills
    /// `next_char`. Returns the new `next_char`. Advancing an exhausted,
    /// primed cursor keeps yielding end of input: it saturates rather than
    /// fails.
    pub fn get_next_char(&mut self) -> (r: Option<char>)
        requires
            old(self).wf(),
        ensures
            final(self).wf(),
            final(self).stream() == old(self).stream(),
            final(self).advances() == old(self).advances() + 1,
            old(self).primed() ==> final(self).primed(),
            final(self).curr_char == old(self).next_char,
            final(self).curr_loc == old(self).next_loc,
            r == final(self).next_char,
            old(self).upcoming().len() > 0 ==> final(self).upcoming()
                == old(self).upcoming().skip(1),
            old(self).primed() && old(self).upcoming().len() == 0 ==> final(self).upcoming().len()
                == 0 && r is None && final(self).curr_char is None,
    {
        let next_char = if self.pulled < self.chars.len() {
            let (loc, ch) = self.chars[self.pulled];
            self.pulled = self.pulled + 1;
            self.curr_loc = self.next_loc;
            self.next_loc = loc;
            Some(ch)
        } else {
            self.curr_loc = self.next_loc;
            None
        };
        self.curr_char = self.next_char;
        self.next_char = next_char;
        self.pos = Ghost(self.pos@ + 1);
        proof {
            let s = chars_of(old(self).chars@);
            let p = old(self).pos@;
            if old(self).upcoming().len() > 0 {
                if self.curr_char is Some {
                    assert(s.skip(p - 2).skip(1) =~= s.skip(p - 1));
                } else {
                    assert(s.skip(p - 2).skip(1) =~= Seq::<char>::empty());
                }
            }
        }
        self.next_char
    }

    /// Consumes the cursor's characters in a single forward pass and
    /// partitions them into tokens, exactly as `tokens_of` says: commas
    /// split unconditionally, spaces finalize a pending token, and the
    /// first semicolon ends the pass with the cursor still on it, so no
    /// character past that semicolon is consumed. Classification is
    /// permissive, so the pass always succeeds.
    pub fn tokenize(&mut self) -> (r: Result<Vec<PostgresTk>, LexErr>)
        requires
            old(self).wf(),
        ensures
            final(self).wf(),
            final(self).stream() == old(self).stream(),
            r is Ok,
            r matches Ok(toks) ==> views_of(toks@) == tokens_of(old(self).upcoming()),
            final(self).upcoming() == old(self).upcoming().skip(
                first_semi(old(self).upcoming()),
            ),
    {
        let mut pg_tokens: Vec<PostgresTk> = Vec::new();
        let mut acc: Vec<char> = Vec::new();
        let ghost init_up = self.upcoming();
        let ghost init_stream = self.stream();
        let ghost mut j: int = 0;
        loop
            invariant
                self.wf(),
                self.stream() == init_stream,
                0 <= j <= init_up.len(),
                self.upcoming() == init_up.skip(j),
                forall|i: int| 0 <= i < j ==> init_up[i] != ';',
                tokens_of(init_up) == views_of(pg_tokens@) + tokens_from(self.upcoming(), acc@),
            ensures
                self.wf(),
                self.stream() == init_stream,
                views_of(pg_tokens@) == tokens_of(init_up),
                self.upcoming() == init_up.skip(first_semi(init_up)),
            decreases init_up.len() - j,
        {
            if self.curr_char.is_none() {
                proof {
                    assert(init_up.skip(j).len() == init_up.len() - j);
                    assert(j == init_up.len());
                    lemma_first_semi(init_up, j);
                }
                break;
            }
            let ghost up = self.upcoming();
            let ghost acc0 = acc@;
            let ghost done0 = pg_tokens@;
            proof {
                assert(up.len() > 0);
                assert(up[0] == init_up[j]);
            }
            let ch = self.curr_char.unwrap();
            proof {
                assert(up[0] == ch);
            }
            match ch {
                ',' => {
                    let tk = match PostgresTk::new(acc) {
                        Ok(tk) => tk,
                        Err(e) => {
                            return Err(e);
                        },
                    };
                    pg_tokens.push(tk);
                    pg_tokens.push(PostgresTk::COMMA);
                    acc = Vec::new();
                    proof {
                        assert(acc@ =~= Seq::<char>::empty());
                        assert(tokens_from(up, acc0) == seq![classify_spec(acc0), Token::Comma]
                            + tokens_from(up.skip(1), acc@));
                        assert(views_of(pg_tokens@) =~= views_of(done0) + seq![
                            classify_spec(acc0),
                            Token::Comma,
                        ]);
                        assert(views_of(done0) + (seq![classify_spec(acc0), Token::Comma]
                            + tokens_from(up.skip(1), acc@)) =~= views_of(pg_tokens@)
                            + tokens_from(up.skip(1), acc@));
                    }
                },
                ' ' | ';' => {
                    if acc.len() > 0 {
                        let tk = match PostgresTk::new(acc) {
                            Ok(tk) => tk,
                            Err(e) => {
                                return Err(e);
                            },
                        };
                        pg_tokens.push(tk);
                        acc = Vec::new();
                        proof {
                            assert(acc@ =~= Seq::<char>::empty());
                            assert(views_of(pg_tokens@) =~= views_of(done0) + flush(acc0));
                        }
                    } else {
                        proof {
                            assert(acc0 =~= Seq::<char>::empty());
                            assert(views_of(pg_tokens@) =~= views_of(done0) + flush(acc0));
                        }
                    }
                    if ch == ';' {
                        proof {
                            assert(tokens_from(up, acc0) == flush(acc0));
                            lemma_first_semi(init_up, j);
                            assert(tokens_from(self.upcoming(), acc@) == flush(acc@));
                            assert(views_of(pg_tokens@) =~= tokens_of(init_up));
                        }
                        break;
                    }
                    proof {
                        assert(tokens_from(up, acc0) == flush(acc0) + tokens_from(
                            up.skip(1),
                            acc@,
                        ));
                        assert(views_of(done0) + (flush(acc0) + tokens_from(up.skip(1), acc@))
                            =~= views_of(pg_tokens@) + tokens_from(up.skip(1), acc@));
                    }
                },
                _ => {
                    acc.push(ch);
                    proof {
                        assert(tokens_from(up, acc0) == tokens_from(up.skip(1), acc@));
                    }
                },
            }
            let _ = self.get_next_char();
            proof {
                j = j + 1;
                assert(self.upcoming() =~= init_up.skip(j));
            }
        }
        Ok(pg_tokens)
    }
}

} // verus!
