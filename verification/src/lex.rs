use vstd::prelude::*;
use crate::ann::Ann;
use crate::token::AnnToken;
use crate::token::AnnTokenModel;
use crate::token::Token;
use crate::token::is_space;
use crate::token::lemma_munch_bounds;
use crate::token::lemma_next_token_len;
use crate::token::lemma_space_len_chars;
use crate::token::next_token;
use crate::token::space_char;
use crate::token::space_len;

verus! {

/// A source text handed to the lexer.
#[derive(Clone, Debug, PartialEq, Eq)]
pub struct Source {
    pub contents: String,
}

impl Source {
    pub fn source(text: &str) -> (s: Source)
        ensures
            s.contents@ == text@,
    {
        Source { contents: text.to_owned() }
    }
}

/// The model of the token stream lexed from `s` starting at position `pos`:
/// strip whitespace, read one token, repeat until the end of the text.
/// `None` means some position holds no token of the grammar.
pub open spec fn lex_from(s: Seq<char>, pos: nat) -> Option<Seq<AnnTokenModel>>
    decreases s.len() - pos,
    when pos <= s.len()
{
    let p = pos + space_len(s.skip(pos as int));
    if p >= s.len() {
        Option::Some(Seq::empty())
    } else {
        match next_token(s.skip(p as int)) {
            Option::None => Option::None,
            Option::Some(tn) => if tn.1 < 1 || p + tn.1 > s.len() {
                // a recognized token always spans 1..=len characters,
                // so this branch is never the case
                Option::None
            } else {
                match lex_from(s, (p + tn.1) as nat) {
                    Option::None => Option::None,
                    Option::Some(rest) => Option::Some(
                        seq![AnnTokenModel { kind: tn.0, offset: p as nat, length: tn.1 }] + rest,
                    ),
                }
            },
        }
    }
}

/// The models of a sequence of produced tokens.
pub open spec fn toks_model(ts: Seq<AnnToken>) -> Seq<AnnTokenModel> {
    ts.map_values(|t: AnnToken| t@)
}

/// Prepend already-produced tokens onto what lexing the rest would yield.
pub open spec fn opt_prepend(ts: Seq<AnnTokenModel>, rest: Option<Seq<AnnTokenModel>>) -> Option<
    Seq<AnnTokenModel>,
> {
    match rest {
        Option::None => Option::None,
        Option::Some(r) => Option::Some(ts + r),
    }
}

/// Stripping stops at the end of the text or at a non-space character.
pub proof fn lemma_space_len_stop(s: Seq<char>)
    ensures
        space_len(s) == s.len() || (space_len(s) < s.len() && !is_space(s[space_len(s) as int])),
    decreases s.len(),
{
    lemma_munch_bounds(s);
    if s.len() > 0 && is_space(s[0]) {
        lemma_space_len_stop(s.skip(1));
        assert(forall|i: int| 0 <= i < s.len() - 1 ==> #[trigger] s.skip(1)[i] == s[i + 1]);
    }
}

/// Lexing is insensitive to leading whitespace: stripping it first lands on
/// the same token stream.
pub proof fn lemma_lex_from_strip(s: Seq<char>, pos: nat)
    requires
        pos <= s.len(),
    ensures
        pos + space_len(s.skip(pos as int)) <= s.len(),
        lex_from(s, pos) == lex_from(s, (pos + space_len(s.skip(pos as int))) as nat),
        space_len(s.skip((pos + space_len(s.skip(pos as int))) as int)) == 0,
{
    let k = space_len(s.skip(pos as int));
    lemma_munch_bounds(s.skip(pos as int));
    assert(pos + k <= s.len());
    lemma_space_len_stop(s.skip(pos as int));
    if pos + k < s.len() {
        assert(s.skip(pos as int)[k as int] == s[(pos + k) as int]);
        assert(s.skip((pos + k) as int)[0] == s[(pos + k) as int]);
        assert(!is_space(s.skip((pos + k) as int)[0]));
        lemma_space_len_chars(s.skip((pos + k) as int), 0);
    } else {
        assert(s.skip((pos + k) as int).len() == 0);
        lemma_space_len_chars(s.skip((pos + k) as int), 0);
    }
    assert(lex_from(s, pos) == lex_from(s, (pos + k) as nat));
}

/// A recorded token is the token the grammar finds at its recorded span.
pub open spec fn token_at(s: Seq<char>, t: AnnTokenModel) -> bool {
    next_token(s.skip(t.offset as int)) == Option::Some((t.kind, t.length))
}

/// The lexer walks a source text, sanitizing whitespace and asking the
/// tokenizer to identify each next token in turn.
pub struct Lexer {
    pub source: Source,
    pub offset: usize,
    pub tokens: Vec<AnnToken>,
}

impl Lexer {
    /// The cursor never runs past the end of the source.
    pub open spec fn wf(&self) -> bool {
        self.offset <= self.source.contents@.len()
    }

    pub fn new(source: Source) -> (l: Lexer)
        ensures
            l.source.contents@ == source.contents@,
            l.offset == 0,
            l.tokens@ =~= Seq::<AnnToken>::empty(),
            l.wf(),
    {
        Lexer { source, offset: 0, tokens: Vec::new() }
    }

    /// The text that is not yet lexed.
    fn remaining(&self) -> (r: &str)
        requires
            self.wf(),
        ensures
            r@ =~= self.source.contents@.skip(self.offset as int),
    {
        let len = self.source.contents.as_str().unicode_len();
        self.source.contents.as_str().substring_char(self.offset, len)
    }

    /// Advance the cursor past whitespace. A newline is a separator token,
    /// so it is not stripped.
    fn strip(&mut self)
        requires
            old(self).wf(),
        ensures
            final(self).wf(),
            final(self).source.contents@ == old(self).source.contents@,
            final(self).tokens@ == old(self).tokens@,
            final(self).offset == old(self).offset + space_len(
                old(self).source.contents@.skip(old(self).offset as int),
            ),
            space_len(final(self).source.contents@.skip(final(self).offset as int)) == 0,
    {
        let ghost s = self.source.contents@;
        let ghost off0 = self.offset as int;
        let len = self.source.contents.as_str().unicode_len();
        let mut k: usize = self.offset;
        while k < len && space_char(self.source.contents.as_str().get_char(k))
            invariant
                self == old(self),
                self.offset <= k <= len,
                len == s.len(),
                s == self.source.contents@,
                forall|i: int| off0 <= i < k ==> is_space(#[trigger] s[i]),
            decreases len - k,
        {
            k += 1;
        }
        proof {
            assert(forall|i: int|
                0 <= i < s.skip(off0).len() ==> #[trigger] s.skip(off0)[i] == s[off0 + i]);
            lemma_space_len_chars(s.skip(off0), (k - self.offset) as nat);
            lemma_lex_from_strip(s, self.offset as nat);
        }
        self.offset = k;
    }

    /// Identify the token at the cursor, record it with its span, and move
    /// past it and any following whitespace. `None` means no token of the
    /// grammar stands at the cursor.
    fn step(&mut self) -> (r: Option<()>)
        requires
            old(self).wf(),
        ensures
            final(self).wf(),
            final(self).source.contents@ == old(self).source.contents@,
            ({
                let s = old(self).source.contents@;
                let nt = next_token(s.skip(old(self).offset as int));
                match r {
                    Option::None => nt is None && final(self).offset == old(self).offset
                        && final(self).tokens@ == old(self).tokens@,
                    Option::Some(u) => match nt {
                        Option::None => false,
                        Option::Some(tn) => {
                            &&& 1 <= tn.1
                            &&& old(self).offset + tn.1 <= s.len()
                            &&& final(self).tokens@.len() == old(self).tokens@.len() + 1
                            &&& forall|m: int|
                                0 <= m < old(self).tokens@.len() ==> final(self).tokens@[m] == old(
                                    self,
                                ).tokens@[m]
                            &&& toks_model(final(self).tokens@) =~= toks_model(
                                old(self).tokens@,
                            ).push(
                                AnnTokenModel {
                                    kind: tn.0,
                                    offset: old(self).offset as nat,
                                    length: tn.1,
                                },
                            )
                            &&& final(self).offset == old(self).offset + tn.1 + space_len(
                                s.skip(old(self).offset + tn.1),
                            )
                            &&& space_len(s.skip(final(self).offset as int)) == 0
                        },
                    },
                }
            }),
    {
        let ghost s = self.source.contents@;
        let len = self.source.contents.as_str().unicode_len();
        let r = Token::from(self.remaining());
        proof {
            lemma_next_token_len(s.skip(self.offset as int));
        }
        match r {
            Option::None => Option::None,
            Option::Some((kind, consumed)) => {
                let token = AnnToken::new(kind, Ann::new(self.offset, consumed));
                let ghost tokens0 = self.tokens@;
                self.offset += consumed;
                self.tokens.push(token);
                proof {
                    assert(toks_model(tokens0.push(token)) =~= toks_model(tokens0).push(token@));
                }
                self.strip();
                Option::Some(())
            },
        }
    }

    /// Lex the whole remaining source. On success the cursor stands at the
    /// end of the text and the recorded tokens extend to the full stream;
    /// on failure the tokens of the successfully lexed prefix are retained
    /// — each one the grammar's token at its recorded span — and the cursor
    /// stands at the start of the suffix that holds no token.
    fn all(&mut self) -> (r: Option<()>)
        requires
            old(self).wf(),
        ensures
            final(self).wf(),
            final(self).source.contents@ == old(self).source.contents@,
            old(self).offset <= final(self).offset,
            final(self).tokens@.len() >= old(self).tokens@.len(),
            forall|m: int|
                0 <= m < old(self).tokens@.len() ==> final(self).tokens@[m] == old(self).tokens@[m],
            r is Some ==> final(self).offset == final(self).source.contents@.len(),
            forall|m: int|
                old(self).tokens@.len() <= m < final(self).tokens@.len() ==> token_at(
                    old(self).source.contents@,
                    (#[trigger] final(self).tokens@[m])@,
                ),
            ({
                let s = old(self).source.contents@;
                match r {
                    Option::None => {
                        &&& lex_from(s, old(self).offset as nat) is None
                        &&& final(self).offset < s.len()
                        &&& next_token(s.skip(final(self).offset as int)) is None
                        &&& space_len(s.skip(final(self).offset as int)) == 0
                    },
                    Option::Some(u) => lex_from(s, old(self).offset as nat) matches Option::Some(
                        rest,
                    ) && toks_model(final(self).tokens@) =~= toks_model(old(self).tokens@) + rest,
                }
            }),
    {
        let ghost s = old(self).source.contents@;
        let ghost off0 = old(self).offset as nat;
        proof {
            lemma_lex_from_strip(s, off0);
        }
        self.strip();

        while self.source.contents.as_str().unicode_len() > self.offset
            invariant
                self.wf(),
                s == old(self).source.contents@,
                off0 == old(self).offset as nat,
                off0 <= s.len(),
                old(self).offset <= self.offset,
                self.tokens@.len() >= old(self).tokens@.len(),
                forall|m: int|
                    0 <= m < old(self).tokens@.len() ==> self.tokens@[m] == old(self).tokens@[m],
                forall|m: int|
                    old(self).tokens@.len() <= m < self.tokens@.len() ==> token_at(
                        s,
                        (#[trigger] self.tokens@[m])@,
                    ),
                self.source.contents@ == s,
                space_len(s.skip(self.offset as int)) == 0,
                opt_prepend(toks_model(self.tokens@), lex_from(s, self.offset as nat))
                    == opt_prepend(toks_model(old(self).tokens@), lex_from(s, off0)),
            decreases s.len() - self.offset,
        {
            let ghost off = self.offset as nat;
            let ghost toks = self.tokens@;
            let stepped = self.step();
            proof {
                // unfold one round of the model at the stripped cursor
                assert(off + space_len(s.skip(off as int)) == off);
            }
            match stepped {
                Option::None => {
                    proof {
                        assert(lex_from(s, off) is None);
                        assert(lex_from(s, off0) is None);
                    }
                    return Option::None;
                },
                Option::Some(u) => {
                    proof {
                        let tn = next_token(s.skip(off as int))->Some_0;
                        let atm = AnnTokenModel { kind: tn.0, offset: off, length: tn.1 };
                        assert(toks_model(self.tokens@)[toks.len() as int]
                            == self.tokens@[toks.len() as int]@);
                        assert(self.tokens@[toks.len() as int]@ == atm);
                        assert(token_at(s, atm));
                        lemma_lex_from_strip(s, (off + tn.1) as nat);
                        assert(lex_from(s, (off + tn.1) as nat) == lex_from(
                            s,
                            self.offset as nat,
                        ));
                        match lex_from(s, (off + tn.1) as nat) {
                            Option::None => {
                                assert(lex_from(s, off) is None);
                            },
                            Option::Some(rest) => {
                                assert(lex_from(s, off) == Option::Some(seq![atm] + rest));
                                assert(toks_model(toks).push(atm) + rest =~= toks_model(toks) + (
                                seq![atm] + rest));
                            },
                        }
                    }
                },
            }
        }
        proof {
            assert(self.offset >= s.len());
            assert(self.offset + space_len(s.skip(self.offset as int)) >= s.len());
            assert(lex_from(s, self.offset as nat) == Option::Some(Seq::<AnnTokenModel>::empty()));
            assert(toks_model(self.tokens@) + Seq::<AnnTokenModel>::empty() =~= toks_model(
                self.tokens@,
            ));
        }
        Option::Some(())
    }
}

/// Lex a source text into its annotated token stream. `None` means the text
/// holds a character sequence that is no token of the grammar.
pub fn lex(source: String) -> (r: Option<Vec<AnnToken>>)
    ensures
        match r {
            Option::None => lex_from(source@, 0) is None,
            Option::Some(v) => lex_from(source@, 0) matches Option::Some(ts) && toks_model(v@)
                =~= ts,
        },
{
    let mut lexer = Lexer::new(Source::source(source.as_str()));
    let r = lexer.all();
    proof {
        assert(toks_model(Seq::<AnnToken>::empty()) =~= Seq::<AnnTokenModel>::empty());
    }
    match r {
        Option::None => Option::None,
        Option::Some(u) => {
            proof {
                if let Option::Some(ts) = lex_from(source@, 0) {
                    assert(Seq::<AnnTokenModel>::empty() + ts =~= ts);
                }
            }
            Option::Some(lexer.tokens)
        },
    }
}

} // verus!
