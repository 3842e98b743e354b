//! Parser for the signal-description mini-language.
//!
//! The token stream is consumed with one-token lookahead and built into a
//! `Pipeline`: a sequence of `Stage`s separated by `|`, each stage an
//! ordered sequence of `SoundSpec`s mixed in parallel. `Sin` must be
//! followed directly by a number (`MissingArgument` otherwise); a bare
//! number is `UnexpectedToken`. A pipeline always has at least one stage;
//! a trailing `|` leaves an empty final stage.
//!
//! `spec_parse_from` is the mathematical definition of the parse; the
//! executable `parse` is proved to return exactly that pipeline.

use vstd::prelude::*;
use crate::lexer::{Number, Token};

verus! {

/// One sound source, as described by the language.
#[derive(Clone, Copy, PartialEq, Eq, Structural, Debug)]
pub enum SoundSpec {
    /// A phase-accumulating oscillator at the given frequency.
    Sine { frequency: Number },
    White,
    Brown,
    Pink,
    Silence,
}

/// Why parsing failed.
#[derive(Clone, Copy, PartialEq, Eq, Structural, Debug)]
pub enum ParseError {
    /// `sin` was not directly followed by a number.
    MissingArgument,
    /// A number appeared without a preceding `sin`.
    UnexpectedToken,
}

/// An ordered group of sources mixed in parallel.
pub type Stage = Vec<SoundSpec>;

/// Stages in declared order, separated by `|`.
pub type Pipeline = Vec<Stage>;

/// Add `sound` to the front of the first (current) stage of a parse result.
pub open spec fn prepend_first(
    r: Result<Seq<Seq<SoundSpec>>, ParseError>,
    sound: SoundSpec,
) -> Result<Seq<Seq<SoundSpec>>, ParseError> {
    match r {
        Ok(rest) => Ok(rest.update(0, seq![sound] + rest[0])),
        Err(e) => Err(e),
    }
}

/// The stages parsed from position `i` on. The first returned stage is
/// the remainder of the stage that is open at `i`; the later ones are the
/// stages that follow. There is always at least one.
pub open spec fn spec_parse_from(toks: Seq<Token>, i: nat) -> Result<
    Seq<Seq<SoundSpec>>,
    ParseError,
>
    decreases toks.len() - i,
{
    if i >= toks.len() {
        Ok(seq![Seq::empty()])
    } else {
        match toks[i as int] {
            Token::Sin => {
                if i + 1 < toks.len() {
                    match toks[(i + 1) as int] {
                        Token::Number(num) => prepend_first(
                            spec_parse_from(toks, i + 2),
                            SoundSpec::Sine { frequency: num },
                        ),
                        _ => Err(ParseError::MissingArgument),
                    }
                } else {
                    Err(ParseError::MissingArgument)
                }
            },
            Token::White => prepend_first(spec_parse_from(toks, i + 1), SoundSpec::White),
            Token::Brown => prepend_first(spec_parse_from(toks, i + 1), SoundSpec::Brown),
            Token::Pink => prepend_first(spec_parse_from(toks, i + 1), SoundSpec::Pink),
            Token::Pipe => match spec_parse_from(toks, i + 1) {
                Ok(rest) => Ok(seq![Seq::empty()] + rest),
                Err(e) => Err(e),
            },
            Token::Number(_) => Err(ParseError::UnexpectedToken),
        }
    }
}

/// A successful parse always returns at least the open stage.
pub proof fn lemma_parse_from_len(toks: Seq<Token>, i: nat)
    ensures
        spec_parse_from(toks, i) matches Ok(r) ==> r.len() >= 1,
    decreases toks.len() - i,
{
    if i < toks.len() {
        lemma_parse_from_len(toks, i + 1);
        if i + 1 < toks.len() {
            lemma_parse_from_len(toks, i + 2);
        }
    }
}

/// The views of the stages of an executable pipeline.
pub open spec fn stage_views(p: Seq<Vec<SoundSpec>>) -> Seq<Seq<SoundSpec>> {
    p.map_values(|v: Vec<SoundSpec>| v@)
}

/// The full pipeline described by finished stages `done`, the open stage
/// `cur`, and the still-to-come parse result `rest`.
pub open spec fn assemble(
    done: Seq<Seq<SoundSpec>>,
    cur: Seq<SoundSpec>,
    rest: Seq<Seq<SoundSpec>>,
) -> Seq<Seq<SoundSpec>> {
    done + seq![cur + rest[0]] + rest.subrange(1, rest.len() as int)
}

/// Does the loop's progress so far agree with the specified parse?
pub open spec fn parse_inv(
    toks: Seq<Token>,
    i: nat,
    done: Seq<Seq<SoundSpec>>,
    cur: Seq<SoundSpec>,
) -> bool {
    match spec_parse_from(toks, i) {
        Ok(rest) => spec_parse_from(toks, 0) == Ok::<Seq<Seq<SoundSpec>>, ParseError>(
            assemble(done, cur, rest),
        ),
        Err(e) => spec_parse_from(toks, 0) == Err::<Seq<Seq<SoundSpec>>, ParseError>(e),
    }
}

/// Parse a token stream into a pipeline: exactly what `spec_parse_from`
/// defines, and never empty.
pub fn parse(toks: &Vec<Token>) -> (r: Result<Pipeline, ParseError>)
    ensures
        match spec_parse_from(toks@, 0) {
            Ok(p) => r matches Ok(v) && stage_views(v@) == p && v@.len() >= 1,
            Err(e) => r matches Err(e2) && e2 == e,
        },
{
    let ghost t = toks@;
    let n = toks.len();
    let mut i: usize = 0;
    let mut done: Pipeline = Vec::new();
    let mut cur: Stage = Vec::new();
    proof {
        lemma_parse_from_len(t, 0);
        assert(stage_views(done@) =~= Seq::<Seq<SoundSpec>>::empty());
        match spec_parse_from(t, 0) {
            Ok(rest) => {
                assert(Seq::<SoundSpec>::empty() + rest[0] =~= rest[0]);
                assert(assemble(Seq::empty(), Seq::empty(), rest) =~= rest);
            },
            Err(e) => {},
        }
    }
    while i < n
        invariant
            i <= n,
            n == t.len(),
            t == toks@,
            parse_inv(t, i as nat, stage_views(done@), cur@),
        decreases n - i,
    {
        let tok = toks[i];
        match tok {
            Token::Sin => {
                if i + 1 < n {
                    let tok2 = toks[i + 1];
                    match tok2 {
                        Token::Number(num) => {
                            let sound = SoundSpec::Sine { frequency: num };
                            proof {
                                step_proof(t, i as nat, stage_views(done@), cur@, sound, 2);
                            }
                            cur.push(sound);
                            i = i + 2;
                        },
                        _ => {
                            proof {
                                assert(spec_parse_from(t, i as nat) == Err::<
                                    Seq<Seq<SoundSpec>>,
                                    ParseError,
                                >(ParseError::MissingArgument));
                            }
                            return Err(ParseError::MissingArgument);
                        },
                    }
                } else {
                    proof {
                        assert(spec_parse_from(t, i as nat) == Err::<
                            Seq<Seq<SoundSpec>>,
                            ParseError,
                        >(ParseError::MissingArgument));
                    }
                    return Err(ParseError::MissingArgument);
                }
            },
            Token::White => {
                proof {
                    step_proof(t, i as nat, stage_views(done@), cur@, SoundSpec::White, 1);
                }
                cur.push(SoundSpec::White);
                i = i + 1;
            },
            Token::Brown => {
                proof {
                    step_proof(t, i as nat, stage_views(done@), cur@, SoundSpec::Brown, 1);
                }
                cur.push(SoundSpec::Brown);
                i = i + 1;
            },
            Token::Pink => {
                proof {
                    step_proof(t, i as nat, stage_views(done@), cur@, SoundSpec::Pink, 1);
                }
                cur.push(SoundSpec::Pink);
                i = i + 1;
            },
            Token::Pipe => {
                proof {
                    pipe_proof(t, i as nat, stage_views(done@), cur@);
                    assert(stage_views(done@.push(cur)) =~= stage_views(done@).push(cur@));
                }
                done.push(cur);
                cur = Vec::new();
                i = i + 1;
                proof {
                    assert(cur@ =~= Seq::<SoundSpec>::empty());
                }
            },
            Token::Number(_) => {
                proof {
                    assert(spec_parse_from(t, i as nat) == Err::<
                        Seq<Seq<SoundSpec>>,
                        ParseError,
                    >(ParseError::UnexpectedToken));
                }
                return Err(ParseError::UnexpectedToken);
            },
        }
    }
    proof {
        assert(spec_parse_from(t, i as nat) == Ok::<Seq<Seq<SoundSpec>>, ParseError>(seq![
            Seq::empty(),
        ]));
        let rest: Seq<Seq<SoundSpec>> = seq![Seq::empty()];
        assert(cur@ + rest[0] =~= cur@);
        assert(rest.subrange(1, 1) =~= Seq::<Seq<SoundSpec>>::empty());
        assert(assemble(stage_views(done@), cur@, rest) =~= stage_views(done@).push(cur@));
        assert(stage_views(done@.push(cur)) =~= stage_views(done@).push(cur@));
    }
    done.push(cur);
    Ok(done)
}

/// Invariant step for a token that adds one sound to the open stage and
/// advances by `adv` tokens.
proof fn step_proof(t: Seq<Token>, i: nat, done: Seq<Seq<SoundSpec>>, cur: Seq<SoundSpec>, sound: SoundSpec, adv: nat)
    requires
        parse_inv(t, i, done, cur),
        spec_parse_from(t, i) == prepend_first(spec_parse_from(t, i + adv), sound),
    ensures
        parse_inv(t, i + adv, done, cur.push(sound)),
{
    match spec_parse_from(t, i + adv) {
        Ok(r2) => {
            lemma_parse_from_len(t, i + adv);
            let rest = r2.update(0, seq![sound] + r2[0]);
            assert(cur + rest[0] =~= cur.push(sound) + r2[0]);
            assert(rest.subrange(1, rest.len() as int) =~= r2.subrange(1, r2.len() as int));
            assert(assemble(done, cur, rest) =~= assemble(done, cur.push(sound), r2));
        },
        Err(e) => {},
    }
}

/// Invariant step for `|`: the open stage closes and a new one opens.
proof fn pipe_proof(t: Seq<Token>, i: nat, done: Seq<Seq<SoundSpec>>, cur: Seq<SoundSpec>)
    requires
        parse_inv(t, i, done, cur),
        i < t.len(),
        t[i as int] == Token::Pipe,
    ensures
        parse_inv(t, i + 1, done.push(cur), Seq::empty()),
{
    match spec_parse_from(t, i + 1) {
        Ok(r2) => {
            lemma_parse_from_len(t, i + 1);
            let rest = seq![Seq::<SoundSpec>::empty()] + r2;
            assert(spec_parse_from(t, i) == Ok::<Seq<Seq<SoundSpec>>, ParseError>(rest));
            assert(cur + rest[0] =~= cur);
            assert(rest.subrange(1, rest.len() as int) =~= r2);
            assert(Seq::<SoundSpec>::empty() + r2[0] =~= r2[0]);
            assert(r2 =~= seq![r2[0]] + r2.subrange(1, r2.len() as int));
            assert(assemble(done, cur, rest) =~= assemble(
                done.push(cur),
                Seq::empty(),
                r2,
            ));
        },
        Err(e) => {},
    }
}

} // verus!
