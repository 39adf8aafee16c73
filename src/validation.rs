use vstd::prelude::*;

use crate::error::Error;
use crate::token::{Bracket, Token};
use crate::variable::Environment;

verus! {

/// An open parenthesised group during validation.
#[derive(Clone, Copy, Debug, PartialEq, Eq, Structural)]
pub struct Frame {
    /// The arity of the call whose arguments the group holds; `None` for a
    /// plain group.
    pub expected: Option<u32>,
    /// The commas seen directly inside the group.
    pub commas: u32,
    /// Whether the group has held no token yet.
    pub empty: bool,
}

/// The scan state: the open groups, innermost last, and the arity of an
/// identifier that still waits for its opening parenthesis.
pub struct ScanState {
    pub frames: Seq<Frame>,
    pub pending: Option<u32>,
}

/// The open groups with the innermost one marked as holding something.
pub open spec fn mark_nonempty(frames: Seq<Frame>) -> Seq<Frame> {
    if frames.len() == 0 {
        frames
    } else {
        frames.update(frames.len() - 1, Frame { empty: false, ..frames.last() })
    }
}

/// The effect of one token on the scan.
pub open spec fn scan_step(st: ScanState, tok: Token, env: Environment) -> Result<ScanState, Error> {
    if st.pending is Some && tok != Token::Bracket(Bracket::ParenLeft) {
        Err(Error::MalformedExpression)
    } else {
        match tok {
            Token::Bracket(Bracket::VerticalLine) => Err(Error::UnsupportedFeature),
            Token::Id(name) => match env.lookup(name@) {
                Some(v) => Ok(ScanState { frames: mark_nonempty(st.frames), pending: Some(v.spec_argc() as u32) }),
                None => Err(Error::UndefinedVariable),
            },
            Token::Bracket(Bracket::ParenLeft) => Ok(
                ScanState {
                    frames: mark_nonempty(st.frames).push(
                        Frame { expected: st.pending, commas: 0, empty: true },
                    ),
                    pending: None,
                },
            ),
            Token::Bracket(Bracket::ParenRight) => if st.frames.len() == 0 {
                Err(Error::MalformedExpression)
            } else {
                let f = st.frames.last();
                match f.expected {
                    Some(k) => {
                        let args: int = if f.empty { 0 } else { f.commas + 1 };
                        if args != k {
                            Err(Error::ArityMismatch)
                        } else {
                            Ok(ScanState { frames: st.frames.drop_last(), pending: None })
                        }
                    },
                    None => Ok(ScanState { frames: st.frames.drop_last(), pending: None }),
                }
            },
            Token::Comma => if st.frames.len() == 0 || st.frames.last().expected is None {
                Err(Error::MalformedExpression)
            } else {
                let f = st.frames.last();
                if f.empty || f.commas + 1 >= f.expected->Some_0 {
                    Err(Error::ArityMismatch)
                } else {
                    Ok(
                        ScanState {
                            frames: st.frames.update(
                                st.frames.len() - 1,
                                Frame { commas: (f.commas + 1) as u32, empty: true, ..f },
                            ),
                            pending: None,
                        },
                    )
                }
            },
            _ => Ok(ScanState { frames: mark_nonempty(st.frames), pending: None }),
        }
    }
}

/// The scan after all of `tokens`, or the first error.
pub open spec fn scan(tokens: Seq<Token>, env: Environment) -> Result<ScanState, Error>
    decreases tokens.len(),
{
    if tokens.len() == 0 {
        Ok(ScanState { frames: Seq::empty(), pending: None })
    } else {
        match scan(tokens.drop_last(), env) {
            Ok(st) => scan_step(st, tokens.last(), env),
            Err(e) => Err(e),
        }
    }
}

/// Whether `tokens` pass the structural checks: no vertical line, every
/// identifier bound and directly followed by a group, balanced parentheses,
/// commas only inside call groups, and each call group holding as many
/// comma-separated arguments as its variable takes. The first offending token
/// decides the error.
pub open spec fn validate_spec(tokens: Seq<Token>, env: Environment) -> Result<(), Error> {
    match scan(tokens, env) {
        Ok(st) => if st.frames.len() != 0 || st.pending is Some {
            Err(Error::MalformedExpression)
        } else {
            Ok(())
        },
        Err(e) => Err(e),
    }
}

proof fn lemma_scan_error_stays(tokens: Seq<Token>, env: Environment, i: int)
    requires
        0 <= i <= tokens.len(),
        scan(tokens.subrange(0, i), env) is Err,
    ensures
        scan(tokens, env) == scan(tokens.subrange(0, i), env),
    decreases tokens.len() - i,
{
    if i < tokens.len() {
        let pre = tokens.subrange(0, i + 1);
        assert(pre.drop_last() =~= tokens.subrange(0, i));
        lemma_scan_error_stays(tokens, env, i + 1);
    } else {
        assert(tokens.subrange(0, i) =~= tokens);
    }
}

fn mark_top_nonempty(frames: &mut Vec<Frame>)
    ensures
        final(frames)@ == mark_nonempty(old(frames)@),
{
    let n = frames.len();
    if n > 0 {
        let f = frames[n - 1];
        frames.set(n - 1, Frame { empty: false, ..f });
    }
}

/// Checks the structure of `tokens` without evaluating anything.
pub fn validate(tokens: &[Token], variables: &Environment) -> (r: Result<(), Error>)
    ensures
        r == validate_spec(tokens@, *variables),
{
    let mut frames: Vec<Frame> = Vec::new();
    let mut pending: Option<u32> = None;
    let mut i: usize = 0;
    proof {
        assert(frames@ =~= Seq::<Frame>::empty());
    }
    while i < tokens.len()
        invariant
            i <= tokens@.len(),
            scan(tokens@.subrange(0, i as int), *variables) == Ok::<ScanState, Error>(
                ScanState { frames: frames@, pending: pending },
            ),
        decreases tokens@.len() - i,
    {
        proof {
            let pre = tokens@.subrange(0, i as int + 1);
            assert(pre.drop_last() =~= tokens@.subrange(0, i as int));
            assert(pre.last() == tokens@[i as int]);
        }
        let tok = &tokens[i];
        let is_open = match tok {
            Token::Bracket(Bracket::ParenLeft) => true,
            _ => false,
        };
        let outcome: Result<(), Error> = if pending.is_some() && !is_open {
            Err(Error::MalformedExpression)
        } else {
            match tok {
                Token::Bracket(Bracket::VerticalLine) => Err(Error::UnsupportedFeature),
                Token::Id(name) => match variables.get(name) {
                    Some(v) => {
                        mark_top_nonempty(&mut frames);
                        pending = Some(v.argc());
                        Ok(())
                    },
                    None => Err(Error::UndefinedVariable),
                },
                Token::Bracket(Bracket::ParenLeft) => {
                    mark_top_nonempty(&mut frames);
                    frames.push(Frame { expected: pending, commas: 0, empty: true });
                    pending = None;
                    Ok(())
                },
                Token::Bracket(Bracket::ParenRight) => {
                    let n = frames.len();
                    if n == 0 {
                        Err(Error::MalformedExpression)
                    } else {
                        let f = frames[n - 1];
                        let arity_ok = match f.expected {
                            Some(k) => {
                                if f.empty {
                                    k == 0
                                } else {
                                    f.commas as u64 + 1 == k as u64
                                }
                            },
                            None => true,
                        };
                        if arity_ok {
                            frames.pop();
                            pending = None;
                            Ok(())
                        } else {
                            Err(Error::ArityMismatch)
                        }
                    }
                },
                Token::Comma => {
                    let n = frames.len();
                    if n == 0 {
                        Err(Error::MalformedExpression)
                    } else {
                        let f = frames[n - 1];
                        match f.expected {
                            None => Err(Error::MalformedExpression),
                            Some(k) => {
                                if f.empty || f.commas as u64 + 1 >= k as u64 {
                                    Err(Error::ArityMismatch)
                                } else {
                                    frames.set(
                                        n - 1,
                                        Frame { commas: f.commas + 1, empty: true, ..f },
                                    );
                                    pending = None;
                                    Ok(())
                                }
                            },
                        }
                    }
                },
                _ => {
                    mark_top_nonempty(&mut frames);
                    pending = None;
                    Ok(())
                },
            }
        };
        if let Err(e) = outcome {
            proof {
                lemma_scan_error_stays(tokens@, *variables, i as int + 1);
            }
            return Err(e);
        }
        i = i + 1;
    }
    proof {
        assert(tokens@.subrange(0, tokens@.len() as int) =~= tokens@);
    }
    if frames.len() != 0 || pending.is_some() {
        Err(Error::MalformedExpression)
    } else {
        Ok(())
    }
}

} // verus!
