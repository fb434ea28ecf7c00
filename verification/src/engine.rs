//! The executable instruction engine, proved to follow the machine
//! semantics of `spec_execute`, and the three-phase orchestrator.

use vstd::prelude::*;
use std::rc::Rc;

use crate::error::CheckError;
use crate::machine::{
    mem_view, spec_args_error, spec_empty_state, spec_execute, spec_pop_pattern, spec_pop_proved,
    spec_from_byte, spec_pop_term, spec_pops_are_patterns, spec_read_list, spec_step,
    spec_top_patterns, spec_verify, st_of,
    stack_view, Claims, Entry, ExecutionPhase, Instruction, Memory, SpecEntry, SpecState,
    SpecTerm, Stack, Term,
};
use crate::pattern::{
    app, esubst, evar, exists_pat, metavar_unconstrained, mu, not, pat_view, pattern_eq, ssubst,
    svar, symbol, Id, Pattern, SpecPattern,
};
use crate::subst::{instantiate, pats_view};

verus! {

/// Pushing onto a stack pushes its model.
pub broadcast proof fn lemma_stack_view_push(s: Seq<Term>, t: Term)
    ensures
        #[trigger] stack_view(s.push(t)) == stack_view(s).push(t@),
{
    assert(stack_view(s.push(t)) =~= stack_view(s).push(t@));
}

/// Dropping the top of a stack drops the top of its model.
pub broadcast proof fn lemma_stack_view_drop_last(s: Seq<Term>)
    requires
        s.len() > 0,
    ensures
        #[trigger] stack_view(s.drop_last()) == stack_view(s).drop_last(),
{
    assert(stack_view(s.drop_last()) =~= stack_view(s).drop_last());
}

/// Pushing onto a memory pushes its model.
pub broadcast proof fn lemma_mem_view_push(s: Seq<Entry>, e: Entry)
    ensures
        #[trigger] mem_view(s.push(e)) == mem_view(s).push(e@),
{
    assert(mem_view(s.push(e)) =~= mem_view(s).push(e@));
}

/// Pushing onto a pattern sequence pushes its model.
pub broadcast proof fn lemma_pats_view_push(s: Seq<Rc<Pattern>>, p: Rc<Pattern>)
    ensures
        #[trigger] pats_view(s.push(p)) == pats_view(s).push(pat_view(*p)),
{
    assert(pats_view(s.push(p)) =~= pats_view(s).push(pat_view(*p)));
}

/// Dropping the last of a pattern sequence drops the last of its model.
pub broadcast proof fn lemma_pats_view_drop_last(s: Seq<Rc<Pattern>>)
    requires
        s.len() > 0,
    ensures
        #[trigger] pats_view(s.drop_last()) == pats_view(s).drop_last(),
{
    assert(pats_view(s.drop_last()) =~= pats_view(s).drop_last());
}

/// Pop the stack top, or report underflow.
pub fn pop_stack(stack: &mut Stack) -> (r: Result<Term, CheckError>)
    ensures
        match r {
            Ok(t) => spec_pop_term(stack_view(old(stack)@)) == Ok::<
                (SpecTerm, Seq<SpecTerm>),
                CheckError,
            >((t@, stack_view(final(stack)@))),
            Err(e) => spec_pop_term(stack_view(old(stack)@)) == Err::<
                (SpecTerm, Seq<SpecTerm>),
                CheckError,
            >(e),
        },
{
    match stack.pop() {
        Some(t) => {
            proof {
                lemma_stack_view_drop_last(old(stack)@);
                assert(stack@ =~= old(stack)@.drop_last());
            }
            Ok(t)
        },
        None => Err(CheckError::StackUnderflow),
    }
}

/// Pop the stack top, which must be a pattern.
pub fn pop_stack_pattern(stack: &mut Stack) -> (r: Result<Rc<Pattern>, CheckError>)
    ensures
        match r {
            Ok(p) => spec_pop_pattern(stack_view(old(stack)@)) == Ok::<
                (SpecPattern, Seq<SpecTerm>),
                CheckError,
            >((p@, stack_view(final(stack)@))),
            Err(e) => spec_pop_pattern(stack_view(old(stack)@)) == Err::<
                (SpecPattern, Seq<SpecTerm>),
                CheckError,
            >(e),
        },
{
    match pop_stack(stack) {
        Err(e) => Err(e),
        Ok(Term::Pattern(p)) => Ok(p),
        Ok(Term::Proved(_)) => Err(CheckError::TagMismatch),
    }
}

/// Pop the stack top, which must be proved.
pub fn pop_stack_proved(stack: &mut Stack) -> (r: Result<Rc<Pattern>, CheckError>)
    ensures
        match r {
            Ok(p) => spec_pop_proved(stack_view(old(stack)@)) == Ok::<
                (SpecPattern, Seq<SpecTerm>),
                CheckError,
            >((p@, stack_view(final(stack)@))),
            Err(e) => spec_pop_proved(stack_view(old(stack)@)) == Err::<
                (SpecPattern, Seq<SpecTerm>),
                CheckError,
            >(e),
        },
{
    match pop_stack(stack) {
        Err(e) => Err(e),
        Ok(Term::Proved(p)) => Ok(p),
        Ok(Term::Pattern(_)) => Err(CheckError::TagMismatch),
    }
}

/// Pull the next byte of the stream, advancing the cursor.
fn next_byte(s: &[u8], i: &mut usize) -> (r: Result<u8, CheckError>)
    requires
        *old(i) <= s@.len(),
    ensures
        *old(i) < s@.len() ==> r == Ok::<u8, CheckError>(s@[*old(i) as int]) && *final(i)
            == *old(i) + 1,
        *old(i) >= s@.len() ==> r == Err::<u8, CheckError>(CheckError::TruncatedStream)
            && *final(i) == *old(i),
{
    if *i < s.len() {
        let b = s[*i];
        *i = *i + 1;
        Ok(b)
    } else {
        Err(CheckError::TruncatedStream)
    }
}

/// Read one length-prefixed id list from the stream, advancing the
/// cursor past it.
pub fn read_u8_vec(s: &[u8], i: &mut usize) -> (r: Result<Vec<Id>, CheckError>)
    requires
        *old(i) <= s@.len(),
    ensures
        match r {
            Ok(v) => {
                &&& spec_read_list(s@.skip(*old(i) as int)) == Some(
                    (v@, s@.skip(*final(i) as int)),
                )
                &&& *old(i) < *final(i) <= s@.len()
            },
            Err(e) => {
                &&& e == CheckError::TruncatedStream
                &&& spec_read_list(s@.skip(*old(i) as int)) is None
            },
        },
{
    let ghost at = *i as int;
    if *i >= s.len() {
        return Err(CheckError::TruncatedStream);
    }
    let n = s[*i] as usize;
    let start = *i + 1;
    if s.len() - start < n {
        proof {
            assert(s@.skip(at).len() < 1 + n);
        }
        return Err(CheckError::TruncatedStream);
    }
    let mut v: Vec<Id> = Vec::new();
    let mut k: usize = 0;
    while k < n
        invariant
            k <= n,
            start + n <= s@.len(),
            s@.len() <= usize::MAX,
            v@ == s@.subrange(start as int, start + k),
        decreases n - k,
    {
        v.push(s[start + k]);
        proof {
            assert(v@ =~= s@.subrange(start as int, start + k + 1));
        }
        k = k + 1;
    }
    *i = start + n;
    proof {
        let tail = s@.skip(at);
        assert(tail[0] == n);
        assert(v@ =~= tail.subrange(1, 1 + n));
        assert(s@.skip(*i as int) =~= tail.skip(1 + n));
    }
    Ok(v)
}

/// The failure that the interleaved argument loop of the Instantiate
/// instruction hits at iteration `k`, each earlier iteration having
/// succeeded.
proof fn lemma_args_error_at(body: Seq<u8>, stack: Seq<SpecTerm>, n: int, k: int)
    requires
        0 <= k < n,
        k <= body.len(),
        k <= stack.len(),
        forall|j: int| 0 <= j < k ==> (#[trigger] stack[stack.len() - 1 - j]) is Pattern,
        body.len() == k || stack.len() == k || !(stack[stack.len() - 1 - k] is Pattern),
    ensures
        spec_args_error(body, stack, n) == if body.len() == k {
            CheckError::TruncatedStream
        } else if stack.len() == k {
            CheckError::StackUnderflow
        } else {
            CheckError::TagMismatch
        },
    decreases k,
{
    if k > 0 {
        let body1 = body.skip(1);
        let stack1 = stack.drop_last();
        assert(stack[stack.len() - 1 - 0] is Pattern);
        assert forall|j: int| 0 <= j < k - 1 implies (#[trigger] stack1[stack1.len() - 1
            - j]) is Pattern by {
            assert(stack1[stack1.len() - 1 - j] == stack[stack.len() - 1 - (j + 1)]);
        }
        if !(body.len() == k || stack.len() == k) {
            assert(stack1[stack1.len() - 1 - (k - 1)] == stack[stack.len() - 1 - k]);
        }
        lemma_args_error_at(body1, stack1, n - 1, k - 1);
    }
}

/// The relation every single-instruction step function establishes: on
/// success the cursor moved from just past the opcode at `i0 - 1` to
/// `i1`, and the machine semantics maps the old state to the new one
/// with exactly that much of the stream consumed; on failure the
/// semantics rejects the instruction with the same error.
pub open spec fn step_contract(
    instrs: Seq<u8>,
    i0: int,
    i1: int,
    pre: SpecState,
    post: SpecState,
    phase: ExecutionPhase,
    r: Result<(), CheckError>,
) -> bool {
    match r {
        Ok(()) => {
            &&& i0 <= i1 <= instrs.len()
            &&& spec_step(instrs.skip(i0 - 1), pre, phase) == Ok::<
                (SpecState, Seq<u8>),
                CheckError,
            >((post, instrs.skip(i1)))
        },
        Err(e) => spec_step(instrs.skip(i0 - 1), pre, phase) == Err::<
            (SpecState, Seq<u8>),
            CheckError,
        >(e),
    }
}

/// Execute one instruction stream against the machine state held in the
/// four collections, in the given phase.  The run follows the machine
/// semantics exactly: it returns `Ok` with the final state precisely
/// when `spec_execute` does, and the first broken precondition
/// otherwise.
#[verifier::loop_isolation(false)]
#[verifier::rlimit(100)]
pub fn execute_instructions(
    instrs: &[u8],
    stack: &mut Stack,
    memory: &mut Memory,
    claims: &mut Claims,
    axioms: &mut Memory,
    phase: ExecutionPhase,
) -> (r: Result<(), CheckError>)
    ensures
        match r {
            Ok(()) => spec_execute(
                instrs@,
                st_of(old(stack)@, old(memory)@, old(claims)@, old(axioms)@),
                phase,
            ) == Ok::<SpecState, CheckError>(
                st_of(final(stack)@, final(memory)@, final(claims)@, final(axioms)@),
            ),
            Err(e) => spec_execute(
                instrs@,
                st_of(old(stack)@, old(memory)@, old(claims)@, old(axioms)@),
                phase,
            ) == Err::<SpecState, CheckError>(e),
        },
{
    let ghost init = st_of(stack@, memory@, claims@, axioms@);
    let mut i: usize = 0;
    proof {
        assert(instrs@.skip(0) =~= instrs@);
    }
    while i < instrs.len()
        invariant
            i <= instrs@.len(),
            spec_execute(instrs@, init, phase) == spec_execute(
                instrs@.skip(i as int),
                st_of(stack@, memory@, claims@, axioms@),
                phase,
            ),
        decreases instrs@.len() - i,
    {
        let ghost i0 = i as int;
        let ghost s_at = instrs@.skip(i0);
        let ghost pre = st_of(stack@, memory@, claims@, axioms@);
        let op = instrs[i];
        i = i + 1;
        let step_r = match Instruction::from_byte(op) {
            None => Err(CheckError::UnknownOpcode),
            Some(inst) => match inst {
                Instruction::EVar | Instruction::SVar | Instruction::Symbol => step_atom(
                    instrs,
                    &mut i,
                    stack,
                    memory,
                    claims,
                    axioms,
                    phase,
                    inst,
                ),
                Instruction::MetaVar => step_metavar(
                    instrs,
                    &mut i,
                    stack,
                    memory,
                    claims,
                    axioms,
                    phase,
                    inst,
                ),
                Instruction::Implication | Instruction::Application => step_binary(
                    instrs,
                    &mut i,
                    stack,
                    memory,
                    claims,
                    axioms,
                    phase,
                    inst,
                ),
                Instruction::Exists | Instruction::Mu => step_binder(
                    instrs,
                    &mut i,
                    stack,
                    memory,
                    claims,
                    axioms,
                    phase,
                    inst,
                ),
                Instruction::ESubst | Instruction::SSubst => step_subst(
                    instrs,
                    &mut i,
                    stack,
                    memory,
                    claims,
                    axioms,
                    phase,
                    inst,
                ),
                Instruction::Prop1 | Instruction::Prop2 | Instruction::Prop3
                    | Instruction::Quantifier | Instruction::Existence => step_schema(
                    instrs,
                    &mut i,
                    stack,
                    memory,
                    claims,
                    axioms,
                    phase,
                    inst,
                ),
                Instruction::ModusPonens | Instruction::Generalization
                    | Instruction::Substitution => step_inference(
                    instrs,
                    &mut i,
                    stack,
                    memory,
                    claims,
                    axioms,
                    phase,
                    inst,
                ),
                Instruction::Instantiate => step_instantiate(
                    instrs,
                    &mut i,
                    stack,
                    memory,
                    claims,
                    axioms,
                    phase,
                    inst,
                ),
                Instruction::Pop | Instruction::Save | Instruction::Load => step_housekeeping(
                    instrs,
                    &mut i,
                    stack,
                    memory,
                    claims,
                    axioms,
                    phase,
                    inst,
                ),
                Instruction::Publish => step_publish(
                    instrs,
                    &mut i,
                    stack,
                    memory,
                    claims,
                    axioms,
                    phase,
                    inst,
                ),
                // The reserved opcodes are decoded but refuse to execute.
                Instruction::PropagationOr | Instruction::PropagationExists
                    | Instruction::PreFixpoint | Instruction::Singleton | Instruction::Frame
                    | Instruction::KnasterTarski => Err(CheckError::UnknownOpcode),
            },
        };
        match step_r {
            Err(e) => {
                proof {
                    assert(spec_execute(s_at, pre, phase) == Err::<SpecState, CheckError>(e));
                }
                return Err(e);
            },
            Ok(()) => {
                proof {
                    assert(spec_execute(s_at, pre, phase) == spec_execute(
                        instrs@.skip(i as int),
                        st_of(stack@, memory@, claims@, axioms@),
                        phase,
                    ));
                }
            },
        }
    }
    proof {
        assert(instrs@.skip(instrs@.len() as int) =~= Seq::<u8>::empty());
    }
    Ok(())
}

/// One step of the three atomic pattern instructions.
#[verifier::loop_isolation(false)]
fn step_atom(
    instrs: &[u8],
    i: &mut usize,
    stack: &mut Stack,
    memory: &mut Memory,
    claims: &mut Claims,
    axioms: &mut Memory,
    phase: ExecutionPhase,
    inst: Instruction,
) -> (r: Result<(), CheckError>)
    requires
        1 <= *old(i) <= instrs@.len(),
        spec_from_byte(instrs@[*old(i) - 1]) == Some(inst),
        inst == Instruction::EVar || inst == Instruction::SVar || inst == Instruction::Symbol,
    ensures
        step_contract(
            instrs@,
            *old(i) as int,
            *final(i) as int,
            st_of(old(stack)@, old(memory)@, old(claims)@, old(axioms)@),
            st_of(final(stack)@, final(memory)@, final(claims)@, final(axioms)@),
            phase,
            r,
        ),
{
    broadcast use
        lemma_stack_view_push,
        lemma_stack_view_drop_last,
        lemma_mem_view_push,
        lemma_pats_view_push,
        lemma_pats_view_drop_last;

    let ghost i0 = *i as int - 1;
    let ghost s_at = instrs@.skip(i0);
    let ghost pre = st_of(stack@, memory@, claims@, axioms@);
    match inst {
        Instruction::EVar => {
            let id = match next_byte(instrs, i) {
                Err(e) => {
                    proof {
                        assert(spec_step(s_at, pre, phase) == Err::<(SpecState, Seq<u8>), CheckError>(e));
                    }
                    return Err(e);
                },
                Ok(b) => b,
            };
            stack.push(Term::Pattern(evar(id)));
            proof {
                assert(s_at.skip(1).skip(1) =~= instrs@.skip(*i as int));
                assert(spec_step(s_at, pre, phase) == Ok::<(SpecState, Seq<u8>), CheckError>((
                    st_of(stack@, memory@, claims@, axioms@),
                    instrs@.skip(*i as int),
                )));
            }
        },
        Instruction::SVar => {
            let id = match next_byte(instrs, i) {
                Err(e) => {
                    proof {
                        assert(spec_step(s_at, pre, phase) == Err::<(SpecState, Seq<u8>), CheckError>(e));
                    }
                    return Err(e);
                },
                Ok(b) => b,
            };
            stack.push(Term::Pattern(svar(id)));
            proof {
                assert(s_at.skip(1).skip(1) =~= instrs@.skip(*i as int));
                assert(spec_step(s_at, pre, phase) == Ok::<(SpecState, Seq<u8>), CheckError>((
                    st_of(stack@, memory@, claims@, axioms@),
                    instrs@.skip(*i as int),
                )));
            }
        },
        Instruction::Symbol => {
            let id = match next_byte(instrs, i) {
                Err(e) => {
                    proof {
                        assert(spec_step(s_at, pre, phase) == Err::<(SpecState, Seq<u8>), CheckError>(e));
                    }
                    return Err(e);
                },
                Ok(b) => b,
            };
            stack.push(Term::Pattern(symbol(id)));
            proof {
                assert(s_at.skip(1).skip(1) =~= instrs@.skip(*i as int));
                assert(spec_step(s_at, pre, phase) == Ok::<(SpecState, Seq<u8>), CheckError>((
                    st_of(stack@, memory@, claims@, axioms@),
                    instrs@.skip(*i as int),
                )));
            }
        },
        _ => {
            proof {
                assert(false);
            }
            return Err(CheckError::UnknownOpcode);
        },
    }
    Ok(())
}

/// One step of the meta-variable construction instruction.
#[verifier::loop_isolation(false)]
fn step_metavar(
    instrs: &[u8],
    i: &mut usize,
    stack: &mut Stack,
    memory: &mut Memory,
    claims: &mut Claims,
    axioms: &mut Memory,
    phase: ExecutionPhase,
    inst: Instruction,
) -> (r: Result<(), CheckError>)
    requires
        1 <= *old(i) <= instrs@.len(),
        spec_from_byte(instrs@[*old(i) - 1]) == Some(inst),
        inst == Instruction::MetaVar,
    ensures
        step_contract(
            instrs@,
            *old(i) as int,
            *final(i) as int,
            st_of(old(stack)@, old(memory)@, old(claims)@, old(axioms)@),
            st_of(final(stack)@, final(memory)@, final(claims)@, final(axioms)@),
            phase,
            r,
        ),
{
    broadcast use
        lemma_stack_view_push,
        lemma_stack_view_drop_last,
        lemma_mem_view_push,
        lemma_pats_view_push,
        lemma_pats_view_drop_last;

    let ghost i0 = *i as int - 1;
    let ghost s_at = instrs@.skip(i0);
    let ghost pre = st_of(stack@, memory@, claims@, axioms@);
    match inst {
        Instruction::MetaVar => {
            let id = match next_byte(instrs, i) {
                Err(e) => {
                    proof {
                        assert(spec_step(s_at, pre, phase) == Err::<(SpecState, Seq<u8>), CheckError>(e));
                    }
                    return Err(e);
                },
                Ok(b) => b,
            };
            proof {
                assert(s_at.skip(1).skip(1) =~= instrs@.skip(*i as int));
            }
            let e_fresh = match read_u8_vec(instrs, i) {
                Err(e) => {
                    proof {
                        assert(spec_step(s_at, pre, phase) == Err::<(SpecState, Seq<u8>), CheckError>(e));
                    }
                    return Err(e);
                },
                Ok(v) => v,
            };
            let s_fresh = match read_u8_vec(instrs, i) {
                Err(e) => {
                    proof {
                        assert(spec_step(s_at, pre, phase) == Err::<(SpecState, Seq<u8>), CheckError>(e));
                    }
                    return Err(e);
                },
                Ok(v) => v,
            };
            let positive = match read_u8_vec(instrs, i) {
                Err(e) => {
                    proof {
                        assert(spec_step(s_at, pre, phase) == Err::<(SpecState, Seq<u8>), CheckError>(e));
                    }
                    return Err(e);
                },
                Ok(v) => v,
            };
            let negative = match read_u8_vec(instrs, i) {
                Err(e) => {
                    proof {
                        assert(spec_step(s_at, pre, phase) == Err::<(SpecState, Seq<u8>), CheckError>(e));
                    }
                    return Err(e);
                },
                Ok(v) => v,
            };
            let app_ctx_holes = match read_u8_vec(instrs, i) {
                Err(e) => {
                    proof {
                        assert(spec_step(s_at, pre, phase) == Err::<(SpecState, Seq<u8>), CheckError>(e));
                    }
                    return Err(e);
                },
                Ok(v) => v,
            };
            let metavar_pat = Rc::new(Pattern::MetaVar {
                id,
                e_fresh,
                s_fresh,
                positive,
                negative,
                app_ctx_holes,
            });
            if !metavar_pat.well_formed() {
                proof {
                    assert(spec_step(s_at, pre, phase) == Err::<(SpecState, Seq<u8>), CheckError>(
                        CheckError::IllFormedConstruction,
                    ));
                }
                return Err(CheckError::IllFormedConstruction);
            }
            stack.push(Term::Pattern(metavar_pat));
            proof {
                assert(spec_step(s_at, pre, phase) == Ok::<(SpecState, Seq<u8>), CheckError>((
                    st_of(stack@, memory@, claims@, axioms@),
                    instrs@.skip(*i as int),
                )));
            }
        },
        _ => {
            proof {
                assert(false);
            }
            return Err(CheckError::UnknownOpcode);
        },
    }
    Ok(())
}

/// One step of the two binary pattern constructors.
#[verifier::loop_isolation(false)]
fn step_binary(
    instrs: &[u8],
    i: &mut usize,
    stack: &mut Stack,
    memory: &mut Memory,
    claims: &mut Claims,
    axioms: &mut Memory,
    phase: ExecutionPhase,
    inst: Instruction,
) -> (r: Result<(), CheckError>)
    requires
        1 <= *old(i) <= instrs@.len(),
        spec_from_byte(instrs@[*old(i) - 1]) == Some(inst),
        inst == Instruction::Implication || inst == Instruction::Application,
    ensures
        step_contract(
            instrs@,
            *old(i) as int,
            *final(i) as int,
            st_of(old(stack)@, old(memory)@, old(claims)@, old(axioms)@),
            st_of(final(stack)@, final(memory)@, final(claims)@, final(axioms)@),
            phase,
            r,
        ),
{
    broadcast use
        lemma_stack_view_push,
        lemma_stack_view_drop_last,
        lemma_mem_view_push,
        lemma_pats_view_push,
        lemma_pats_view_drop_last;

    let ghost i0 = *i as int - 1;
    let ghost s_at = instrs@.skip(i0);
    let ghost pre = st_of(stack@, memory@, claims@, axioms@);
    match inst {
        Instruction::Implication => {
            let right = match pop_stack_pattern(stack) {
                Err(e) => {
                    proof {
                        assert(spec_step(s_at, pre, phase) == Err::<(SpecState, Seq<u8>), CheckError>(e));
                    }
                    return Err(e);
                },
                Ok(p) => p,
            };
            let left = match pop_stack_pattern(stack) {
                Err(e) => {
                    proof {
                        assert(spec_step(s_at, pre, phase) == Err::<(SpecState, Seq<u8>), CheckError>(e));
                    }
                    return Err(e);
                },
                Ok(p) => p,
            };
            stack.push(Term::Pattern(crate::pattern::implies(left, right)));
            proof {
                assert(s_at.skip(1) =~= instrs@.skip(*i as int));
                assert(spec_step(s_at, pre, phase) == Ok::<(SpecState, Seq<u8>), CheckError>((
                    st_of(stack@, memory@, claims@, axioms@),
                    instrs@.skip(*i as int),
                )));
            }
        },
        Instruction::Application => {
            let right = match pop_stack_pattern(stack) {
                Err(e) => {
                    proof {
                        assert(spec_step(s_at, pre, phase) == Err::<(SpecState, Seq<u8>), CheckError>(e));
                    }
                    return Err(e);
                },
                Ok(p) => p,
            };
            let left = match pop_stack_pattern(stack) {
                Err(e) => {
                    proof {
                        assert(spec_step(s_at, pre, phase) == Err::<(SpecState, Seq<u8>), CheckError>(e));
                    }
                    return Err(e);
                },
                Ok(p) => p,
            };
            stack.push(Term::Pattern(app(left, right)));
            proof {
                assert(s_at.skip(1) =~= instrs@.skip(*i as int));
                assert(spec_step(s_at, pre, phase) == Ok::<(SpecState, Seq<u8>), CheckError>((
                    st_of(stack@, memory@, claims@, axioms@),
                    instrs@.skip(*i as int),
                )));
            }
        },
        _ => {
            proof {
                assert(false);
            }
            return Err(CheckError::UnknownOpcode);
        },
    }
    Ok(())
}

/// One step of the two binder constructors.
#[verifier::loop_isolation(false)]
fn step_binder(
    instrs: &[u8],
    i: &mut usize,
    stack: &mut Stack,
    memory: &mut Memory,
    claims: &mut Claims,
    axioms: &mut Memory,
    phase: ExecutionPhase,
    inst: Instruction,
) -> (r: Result<(), CheckError>)
    requires
        1 <= *old(i) <= instrs@.len(),
        spec_from_byte(instrs@[*old(i) - 1]) == Some(inst),
        inst == Instruction::Exists || inst == Instruction::Mu,
    ensures
        step_contract(
            instrs@,
            *old(i) as int,
            *final(i) as int,
            st_of(old(stack)@, old(memory)@, old(claims)@, old(axioms)@),
            st_of(final(stack)@, final(memory)@, final(claims)@, final(axioms)@),
            phase,
            r,
        ),
{
    broadcast use
        lemma_stack_view_push,
        lemma_stack_view_drop_last,
        lemma_mem_view_push,
        lemma_pats_view_push,
        lemma_pats_view_drop_last;

    let ghost i0 = *i as int - 1;
    let ghost s_at = instrs@.skip(i0);
    let ghost pre = st_of(stack@, memory@, claims@, axioms@);
    match inst {
        Instruction::Exists => {
            let id = match next_byte(instrs, i) {
                Err(e) => {
                    proof {
                        assert(spec_step(s_at, pre, phase) == Err::<(SpecState, Seq<u8>), CheckError>(e));
                    }
                    return Err(e);
                },
                Ok(b) => b,
            };
            let subpattern = match pop_stack_pattern(stack) {
                Err(e) => {
                    proof {
                        assert(spec_step(s_at, pre, phase) == Err::<(SpecState, Seq<u8>), CheckError>(e));
                    }
                    return Err(e);
                },
                Ok(p) => p,
            };
            stack.push(Term::Pattern(exists_pat(id, subpattern)));
            proof {
                assert(s_at.skip(1).skip(1) =~= instrs@.skip(*i as int));
                assert(spec_step(s_at, pre, phase) == Ok::<(SpecState, Seq<u8>), CheckError>((
                    st_of(stack@, memory@, claims@, axioms@),
                    instrs@.skip(*i as int),
                )));
            }
        },
        Instruction::Mu => {
            let id = match next_byte(instrs, i) {
                Err(e) => {
                    proof {
                        assert(spec_step(s_at, pre, phase) == Err::<(SpecState, Seq<u8>), CheckError>(e));
                    }
                    return Err(e);
                },
                Ok(b) => b,
            };
            let subpattern = match pop_stack_pattern(stack) {
                Err(e) => {
                    proof {
                        assert(spec_step(s_at, pre, phase) == Err::<(SpecState, Seq<u8>), CheckError>(e));
                    }
                    return Err(e);
                },
                Ok(p) => p,
            };
            let mu_pat = mu(id, subpattern);
            if !mu_pat.well_formed() {
                proof {
                    assert(spec_step(s_at, pre, phase) == Err::<(SpecState, Seq<u8>), CheckError>(
                        CheckError::IllFormedConstruction,
                    ));
                }
                return Err(CheckError::IllFormedConstruction);
            }
            stack.push(Term::Pattern(mu_pat));
            proof {
                assert(s_at.skip(1).skip(1) =~= instrs@.skip(*i as int));
                assert(spec_step(s_at, pre, phase) == Ok::<(SpecState, Seq<u8>), CheckError>((
                    st_of(stack@, memory@, claims@, axioms@),
                    instrs@.skip(*i as int),
                )));
            }
        },
        _ => {
            proof {
                assert(false);
            }
            return Err(CheckError::UnknownOpcode);
        },
    }
    Ok(())
}

/// One step of the two pending-substitution instructions.
#[verifier::loop_isolation(false)]
fn step_subst(
    instrs: &[u8],
    i: &mut usize,
    stack: &mut Stack,
    memory: &mut Memory,
    claims: &mut Claims,
    axioms: &mut Memory,
    phase: ExecutionPhase,
    inst: Instruction,
) -> (r: Result<(), CheckError>)
    requires
        1 <= *old(i) <= instrs@.len(),
        spec_from_byte(instrs@[*old(i) - 1]) == Some(inst),
        inst == Instruction::ESubst || inst == Instruction::SSubst,
    ensures
        step_contract(
            instrs@,
            *old(i) as int,
            *final(i) as int,
            st_of(old(stack)@, old(memory)@, old(claims)@, old(axioms)@),
            st_of(final(stack)@, final(memory)@, final(claims)@, final(axioms)@),
            phase,
            r,
        ),
{
    broadcast use
        lemma_stack_view_push,
        lemma_stack_view_drop_last,
        lemma_mem_view_push,
        lemma_pats_view_push,
        lemma_pats_view_drop_last;

    let ghost i0 = *i as int - 1;
    let ghost s_at = instrs@.skip(i0);
    let ghost pre = st_of(stack@, memory@, claims@, axioms@);
    match inst {
        Instruction::ESubst => {
            let evar_id = match next_byte(instrs, i) {
                Err(e) => {
                    proof {
                        assert(spec_step(s_at, pre, phase) == Err::<(SpecState, Seq<u8>), CheckError>(e));
                    }
                    return Err(e);
                },
                Ok(b) => b,
            };
            let pattern = match pop_stack_pattern(stack) {
                Err(e) => {
                    proof {
                        assert(spec_step(s_at, pre, phase) == Err::<(SpecState, Seq<u8>), CheckError>(e));
                    }
                    return Err(e);
                },
                Ok(p) => p,
            };
            let plug = match pop_stack_pattern(stack) {
                Err(e) => {
                    proof {
                        assert(spec_step(s_at, pre, phase) == Err::<(SpecState, Seq<u8>), CheckError>(e));
                    }
                    return Err(e);
                },
                Ok(p) => p,
            };
            if !pattern.is_meta_head() {
                proof {
                    assert(spec_step(s_at, pre, phase) == Err::<(SpecState, Seq<u8>), CheckError>(
                        CheckError::IllFormedConstruction,
                    ));
                }
                return Err(CheckError::IllFormedConstruction);
            }
            let esubst_pat = esubst(Rc::clone(&pattern), evar_id, plug);
            if esubst_pat.well_formed() {
                stack.push(Term::Pattern(esubst_pat));
            } else {
                // The target is already fresh in the variable: the
                // substitution is redundant and is not recorded.
                stack.push(Term::Pattern(pattern));
            }
            proof {
                assert(s_at.skip(1).skip(1) =~= instrs@.skip(*i as int));
                assert(spec_step(s_at, pre, phase) == Ok::<(SpecState, Seq<u8>), CheckError>((
                    st_of(stack@, memory@, claims@, axioms@),
                    instrs@.skip(*i as int),
                )));
            }
        },
        Instruction::SSubst => {
            let svar_id = match next_byte(instrs, i) {
                Err(e) => {
                    proof {
                        assert(spec_step(s_at, pre, phase) == Err::<(SpecState, Seq<u8>), CheckError>(e));
                    }
                    return Err(e);
                },
                Ok(b) => b,
            };
            let pattern = match pop_stack_pattern(stack) {
                Err(e) => {
                    proof {
                        assert(spec_step(s_at, pre, phase) == Err::<(SpecState, Seq<u8>), CheckError>(e));
                    }
                    return Err(e);
                },
                Ok(p) => p,
            };
            let plug = match pop_stack_pattern(stack) {
                Err(e) => {
                    proof {
                        assert(spec_step(s_at, pre, phase) == Err::<(SpecState, Seq<u8>), CheckError>(e));
                    }
                    return Err(e);
                },
                Ok(p) => p,
            };
            if !pattern.is_meta_head() {
                proof {
                    assert(spec_step(s_at, pre, phase) == Err::<(SpecState, Seq<u8>), CheckError>(
                        CheckError::IllFormedConstruction,
                    ));
                }
                return Err(CheckError::IllFormedConstruction);
            }
            let ssubst_pat = ssubst(Rc::clone(&pattern), svar_id, plug);
            if ssubst_pat.well_formed() {
                stack.push(Term::Pattern(ssubst_pat));
            } else {
                // The target is already fresh in the variable: the
                // substitution is redundant and is not recorded.
                stack.push(Term::Pattern(pattern));
            }
            proof {
                assert(s_at.skip(1).skip(1) =~= instrs@.skip(*i as int));
                assert(spec_step(s_at, pre, phase) == Ok::<(SpecState, Seq<u8>), CheckError>((
                    st_of(stack@, memory@, claims@, axioms@),
                    instrs@.skip(*i as int),
                )));
            }
        },
        _ => {
            proof {
                assert(false);
            }
            return Err(CheckError::UnknownOpcode);
        },
    }
    Ok(())
}

/// One step of the five axiom-schema instructions.
#[verifier::loop_isolation(false)]
fn step_schema(
    instrs: &[u8],
    i: &mut usize,
    stack: &mut Stack,
    memory: &mut Memory,
    claims: &mut Claims,
    axioms: &mut Memory,
    phase: ExecutionPhase,
    inst: Instruction,
) -> (r: Result<(), CheckError>)
    requires
        1 <= *old(i) <= instrs@.len(),
        spec_from_byte(instrs@[*old(i) - 1]) == Some(inst),
        inst == Instruction::Prop1 || inst == Instruction::Prop2 || inst == Instruction::Prop3 || inst == Instruction::Quantifier || inst == Instruction::Existence,
    ensures
        step_contract(
            instrs@,
            *old(i) as int,
            *final(i) as int,
            st_of(old(stack)@, old(memory)@, old(claims)@, old(axioms)@),
            st_of(final(stack)@, final(memory)@, final(claims)@, final(axioms)@),
            phase,
            r,
        ),
{
    broadcast use
        lemma_stack_view_push,
        lemma_stack_view_drop_last,
        lemma_mem_view_push,
        lemma_pats_view_push,
        lemma_pats_view_drop_last;

    let ghost i0 = *i as int - 1;
    let ghost s_at = instrs@.skip(i0);
    let ghost pre = st_of(stack@, memory@, claims@, axioms@);
    match inst {
        Instruction::Prop1 => {
            let phi0 = metavar_unconstrained(0);
            let phi1 = metavar_unconstrained(1);
            let prop1 = crate::pattern::implies(
                Rc::clone(&phi0),
                crate::pattern::implies(phi1, phi0),
            );
            stack.push(Term::Proved(prop1));
            proof {
                assert(s_at.skip(1) =~= instrs@.skip(*i as int));
                assert(spec_step(s_at, pre, phase) == Ok::<(SpecState, Seq<u8>), CheckError>((
                    st_of(stack@, memory@, claims@, axioms@),
                    instrs@.skip(*i as int),
                )));
            }
        },
        Instruction::Prop2 => {
            let phi0 = metavar_unconstrained(0);
            let phi1 = metavar_unconstrained(1);
            let phi2 = metavar_unconstrained(2);
            let prop2 = crate::pattern::implies(
                crate::pattern::implies(
                    Rc::clone(&phi0),
                    crate::pattern::implies(Rc::clone(&phi1), Rc::clone(&phi2)),
                ),
                crate::pattern::implies(
                    crate::pattern::implies(Rc::clone(&phi0), phi1),
                    crate::pattern::implies(phi0, phi2),
                ),
            );
            stack.push(Term::Proved(prop2));
            proof {
                assert(s_at.skip(1) =~= instrs@.skip(*i as int));
                assert(spec_step(s_at, pre, phase) == Ok::<(SpecState, Seq<u8>), CheckError>((
                    st_of(stack@, memory@, claims@, axioms@),
                    instrs@.skip(*i as int),
                )));
            }
        },
        Instruction::Prop3 => {
            let phi0 = metavar_unconstrained(0);
            let prop3 = crate::pattern::implies(not(not(Rc::clone(&phi0))), phi0);
            stack.push(Term::Proved(prop3));
            proof {
                assert(s_at.skip(1) =~= instrs@.skip(*i as int));
                assert(spec_step(s_at, pre, phase) == Ok::<(SpecState, Seq<u8>), CheckError>((
                    st_of(stack@, memory@, claims@, axioms@),
                    instrs@.skip(*i as int),
                )));
            }
        },
        Instruction::Quantifier => {
            let phi0 = metavar_unconstrained(0);
            let quantifier = crate::pattern::implies(
                esubst(Rc::clone(&phi0), 0, evar(1)),
                exists_pat(0, phi0),
            );
            stack.push(Term::Proved(quantifier));
            proof {
                assert(s_at.skip(1) =~= instrs@.skip(*i as int));
                assert(spec_step(s_at, pre, phase) == Ok::<(SpecState, Seq<u8>), CheckError>((
                    st_of(stack@, memory@, claims@, axioms@),
                    instrs@.skip(*i as int),
                )));
            }
        },
        Instruction::Existence => {
            let existence = exists_pat(0, evar(0));
            stack.push(Term::Proved(existence));
            proof {
                assert(s_at.skip(1) =~= instrs@.skip(*i as int));
                assert(spec_step(s_at, pre, phase) == Ok::<(SpecState, Seq<u8>), CheckError>((
                    st_of(stack@, memory@, claims@, axioms@),
                    instrs@.skip(*i as int),
                )));
            }
        },
        _ => {
            proof {
                assert(false);
            }
            return Err(CheckError::UnknownOpcode);
        },
    }
    Ok(())
}

/// One step of the three inference rules.
#[verifier::loop_isolation(false)]
fn step_inference(
    instrs: &[u8],
    i: &mut usize,
    stack: &mut Stack,
    memory: &mut Memory,
    claims: &mut Claims,
    axioms: &mut Memory,
    phase: ExecutionPhase,
    inst: Instruction,
) -> (r: Result<(), CheckError>)
    requires
        1 <= *old(i) <= instrs@.len(),
        spec_from_byte(instrs@[*old(i) - 1]) == Some(inst),
        inst == Instruction::ModusPonens || inst == Instruction::Generalization || inst == Instruction::Substitution,
    ensures
        step_contract(
            instrs@,
            *old(i) as int,
            *final(i) as int,
            st_of(old(stack)@, old(memory)@, old(claims)@, old(axioms)@),
            st_of(final(stack)@, final(memory)@, final(claims)@, final(axioms)@),
            phase,
            r,
        ),
{
    broadcast use
        lemma_stack_view_push,
        lemma_stack_view_drop_last,
        lemma_mem_view_push,
        lemma_pats_view_push,
        lemma_pats_view_drop_last;

    let ghost i0 = *i as int - 1;
    let ghost s_at = instrs@.skip(i0);
    let ghost pre = st_of(stack@, memory@, claims@, axioms@);
    match inst {
        Instruction::ModusPonens => {
            let premise2 = match pop_stack_proved(stack) {
                Err(e) => {
                    proof {
                        assert(spec_step(s_at, pre, phase) == Err::<(SpecState, Seq<u8>), CheckError>(e));
                    }
                    return Err(e);
                },
                Ok(p) => p,
            };
            let premise1 = match pop_stack_proved(stack) {
                Err(e) => {
                    proof {
                        assert(spec_step(s_at, pre, phase) == Err::<(SpecState, Seq<u8>), CheckError>(e));
                    }
                    return Err(e);
                },
                Ok(p) => p,
            };
            match &*premise1 {
                Pattern::Implication { left, right } => {
                    if !pattern_eq(&**left, &*premise2) {
                        proof {
                            assert(spec_step(s_at, pre, phase) == Err::<(SpecState, Seq<u8>), CheckError>(CheckError::ModusPonensMismatch));
                        }
                        return Err(CheckError::ModusPonensMismatch);
                    }
                    stack.push(Term::Proved(Rc::clone(right)));
                    proof {
                        assert(s_at.skip(1) =~= instrs@.skip(*i as int));
                        assert(spec_step(s_at, pre, phase) == Ok::<(SpecState, Seq<u8>), CheckError>((
                            st_of(stack@, memory@, claims@, axioms@),
                            instrs@.skip(*i as int),
                        )));
                    }
                },
                _ => {
                    proof {
                        assert(spec_step(s_at, pre, phase) == Err::<(SpecState, Seq<u8>), CheckError>(CheckError::ModusPonensMismatch));
                    }
                    return Err(CheckError::ModusPonensMismatch);
                },
            }
        },
        Instruction::Generalization => {
            let premise = match pop_stack_proved(stack) {
                Err(e) => {
                    proof {
                        assert(spec_step(s_at, pre, phase) == Err::<(SpecState, Seq<u8>), CheckError>(e));
                    }
                    return Err(e);
                },
                Ok(p) => p,
            };
            match &*premise {
                Pattern::Implication { left, right } => {
                    // The binder is fixed to element variable zero in
                    // this revision of the wire format.
                    if !right.e_fresh(0) {
                        proof {
                            assert(spec_step(s_at, pre, phase) == Err::<(SpecState, Seq<u8>), CheckError>(CheckError::GeneralizationNotFresh));
                        }
                        return Err(CheckError::GeneralizationNotFresh);
                    }
                    stack.push(Term::Proved(crate::pattern::implies(
                        exists_pat(0, Rc::clone(left)),
                        Rc::clone(right),
                    )));
                    proof {
                        assert(s_at.skip(1) =~= instrs@.skip(*i as int));
                        assert(spec_step(s_at, pre, phase) == Ok::<(SpecState, Seq<u8>), CheckError>((
                            st_of(stack@, memory@, claims@, axioms@),
                            instrs@.skip(*i as int),
                        )));
                    }
                },
                _ => {
                    proof {
                        assert(spec_step(s_at, pre, phase) == Err::<(SpecState, Seq<u8>), CheckError>(CheckError::TagMismatch));
                    }
                    return Err(CheckError::TagMismatch);
                },
            }
        },
        Instruction::Substitution => {
            let svar_id = match next_byte(instrs, i) {
                Err(e) => {
                    proof {
                        assert(spec_step(s_at, pre, phase) == Err::<(SpecState, Seq<u8>), CheckError>(e));
                    }
                    return Err(e);
                },
                Ok(b) => b,
            };
            let plug = match pop_stack_pattern(stack) {
                Err(e) => {
                    proof {
                        assert(spec_step(s_at, pre, phase) == Err::<(SpecState, Seq<u8>), CheckError>(e));
                    }
                    return Err(e);
                },
                Ok(p) => p,
            };
            let pattern = match pop_stack_proved(stack) {
                Err(e) => {
                    proof {
                        assert(spec_step(s_at, pre, phase) == Err::<(SpecState, Seq<u8>), CheckError>(e));
                    }
                    return Err(e);
                },
                Ok(p) => p,
            };
            if !pattern.is_meta_head() {
                proof {
                    assert(spec_step(s_at, pre, phase) == Err::<(SpecState, Seq<u8>), CheckError>(
                        CheckError::IllFormedConstruction,
                    ));
                }
                return Err(CheckError::IllFormedConstruction);
            }
            let ssubst_pat = ssubst(Rc::clone(&pattern), svar_id, plug);
            if ssubst_pat.well_formed() {
                stack.push(Term::Proved(ssubst_pat));
            } else {
                // The substitution is redundant: the proved pattern
                // passes through unchanged.
                stack.push(Term::Proved(pattern));
            }
            proof {
                assert(s_at.skip(1).skip(1) =~= instrs@.skip(*i as int));
                assert(spec_step(s_at, pre, phase) == Ok::<(SpecState, Seq<u8>), CheckError>((
                    st_of(stack@, memory@, claims@, axioms@),
                    instrs@.skip(*i as int),
                )));
            }
        },
        _ => {
            proof {
                assert(false);
            }
            return Err(CheckError::UnknownOpcode);
        },
    }
    Ok(())
}

/// One step of the meta-level instantiation instruction.
#[verifier::loop_isolation(false)]
fn step_instantiate(
    instrs: &[u8],
    i: &mut usize,
    stack: &mut Stack,
    memory: &mut Memory,
    claims: &mut Claims,
    axioms: &mut Memory,
    phase: ExecutionPhase,
    inst: Instruction,
) -> (r: Result<(), CheckError>)
    requires
        1 <= *old(i) <= instrs@.len(),
        spec_from_byte(instrs@[*old(i) - 1]) == Some(inst),
        inst == Instruction::Instantiate,
    ensures
        step_contract(
            instrs@,
            *old(i) as int,
            *final(i) as int,
            st_of(old(stack)@, old(memory)@, old(claims)@, old(axioms)@),
            st_of(final(stack)@, final(memory)@, final(claims)@, final(axioms)@),
            phase,
            r,
        ),
{
    broadcast use
        lemma_stack_view_push,
        lemma_stack_view_drop_last,
        lemma_mem_view_push,
        lemma_pats_view_push,
        lemma_pats_view_drop_last;

    let ghost i0 = *i as int - 1;
    let ghost s_at = instrs@.skip(i0);
    let ghost pre = st_of(stack@, memory@, claims@, axioms@);
    match inst {
        Instruction::Instantiate => {
            let n_byte = match next_byte(instrs, i) {
                Err(e) => {
                    proof {
                        assert(spec_step(s_at, pre, phase) == Err::<(SpecState, Seq<u8>), CheckError>(e));
                    }
                    return Err(e);
                },
                Ok(b) => b,
            };
            let n = n_byte as usize;
            let ghost body = instrs@.skip(*i as int);
            proof {
                assert(s_at.skip(1).skip(1) =~= body);
            }
            let metaterm = match pop_stack(stack) {
                Err(e) => {
                    proof {
                        assert(spec_step(s_at, pre, phase) == Err::<(SpecState, Seq<u8>), CheckError>(e));
                    }
                    return Err(e);
                },
                Ok(t) => t,
            };
            let ghost stack1 = stack_view(stack@);
            let mut ids: Vec<Id> = Vec::new();
            let mut plugs: Vec<Rc<Pattern>> = Vec::new();
            let mut k: usize = 0;
            while k < n
                invariant
                    k <= n,
                    *i as int == i0 + 2 + k,
                    *i <= instrs@.len(),
                    ids@ == body.subrange(0, k as int),
                    plugs@.len() == k,
                    k <= stack1.len(),
                    stack_view(stack@) == stack1.take(stack1.len() - k),
                    pats_view(plugs@) == spec_top_patterns(stack1, k as int),
                    forall|j: int| 0 <= j < k ==> (#[trigger] stack1[stack1.len() - 1
                        - j]) is Pattern,
                decreases n - k,
            {
                let id = match next_byte(instrs, i) {
                    Err(e) => {
                        proof {
                            lemma_args_error_at(body, stack1, n as int, k as int);
                            assert(spec_step(s_at, pre, phase) == Err::<(SpecState, Seq<u8>), CheckError>(e));
                        }
                        return Err(e);
                    },
                    Ok(b) => b,
                };
                let plug = match pop_stack_pattern(stack) {
                    Err(e) => {
                        proof {
                            if stack1.len() > k {
                                assert(stack1.take(stack1.len() - k).last() == stack1[
                                    stack1.len() - 1 - k]);
                            }
                            lemma_args_error_at(body, stack1, n as int, k as int);
                            assert(spec_step(s_at, pre, phase) == Err::<(SpecState, Seq<u8>), CheckError>(e));
                        }
                        return Err(e);
                    },
                    Ok(p) => p,
                };
                ids.push(id);
                plugs.push(plug);
                proof {
                    assert(stack1.take(stack1.len() - k).last() == stack1[stack1.len() - 1
                        - k]);
                    assert(ids@ =~= body.subrange(0, k + 1));
                    assert(pats_view(plugs@) =~= spec_top_patterns(stack1, k + 1));
                    assert(stack_view(stack@) =~= stack1.take(stack1.len() - (k + 1)));
                }
                k = k + 1;
            }
            let result = match metaterm {
                Term::Pattern(p) => {
                    match instantiate(p, ids.as_slice(), plugs.as_slice()) {
                        Err(e) => {
                            proof {
                                assert(spec_step(s_at, pre, phase) == Err::<(SpecState, Seq<u8>), CheckError>(e));
                            }
                            return Err(e);
                        },
                        Ok(q) => Term::Pattern(q),
                    }
                },
                Term::Proved(p) => {
                    match instantiate(p, ids.as_slice(), plugs.as_slice()) {
                        Err(e) => {
                            proof {
                                assert(spec_step(s_at, pre, phase) == Err::<(SpecState, Seq<u8>), CheckError>(e));
                            }
                            return Err(e);
                        },
                        Ok(q) => Term::Proved(q),
                    }
                },
            };
            stack.push(result);
            proof {
                assert(body.skip(n as int) =~= instrs@.skip(*i as int));
                assert(spec_step(s_at, pre, phase) == Ok::<(SpecState, Seq<u8>), CheckError>((
                    st_of(stack@, memory@, claims@, axioms@),
                    instrs@.skip(*i as int),
                )));
            }
        },
        _ => {
            proof {
                assert(false);
            }
            return Err(CheckError::UnknownOpcode);
        },
    }
    Ok(())
}

/// One step of the stack and memory housekeeping instructions.
#[verifier::loop_isolation(false)]
fn step_housekeeping(
    instrs: &[u8],
    i: &mut usize,
    stack: &mut Stack,
    memory: &mut Memory,
    claims: &mut Claims,
    axioms: &mut Memory,
    phase: ExecutionPhase,
    inst: Instruction,
) -> (r: Result<(), CheckError>)
    requires
        1 <= *old(i) <= instrs@.len(),
        spec_from_byte(instrs@[*old(i) - 1]) == Some(inst),
        inst == Instruction::Pop || inst == Instruction::Save || inst == Instruction::Load,
    ensures
        step_contract(
            instrs@,
            *old(i) as int,
            *final(i) as int,
            st_of(old(stack)@, old(memory)@, old(claims)@, old(axioms)@),
            st_of(final(stack)@, final(memory)@, final(claims)@, final(axioms)@),
            phase,
            r,
        ),
{
    broadcast use
        lemma_stack_view_push,
        lemma_stack_view_drop_last,
        lemma_mem_view_push,
        lemma_pats_view_push,
        lemma_pats_view_drop_last;

    let ghost i0 = *i as int - 1;
    let ghost s_at = instrs@.skip(i0);
    let ghost pre = st_of(stack@, memory@, claims@, axioms@);
    match inst {
        Instruction::Pop => {
            let ghost before = stack@;
            let _popped = stack.pop();
            proof {
                if before.len() > 0 {
                    assert(stack@ == before.drop_last());
                    assert(stack_view(stack@) == stack_view(before).drop_last());
                }
                assert(s_at.skip(1) =~= instrs@.skip(*i as int));
                assert(spec_step(s_at, pre, phase) == Ok::<(SpecState, Seq<u8>), CheckError>((
                    st_of(stack@, memory@, claims@, axioms@),
                    instrs@.skip(*i as int),
                )));
            }
        },
        Instruction::Save => {
            if stack.len() == 0 {
                proof {
                    assert(spec_step(s_at, pre, phase) == Err::<(SpecState, Seq<u8>), CheckError>(
                        CheckError::StackUnderflow,
                    ));
                }
                return Err(CheckError::StackUnderflow);
            }
            let entry = match &stack[stack.len() - 1] {
                Term::Pattern(p) => Entry::Pattern(Rc::clone(p)),
                Term::Proved(p) => Entry::Proved(Rc::clone(p)),
            };
            memory.push(entry);
            proof {
                assert(s_at.skip(1) =~= instrs@.skip(*i as int));
                assert(spec_step(s_at, pre, phase) == Ok::<(SpecState, Seq<u8>), CheckError>((
                    st_of(stack@, memory@, claims@, axioms@),
                    instrs@.skip(*i as int),
                )));
            }
        },
        Instruction::Load => {
            let index_byte = match next_byte(instrs, i) {
                Err(e) => {
                    proof {
                        assert(spec_step(s_at, pre, phase) == Err::<(SpecState, Seq<u8>), CheckError>(e));
                    }
                    return Err(e);
                },
                Ok(b) => b,
            };
            let index = index_byte as usize;
            if index >= memory.len() {
                proof {
                    assert(spec_step(s_at, pre, phase) == Err::<(SpecState, Seq<u8>), CheckError>(
                        CheckError::MemoryOutOfRange,
                    ));
                }
                return Err(CheckError::MemoryOutOfRange);
            }
            let term = match &memory[index] {
                Entry::Pattern(p) => Term::Pattern(Rc::clone(p)),
                Entry::Proved(p) => Term::Proved(Rc::clone(p)),
            };
            stack.push(term);
            proof {
                assert(s_at.skip(1).skip(1) =~= instrs@.skip(*i as int));
                assert(spec_step(s_at, pre, phase) == Ok::<(SpecState, Seq<u8>), CheckError>((
                    st_of(stack@, memory@, claims@, axioms@),
                    instrs@.skip(*i as int),
                )));
            }
        },
        _ => {
            proof {
                assert(false);
            }
            return Err(CheckError::UnknownOpcode);
        },
    }
    Ok(())
}

/// One step of the phase-dependent publish instruction.
#[verifier::loop_isolation(false)]
fn step_publish(
    instrs: &[u8],
    i: &mut usize,
    stack: &mut Stack,
    memory: &mut Memory,
    claims: &mut Claims,
    axioms: &mut Memory,
    phase: ExecutionPhase,
    inst: Instruction,
) -> (r: Result<(), CheckError>)
    requires
        1 <= *old(i) <= instrs@.len(),
        spec_from_byte(instrs@[*old(i) - 1]) == Some(inst),
        inst == Instruction::Publish,
    ensures
        step_contract(
            instrs@,
            *old(i) as int,
            *final(i) as int,
            st_of(old(stack)@, old(memory)@, old(claims)@, old(axioms)@),
            st_of(final(stack)@, final(memory)@, final(claims)@, final(axioms)@),
            phase,
            r,
        ),
{
    broadcast use
        lemma_stack_view_push,
        lemma_stack_view_drop_last,
        lemma_mem_view_push,
        lemma_pats_view_push,
        lemma_pats_view_drop_last;

    let ghost i0 = *i as int - 1;
    let ghost s_at = instrs@.skip(i0);
    let ghost pre = st_of(stack@, memory@, claims@, axioms@);
    match inst {
        Instruction::Publish => {
            match phase {
                ExecutionPhase::Gamma => {
                    let p = match pop_stack_pattern(stack) {
                        Err(e) => {
                            proof {
                                assert(spec_step(s_at, pre, phase) == Err::<(SpecState, Seq<u8>), CheckError>(e));
                            }
                            return Err(e);
                        },
                        Ok(p) => p,
                    };
                    axioms.push(Entry::Proved(p));
                    proof {
                        assert(s_at.skip(1) =~= instrs@.skip(*i as int));
                        assert(spec_step(s_at, pre, phase) == Ok::<(SpecState, Seq<u8>), CheckError>((
                            st_of(stack@, memory@, claims@, axioms@),
                            instrs@.skip(*i as int),
                        )));
                    }
                },
                ExecutionPhase::Claim => {
                    let p = match pop_stack_pattern(stack) {
                        Err(e) => {
                            proof {
                                assert(spec_step(s_at, pre, phase) == Err::<(SpecState, Seq<u8>), CheckError>(e));
                            }
                            return Err(e);
                        },
                        Ok(p) => p,
                    };
                    claims.push(p);
                    proof {
                        assert(s_at.skip(1) =~= instrs@.skip(*i as int));
                        assert(spec_step(s_at, pre, phase) == Ok::<(SpecState, Seq<u8>), CheckError>((
                            st_of(stack@, memory@, claims@, axioms@),
                            instrs@.skip(*i as int),
                        )));
                    }
                },
                ExecutionPhase::Proof => {
                    let ghost claims_before = claims@;
                    let claim = match claims.pop() {
                        None => {
                            proof {
                                assert(spec_step(s_at, pre, phase) == Err::<(SpecState, Seq<u8>), CheckError>(CheckError::ClaimMismatch));
                            }
                            return Err(CheckError::ClaimMismatch);
                        },
                        Some(c) => c,
                    };
                    let theorem = match pop_stack_proved(stack) {
                        Err(e) => {
                            proof {
                                assert(spec_step(s_at, pre, phase) == Err::<(SpecState, Seq<u8>), CheckError>(e));
                            }
                            return Err(e);
                        },
                        Ok(p) => p,
                    };
                    if !pattern_eq(&*claim, &*theorem) {
                        proof {
                            assert(spec_step(s_at, pre, phase) == Err::<(SpecState, Seq<u8>), CheckError>(CheckError::ClaimMismatch));
                        }
                        return Err(CheckError::ClaimMismatch);
                    }
                    proof {
                        assert(claims@ == claims_before.drop_last());
                        assert(pats_view(claims@) == pats_view(claims_before).drop_last());
                        assert(s_at.skip(1) =~= instrs@.skip(*i as int));
                        assert(spec_step(s_at, pre, phase) == Ok::<(SpecState, Seq<u8>), CheckError>((
                            st_of(stack@, memory@, claims@, axioms@),
                            instrs@.skip(*i as int),
                        )));
                    }
                },
            }
        },
        _ => {
            proof {
                assert(false);
            }
            return Err(CheckError::UnknownOpcode);
        },
    }
    Ok(())
}
/// Run the three phases in order: the theory stream seeds the axiom
/// pool, the claim stream the claim queue, and the proof stream must
/// discharge every claim.  Accepts or reports the first error, exactly
/// as `spec_verify` does.
pub fn verify(gamma_stream: &[u8], claims_stream: &[u8], proof_stream: &[u8]) -> (r: Result<
    (),
    CheckError,
>)
    ensures
        r == spec_verify(gamma_stream@, claims_stream@, proof_stream@),
{
    let mut claims: Claims = Vec::new();
    let mut axioms: Memory = Vec::new();

    let mut gamma_stack: Stack = Vec::new();
    let mut gamma_memory: Memory = Vec::new();
    let mut gamma_claims: Claims = Vec::new();
    proof {
        assert(stack_view(gamma_stack@) =~= Seq::<SpecTerm>::empty());
        assert(mem_view(gamma_memory@) =~= Seq::<SpecEntry>::empty());
        assert(pats_view(gamma_claims@) =~= Seq::<SpecPattern>::empty());
        assert(mem_view(axioms@) =~= Seq::<SpecEntry>::empty());
        assert(st_of(gamma_stack@, gamma_memory@, gamma_claims@, axioms@)
            == spec_empty_state());
    }
    match execute_instructions(
        gamma_stream,
        &mut gamma_stack,
        &mut gamma_memory,
        &mut gamma_claims,
        &mut axioms,
        ExecutionPhase::Gamma,
    ) {
        Err(e) => {
            return Err(e);
        },
        Ok(()) => {},
    }

    let mut claim_stack: Stack = Vec::new();
    let mut claim_memory: Memory = Vec::new();
    let mut claim_axioms: Memory = Vec::new();
    proof {
        assert(stack_view(claim_stack@) =~= Seq::<SpecTerm>::empty());
        assert(mem_view(claim_memory@) =~= Seq::<SpecEntry>::empty());
        assert(pats_view(claims@) =~= Seq::<SpecPattern>::empty());
        assert(mem_view(claim_axioms@) =~= Seq::<SpecEntry>::empty());
        assert(st_of(claim_stack@, claim_memory@, claims@, claim_axioms@)
            == spec_empty_state());
    }
    match execute_instructions(
        claims_stream,
        &mut claim_stack,
        &mut claim_memory,
        &mut claims,
        &mut claim_axioms,
        ExecutionPhase::Claim,
    ) {
        Err(e) => {
            return Err(e);
        },
        Ok(()) => {},
    }

    let mut proof_stack: Stack = Vec::new();
    let mut proof_axioms: Memory = Vec::new();
    proof {
        assert(stack_view(proof_stack@) =~= Seq::<SpecTerm>::empty());
        assert(mem_view(proof_axioms@) =~= Seq::<SpecEntry>::empty());
    }
    match execute_instructions(
        proof_stream,
        &mut proof_stack,
        &mut axioms,
        &mut claims,
        &mut proof_axioms,
        ExecutionPhase::Proof,
    ) {
        Err(e) => {
            return Err(e);
        },
        Ok(()) => {},
    }

    if claims.len() != 0 {
        return Err(CheckError::UndischargedClaims);
    }
    Ok(())
}

/// Run one instruction vector against the machine state held in the four
/// collections, as `execute_instructions` does on its contents.
pub fn execute_vector(
    instrs: &Vec<u8>,
    stack: &mut Stack,
    memory: &mut Memory,
    claims: &mut Claims,
    axioms: &mut Memory,
    phase: ExecutionPhase,
) -> (r: Result<(), CheckError>)
    ensures
        match r {
            Ok(()) => spec_execute(
                instrs@,
                st_of(old(stack)@, old(memory)@, old(claims)@, old(axioms)@),
                phase,
            ) == Ok::<SpecState, CheckError>(
                st_of(final(stack)@, final(memory)@, final(claims)@, final(axioms)@),
            ),
            Err(e) => spec_execute(
                instrs@,
                st_of(old(stack)@, old(memory)@, old(claims)@, old(axioms)@),
                phase,
            ) == Err::<SpecState, CheckError>(e),
        },
{
    execute_instructions(instrs.as_slice(), stack, memory, claims, axioms, phase)
}

/// The wire form of a meta-variable instruction: the opcode, the id,
/// then the given constraint lists, each length-prefixed.
pub open spec fn spec_serialize_metavar(id: Id, cons: Seq<Seq<Id>>) -> Seq<u8>
    decreases cons.len(),
{
    if cons.len() == 0 {
        seq![9u8, id]
    } else {
        spec_serialize_metavar(id, cons.drop_last()) + seq![cons.last().len() as u8]
            + cons.last()
    }
}

/// The models of the constraint lists.
pub open spec fn lists_view(cons: Seq<Vec<Id>>) -> Seq<Seq<Id>> {
    cons.map_values(|v: Vec<Id>| v@)
}

/// Build the wire form of a meta-variable instruction from its id and
/// constraint lists.
pub fn serialize_metavar(id: Id, all_cons: &Vec<Vec<Id>>) -> (r: Vec<u8>)
    requires
        forall|k: int| 0 <= k < all_cons@.len() ==> (#[trigger] all_cons@[k])@.len() <= 255,
    ensures
        r@ == spec_serialize_metavar(id, lists_view(all_cons@)),
{
    let mut res: Vec<u8> = Vec::new();
    res.push(9);
    res.push(id);
    proof {
        assert(lists_view(all_cons@).take(0) =~= Seq::<Seq<Id>>::empty());
        assert(res@ =~= spec_serialize_metavar(id, lists_view(all_cons@).take(0)));
    }
    let mut c: usize = 0;
    while c < all_cons.len()
        invariant
            c <= all_cons@.len(),
            forall|k: int| 0 <= k < all_cons@.len() ==> (#[trigger] all_cons@[k])@.len()
                <= 255,
            res@ == spec_serialize_metavar(id, lists_view(all_cons@).take(c as int)),
        decreases all_cons@.len() - c,
    {
        let cons = &all_cons[c];
        let ghost res_before = res@;
        res.push(cons.len() as u8);
        let mut j: usize = 0;
        while j < cons.len()
            invariant
                j <= cons@.len(),
                res@ == res_before + seq![cons@.len() as u8] + cons@.take(j as int),
            decreases cons@.len() - j,
        {
            res.push(cons[j]);
            proof {
                assert(res@ =~= res_before + seq![cons@.len() as u8] + cons@.take(
                    j as int + 1,
                ));
            }
            j = j + 1;
        }
        proof {
            let lists = lists_view(all_cons@);
            assert(cons@.take(cons@.len() as int) =~= cons@);
            assert(lists.take(c + 1).drop_last() =~= lists.take(c as int));
            assert(lists.take(c + 1).last() == cons@);
            assert(res@ =~= spec_serialize_metavar(id, lists.take(c + 1)));
        }
        c = c + 1;
    }
    proof {
        assert(lists_view(all_cons@).take(all_cons@.len() as int) =~= lists_view(all_cons@));
    }
    res
}


} // verus!
