//! The laws of the pattern algebra and of the instruction machine,
//! stated over the spec model and proved once and for all.

use vstd::prelude::*;

use crate::error::CheckError;
use crate::machine::{
    spec_empty_state, spec_execute, spec_step, spec_top_patterns, spec_verify, ExecutionPhase,
    Instruction, SpecEntry, SpecState, SpecTerm,
};
use crate::pattern::{Id, SpecPattern};
use crate::subst::{first_pos, lemma_first_pos_in_range, lemma_first_pos_miss};

verus! {

impl SpecPattern {
    /// A meta-variable with the given id occurs somewhere in the pattern.
    pub open spec fn has_metavar_id(self, x: Id) -> bool
        decreases self,
    {
        match self {
            SpecPattern::EVar(_) => false,
            SpecPattern::SVar(_) => false,
            SpecPattern::Symbol(_) => false,
            SpecPattern::MetaVar { id, .. } => id == x,
            SpecPattern::Implication { left, right } => left.has_metavar_id(x)
                || right.has_metavar_id(x),
            SpecPattern::Application { left, right } => left.has_metavar_id(x)
                || right.has_metavar_id(x),
            SpecPattern::Exists { subpattern, .. } => subpattern.has_metavar_id(x),
            SpecPattern::Mu { subpattern, .. } => subpattern.has_metavar_id(x),
            SpecPattern::ESubst { pattern, plug, .. } => pattern.has_metavar_id(x)
                || plug.has_metavar_id(x),
            SpecPattern::SSubst { pattern, plug, .. } => pattern.has_metavar_id(x)
                || plug.has_metavar_id(x),
        }
    }

    /// Every pending substitution node in the pattern wraps a
    /// meta-variable or another pending substitution, as every pattern
    /// the machine constructs does.
    pub open spec fn subst_heads_ok(self) -> bool
        decreases self,
    {
        match self {
            SpecPattern::EVar(_) => true,
            SpecPattern::SVar(_) => true,
            SpecPattern::Symbol(_) => true,
            SpecPattern::MetaVar { .. } => true,
            SpecPattern::Implication { left, right } => left.subst_heads_ok()
                && right.subst_heads_ok(),
            SpecPattern::Application { left, right } => left.subst_heads_ok()
                && right.subst_heads_ok(),
            SpecPattern::Exists { subpattern, .. } => subpattern.subst_heads_ok(),
            SpecPattern::Mu { subpattern, .. } => subpattern.subst_heads_ok(),
            SpecPattern::ESubst { pattern, plug, .. } => pattern.is_meta_head()
                && pattern.subst_heads_ok() && plug.subst_heads_ok(),
            SpecPattern::SSubst { pattern, plug, .. } => pattern.is_meta_head()
                && pattern.subst_heads_ok() && plug.subst_heads_ok(),
        }
    }
}

/// Substitution eagerness: on a pattern whose outer constructor is
/// concrete — not a meta-variable and not a pending substitution — both
/// eager substitution operators keep the outer constructor and push the
/// substitution into the children, the binders shadowing their own
/// variable.
pub proof fn lemma_substitution_eagerness(p: SpecPattern, v: Id, q: SpecPattern)
    requires
        !p.is_meta_head(),
    ensures
        p matches SpecPattern::EVar(e) ==> p.apply_esubst(v, q) == if e == v {
            q
        } else {
            p
        } && p.apply_ssubst(v, q) == p,
        p matches SpecPattern::SVar(s) ==> p.apply_ssubst(v, q) == if s == v {
            q
        } else {
            p
        } && p.apply_esubst(v, q) == p,
        p matches SpecPattern::Symbol(_) ==> p.apply_esubst(v, q) == p && p.apply_ssubst(v, q)
            == p,
        p matches SpecPattern::Implication { left, right } ==> p.apply_esubst(v, q)
            == SpecPattern::implies(left.apply_esubst(v, q), right.apply_esubst(v, q))
            && p.apply_ssubst(v, q) == SpecPattern::implies(
            left.apply_ssubst(v, q),
            right.apply_ssubst(v, q),
        ),
        p matches SpecPattern::Application { left, right } ==> p.apply_esubst(v, q)
            == SpecPattern::app(left.apply_esubst(v, q), right.apply_esubst(v, q))
            && p.apply_ssubst(v, q) == SpecPattern::app(
            left.apply_ssubst(v, q),
            right.apply_ssubst(v, q),
        ),
        p matches SpecPattern::Exists { var, subpattern } ==> p.apply_esubst(v, q) == if var
            == v {
            p
        } else {
            SpecPattern::exists_pat(var, subpattern.apply_esubst(v, q))
        } && p.apply_ssubst(v, q) == SpecPattern::exists_pat(
            var,
            subpattern.apply_ssubst(v, q),
        ),
        p matches SpecPattern::Mu { var, subpattern } ==> p.apply_ssubst(v, q) == if var == v {
            p
        } else {
            SpecPattern::mu(var, subpattern.apply_ssubst(v, q))
        } && p.apply_esubst(v, q) == SpecPattern::mu(var, subpattern.apply_esubst(v, q)),
{
}

/// Binder shadowing: substituting for the very variable a binder binds
/// leaves the whole binder untouched.
pub proof fn lemma_binder_shadowing(v: Id, body: SpecPattern, q: SpecPattern)
    ensures
        SpecPattern::exists_pat(v, body).apply_esubst(v, q) == SpecPattern::exists_pat(v, body),
        SpecPattern::mu(v, body).apply_ssubst(v, q) == SpecPattern::mu(v, body),
{
}

/// The ESubst instruction is a no-op on a pattern already fresh in the
/// target variable: the plug is consumed, the pattern is pushed back
/// unchanged and no pending node is recorded.
pub proof fn lemma_esubst_noop_when_fresh(
    s: Seq<u8>,
    st: SpecState,
    phase: ExecutionPhase,
    p: SpecPattern,
    q: SpecPattern,
    v: Id,
    rest_stack: Seq<SpecTerm>,
)
    requires
        s.len() >= 2,
        s[0] == 10,
        s[1] == v,
        st.stack == rest_stack.push(SpecTerm::Pattern(q)).push(SpecTerm::Pattern(p)),
        p.is_meta_head(),
        p.e_fresh(v),
    ensures
        spec_step(s, st, phase) == Ok::<(SpecState, Seq<u8>), CheckError>(
            (SpecState { stack: rest_stack.push(SpecTerm::Pattern(p)), ..st }, s.skip(2)),
        ),
{
    assert(st.stack.drop_last() =~= rest_stack.push(SpecTerm::Pattern(q)));
    assert(rest_stack.push(SpecTerm::Pattern(q)).drop_last() =~= rest_stack);
    assert(s.skip(1).skip(1) =~= s.skip(2));
    assert(s.skip(1)[0] == v);
}

/// The SSubst instruction is a no-op on a pattern already fresh in the
/// target set variable: the plug is consumed, the pattern is pushed back
/// unchanged and no pending node is recorded.
pub proof fn lemma_ssubst_noop_when_fresh(
    s: Seq<u8>,
    st: SpecState,
    phase: ExecutionPhase,
    p: SpecPattern,
    q: SpecPattern,
    v: Id,
    rest_stack: Seq<SpecTerm>,
)
    requires
        s.len() >= 2,
        s[0] == 11,
        s[1] == v,
        st.stack == rest_stack.push(SpecTerm::Pattern(q)).push(SpecTerm::Pattern(p)),
        p.is_meta_head(),
        p.s_fresh(v),
    ensures
        spec_step(s, st, phase) == Ok::<(SpecState, Seq<u8>), CheckError>(
            (SpecState { stack: rest_stack.push(SpecTerm::Pattern(p)), ..st }, s.skip(2)),
        ),
{
    assert(st.stack.drop_last() =~= rest_stack.push(SpecTerm::Pattern(q)));
    assert(rest_stack.push(SpecTerm::Pattern(q)).drop_last() =~= rest_stack);
    assert(s.skip(1).skip(1) =~= s.skip(2));
    assert(s.skip(1)[0] == v);
}

/// The Substitution instruction is a no-op on a proved pattern already
/// fresh in the target set variable: the plug is consumed and the proved
/// pattern passes through unchanged.
pub proof fn lemma_substitution_noop_when_fresh(
    s: Seq<u8>,
    st: SpecState,
    phase: ExecutionPhase,
    p: SpecPattern,
    q: SpecPattern,
    v: Id,
    rest_stack: Seq<SpecTerm>,
)
    requires
        s.len() >= 2,
        s[0] == 24,
        s[1] == v,
        st.stack == rest_stack.push(SpecTerm::Proved(p)).push(SpecTerm::Pattern(q)),
        p.is_meta_head(),
        p.s_fresh(v),
    ensures
        spec_step(s, st, phase) == Ok::<(SpecState, Seq<u8>), CheckError>(
            (SpecState { stack: rest_stack.push(SpecTerm::Proved(p)), ..st }, s.skip(2)),
        ),
{
    assert(st.stack.drop_last() =~= rest_stack.push(SpecTerm::Proved(p)));
    assert(rest_stack.push(SpecTerm::Proved(p)).drop_last() =~= rest_stack);
    assert(s.skip(1).skip(1) =~= s.skip(2));
    assert(s.skip(1)[0] == v);
}

/// Instantiation identity: a pattern in which none of the given ids
/// occurs as a meta-variable id is returned unchanged, whatever the
/// plugs.
pub proof fn lemma_instantiate_identity(p: SpecPattern, ids: Seq<Id>, plugs: Seq<SpecPattern>)
    requires
        p.subst_heads_ok(),
        forall|k: int| 0 <= k < ids.len() ==> !p.has_metavar_id(#[trigger] ids[k]),
    ensures
        p.instantiate(ids, plugs) == Ok::<SpecPattern, CheckError>(p),
    decreases p,
{
    match p {
        SpecPattern::MetaVar { id, .. } => {
            assert(forall|k: int| 0 <= k < ids.len() ==> #[trigger] ids[k] != id);
            lemma_first_pos_miss(ids, id);
        },
        SpecPattern::Implication { left, right } => {
            lemma_instantiate_identity(*left, ids, plugs);
            lemma_instantiate_identity(*right, ids, plugs);
        },
        SpecPattern::Application { left, right } => {
            lemma_instantiate_identity(*left, ids, plugs);
            lemma_instantiate_identity(*right, ids, plugs);
        },
        SpecPattern::Exists { subpattern, .. } => {
            lemma_instantiate_identity(*subpattern, ids, plugs);
        },
        SpecPattern::Mu { subpattern, .. } => {
            lemma_instantiate_identity(*subpattern, ids, plugs);
        },
        SpecPattern::ESubst { pattern, evar_id, plug } => {
            lemma_instantiate_identity(*pattern, ids, plugs);
            lemma_instantiate_identity(*plug, ids, plugs);
            assert(pattern.apply_esubst(evar_id, *plug) == p);
        },
        SpecPattern::SSubst { pattern, svar_id, plug } => {
            lemma_instantiate_identity(*pattern, ids, plugs);
            lemma_instantiate_identity(*plug, ids, plugs);
            assert(pattern.apply_ssubst(svar_id, *plug) == p);
        },
        _ => {},
    }
}

/// Instantiation fires a pending substitution: plugging a concrete
/// pattern into the unconstrained meta-variable under a pending
/// element-variable substitution applies the substitution eagerly to
/// the plugged pattern; symmetrically for a pending set-variable
/// substitution.
pub proof fn lemma_instantiate_fires_pending(
    i: Id,
    v: Id,
    plug: SpecPattern,
    concrete: SpecPattern,
)
    requires
        plug.subst_heads_ok(),
        !plug.has_metavar_id(i),
    ensures
        SpecPattern::esubst(SpecPattern::metavar_unconstrained(i), v, plug).instantiate(
            seq![i],
            seq![concrete],
        ) == Ok::<SpecPattern, CheckError>(concrete.apply_esubst(v, plug)),
        SpecPattern::ssubst(SpecPattern::metavar_unconstrained(i), v, plug).instantiate(
            seq![i],
            seq![concrete],
        ) == Ok::<SpecPattern, CheckError>(concrete.apply_ssubst(v, plug)),
{
    let ids: Seq<Id> = seq![i];
    assert(ids[0] == i);
    assert(first_pos(ids, i) == Some(0int));
    lemma_instantiate_identity(plug, ids, seq![concrete]);
    assert(crate::subst::constraints_ok(
        concrete,
        Seq::empty(),
        Seq::empty(),
        Seq::empty(),
        Seq::empty(),
    ));
    assert(SpecPattern::metavar_unconstrained(i).instantiate(ids, seq![concrete])
        == Ok::<SpecPattern, CheckError>(concrete));
}

/// Freshness soundness: freshness in both sides carries over to the
/// implication and to the application built from them.
pub proof fn lemma_freshness_soundness(p: SpecPattern, q: SpecPattern, v: Id)
    requires
        p.e_fresh(v),
        q.e_fresh(v),
    ensures
        SpecPattern::implies(p, q).e_fresh(v),
        SpecPattern::app(p, q).e_fresh(v),
{
}

/// Polarity at construction: the Mu instruction succeeds exactly when
/// the body on the stack is positive in the bound variable, and the only
/// Mu pattern it ever pushes carries such a body.
pub proof fn lemma_mu_positivity(
    s: Seq<u8>,
    st: SpecState,
    phase: ExecutionPhase,
    body: SpecPattern,
    v: Id,
    rest_stack: Seq<SpecTerm>,
)
    requires
        s.len() >= 2,
        s[0] == 7,
        s[1] == v,
        st.stack == rest_stack.push(SpecTerm::Pattern(body)),
    ensures
        body.positive(v) ==> spec_step(s, st, phase) == Ok::<(SpecState, Seq<u8>), CheckError>(
            (
                SpecState {
                    stack: rest_stack.push(SpecTerm::Pattern(SpecPattern::mu(v, body))),
                    ..st
                },
                s.skip(2),
            ),
        ),
        !body.positive(v) ==> spec_step(s, st, phase) == Err::<(SpecState, Seq<u8>), CheckError>(
            CheckError::IllFormedConstruction,
        ),
{
    assert(st.stack.drop_last() =~= rest_stack);
    assert(s.skip(1).skip(1) =~= s.skip(2));
    assert(s.skip(1)[0] == v);
}

/// Claim discharge, one step: a Publish in the proof phase succeeds
/// exactly when a claim is pending and the proved pattern on the stack
/// top equals the most recently published claim, which it removes from
/// the queue; any mismatch, or an exhausted queue, rejects the run.
pub proof fn lemma_publish_discharges_claim(
    s: Seq<u8>,
    st: SpecState,
    theorem: SpecPattern,
    rest_stack: Seq<SpecTerm>,
)
    requires
        s.len() >= 1,
        s[0] == 30,
        st.stack == rest_stack.push(SpecTerm::Proved(theorem)),
    ensures
        st.claims.len() == 0 ==> spec_step(s, st, ExecutionPhase::Proof) == Err::<
            (SpecState, Seq<u8>),
            CheckError,
        >(CheckError::ClaimMismatch),
        st.claims.len() > 0 && st.claims.last() != theorem ==> spec_step(
            s,
            st,
            ExecutionPhase::Proof,
        ) == Err::<(SpecState, Seq<u8>), CheckError>(CheckError::ClaimMismatch),
        st.claims.len() > 0 && st.claims.last() == theorem ==> spec_step(
            s,
            st,
            ExecutionPhase::Proof,
        ) == Ok::<(SpecState, Seq<u8>), CheckError>(
            (
                SpecState { stack: rest_stack, claims: st.claims.drop_last(), ..st },
                s.skip(1),
            ),
        ),
{
    assert(st.stack.drop_last() =~= rest_stack);
}

/// One length-prefixed id list followed by anything reads back as
/// itself.
pub proof fn lemma_read_list_round_trip(l: Seq<Id>, tail: Seq<u8>)
    requires
        l.len() <= 255,
    ensures
        crate::machine::spec_read_list(seq![l.len() as u8] + l + tail) == Some((l, tail)),
{
    let s = seq![l.len() as u8] + l + tail;
    assert(s[0] == l.len() as u8);
    assert(s.len() == 1 + l.len() + tail.len());
    assert(s.subrange(1, 1 + l.len() as int) =~= l);
    assert(s.skip(1 + l.len() as int) =~= tail);
}

/// A meta-variable instruction block whose five constraint lists read
/// off the stream as given builds exactly that meta-variable.
proof fn lemma_metavar_decode(
    s: Seq<u8>,
    st: SpecState,
    phase: ExecutionPhase,
    id: Id,
    l0: Seq<Id>,
    l1: Seq<Id>,
    l2: Seq<Id>,
    l3: Seq<Id>,
    l4: Seq<Id>,
    s5: Seq<u8>,
)
    requires
        s.len() >= 2,
        s[0] == 9,
        s[1] == id,
        ({
            &&& crate::machine::spec_read_list(s.skip(1).skip(1)) matches Some((a0, r1))
            &&& a0 == l0
            &&& crate::machine::spec_read_list(r1) matches Some((a1, r2))
            &&& a1 == l1
            &&& crate::machine::spec_read_list(r2) matches Some((a2, r3))
            &&& a2 == l2
            &&& crate::machine::spec_read_list(r3) matches Some((a3, r4))
            &&& a3 == l3
            &&& crate::machine::spec_read_list(r4) matches Some((a4, r5))
            &&& a4 == l4
            &&& r5 == s5
        }),
        (SpecPattern::MetaVar {
            id,
            e_fresh: l0,
            s_fresh: l1,
            positive: l2,
            negative: l3,
            app_ctx_holes: l4,
        }).well_formed(),
    ensures
        spec_step(s, st, phase) == Ok::<(SpecState, Seq<u8>), CheckError>(
            (
                SpecState {
                    stack: st.stack.push(
                        SpecTerm::Pattern(
                            SpecPattern::MetaVar {
                                id,
                                e_fresh: l0,
                                s_fresh: l1,
                                positive: l2,
                                negative: l3,
                                app_ctx_holes: l4,
                            },
                        ),
                    ),
                    ..st
                },
                s5,
            ),
        ),
{
    assert(s.skip(1)[0] == id);
}

/// Round trip of the meta-variable wire form: the serialized instruction
/// block, decoded by the machine, pushes exactly the meta-variable it
/// was built from and consumes exactly its own bytes.
#[verifier::rlimit(100)]
/// Appending sequences is associative.
proof fn lemma_append_assoc(x: Seq<u8>, y: Seq<u8>, z: Seq<u8>)
    ensures
        (x + y) + z == x + (y + z),
{
    assert((x + y) + z =~= x + (y + z));
}

/// The serializer's output, written out: the opcode and id, then each
/// constraint list behind its length byte.
proof fn lemma_serialize_metavar_bytes(id: Id, cons: Seq<Seq<Id>>)
    requires
        cons.len() == 5,
    ensures
        crate::engine::spec_serialize_metavar(id, cons) == seq![9u8, id]
            + (seq![cons[0].len() as u8] + cons[0]) + (seq![cons[1].len() as u8] + cons[1])
            + (seq![cons[2].len() as u8] + cons[2]) + (seq![cons[3].len() as u8] + cons[3])
            + (seq![cons[4].len() as u8] + cons[4]),
{
    // Unfold the serializer, one constraint list at a time.
    let p4 = cons.drop_last();
    let p3 = p4.drop_last();
    let p2 = p3.drop_last();
    let p1 = p2.drop_last();
    let p0 = p1.drop_last();
    assert(p0.len() == 0);
    assert(crate::engine::spec_serialize_metavar(id, p0) == seq![9u8, id]);
    assert(p1.last() == cons[0] && p1.drop_last() == p0);
    assert(p2.last() == cons[1] && p2.drop_last() == p1);
    assert(p3.last() == cons[2] && p3.drop_last() == p2);
    assert(p4.last() == cons[3] && p4.drop_last() == p3);
    assert(cons.last() == cons[4] && cons.drop_last() == p4);
    assert(crate::engine::spec_serialize_metavar(id, p1)
        == crate::engine::spec_serialize_metavar(id, p0) + seq![cons[0].len() as u8] + cons[0]);
    assert(crate::engine::spec_serialize_metavar(id, p2)
        == crate::engine::spec_serialize_metavar(id, p1) + seq![cons[1].len() as u8] + cons[1]);
    assert(crate::engine::spec_serialize_metavar(id, p3)
        == crate::engine::spec_serialize_metavar(id, p2) + seq![cons[2].len() as u8] + cons[2]);
    assert(crate::engine::spec_serialize_metavar(id, p4)
        == crate::engine::spec_serialize_metavar(id, p3) + seq![cons[3].len() as u8] + cons[3]);
    assert(crate::engine::spec_serialize_metavar(id, cons)
        == crate::engine::spec_serialize_metavar(id, p4) + seq![cons[4].len() as u8] + cons[4]);
    assert(crate::engine::spec_serialize_metavar(id, cons) =~= seq![9u8, id]
        + (seq![cons[0].len() as u8] + cons[0]) + (seq![cons[1].len() as u8] + cons[1])
        + (seq![cons[2].len() as u8] + cons[2]) + (seq![cons[3].len() as u8] + cons[3])
        + (seq![cons[4].len() as u8] + cons[4]));
}

pub proof fn lemma_serialize_metavar_round_trip(
    id: Id,
    cons: Seq<Seq<Id>>,
    tail: Seq<u8>,
    st: SpecState,
    phase: ExecutionPhase,
)
    requires
        cons.len() == 5,
        forall|k: int| 0 <= k < 5 ==> (#[trigger] cons[k]).len() <= 255,
        (SpecPattern::MetaVar {
            id,
            e_fresh: cons[0],
            s_fresh: cons[1],
            positive: cons[2],
            negative: cons[3],
            app_ctx_holes: cons[4],
        }).well_formed(),
    ensures
        spec_step(crate::engine::spec_serialize_metavar(id, cons) + tail, st, phase) == Ok::<
            (SpecState, Seq<u8>),
            CheckError,
        >(
            (
                SpecState {
                    stack: st.stack.push(
                        SpecTerm::Pattern(
                            SpecPattern::MetaVar {
                                id,
                                e_fresh: cons[0],
                                s_fresh: cons[1],
                                positive: cons[2],
                                negative: cons[3],
                                app_ctx_holes: cons[4],
                            },
                        ),
                    ),
                    ..st
                },
                tail,
            ),
        ),
{
    let head = seq![9u8, id];
    let e0 = seq![cons[0].len() as u8] + cons[0];
    let e1 = seq![cons[1].len() as u8] + cons[1];
    let e2 = seq![cons[2].len() as u8] + cons[2];
    let e3 = seq![cons[3].len() as u8] + cons[3];
    let e4 = seq![cons[4].len() as u8] + cons[4];
    lemma_serialize_metavar_bytes(id, cons);
    let bytes = crate::engine::spec_serialize_metavar(id, cons);

    // The serialized bytes followed by the tail, regrouped so that each
    // length-prefixed list heads its own suffix.
    let r3 = e4 + tail;
    let r2 = e3 + r3;
    let r1 = e2 + r2;
    let r0 = e1 + r1;
    let s = head + (e0 + r0);
    lemma_append_assoc(head + e0 + e1 + e2 + e3, e4, tail);
    lemma_append_assoc(head + e0 + e1 + e2, e3, r3);
    lemma_append_assoc(head + e0 + e1, e2, r2);
    lemma_append_assoc(head + e0, e1, r1);
    lemma_append_assoc(head, e0, r0);
    assert(bytes + tail == s);

    assert(s[0] == 9);
    assert(s[1] == id);
    let rest = s.skip(1);
    assert(rest.skip(1) =~= e0 + r0);

    // Peel the five length-prefixed lists off the front.
    lemma_read_list_round_trip(cons[0], r0);
    lemma_read_list_round_trip(cons[1], r1);
    lemma_read_list_round_trip(cons[2], r2);
    lemma_read_list_round_trip(cons[3], r3);
    lemma_read_list_round_trip(cons[4], tail);
    lemma_metavar_decode(
        s,
        st,
        phase,
        id,
        cons[0],
        cons[1],
        cons[2],
        cons[3],
        cons[4],
        tail,
    );
}

/// The pattern a stack cell carries has well-placed pending
/// substitutions.
pub open spec fn term_heads_ok(t: SpecTerm) -> bool {
    match t {
        SpecTerm::Pattern(p) => p.subst_heads_ok(),
        SpecTerm::Proved(p) => p.subst_heads_ok(),
    }
}

/// The pattern a memory cell carries has well-placed pending
/// substitutions.
pub open spec fn entry_heads_ok(e: SpecEntry) -> bool {
    match e {
        SpecEntry::Pattern(p) => p.subst_heads_ok(),
        SpecEntry::Proved(p) => p.subst_heads_ok(),
    }
}

/// Every pattern the machine state holds — on the stack, in memory, in
/// the claim queue and in the axiom pool — has well-placed pending
/// substitutions.
pub open spec fn state_heads_ok(st: SpecState) -> bool {
    &&& forall|k: int| 0 <= k < st.stack.len() ==> term_heads_ok(#[trigger] st.stack[k])
    &&& forall|k: int| 0 <= k < st.memory.len() ==> entry_heads_ok(#[trigger] st.memory[k])
    &&& forall|k: int| 0 <= k < st.claims.len() ==> (#[trigger] st.claims[k]).subst_heads_ok()
    &&& forall|k: int| 0 <= k < st.axioms.len() ==> entry_heads_ok(#[trigger] st.axioms[k])
}

/// Eager element-variable substitution keeps pending substitutions on
/// meta-variable heads.
pub proof fn lemma_apply_esubst_preserves_heads(p: SpecPattern, v: Id, plug: SpecPattern)
    requires
        p.subst_heads_ok(),
        plug.subst_heads_ok(),
    ensures
        p.apply_esubst(v, plug).subst_heads_ok(),
    decreases p,
{
    match p {
        SpecPattern::Implication { left, right } => {
            lemma_apply_esubst_preserves_heads(*left, v, plug);
            lemma_apply_esubst_preserves_heads(*right, v, plug);
        },
        SpecPattern::Application { left, right } => {
            lemma_apply_esubst_preserves_heads(*left, v, plug);
            lemma_apply_esubst_preserves_heads(*right, v, plug);
        },
        SpecPattern::Exists { var, subpattern } => {
            if var != v {
                lemma_apply_esubst_preserves_heads(*subpattern, v, plug);
            }
        },
        SpecPattern::Mu { subpattern, .. } => {
            lemma_apply_esubst_preserves_heads(*subpattern, v, plug);
        },
        _ => {},
    }
}

/// Eager set-variable substitution keeps pending substitutions on
/// meta-variable heads.
pub proof fn lemma_apply_ssubst_preserves_heads(p: SpecPattern, v: Id, plug: SpecPattern)
    requires
        p.subst_heads_ok(),
        plug.subst_heads_ok(),
    ensures
        p.apply_ssubst(v, plug).subst_heads_ok(),
    decreases p,
{
    match p {
        SpecPattern::Implication { left, right } => {
            lemma_apply_ssubst_preserves_heads(*left, v, plug);
            lemma_apply_ssubst_preserves_heads(*right, v, plug);
        },
        SpecPattern::Application { left, right } => {
            lemma_apply_ssubst_preserves_heads(*left, v, plug);
            lemma_apply_ssubst_preserves_heads(*right, v, plug);
        },
        SpecPattern::Exists { subpattern, .. } => {
            lemma_apply_ssubst_preserves_heads(*subpattern, v, plug);
        },
        SpecPattern::Mu { var, subpattern } => {
            if var != v {
                lemma_apply_ssubst_preserves_heads(*subpattern, v, plug);
            }
        },
        _ => {},
    }
}

/// Instantiation keeps pending substitutions on meta-variable heads,
/// provided every plug has them so.
pub proof fn lemma_instantiate_preserves_heads(
    p: SpecPattern,
    ids: Seq<Id>,
    plugs: Seq<SpecPattern>,
)
    requires
        p.subst_heads_ok(),
        forall|k: int| 0 <= k < plugs.len() ==> (#[trigger] plugs[k]).subst_heads_ok(),
    ensures
        p.instantiate(ids, plugs) matches Ok(q) ==> q.subst_heads_ok(),
    decreases p,
{
    match p {
        SpecPattern::MetaVar { id, .. } => {
            lemma_first_pos_in_range(ids, id);
            match first_pos(ids, id) {
                Some(pos) => {
                    if pos < plugs.len() {
                        assert(plugs[pos].subst_heads_ok());
                    }
                },
                None => {},
            }
        },
        SpecPattern::Implication { left, right } => {
            lemma_instantiate_preserves_heads(*left, ids, plugs);
            lemma_instantiate_preserves_heads(*right, ids, plugs);
        },
        SpecPattern::Application { left, right } => {
            lemma_instantiate_preserves_heads(*left, ids, plugs);
            lemma_instantiate_preserves_heads(*right, ids, plugs);
        },
        SpecPattern::Exists { subpattern, .. } => {
            lemma_instantiate_preserves_heads(*subpattern, ids, plugs);
        },
        SpecPattern::Mu { subpattern, .. } => {
            lemma_instantiate_preserves_heads(*subpattern, ids, plugs);
        },
        SpecPattern::ESubst { pattern, evar_id, plug } => {
            lemma_instantiate_preserves_heads(*pattern, ids, plugs);
            lemma_instantiate_preserves_heads(*plug, ids, plugs);
            match pattern.instantiate(ids, plugs) {
                Ok(ip) => match plug.instantiate(ids, plugs) {
                    Ok(ipl) => lemma_apply_esubst_preserves_heads(ip, evar_id, ipl),
                    _ => {},
                },
                _ => {},
            }
        },
        SpecPattern::SSubst { pattern, svar_id, plug } => {
            lemma_instantiate_preserves_heads(*pattern, ids, plugs);
            lemma_instantiate_preserves_heads(*plug, ids, plugs);
            match pattern.instantiate(ids, plugs) {
                Ok(ip) => match plug.instantiate(ids, plugs) {
                    Ok(ipl) => lemma_apply_ssubst_preserves_heads(ip, svar_id, ipl),
                    _ => {},
                },
                _ => {},
            }
        },
        _ => {},
    }
}

/// One machine step keeps every held pattern's pending substitutions on
/// meta-variable heads: the machine never constructs a pending node over
/// a concrete head.
#[verifier::rlimit(100)]
pub proof fn lemma_step_preserves_heads(s: Seq<u8>, st: SpecState, phase: ExecutionPhase)
    requires
        s.len() > 0,
        state_heads_ok(st),
    ensures
        spec_step(s, st, phase) matches Ok((st2, _)) ==> state_heads_ok(st2),
{
    reveal_with_fuel(SpecPattern::subst_heads_ok, 6);
    let rest = s.skip(1);
    match crate::machine::spec_from_byte(s[0]) {
        Some(Instruction::Instantiate) => {
            if rest.len() >= 1 && st.stack.len() > 0 {
                let n = rest[0] as int;
                let body = rest.skip(1);
                let stack1 = st.stack.drop_last();
                if body.len() >= n && crate::machine::spec_pops_are_patterns(stack1, n) {
                    let plugs = spec_top_patterns(stack1, n);
                    let ids = body.subrange(0, n);
                    assert forall|k: int| 0 <= k < plugs.len() implies (#[trigger] plugs[k])
                        .subst_heads_ok() by {
                        let t = stack1[stack1.len() - 1 - k];
                        assert(t == st.stack[stack1.len() - 1 - k]);
                        assert(term_heads_ok(t));
                    }
                    assert(term_heads_ok(st.stack[st.stack.len() - 1]));
                    match st.stack.last() {
                        SpecTerm::Pattern(p) => {
                            lemma_instantiate_preserves_heads(p, ids, plugs);
                        },
                        SpecTerm::Proved(p) => {
                            lemma_instantiate_preserves_heads(p, ids, plugs);
                        },
                    }
                }
            }
        },
        _ => {},
    }
}

/// A whole phase run keeps every held pattern's pending substitutions on
/// meta-variable heads.
pub proof fn lemma_execute_preserves_heads(s: Seq<u8>, st: SpecState, phase: ExecutionPhase)
    requires
        state_heads_ok(st),
    ensures
        spec_execute(s, st, phase) matches Ok(st2) ==> state_heads_ok(st2),
    decreases s.len(),
{
    if s.len() > 0 {
        lemma_step_preserves_heads(s, st, phase);
        match spec_step(s, st, phase) {
            Ok((st2, s2)) => lemma_execute_preserves_heads(s2, st2, phase),
            _ => {},
        }
    }
}

/// Acceptance: a whole run is accepted exactly when all three phases
/// execute without error and the proof phase, seeded with the axioms as
/// memory and the published claims as queue, leaves the queue empty —
/// that is, when every published claim was discharged.
pub proof fn lemma_acceptance(gamma: Seq<u8>, claims: Seq<u8>, proof: Seq<u8>)
    ensures
        spec_verify(gamma, claims, proof) is Ok <==> {
            &&& spec_execute(gamma, spec_empty_state(), ExecutionPhase::Gamma) matches Ok(sg)
            &&& spec_execute(claims, spec_empty_state(), ExecutionPhase::Claim) matches Ok(sc)
            &&& spec_execute(
                proof,
                SpecState {
                    stack: Seq::empty(),
                    memory: sg.axioms,
                    claims: sc.claims,
                    axioms: Seq::empty(),
                },
                ExecutionPhase::Proof,
            ) matches Ok(sp)
            &&& sp.claims.len() == 0
        },
{
}

/// Skipping within the left part of an appended sequence.
proof fn lemma_skip_append(a: Seq<u8>, b: Seq<u8>, k: int)
    requires
        0 <= k <= a.len(),
    ensures
        (a + b).skip(k) == a.skip(k) + b,
{
    assert((a + b).skip(k) =~= a.skip(k) + b);
}

/// A successful length-prefixed read is unchanged by appending to the
/// stream: the appendix lands in the remainder.
proof fn lemma_read_list_extends(x: Seq<u8>, b: Seq<u8>)
    ensures
        crate::machine::spec_read_list(x) matches Some((l, r))
            ==> crate::machine::spec_read_list(x + b) == Some((l, r + b)),
{
    match crate::machine::spec_read_list(x) {
        Some((l, r)) => {
            let n = x[0] as int;
            assert((x + b)[0] == x[0]);
            assert((x + b).subrange(1, 1 + n) =~= x.subrange(1, 1 + n));
            lemma_skip_append(x, b, 1 + n);
        },
        None => {},
    }
}

/// One machine step is unchanged by appending bytes to the stream: the
/// step consumes the same instruction block and the appendix lands
/// untouched in the remaining stream.
#[verifier::rlimit(100)]
pub proof fn lemma_step_extends(a: Seq<u8>, b: Seq<u8>, st: SpecState, phase: ExecutionPhase)
    requires
        a.len() > 0,
    ensures
        spec_step(a, st, phase) matches Ok((st2, r)) ==> spec_step(a + b, st, phase) == Ok::<
            (SpecState, Seq<u8>),
            CheckError,
        >((st2, r + b)),
{
    let s = a + b;
    assert(s[0] == a[0]);
    lemma_skip_append(a, b, 1);
    match crate::machine::spec_from_byte(a[0]) {
        Some(Instruction::EVar) | Some(Instruction::SVar) | Some(Instruction::Symbol)
            | Some(Instruction::Exists) | Some(Instruction::Mu) | Some(Instruction::ESubst)
            | Some(Instruction::SSubst) | Some(Instruction::Substitution)
            | Some(Instruction::Load) => {
            // One immediate byte: the block is the first two bytes.
            if a.len() >= 2 {
                lemma_skip_append(a, b, 2);
                assert(a.skip(1).skip(1) =~= a.skip(2));
                assert(s.skip(1).skip(1) =~= s.skip(2));
            }
        },
        Some(Instruction::MetaVar) => {
            if a.len() >= 2 {
                lemma_skip_append(a, b, 2);
                assert(a.skip(1).skip(1) =~= a.skip(2));
                assert(s.skip(1).skip(1) =~= s.skip(2));
                let x0 = a.skip(1).skip(1);
                assert(s.skip(1).skip(1) == x0 + b);
                lemma_read_list_extends(x0, b);
                match crate::machine::spec_read_list(x0) {
                    Some((l0, s1)) => {
                        lemma_read_list_extends(s1, b);
                        match crate::machine::spec_read_list(s1) {
                            Some((l1, s2)) => {
                                lemma_read_list_extends(s2, b);
                                match crate::machine::spec_read_list(s2) {
                                    Some((l2, s3)) => {
                                        lemma_read_list_extends(s3, b);
                                        match crate::machine::spec_read_list(s3) {
                                            Some((l3, s4)) => {
                                                lemma_read_list_extends(s4, b);
                                            },
                                            None => {},
                                        }
                                    },
                                    None => {},
                                }
                            },
                            None => {},
                        }
                    },
                    None => {},
                }
            }
        },
        Some(Instruction::Instantiate) => {
            if a.len() >= 2 {
                lemma_skip_append(a, b, 2);
                assert(a.skip(1).skip(1) =~= a.skip(2));
                assert(s.skip(1).skip(1) =~= s.skip(2));
                let n = a.skip(1)[0] as int;
                let body = a.skip(1).skip(1);
                assert(s.skip(1).skip(1) == body + b);
                if body.len() >= n {
                    assert((body + b).subrange(0, n) =~= body.subrange(0, n));
                    assert((body + b).skip(n) =~= body.skip(n) + b);
                }
            }
        },
        _ => {},
    }
}

/// Executing an appended stream runs the front first, then the appendix
/// from the state the front produced.
pub proof fn lemma_execute_append(a: Seq<u8>, b: Seq<u8>, st: SpecState, phase: ExecutionPhase)
    ensures
        spec_execute(a, st, phase) matches Ok(st1) ==> spec_execute(a + b, st, phase)
            == spec_execute(b, st1, phase),
    decreases a.len(),
{
    if a.len() == 0 {
        assert(a + b =~= b);
    } else {
        match spec_execute(a, st, phase) {
            Ok(st1) => {
                lemma_step_extends(a, b, st, phase);
                match spec_step(a, st, phase) {
                    Ok((st2, r)) => {
                        lemma_execute_append(r, b, st2, phase);
                    },
                    Err(_) => {},
                }
            },
            Err(_) => {},
        }
    }
}

/// ϕ₀ → ϕ₀, the identity claim.
pub open spec fn spec_phi_implies_phi() -> SpecPattern {
    SpecPattern::implies(crate::machine::spec_phi(0), crate::machine::spec_phi(0))
}

/// The claim stream that builds ϕ₀ → ϕ₀ — an unconstrained
/// meta-variable, saved, loaded back and combined into an implication —
/// and publishes it.
pub open spec fn spec_identity_claim_stream() -> Seq<u8> {
    seq![9u8, 0u8, 0u8, 0u8, 0u8, 0u8, 0u8, 28u8, 29u8, 0u8, 5u8, 30u8]
}

/// Running the identity claim stream in the claim phase enqueues exactly
/// ϕ₀ → ϕ₀.
#[verifier::rlimit(100)]
proof fn lemma_identity_claim_stream_runs()
    ensures
        ({
            &&& spec_execute(
                spec_identity_claim_stream(),
                spec_empty_state(),
                ExecutionPhase::Claim,
            ) matches Ok(st)
            &&& st.claims == seq![spec_phi_implies_phi()]
        }),
{
    let phase = ExecutionPhase::Claim;
    let phi = crate::machine::spec_phi(0);
    let imp = spec_phi_implies_phi();
    let s0 = spec_identity_claim_stream();
    let st0 = spec_empty_state();

    // The meta-variable block: the serialized unconstrained ϕ₀.
    let no_cons: Seq<Seq<Id>> = seq![
        Seq::empty(),
        Seq::empty(),
        Seq::empty(),
        Seq::empty(),
        Seq::empty(),
    ];
    let t1: Seq<u8> = seq![28u8, 29u8, 0u8, 5u8, 30u8];
    let mv = SpecPattern::MetaVar {
        id: 0,
        e_fresh: no_cons[0],
        s_fresh: no_cons[1],
        positive: no_cons[2],
        negative: no_cons[3],
        app_ctx_holes: no_cons[4],
    };
    assert(mv == phi);
    assert(mv.well_formed());
    lemma_serialize_metavar_round_trip(0, no_cons, t1, st0, phase);
    lemma_serialize_metavar_bytes(0, no_cons);
    assert(crate::engine::spec_serialize_metavar(0, no_cons) + t1 =~= s0);
    let st_a = SpecState { stack: st0.stack.push(SpecTerm::Pattern(phi)), ..st0 };
    assert(spec_step(s0, st0, phase) == Ok::<(SpecState, Seq<u8>), CheckError>((st_a, t1)));
    assert(spec_execute(s0, st0, phase) == spec_execute(t1, st_a, phase));

    // Save: the meta-variable is remembered in memory.
    let t2: Seq<u8> = seq![29u8, 0u8, 5u8, 30u8];
    assert(t1[0] == 28);
    assert(t1.skip(1) =~= t2);
    assert(st_a.stack.last() == SpecTerm::Pattern(phi));
    let st_b = SpecState { memory: st_a.memory.push(SpecEntry::Pattern(phi)), ..st_a };
    assert(spec_step(t1, st_a, phase) == Ok::<(SpecState, Seq<u8>), CheckError>((st_b, t2)));
    assert(spec_execute(t1, st_a, phase) == spec_execute(t2, st_b, phase));

    // Load 0: the meta-variable comes back onto the stack.
    let t3: Seq<u8> = seq![5u8, 30u8];
    assert(t2[0] == 29);
    assert(t2.skip(1)[0] == t2[1]);
    assert(t2.skip(1).skip(1) =~= t3);
    assert(st_b.memory.len() == 1);
    assert(st_b.memory[0] == SpecEntry::Pattern(phi));
    let st_c = SpecState { stack: st_b.stack.push(SpecTerm::Pattern(phi)), ..st_b };
    assert(spec_step(t2, st_b, phase) == Ok::<(SpecState, Seq<u8>), CheckError>((st_c, t3)));
    assert(spec_execute(t2, st_b, phase) == spec_execute(t3, st_c, phase));

    // Implication: the two copies combine into ϕ₀ → ϕ₀.
    let t4: Seq<u8> = seq![30u8];
    assert(t3[0] == 5);
    assert(t3.skip(1) =~= t4);
    assert(st_c.stack.last() == SpecTerm::Pattern(phi));
    assert(st_c.stack.drop_last() =~= st_b.stack);
    assert(st_b.stack.last() == SpecTerm::Pattern(phi));
    assert(st_b.stack.drop_last() =~= Seq::<SpecTerm>::empty());
    let st_d = SpecState {
        stack: Seq::<SpecTerm>::empty().push(SpecTerm::Pattern(imp)),
        ..st_c
    };
    assert(spec_step(t3, st_c, phase) == Ok::<(SpecState, Seq<u8>), CheckError>((st_d, t4)));
    assert(spec_execute(t3, st_c, phase) == spec_execute(t4, st_d, phase));

    // Publish: the claim is enqueued.
    assert(t4[0] == 30);
    assert(t4.skip(1) =~= Seq::<u8>::empty());
    assert(st_d.stack.last() == SpecTerm::Pattern(imp));
    assert(st_d.stack.drop_last() =~= Seq::<SpecTerm>::empty());
    let st_e = SpecState {
        stack: Seq::<SpecTerm>::empty(),
        claims: st_d.claims.push(imp),
        ..st_d
    };
    assert(spec_step(t4, st_d, phase) == Ok::<(SpecState, Seq<u8>), CheckError>(
        (st_e, Seq::<u8>::empty()),
    ));
    assert(spec_execute(t4, st_d, phase) == spec_execute(Seq::<u8>::empty(), st_e, phase));
    assert(spec_execute(Seq::<u8>::empty(), st_e, phase) == Ok::<SpecState, CheckError>(st_e));
    assert(st_e.claims =~= seq![imp]);
}

/// The identity-claim round trip: with an empty theory and the claim
/// stream that publishes ϕ₀ → ϕ₀, any proof stream whose execution
/// leaves the proved ϕ₀ → ϕ₀ on top of the stack with the claim still
/// pending, followed by a single Publish, is accepted.
pub proof fn lemma_identity_claim_round_trip(
    prefix: Seq<u8>,
    rest_stack: Seq<SpecTerm>,
    st: SpecState,
)
    requires
        spec_execute(
            prefix,
            SpecState {
                stack: Seq::empty(),
                memory: Seq::empty(),
                claims: seq![spec_phi_implies_phi()],
                axioms: Seq::empty(),
            },
            ExecutionPhase::Proof,
        ) == Ok::<SpecState, CheckError>(st),
        st.stack == rest_stack.push(SpecTerm::Proved(spec_phi_implies_phi())),
        st.claims == seq![spec_phi_implies_phi()],
    ensures
        spec_verify(Seq::empty(), spec_identity_claim_stream(), prefix + seq![30u8]) == Ok::<
            (),
            CheckError,
        >(()),
{
    // The empty theory phase leaves the empty state.
    assert(spec_execute(Seq::<u8>::empty(), spec_empty_state(), ExecutionPhase::Gamma)
        == Ok::<SpecState, CheckError>(spec_empty_state()));
    // The claim phase enqueues exactly the identity claim.
    lemma_identity_claim_stream_runs();
    match spec_execute(
        spec_identity_claim_stream(),
        spec_empty_state(),
        ExecutionPhase::Claim,
    ) {
        Ok(st_claim) => {
            let init = SpecState {
                stack: Seq::empty(),
                memory: spec_empty_state().axioms,
                claims: st_claim.claims,
                axioms: Seq::empty(),
            };
            assert(init == SpecState {
                stack: Seq::empty(),
                memory: Seq::empty(),
                claims: seq![spec_phi_implies_phi()],
                axioms: Seq::empty(),
            });
            // Run the prefix, then the final Publish.
            lemma_execute_append(prefix, seq![30u8], init, ExecutionPhase::Proof);
            let pub_stream: Seq<u8> = seq![30u8];
            lemma_publish_discharges_claim(
                pub_stream,
                st,
                spec_phi_implies_phi(),
                rest_stack,
            );
            assert(st.claims.len() > 0 && st.claims.last() == spec_phi_implies_phi());
            match spec_step(pub_stream, st, ExecutionPhase::Proof) {
                Ok((st_done, remaining)) => {
                    assert(remaining == pub_stream.skip(1));
                    assert(remaining =~= Seq::<u8>::empty());
                    assert(st_done.claims == st.claims.drop_last());
                    assert(st_done.claims =~= Seq::<SpecPattern>::empty());
                    assert(spec_execute(pub_stream, st, ExecutionPhase::Proof)
                        == spec_execute(remaining, st_done, ExecutionPhase::Proof));
                    assert(spec_execute(Seq::<u8>::empty(), st_done, ExecutionPhase::Proof)
                        == Ok::<SpecState, CheckError>(st_done));
                    assert(spec_execute(prefix + seq![30u8], init, ExecutionPhase::Proof)
                        == Ok::<SpecState, CheckError>(st_done));
                    assert(st_done.claims.len() == 0);
                },
                Err(_) => {},
            }
        },
        Err(_) => {},
    }
}

} // verus!
