//! The substitution engine: the two eager capture-avoiding substitution
//! operators and the multi-variable meta-level instantiation driver.

use vstd::prelude::*;
use std::rc::Rc;

use crate::error::CheckError;
use crate::pattern::{
    app, esubst, exists_pat, mu, pat_view, ssubst, Id, Pattern, SpecPattern,
};

verus! {

impl SpecPattern {
    /// Eager element-variable substitution: push `[plug / evar_id]` inward
    /// until a head that cannot absorb it is reached; a meta-variable or a
    /// pending substitution defers it as a new pending node.
    pub open spec fn apply_esubst(self, evar_id: Id, plug: SpecPattern) -> SpecPattern
        decreases self,
    {
        match self {
            SpecPattern::EVar(e) => if e == evar_id {
                plug
            } else {
                self
            },
            SpecPattern::Implication { left, right } => SpecPattern::implies(
                left.apply_esubst(evar_id, plug),
                right.apply_esubst(evar_id, plug),
            ),
            SpecPattern::Application { left, right } => SpecPattern::app(
                left.apply_esubst(evar_id, plug),
                right.apply_esubst(evar_id, plug),
            ),
            SpecPattern::Exists { var, subpattern } => if var == evar_id {
                // The binder shadows the substituted variable.
                self
            } else {
                SpecPattern::exists_pat(var, subpattern.apply_esubst(evar_id, plug))
            },
            SpecPattern::Mu { var, subpattern } => SpecPattern::mu(
                var,
                subpattern.apply_esubst(evar_id, plug),
            ),
            SpecPattern::MetaVar { .. } => SpecPattern::esubst(self, evar_id, plug),
            SpecPattern::ESubst { .. } => SpecPattern::esubst(self, evar_id, plug),
            SpecPattern::SSubst { .. } => SpecPattern::esubst(self, evar_id, plug),
            _ => self,
        }
    }

    /// Eager set-variable substitution, symmetric to `apply_esubst`: the
    /// Mu binder shadows, Exists always distributes.
    pub open spec fn apply_ssubst(self, svar_id: Id, plug: SpecPattern) -> SpecPattern
        decreases self,
    {
        match self {
            SpecPattern::SVar(s) => if s == svar_id {
                plug
            } else {
                self
            },
            SpecPattern::Implication { left, right } => SpecPattern::implies(
                left.apply_ssubst(svar_id, plug),
                right.apply_ssubst(svar_id, plug),
            ),
            SpecPattern::Application { left, right } => SpecPattern::app(
                left.apply_ssubst(svar_id, plug),
                right.apply_ssubst(svar_id, plug),
            ),
            SpecPattern::Exists { var, subpattern } => SpecPattern::exists_pat(
                var,
                subpattern.apply_ssubst(svar_id, plug),
            ),
            SpecPattern::Mu { var, subpattern } => if var == svar_id {
                self
            } else {
                SpecPattern::mu(var, subpattern.apply_ssubst(svar_id, plug))
            },
            SpecPattern::MetaVar { .. } => SpecPattern::ssubst(self, svar_id, plug),
            SpecPattern::ESubst { .. } => SpecPattern::ssubst(self, svar_id, plug),
            SpecPattern::SSubst { .. } => SpecPattern::ssubst(self, svar_id, plug),
            _ => self,
        }
    }

    /// Simultaneously replace each meta-variable whose id occurs in `ids`
    /// by the plug at the first matching index, firing pending
    /// substitutions whose head becomes concrete.  An error means a plug
    /// broke a constraint of the meta-variable it replaces, or too few
    /// plugs were supplied.
    pub open spec fn instantiate(self, ids: Seq<Id>, plugs: Seq<SpecPattern>) -> Result<
        SpecPattern,
        CheckError,
    >
        decreases self,
    {
        match self {
            SpecPattern::EVar(_) => Ok(self),
            SpecPattern::SVar(_) => Ok(self),
            SpecPattern::Symbol(_) => Ok(self),
            SpecPattern::MetaVar { id, e_fresh, s_fresh, positive, negative, .. } => {
                match first_pos(ids, id) {
                    None => Ok(self),
                    Some(pos) => if pos >= plugs.len() {
                        Err(CheckError::InstantiationConstraintBroken)
                    } else if constraints_ok(plugs[pos], e_fresh, s_fresh, positive, negative) {
                        Ok(plugs[pos])
                    } else {
                        Err(CheckError::InstantiationConstraintBroken)
                    },
                }
            },
            SpecPattern::Implication { left, right } => {
                match (left.instantiate(ids, plugs), right.instantiate(ids, plugs)) {
                    (Ok(l), Ok(r)) => Ok(SpecPattern::implies(l, r)),
                    (Err(e), _) => Err(e),
                    (_, Err(e)) => Err(e),
                }
            },
            SpecPattern::Application { left, right } => {
                match (left.instantiate(ids, plugs), right.instantiate(ids, plugs)) {
                    (Ok(l), Ok(r)) => Ok(SpecPattern::app(l, r)),
                    (Err(e), _) => Err(e),
                    (_, Err(e)) => Err(e),
                }
            },
            SpecPattern::Exists { var, subpattern } => {
                match subpattern.instantiate(ids, plugs) {
                    Ok(s) => Ok(SpecPattern::exists_pat(var, s)),
                    Err(e) => Err(e),
                }
            },
            SpecPattern::Mu { var, subpattern } => {
                match subpattern.instantiate(ids, plugs) {
                    Ok(s) => Ok(SpecPattern::mu(var, s)),
                    Err(e) => Err(e),
                }
            },
            SpecPattern::ESubst { pattern, evar_id, plug } => {
                match (pattern.instantiate(ids, plugs), plug.instantiate(ids, plugs)) {
                    (Ok(ip), Ok(ipl)) => Ok(ip.apply_esubst(evar_id, ipl)),
                    (Err(e), _) => Err(e),
                    (_, Err(e)) => Err(e),
                }
            },
            SpecPattern::SSubst { pattern, svar_id, plug } => {
                match (pattern.instantiate(ids, plugs), plug.instantiate(ids, plugs)) {
                    (Ok(ip), Ok(ipl)) => Ok(ip.apply_ssubst(svar_id, ipl)),
                    (Err(e), _) => Err(e),
                    (_, Err(e)) => Err(e),
                }
            },
        }
    }
}

/// The first index at which `id` occurs in `ids`.
pub open spec fn first_pos(ids: Seq<Id>, id: Id) -> Option<int>
    decreases ids.len(),
{
    if ids.len() == 0 {
        None
    } else if ids[0] == id {
        Some(0int)
    } else {
        match first_pos(ids.skip(1), id) {
            None => None,
            Some(k) => Some(k + 1),
        }
    }
}

/// The plug satisfies every constraint of the meta-variable it replaces.
pub open spec fn constraints_ok(
    plug: SpecPattern,
    e_fresh: Seq<Id>,
    s_fresh: Seq<Id>,
    positive: Seq<Id>,
    negative: Seq<Id>,
) -> bool {
    &&& forall|k: int| 0 <= k < e_fresh.len() ==> plug.e_fresh(#[trigger] e_fresh[k])
    &&& forall|k: int| 0 <= k < s_fresh.len() ==> plug.s_fresh(#[trigger] s_fresh[k])
    &&& forall|k: int| 0 <= k < positive.len() ==> plug.positive(#[trigger] positive[k])
    &&& forall|k: int| 0 <= k < negative.len() ==> plug.negative(#[trigger] negative[k])
}

/// The model of a sequence of shared patterns.
pub open spec fn pats_view(plugs: Seq<Rc<Pattern>>) -> Seq<SpecPattern> {
    plugs.map_values(|q: Rc<Pattern>| pat_view(*q))
}

/// A found first position lies within the sequence.
pub proof fn lemma_first_pos_in_range(ids: Seq<Id>, id: Id)
    ensures
        first_pos(ids, id) matches Some(k) ==> 0 <= k < ids.len(),
    decreases ids.len(),
{
    if ids.len() > 0 && ids[0] != id {
        lemma_first_pos_in_range(ids.skip(1), id);
    }
}

proof fn lemma_first_pos_hit(ids: Seq<Id>, id: Id, i: int)
    requires
        0 <= i < ids.len(),
        ids[i] == id,
        forall|k: int| 0 <= k < i ==> ids[k] != id,
    ensures
        first_pos(ids, id) == Some(i),
    decreases i,
{
    if i > 0 {
        lemma_first_pos_hit(ids.skip(1), id, i - 1);
    }
}

pub proof fn lemma_first_pos_miss(ids: Seq<Id>, id: Id)
    requires
        forall|k: int| 0 <= k < ids.len() ==> ids[k] != id,
    ensures
        first_pos(ids, id) is None,
    decreases ids.len(),
{
    if ids.len() > 0 {
        lemma_first_pos_miss(ids.skip(1), id);
    }
}

/// The first index at which `id` occurs in the slice.
fn find_pos(ids: &[Id], id: Id) -> (r: Option<usize>)
    ensures
        match r {
            None => first_pos(ids@, id) is None,
            Some(i) => first_pos(ids@, id) == Some(i as int),
        },
{
    let mut i: usize = 0;
    while i < ids.len()
        invariant
            i <= ids@.len(),
            forall|k: int| 0 <= k < i ==> ids@[k] != id,
        decreases ids@.len() - i,
    {
        if ids[i] == id {
            proof {
                lemma_first_pos_hit(ids@, id, i as int);
            }
            return Some(i);
        }
        i = i + 1;
    }
    proof {
        lemma_first_pos_miss(ids@, id);
    }
    None
}

/// Eager element-variable substitution.
pub fn apply_esubst(pattern: &Rc<Pattern>, evar_id: Id, plug: &Rc<Pattern>) -> (r: Rc<Pattern>)
    ensures
        r@ == pattern@.apply_esubst(evar_id, plug@),
    decreases *pattern,
{
    match &**pattern {
        Pattern::EVar(e) => {
            if *e == evar_id {
                Rc::clone(plug)
            } else {
                Rc::clone(pattern)
            }
        },
        Pattern::Implication { left, right } => crate::pattern::implies(
            apply_esubst(left, evar_id, plug),
            apply_esubst(right, evar_id, plug),
        ),
        Pattern::Application { left, right } => app(
            apply_esubst(left, evar_id, plug),
            apply_esubst(right, evar_id, plug),
        ),
        Pattern::Exists { var, subpattern } => {
            if *var == evar_id {
                Rc::clone(pattern)
            } else {
                exists_pat(*var, apply_esubst(subpattern, evar_id, plug))
            }
        },
        Pattern::Mu { var, subpattern } => mu(*var, apply_esubst(subpattern, evar_id, plug)),
        Pattern::MetaVar { .. } => esubst(Rc::clone(pattern), evar_id, Rc::clone(plug)),
        Pattern::ESubst { .. } => esubst(Rc::clone(pattern), evar_id, Rc::clone(plug)),
        Pattern::SSubst { .. } => esubst(Rc::clone(pattern), evar_id, Rc::clone(plug)),
        _ => Rc::clone(pattern),
    }
}

/// Eager set-variable substitution.
pub fn apply_ssubst(pattern: &Rc<Pattern>, svar_id: Id, plug: &Rc<Pattern>) -> (r: Rc<Pattern>)
    ensures
        r@ == pattern@.apply_ssubst(svar_id, plug@),
    decreases *pattern,
{
    match &**pattern {
        Pattern::SVar(s) => {
            if *s == svar_id {
                Rc::clone(plug)
            } else {
                Rc::clone(pattern)
            }
        },
        Pattern::Implication { left, right } => crate::pattern::implies(
            apply_ssubst(left, svar_id, plug),
            apply_ssubst(right, svar_id, plug),
        ),
        Pattern::Application { left, right } => app(
            apply_ssubst(left, svar_id, plug),
            apply_ssubst(right, svar_id, plug),
        ),
        Pattern::Exists { var, subpattern } => exists_pat(
            *var,
            apply_ssubst(subpattern, svar_id, plug),
        ),
        Pattern::Mu { var, subpattern } => {
            if *var == svar_id {
                Rc::clone(pattern)
            } else {
                mu(*var, apply_ssubst(subpattern, svar_id, plug))
            }
        },
        Pattern::MetaVar { .. } => ssubst(Rc::clone(pattern), svar_id, Rc::clone(plug)),
        Pattern::ESubst { .. } => ssubst(Rc::clone(pattern), svar_id, Rc::clone(plug)),
        Pattern::SSubst { .. } => ssubst(Rc::clone(pattern), svar_id, Rc::clone(plug)),
        _ => Rc::clone(pattern),
    }
}

/// Every id in `list` names an element variable the plug is fresh in.
fn check_e_fresh(plug: &Rc<Pattern>, list: &Vec<Id>) -> (r: bool)
    ensures
        r == forall|k: int| 0 <= k < list@.len() ==> plug@.e_fresh(#[trigger] list@[k]),
{
    let mut i: usize = 0;
    while i < list.len()
        invariant
            i <= list@.len(),
            forall|k: int| 0 <= k < i ==> plug@.e_fresh(#[trigger] list@[k]),
        decreases list@.len() - i,
    {
        if !plug.e_fresh(list[i]) {
            proof {
                assert(!plug@.e_fresh(list@[i as int]));
            }
            return false;
        }
        i = i + 1;
    }
    true
}

/// Every id in `list` names a set variable the plug is fresh in.
fn check_s_fresh(plug: &Rc<Pattern>, list: &Vec<Id>) -> (r: bool)
    ensures
        r == forall|k: int| 0 <= k < list@.len() ==> plug@.s_fresh(#[trigger] list@[k]),
{
    let mut i: usize = 0;
    while i < list.len()
        invariant
            i <= list@.len(),
            forall|k: int| 0 <= k < i ==> plug@.s_fresh(#[trigger] list@[k]),
        decreases list@.len() - i,
    {
        if !plug.s_fresh(list[i]) {
            proof {
                assert(!plug@.s_fresh(list@[i as int]));
            }
            return false;
        }
        i = i + 1;
    }
    true
}

/// The plug is positive in every set variable the list names.
fn check_positive(plug: &Rc<Pattern>, list: &Vec<Id>) -> (r: bool)
    ensures
        r == forall|k: int| 0 <= k < list@.len() ==> plug@.positive(#[trigger] list@[k]),
{
    let mut i: usize = 0;
    while i < list.len()
        invariant
            i <= list@.len(),
            forall|k: int| 0 <= k < i ==> plug@.positive(#[trigger] list@[k]),
        decreases list@.len() - i,
    {
        if !plug.positive(list[i]) {
            proof {
                assert(!plug@.positive(list@[i as int]));
            }
            return false;
        }
        i = i + 1;
    }
    true
}

/// The plug is negative in every set variable the list names.
fn check_negative(plug: &Rc<Pattern>, list: &Vec<Id>) -> (r: bool)
    ensures
        r == forall|k: int| 0 <= k < list@.len() ==> plug@.negative(#[trigger] list@[k]),
{
    let mut i: usize = 0;
    while i < list.len()
        invariant
            i <= list@.len(),
            forall|k: int| 0 <= k < i ==> plug@.negative(#[trigger] list@[k]),
        decreases list@.len() - i,
    {
        if !plug.negative(list[i]) {
            proof {
                assert(!plug@.negative(list@[i as int]));
            }
            return false;
        }
        i = i + 1;
    }
    true
}

/// Meta-level instantiation of `p`: replace each meta-variable whose id
/// occurs in `vars` by the plug at the first matching index, after
/// checking the meta-variable's constraints against the plug.
pub fn instantiate(p: Rc<Pattern>, vars: &[Id], plugs: &[Rc<Pattern>]) -> (r: Result<
    Rc<Pattern>,
    CheckError,
>)
    ensures
        match r {
            Ok(q) => p@.instantiate(vars@, pats_view(plugs@)) == Ok::<SpecPattern, CheckError>(
                q@,
            ),
            Err(e) => p@.instantiate(vars@, pats_view(plugs@)) == Err::<SpecPattern, CheckError>(
                e,
            ),
        },
    decreases p,
{
    match &*p {
        Pattern::EVar(_) => Ok(p),
        Pattern::SVar(_) => Ok(p),
        Pattern::Symbol(_) => Ok(p),
        Pattern::MetaVar { id, e_fresh, s_fresh, positive, negative, .. } => {
            match find_pos(vars, *id) {
                None => Ok(p),
                Some(pos) => {
                    if pos >= plugs.len() {
                        return Err(CheckError::InstantiationConstraintBroken);
                    }
                    let plug = &plugs[pos];
                    proof {
                        assert(pats_view(plugs@)[pos as int] == plug@);
                    }
                    if !check_e_fresh(plug, e_fresh) {
                        return Err(CheckError::InstantiationConstraintBroken);
                    }
                    if !check_s_fresh(plug, s_fresh) {
                        return Err(CheckError::InstantiationConstraintBroken);
                    }
                    if !check_positive(plug, positive) {
                        return Err(CheckError::InstantiationConstraintBroken);
                    }
                    if !check_negative(plug, negative) {
                        return Err(CheckError::InstantiationConstraintBroken);
                    }
                    Ok(Rc::clone(plug))
                },
            }
        },
        Pattern::Implication { left, right } => {
            match instantiate(Rc::clone(left), vars, plugs) {
                Err(e) => Err(e),
                Ok(l) => match instantiate(Rc::clone(right), vars, plugs) {
                    Err(e) => Err(e),
                    Ok(r2) => Ok(crate::pattern::implies(l, r2)),
                },
            }
        },
        Pattern::Application { left, right } => {
            match instantiate(Rc::clone(left), vars, plugs) {
                Err(e) => Err(e),
                Ok(l) => match instantiate(Rc::clone(right), vars, plugs) {
                    Err(e) => Err(e),
                    Ok(r2) => Ok(app(l, r2)),
                },
            }
        },
        Pattern::Exists { var, subpattern } => {
            match instantiate(Rc::clone(subpattern), vars, plugs) {
                Err(e) => Err(e),
                Ok(s) => Ok(exists_pat(*var, s)),
            }
        },
        Pattern::Mu { var, subpattern } => {
            match instantiate(Rc::clone(subpattern), vars, plugs) {
                Err(e) => Err(e),
                Ok(s) => Ok(mu(*var, s)),
            }
        },
        Pattern::ESubst { pattern, evar_id, plug } => {
            match instantiate(Rc::clone(pattern), vars, plugs) {
                Err(e) => Err(e),
                Ok(ip) => match instantiate(Rc::clone(plug), vars, plugs) {
                    Err(e) => Err(e),
                    Ok(ipl) => Ok(apply_esubst(&ip, *evar_id, &ipl)),
                },
            }
        },
        Pattern::SSubst { pattern, svar_id, plug } => {
            match instantiate(Rc::clone(pattern), vars, plugs) {
                Err(e) => Err(e),
                Ok(ip) => match instantiate(Rc::clone(plug), vars, plugs) {
                    Err(e) => Err(e),
                    Ok(ipl) => Ok(apply_ssubst(&ip, *svar_id, &ipl)),
                },
            }
        },
    }
}

} // verus!
