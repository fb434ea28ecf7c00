//! Matching-logic patterns and their structural predicates.
//!
//! `Pattern` is the executable representation: children are shared through
//! reference counting, constraint sets of a meta-variable are byte vectors.
//! `SpecPattern` is its mathematical model, with sequences in place of
//! vectors; every contract of the crate speaks of `SpecPattern` values
//! obtained through the view.

use vstd::prelude::*;
use std::rc::Rc;

verus! {

/// Identifier of an element variable, a set variable or a symbol.
/// The three name-spaces are disjoint.
pub type Id = u8;

/// The mathematical model of a pattern.
pub enum SpecPattern {
    EVar(Id),
    SVar(Id),
    Symbol(Id),
    Implication { left: Box<SpecPattern>, right: Box<SpecPattern> },
    Application { left: Box<SpecPattern>, right: Box<SpecPattern> },
    Exists { var: Id, subpattern: Box<SpecPattern> },
    Mu { var: Id, subpattern: Box<SpecPattern> },
    MetaVar {
        id: Id,
        e_fresh: Seq<Id>,
        s_fresh: Seq<Id>,
        positive: Seq<Id>,
        negative: Seq<Id>,
        app_ctx_holes: Seq<Id>,
    },
    ESubst { pattern: Box<SpecPattern>, evar_id: Id, plug: Box<SpecPattern> },
    SSubst { pattern: Box<SpecPattern>, svar_id: Id, plug: Box<SpecPattern> },
}

/// The executable representation of a pattern.
#[derive(Debug, Clone, PartialEq, Eq)]
pub enum Pattern {
    EVar(Id),
    SVar(Id),
    Symbol(Id),
    Implication { left: Rc<Pattern>, right: Rc<Pattern> },
    Application { left: Rc<Pattern>, right: Rc<Pattern> },
    Exists { var: Id, subpattern: Rc<Pattern> },
    Mu { var: Id, subpattern: Rc<Pattern> },
    MetaVar {
        id: Id,
        e_fresh: Vec<Id>,
        s_fresh: Vec<Id>,
        positive: Vec<Id>,
        negative: Vec<Id>,
        app_ctx_holes: Vec<Id>,
    },
    ESubst { pattern: Rc<Pattern>, evar_id: Id, plug: Rc<Pattern> },
    SSubst { pattern: Rc<Pattern>, svar_id: Id, plug: Rc<Pattern> },
}

/// The model of an executable pattern.
pub open spec fn pat_view(p: Pattern) -> SpecPattern
    decreases p,
{
    match p {
        Pattern::EVar(id) => SpecPattern::EVar(id),
        Pattern::SVar(id) => SpecPattern::SVar(id),
        Pattern::Symbol(id) => SpecPattern::Symbol(id),
        Pattern::Implication { left, right } => SpecPattern::Implication {
            left: Box::new(pat_view(*left)),
            right: Box::new(pat_view(*right)),
        },
        Pattern::Application { left, right } => SpecPattern::Application {
            left: Box::new(pat_view(*left)),
            right: Box::new(pat_view(*right)),
        },
        Pattern::Exists { var, subpattern } => SpecPattern::Exists {
            var,
            subpattern: Box::new(pat_view(*subpattern)),
        },
        Pattern::Mu { var, subpattern } => SpecPattern::Mu {
            var,
            subpattern: Box::new(pat_view(*subpattern)),
        },
        Pattern::MetaVar { id, e_fresh, s_fresh, positive, negative, app_ctx_holes } =>
            SpecPattern::MetaVar {
                id,
                e_fresh: e_fresh@,
                s_fresh: s_fresh@,
                positive: positive@,
                negative: negative@,
                app_ctx_holes: app_ctx_holes@,
            },
        Pattern::ESubst { pattern, evar_id, plug } => SpecPattern::ESubst {
            pattern: Box::new(pat_view(*pattern)),
            evar_id,
            plug: Box::new(pat_view(*plug)),
        },
        Pattern::SSubst { pattern, svar_id, plug } => SpecPattern::SSubst {
            pattern: Box::new(pat_view(*pattern)),
            svar_id,
            plug: Box::new(pat_view(*plug)),
        },
    }
}

impl View for Pattern {
    type V = SpecPattern;

    open spec fn view(&self) -> SpecPattern {
        pat_view(*self)
    }
}

impl SpecPattern {
    /// No free occurrence of the element variable `evar` in the pattern.
    pub open spec fn e_fresh(self, evar: Id) -> bool
        decreases self,
    {
        match self {
            SpecPattern::EVar(name) => name != evar,
            SpecPattern::SVar(_) => true,
            SpecPattern::Symbol(_) => true,
            SpecPattern::MetaVar { e_fresh, .. } => e_fresh.contains(evar),
            SpecPattern::Implication { left, right } =>
                left.e_fresh(evar) && right.e_fresh(evar),
            SpecPattern::Application { left, right } =>
                left.e_fresh(evar) && right.e_fresh(evar),
            SpecPattern::Exists { var, subpattern } =>
                evar == var || subpattern.e_fresh(evar),
            SpecPattern::Mu { subpattern, .. } => subpattern.e_fresh(evar),
            SpecPattern::ESubst { pattern, evar_id, plug } =>
                if evar == evar_id {
                    // Every free instance of the variable is being plugged.
                    plug.e_fresh(evar)
                } else {
                    pattern.e_fresh(evar) && plug.e_fresh(evar)
                },
            SpecPattern::SSubst { pattern, plug, .. } =>
                // A set-variable substitution never captures an element
                // variable: the name-spaces are disjoint.
                pattern.e_fresh(evar) && plug.e_fresh(evar),
        }
    }

    /// The set variable `svar` occurs only positively (under an even
    /// number of negations) in the pattern.
    pub open spec fn positive(self, svar: Id) -> bool
        decreases self,
    {
        match self {
            SpecPattern::EVar(_) => true,
            SpecPattern::SVar(_) => true,
            SpecPattern::Symbol(_) => true,
            SpecPattern::MetaVar { positive, .. } => positive.contains(svar),
            SpecPattern::Implication { left, right } =>
                left.negative(svar) && right.positive(svar),
            SpecPattern::Application { left, right } =>
                left.positive(svar) && right.positive(svar),
            SpecPattern::Exists { subpattern, .. } => subpattern.positive(svar),
            SpecPattern::Mu { var, subpattern } =>
                svar == var || subpattern.positive(svar),
            SpecPattern::ESubst { pattern, plug, .. } =>
                // Best effort: require the plug to avoid the variable.
                pattern.positive(svar) && plug.s_fresh(svar),
            SpecPattern::SSubst { pattern, svar_id, plug } => {
                let plug_positive_svar = plug.s_fresh(svar)
                    || (pattern.positive(svar_id) && plug.positive(svar))
                    || (pattern.negative(svar_id) && plug.negative(svar));
                if svar == svar_id {
                    plug_positive_svar
                } else {
                    pattern.positive(svar) && plug_positive_svar
                }
            },
        }
    }

    /// The set variable `svar` occurs only negatively (under an odd
    /// number of negations) in the pattern.
    pub open spec fn negative(self, svar: Id) -> bool
        decreases self,
    {
        match self {
            SpecPattern::EVar(_) => true,
            SpecPattern::SVar(name) => name != svar,
            SpecPattern::Symbol(_) => true,
            SpecPattern::MetaVar { negative, .. } => negative.contains(svar),
            SpecPattern::Implication { left, right } =>
                left.positive(svar) && right.negative(svar),
            SpecPattern::Application { left, right } =>
                left.negative(svar) && right.negative(svar),
            SpecPattern::Exists { subpattern, .. } => subpattern.negative(svar),
            SpecPattern::Mu { var, subpattern } =>
                svar == var || subpattern.negative(svar),
            SpecPattern::ESubst { pattern, plug, .. } =>
                pattern.negative(svar) && plug.s_fresh(svar),
            SpecPattern::SSubst { pattern, svar_id, plug } => {
                let plug_negative_svar = plug.s_fresh(svar)
                    || (pattern.positive(svar_id) && plug.negative(svar))
                    || (pattern.negative(svar_id) && plug.positive(svar));
                if svar == svar_id {
                    plug_negative_svar
                } else {
                    pattern.negative(svar) && plug_negative_svar
                }
            },
        }
    }

    /// Local well-formedness of the outer constructor, the children being
    /// assumed well-formed.  The heads that carry no local condition are
    /// trivially well-formed.
    pub open spec fn well_formed(self) -> bool {
        match self {
            SpecPattern::MetaVar { e_fresh, app_ctx_holes, .. } =>
                forall|k: int| 0 <= k < app_ctx_holes.len()
                    ==> !e_fresh.contains(#[trigger] app_ctx_holes[k]),
            SpecPattern::Mu { var, subpattern } => subpattern.positive(var),
            SpecPattern::ESubst { pattern, evar_id, .. } => !pattern.e_fresh(evar_id),
            SpecPattern::SSubst { pattern, svar_id, .. } => !pattern.s_fresh(svar_id),
            _ => true,
        }
    }

    /// ϕ₁ → ϕ₂
    pub open spec fn implies(left: SpecPattern, right: SpecPattern) -> SpecPattern {
        SpecPattern::Implication { left: Box::new(left), right: Box::new(right) }
    }

    /// ϕ₁ ϕ₂ (application)
    pub open spec fn app(left: SpecPattern, right: SpecPattern) -> SpecPattern {
        SpecPattern::Application { left: Box::new(left), right: Box::new(right) }
    }

    /// ∃ var. subpattern
    pub open spec fn exists_pat(var: Id, subpattern: SpecPattern) -> SpecPattern {
        SpecPattern::Exists { var, subpattern: Box::new(subpattern) }
    }

    /// μ var. subpattern
    pub open spec fn mu(var: Id, subpattern: SpecPattern) -> SpecPattern {
        SpecPattern::Mu { var, subpattern: Box::new(subpattern) }
    }

    /// A pending element-variable substitution node.
    pub open spec fn esubst(pattern: SpecPattern, evar_id: Id, plug: SpecPattern) -> SpecPattern {
        SpecPattern::ESubst { pattern: Box::new(pattern), evar_id, plug: Box::new(plug) }
    }

    /// A pending set-variable substitution node.
    pub open spec fn ssubst(pattern: SpecPattern, svar_id: Id, plug: SpecPattern) -> SpecPattern {
        SpecPattern::SSubst { pattern: Box::new(pattern), svar_id, plug: Box::new(plug) }
    }

    /// A meta-variable with all five constraint sets empty.
    pub open spec fn metavar_unconstrained(id: Id) -> SpecPattern {
        SpecPattern::MetaVar {
            id,
            e_fresh: Seq::empty(),
            s_fresh: Seq::empty(),
            positive: Seq::empty(),
            negative: Seq::empty(),
            app_ctx_holes: Seq::empty(),
        }
    }

    /// ⊥, encoded as μ X₀. X₀.
    pub open spec fn bot() -> SpecPattern {
        SpecPattern::mu(0, SpecPattern::SVar(0))
    }

    /// ¬ϕ, encoded as ϕ → ⊥.
    pub open spec fn not(pat: SpecPattern) -> SpecPattern {
        SpecPattern::implies(pat, SpecPattern::bot())
    }

    /// ∀ var. ϕ, encoded as ¬∃ var. ¬ϕ.
    pub open spec fn forall_pat(evar: Id, pat: SpecPattern) -> SpecPattern {
        SpecPattern::not(SpecPattern::exists_pat(evar, SpecPattern::not(pat)))
    }

    /// The outer constructor is a meta-variable or a pending substitution:
    /// the heads that can absorb a further pending substitution.
    pub open spec fn is_meta_head(self) -> bool {
        match self {
            SpecPattern::MetaVar { .. } => true,
            SpecPattern::ESubst { .. } => true,
            SpecPattern::SSubst { .. } => true,
            _ => false,
        }
    }

    /// No free occurrence of the set variable `svar` in the pattern.
    pub open spec fn s_fresh(self, svar: Id) -> bool
        decreases self,
    {
        match self {
            SpecPattern::EVar(_) => true,
            SpecPattern::SVar(name) => name != svar,
            SpecPattern::Symbol(_) => true,
            SpecPattern::MetaVar { s_fresh, .. } => s_fresh.contains(svar),
            SpecPattern::Implication { left, right } =>
                left.s_fresh(svar) && right.s_fresh(svar),
            SpecPattern::Application { left, right } =>
                left.s_fresh(svar) && right.s_fresh(svar),
            SpecPattern::Exists { subpattern, .. } => subpattern.s_fresh(svar),
            SpecPattern::Mu { var, subpattern } =>
                svar == var || subpattern.s_fresh(svar),
            SpecPattern::ESubst { pattern, plug, .. } =>
                pattern.s_fresh(svar) && plug.s_fresh(svar),
            SpecPattern::SSubst { pattern, svar_id, plug } =>
                if svar == svar_id {
                    plug.s_fresh(svar)
                } else {
                    pattern.s_fresh(svar) && plug.s_fresh(svar)
                },
        }
    }
}

/// True iff `x` occurs in the vector.
fn contains_id(list: &Vec<Id>, x: Id) -> (r: bool)
    ensures
        r == list@.contains(x),
{
    let mut i: usize = 0;
    while i < list.len()
        invariant
            i <= list@.len(),
            forall|k: int| 0 <= k < i ==> list@[k] != x,
        decreases list@.len() - i,
    {
        if list[i] == x {
            return true;
        }
        i = i + 1;
    }
    false
}

impl Pattern {
    /// No free occurrence of the element variable `evar` in the pattern.
    pub fn e_fresh(&self, evar: Id) -> (r: bool)
        ensures
            r == self@.e_fresh(evar),
        decreases *self,
    {
        match self {
            Pattern::EVar(name) => *name != evar,
            Pattern::SVar(_) => true,
            Pattern::Symbol(_) => true,
            Pattern::MetaVar { e_fresh, .. } => contains_id(e_fresh, evar),
            Pattern::Implication { left, right } => left.e_fresh(evar) && right.e_fresh(evar),
            Pattern::Application { left, right } => left.e_fresh(evar) && right.e_fresh(evar),
            Pattern::Exists { var, subpattern } => evar == *var || subpattern.e_fresh(evar),
            Pattern::Mu { subpattern, .. } => subpattern.e_fresh(evar),
            Pattern::ESubst { pattern, evar_id, plug } => {
                if evar == *evar_id {
                    plug.e_fresh(evar)
                } else {
                    pattern.e_fresh(evar) && plug.e_fresh(evar)
                }
            },
            Pattern::SSubst { pattern, plug, .. } => {
                pattern.e_fresh(evar) && plug.e_fresh(evar)
            },
        }
    }

    /// The set variable `svar` occurs only positively in the pattern.
    pub fn positive(&self, svar: Id) -> (r: bool)
        ensures
            r == self@.positive(svar),
        decreases *self,
    {
        match self {
            Pattern::EVar(_) => true,
            Pattern::SVar(_) => true,
            Pattern::Symbol(_) => true,
            Pattern::MetaVar { positive, .. } => contains_id(positive, svar),
            Pattern::Implication { left, right } => left.negative(svar) && right.positive(svar),
            Pattern::Application { left, right } => left.positive(svar) && right.positive(svar),
            Pattern::Exists { subpattern, .. } => subpattern.positive(svar),
            Pattern::Mu { var, subpattern } => svar == *var || subpattern.positive(svar),
            Pattern::ESubst { pattern, plug, .. } => {
                pattern.positive(svar) && plug.s_fresh(svar)
            },
            Pattern::SSubst { pattern, svar_id, plug } => {
                let plug_positive_svar = plug.s_fresh(svar)
                    || (pattern.positive(*svar_id) && plug.positive(svar))
                    || (pattern.negative(*svar_id) && plug.negative(svar));
                if svar == *svar_id {
                    plug_positive_svar
                } else {
                    pattern.positive(svar) && plug_positive_svar
                }
            },
        }
    }

    /// The set variable `svar` occurs only negatively in the pattern.
    pub fn negative(&self, svar: Id) -> (r: bool)
        ensures
            r == self@.negative(svar),
        decreases *self,
    {
        match self {
            Pattern::EVar(_) => true,
            Pattern::SVar(name) => *name != svar,
            Pattern::Symbol(_) => true,
            Pattern::MetaVar { negative, .. } => contains_id(negative, svar),
            Pattern::Implication { left, right } => left.positive(svar) && right.negative(svar),
            Pattern::Application { left, right } => left.negative(svar) && right.negative(svar),
            Pattern::Exists { subpattern, .. } => subpattern.negative(svar),
            Pattern::Mu { var, subpattern } => svar == *var || subpattern.negative(svar),
            Pattern::ESubst { pattern, plug, .. } => {
                pattern.negative(svar) && plug.s_fresh(svar)
            },
            Pattern::SSubst { pattern, svar_id, plug } => {
                let plug_negative_svar = plug.s_fresh(svar)
                    || (pattern.positive(*svar_id) && plug.negative(svar))
                    || (pattern.negative(*svar_id) && plug.positive(svar));
                if svar == *svar_id {
                    plug_negative_svar
                } else {
                    pattern.negative(svar) && plug_negative_svar
                }
            },
        }
    }

    /// The outer constructor is a meta-variable or a pending substitution.
    pub fn is_meta_head(&self) -> (r: bool)
        ensures
            r == self@.is_meta_head(),
    {
        match self {
            Pattern::MetaVar { .. } => true,
            Pattern::ESubst { .. } => true,
            Pattern::SSubst { .. } => true,
            _ => false,
        }
    }

    /// Local well-formedness of the outer constructor, assuming the
    /// children well-formed.  Only a meta-variable, a Mu and the two
    /// pending substitutions carry a local condition; every other
    /// constructor is trivially well-formed.
    pub fn well_formed(&self) -> (r: bool)
        ensures
            r == self@.well_formed(),
    {
        match self {
            Pattern::MetaVar { e_fresh, app_ctx_holes, .. } => {
                let mut i: usize = 0;
                while i < app_ctx_holes.len()
                    invariant
                        i <= app_ctx_holes@.len(),
                        self@ matches SpecPattern::MetaVar { e_fresh: ef, app_ctx_holes: ah, .. }
                            && ef == e_fresh@ && ah == app_ctx_holes@,
                        forall|k: int| 0 <= k < i
                            ==> !e_fresh@.contains(#[trigger] app_ctx_holes@[k]),
                    decreases app_ctx_holes@.len() - i,
                {
                    if contains_id(e_fresh, app_ctx_holes[i]) {
                        proof {
                            let holes = app_ctx_holes@;
                            assert(e_fresh@.contains(holes[i as int]));
                            assert(!(forall|k: int| 0 <= k < holes.len()
                                ==> !e_fresh@.contains(#[trigger] holes[k])));
                        }
                        return false;
                    }
                    i = i + 1;
                }
                true
            },
            Pattern::Mu { var, subpattern } => subpattern.positive(*var),
            Pattern::ESubst { pattern, evar_id, .. } => !pattern.e_fresh(*evar_id),
            Pattern::SSubst { pattern, svar_id, .. } => !pattern.s_fresh(*svar_id),
            _ => true,
        }
    }

    /// No free occurrence of the set variable `svar` in the pattern.
    pub fn s_fresh(&self, svar: Id) -> (r: bool)
        ensures
            r == self@.s_fresh(svar),
        decreases *self,
    {
        match self {
            Pattern::EVar(_) => true,
            Pattern::SVar(name) => *name != svar,
            Pattern::Symbol(_) => true,
            Pattern::MetaVar { s_fresh, .. } => contains_id(s_fresh, svar),
            Pattern::Implication { left, right } => left.s_fresh(svar) && right.s_fresh(svar),
            Pattern::Application { left, right } => left.s_fresh(svar) && right.s_fresh(svar),
            Pattern::Exists { subpattern, .. } => subpattern.s_fresh(svar),
            Pattern::Mu { var, subpattern } => svar == *var || subpattern.s_fresh(svar),
            Pattern::ESubst { pattern, plug, .. } => {
                pattern.s_fresh(svar) && plug.s_fresh(svar)
            },
            Pattern::SSubst { pattern, svar_id, plug } => {
                if svar == *svar_id {
                    plug.s_fresh(svar)
                } else {
                    pattern.s_fresh(svar) && plug.s_fresh(svar)
                }
            },
        }
    }
}

/// EVar(id) as a shared pattern.
pub fn evar(id: Id) -> (r: Rc<Pattern>)
    ensures
        r@ == SpecPattern::EVar(id),
{
    Rc::new(Pattern::EVar(id))
}

/// SVar(id) as a shared pattern.
pub fn svar(id: Id) -> (r: Rc<Pattern>)
    ensures
        r@ == SpecPattern::SVar(id),
{
    Rc::new(Pattern::SVar(id))
}

/// Symbol(id) as a shared pattern.
pub fn symbol(id: Id) -> (r: Rc<Pattern>)
    ensures
        r@ == SpecPattern::Symbol(id),
{
    Rc::new(Pattern::Symbol(id))
}

/// A meta-variable with all five constraint sets empty.
pub fn metavar_unconstrained(var_id: Id) -> (r: Rc<Pattern>)
    ensures
        r@ == SpecPattern::metavar_unconstrained(var_id),
{
    Rc::new(Pattern::MetaVar {
        id: var_id,
        e_fresh: Vec::new(),
        s_fresh: Vec::new(),
        positive: Vec::new(),
        negative: Vec::new(),
        app_ctx_holes: Vec::new(),
    })
}

/// A meta-variable with one set-freshness constraint and the given
/// polarity constraint sets.
pub fn metavar_s_fresh(var_id: Id, fresh: Id, positive: Vec<Id>, negative: Vec<Id>) -> (r: Rc<
    Pattern,
>)
    ensures
        r@ == (SpecPattern::MetaVar {
            id: var_id,
            e_fresh: Seq::empty(),
            s_fresh: seq![fresh],
            positive: positive@,
            negative: negative@,
            app_ctx_holes: Seq::empty(),
        }),
{
    let mut s_fresh: Vec<Id> = Vec::new();
    s_fresh.push(fresh);
    proof {
        assert(s_fresh@ =~= seq![fresh]);
    }
    Rc::new(Pattern::MetaVar {
        id: var_id,
        e_fresh: Vec::new(),
        s_fresh,
        positive,
        negative,
        app_ctx_holes: Vec::new(),
    })
}

/// ∃ var. subpattern
pub fn exists_pat(var: Id, subpattern: Rc<Pattern>) -> (r: Rc<Pattern>)
    ensures
        r@ == SpecPattern::exists_pat(var, subpattern@),
{
    Rc::new(Pattern::Exists { var, subpattern })
}

/// μ var. subpattern — performs no well-formedness check; the instruction
/// machine checks positivity before building a Mu pattern.
pub fn mu(var: Id, subpattern: Rc<Pattern>) -> (r: Rc<Pattern>)
    ensures
        r@ == SpecPattern::mu(var, subpattern@),
{
    Rc::new(Pattern::Mu { var, subpattern })
}

/// A pending element-variable substitution node.
pub fn esubst(pattern: Rc<Pattern>, evar_id: Id, plug: Rc<Pattern>) -> (r: Rc<Pattern>)
    ensures
        r@ == SpecPattern::esubst(pattern@, evar_id, plug@),
{
    Rc::new(Pattern::ESubst { pattern, evar_id, plug })
}

/// A pending set-variable substitution node.
pub fn ssubst(pattern: Rc<Pattern>, svar_id: Id, plug: Rc<Pattern>) -> (r: Rc<Pattern>)
    ensures
        r@ == SpecPattern::ssubst(pattern@, svar_id, plug@),
{
    Rc::new(Pattern::SSubst { pattern, svar_id, plug })
}

/// ϕ₁ → ϕ₂
pub fn implies(left: Rc<Pattern>, right: Rc<Pattern>) -> (r: Rc<Pattern>)
    ensures
        r@ == SpecPattern::implies(left@, right@),
{
    Rc::new(Pattern::Implication { left, right })
}

/// ϕ₁ ϕ₂ (application)
pub fn app(left: Rc<Pattern>, right: Rc<Pattern>) -> (r: Rc<Pattern>)
    ensures
        r@ == SpecPattern::app(left@, right@),
{
    Rc::new(Pattern::Application { left, right })
}

/// ⊥, encoded as μ X₀. X₀.
pub fn bot() -> (r: Rc<Pattern>)
    ensures
        r@ == SpecPattern::bot(),
{
    mu(0, svar(0))
}

/// ¬ϕ, encoded as ϕ → ⊥.
pub fn not(pat: Rc<Pattern>) -> (r: Rc<Pattern>)
    ensures
        r@ == SpecPattern::not(pat@),
{
    implies(pat, bot())
}

/// ∀ var. ϕ, encoded as ¬∃ var. ¬ϕ.
pub fn forall_pat(evar: Id, pat: Rc<Pattern>) -> (r: Rc<Pattern>)
    ensures
        r@ == SpecPattern::forall_pat(evar, pat@),
{
    not(exists_pat(evar, not(pat)))
}

/// True iff the two vectors hold the same identifiers in the same order.
fn id_list_eq(x: &Vec<Id>, y: &Vec<Id>) -> (r: bool)
    ensures
        r == (x@ == y@),
{
    if x.len() != y.len() {
        return false;
    }
    let mut i: usize = 0;
    while i < x.len()
        invariant
            i <= x@.len(),
            x@.len() == y@.len(),
            forall|k: int| 0 <= k < i ==> x@[k] == y@[k],
        decreases x@.len() - i,
    {
        if x[i] != y[i] {
            return false;
        }
        i = i + 1;
    }
    proof {
        assert(x@ =~= y@);
    }
    true
}

/// Structural (deep, by-value) equality of two patterns, the equality the
/// machine uses for modus ponens and claim discharge.
pub fn pattern_eq(a: &Pattern, b: &Pattern) -> (r: bool)
    ensures
        r == (a@ == b@),
    decreases *a,
{
    match (a, b) {
        (Pattern::EVar(x), Pattern::EVar(y)) => x == y,
        (Pattern::SVar(x), Pattern::SVar(y)) => x == y,
        (Pattern::Symbol(x), Pattern::Symbol(y)) => x == y,
        (
            Pattern::Implication { left: al, right: ar },
            Pattern::Implication { left: bl, right: br },
        ) => pattern_eq(&**al, &**bl) && pattern_eq(&**ar, &**br),
        (
            Pattern::Application { left: al, right: ar },
            Pattern::Application { left: bl, right: br },
        ) => pattern_eq(&**al, &**bl) && pattern_eq(&**ar, &**br),
        (
            Pattern::Exists { var: av, subpattern: asub },
            Pattern::Exists { var: bv, subpattern: bsub },
        ) => av == bv && pattern_eq(&**asub, &**bsub),
        (
            Pattern::Mu { var: av, subpattern: asub },
            Pattern::Mu { var: bv, subpattern: bsub },
        ) => av == bv && pattern_eq(&**asub, &**bsub),
        (
            Pattern::MetaVar {
                id: aid,
                e_fresh: aef,
                s_fresh: asf,
                positive: apos,
                negative: aneg,
                app_ctx_holes: ah,
            },
            Pattern::MetaVar {
                id: bid,
                e_fresh: bef,
                s_fresh: bsf,
                positive: bpos,
                negative: bneg,
                app_ctx_holes: bh,
            },
        ) => aid == bid && id_list_eq(aef, bef) && id_list_eq(asf, bsf)
            && id_list_eq(apos, bpos) && id_list_eq(aneg, bneg) && id_list_eq(ah, bh),
        (
            Pattern::ESubst { pattern: ap, evar_id: av, plug: apl },
            Pattern::ESubst { pattern: bp, evar_id: bv, plug: bpl },
        ) => av == bv && pattern_eq(&**ap, &**bp) && pattern_eq(&**apl, &**bpl),
        (
            Pattern::SSubst { pattern: ap, svar_id: av, plug: apl },
            Pattern::SSubst { pattern: bp, svar_id: bv, plug: bpl },
        ) => av == bv && pattern_eq(&**ap, &**bp) && pattern_eq(&**apl, &**bpl),
        _ => false,
    }
}

} // verus!
