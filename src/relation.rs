use vstd::prelude::*;

verus! {

/// The set of relations a caller asks for when comparing two shapes.
///
/// The strict and the plain version of `contains` (and of `contained`) differ on
/// multi-part shapes only: `contains` holds as soon as one part of the second
/// shape is covered, `strict_contains` only when every part of it is. The strict
/// version is the more expensive one to compute.
#[derive(Debug, Clone, Copy, PartialEq, Eq, Structural)]
pub struct InputRelation {
    /// Some part of the first shape contains some part of the second shape.
    pub contains: bool,
    /// The first shape contains every part of the second shape.
    pub strict_contains: bool,
    /// Some part of the first shape is contained in the second shape.
    pub contained: bool,
    /// Every part of the first shape is contained in the second shape.
    pub strict_contained: bool,
    /// The shapes cross each other.
    pub intersect: bool,
    /// The shapes have nothing in common.
    pub disjoint: bool,
    /// The computation may stop as soon as any relation other than `disjoint`
    /// has been found; the flags it did not reach then keep the value `false`
    /// they were seeded with, which is no proof of a negative answer.
    pub early_exit: bool,
}

/// The answer to an [`InputRelation`]: `None` for a flag that was not asked for,
/// `Some(b)` for one that was.
///
/// When the request allowed an early exit, a `Some(false)` may stand for a flag
/// that was never evaluated.
#[derive(Debug, Clone, Copy, PartialEq, Eq, Structural)]
pub struct OutputRelation {
    pub contains: Option<bool>,
    pub strict_contains: Option<bool>,
    pub contained: Option<bool>,
    pub strict_contained: Option<bool>,
    pub intersect: Option<bool>,
    pub disjoint: Option<bool>,
}

/// The tri-state value of a flag: unset when not asked for, else `value`.
pub open spec fn seeded(asked: bool, value: bool) -> Option<bool> {
    if asked {
        Some(value)
    } else {
        None
    }
}

/// A flag read as a boolean, unset counting as `false`.
pub open spec fn holds(flag: Option<bool>) -> bool {
    flag == Some(true)
}

/// A flag set to `true` if it is set at all.
pub open spec fn raised(flag: Option<bool>) -> Option<bool> {
    match flag {
        Some(_) => Some(true),
        None => None,
    }
}

/// Flag-wise OR that leaves an unset left flag unset.
pub open spec fn or_flag(a: Option<bool>, b: Option<bool>) -> Option<bool> {
    match a {
        Some(x) => Some(x || holds(b)),
        None => None,
    }
}

/// Every flag of `out` is set exactly where `req` asks for it.
pub open spec fn answers(out: OutputRelation, req: InputRelation) -> bool {
    &&& (out.contains is Some) == req.contains
    &&& (out.strict_contains is Some) == req.strict_contains
    &&& (out.contained is Some) == req.contained
    &&& (out.strict_contained is Some) == req.strict_contained
    &&& (out.intersect is Some) == req.intersect
    &&& (out.disjoint is Some) == req.disjoint
}

/// A strict flag that holds is matched by its plain flag wherever that one is set.
pub open spec fn strict_implies_plain(out: OutputRelation) -> bool {
    &&& holds(out.strict_contains) && out.contains is Some ==> holds(out.contains)
    &&& holds(out.strict_contained) && out.contained is Some ==> holds(out.contained)
}

fn flag_if(asked: bool, value: bool) -> (r: Option<bool>)
    ensures
        r == seeded(asked, value),
{
    if asked {
        Some(value)
    } else {
        None
    }
}

fn raise(flag: Option<bool>) -> (r: Option<bool>)
    ensures
        r == raised(flag),
{
    match flag {
        Some(_) => Some(true),
        None => None,
    }
}

fn truth(flag: Option<bool>) -> (r: bool)
    ensures
        r == holds(flag),
{
    match flag {
        Some(b) => b,
        None => false,
    }
}

impl Default for InputRelation {
    fn default() -> (r: Self)
        ensures
            r == InputRelation::spec_none(),
    {
        InputRelation::none()
    }
}

impl InputRelation {
    /// The request with every flag off.
    pub open spec fn spec_none() -> InputRelation {
        InputRelation {
            contains: false,
            strict_contains: false,
            contained: false,
            strict_contained: false,
            intersect: false,
            disjoint: false,
            early_exit: false,
        }
    }

    /// The request with every flag on and no early exit.
    pub open spec fn spec_all() -> InputRelation {
        InputRelation {
            contains: true,
            strict_contains: true,
            contained: true,
            strict_contained: true,
            intersect: true,
            disjoint: true,
            early_exit: false,
        }
    }

    /// The request with the contains and contained flags (plain and strict) swapped.
    pub open spec fn swapped(self) -> InputRelation {
        InputRelation {
            contains: self.contained,
            strict_contains: self.strict_contained,
            contained: self.contains,
            strict_contained: self.strict_contains,
            ..self
        }
    }

    /// Asks for every relation, with no early exit.
    pub fn all() -> (r: Self)
        ensures
            r == (InputRelation {
                contains: true,
                strict_contains: true,
                contained: true,
                strict_contained: true,
                intersect: true,
                disjoint: true,
                early_exit: false,
            }),
    {
        Self {
            contains: true,
            strict_contains: true,
            contained: true,
            strict_contained: true,
            intersect: true,
            disjoint: true,
            early_exit: false,
        }
    }

    /// Asks for every relation, and allows an early exit.
    pub fn any() -> (r: Self)
        ensures
            r == (InputRelation {
                contains: true,
                strict_contains: true,
                contained: true,
                strict_contained: true,
                intersect: true,
                disjoint: true,
                early_exit: true,
            }),
    {
        Self {
            contains: true,
            strict_contains: true,
            contained: true,
            strict_contained: true,
            intersect: true,
            disjoint: true,
            early_exit: true,
        }
    }

    /// Swaps the contains and the contained flags, plain and strict.
    pub fn swap_contains_relation(self) -> (r: Self)
        ensures
            r == self.swapped(),
    {
        Self {
            contains: self.contained,
            strict_contains: self.strict_contained,
            contained: self.contains,
            strict_contained: self.strict_contains,
            ..self
        }
    }

    /// Asks for nothing; the same as [`Self::default`].
    pub fn none() -> (r: Self)
        ensures
            r == InputRelation::spec_none(),
    {
        Self {
            contains: false,
            strict_contains: false,
            contained: false,
            strict_contained: false,
            intersect: false,
            disjoint: false,
            early_exit: false,
        }
    }

    /// The answer in which every flag asked for is `Some(false)`.
    pub fn to_false(self) -> (r: OutputRelation)
        ensures
            r == OutputRelation::spec_all_false(self),
    {
        OutputRelation::false_from_input(self)
    }

    /// The answer in which every flag asked for is `Some(true)`.
    pub fn to_true(self) -> (r: OutputRelation)
        ensures
            r == OutputRelation::spec_all_true(self),
    {
        OutputRelation::true_from_input(self)
    }

    /// Stops asking for the strict flags.
    pub fn strip_strict(self) -> (r: Self)
        ensures
            r == (InputRelation { strict_contains: false, strict_contained: false, ..self }),
    {
        Self { strict_contains: false, strict_contained: false, ..self }
    }

    /// Stops asking for the strict contained flag.
    pub fn strip_strict_contained(self) -> (r: Self)
        ensures
            r == (InputRelation { strict_contained: false, ..self }),
    {
        Self { strict_contained: false, ..self }
    }

    /// Stops asking for the disjoint flag.
    pub fn strip_disjoint(self) -> (r: Self)
        ensures
            r == (InputRelation { disjoint: false, ..self }),
    {
        Self { disjoint: false, ..self }
    }
}

impl Default for OutputRelation {
    fn default() -> (r: Self)
        ensures
            r == OutputRelation::spec_all_false(InputRelation::spec_none()),
    {
        Self {
            contains: None,
            strict_contains: None,
            contained: None,
            strict_contained: None,
            intersect: None,
            disjoint: None,
        }
    }
}

impl OutputRelation {
    /// Every flag that `req` asks for set to `value`, the others unset.
    pub open spec fn spec_seeded(req: InputRelation, value: bool) -> OutputRelation {
        OutputRelation {
            contains: seeded(req.contains, value),
            strict_contains: seeded(req.strict_contains, value),
            contained: seeded(req.contained, value),
            strict_contained: seeded(req.strict_contained, value),
            intersect: seeded(req.intersect, value),
            disjoint: seeded(req.disjoint, value),
        }
    }

    pub open spec fn spec_all_false(req: InputRelation) -> OutputRelation {
        OutputRelation::spec_seeded(req, false)
    }

    pub open spec fn spec_all_true(req: InputRelation) -> OutputRelation {
        OutputRelation::spec_seeded(req, true)
    }

    /// Some flag other than `disjoint` holds, and `disjoint` does not.
    pub open spec fn spec_any_relation(self) -> bool {
        !holds(self.disjoint) && (holds(self.contains) || holds(self.strict_contains)
            || holds(self.contained) || holds(self.strict_contained) || holds(
            self.intersect,
        ))
    }

    pub open spec fn swapped(self) -> OutputRelation {
        OutputRelation {
            contains: self.contained,
            strict_contains: self.strict_contained,
            contained: self.contains,
            strict_contained: self.strict_contains,
            ..self
        }
    }

    /// The flag-wise OR of two answers; a flag unset on the left stays unset.
    pub open spec fn spec_or(self, other: OutputRelation) -> OutputRelation {
        OutputRelation {
            contains: or_flag(self.contains, other.contains),
            strict_contains: or_flag(self.strict_contains, other.strict_contains),
            contained: or_flag(self.contained, other.contained),
            strict_contained: or_flag(self.strict_contained, other.strict_contained),
            intersect: or_flag(self.intersect, other.intersect),
            disjoint: or_flag(self.disjoint, other.disjoint),
        }
    }

    /// The answer with the given flags raised to `true` where they are set.
    pub open spec fn spec_with_contains(self) -> OutputRelation {
        OutputRelation { contains: raised(self.contains), ..self }
    }

    pub open spec fn spec_with_strict_contains(self) -> OutputRelation {
        OutputRelation {
            contains: raised(self.contains),
            strict_contains: raised(self.strict_contains),
            ..self
        }
    }

    pub open spec fn spec_with_contained(self) -> OutputRelation {
        OutputRelation { contained: raised(self.contained), ..self }
    }

    pub open spec fn spec_with_strict_contained(self) -> OutputRelation {
        OutputRelation {
            contained: raised(self.contained),
            strict_contained: raised(self.strict_contained),
            ..self
        }
    }

    pub open spec fn spec_with_intersect(self) -> OutputRelation {
        OutputRelation { intersect: raised(self.intersect), ..self }
    }

    pub open spec fn spec_with_disjoint(self) -> OutputRelation {
        OutputRelation { disjoint: raised(self.disjoint), ..self }
    }

    /// The answer in which every flag asked for is `Some(false)`.
    pub fn false_from_input(relation: InputRelation) -> (r: Self)
        ensures
            r == OutputRelation::spec_all_false(relation),
    {
        Self {
            contains: flag_if(relation.contains, false),
            strict_contains: flag_if(relation.strict_contains, false),
            contained: flag_if(relation.contained, false),
            strict_contained: flag_if(relation.strict_contained, false),
            intersect: flag_if(relation.intersect, false),
            disjoint: flag_if(relation.disjoint, false),
        }
    }

    /// The answer in which every flag asked for is `Some(true)`.
    pub fn true_from_input(relation: InputRelation) -> (r: Self)
        ensures
            r == OutputRelation::spec_all_true(relation),
    {
        Self {
            contains: flag_if(relation.contains, true),
            strict_contains: flag_if(relation.strict_contains, true),
            contained: flag_if(relation.contained, true),
            strict_contained: flag_if(relation.strict_contained, true),
            intersect: flag_if(relation.intersect, true),
            disjoint: flag_if(relation.disjoint, true),
        }
    }

    /// Sets `contains` to `true` if it was asked for.
    pub fn make_contains_if_set(self) -> (r: Self)
        ensures
            r == self.spec_with_contains(),
    {
        Self { contains: raise(self.contains), ..self }
    }

    /// Sets `strict_contains` and `contains` to `true` where they were asked for.
    pub fn make_strict_contains_if_set(self) -> (r: Self)
        ensures
            r == self.spec_with_strict_contains(),
    {
        let s = Self { strict_contains: raise(self.strict_contains), ..self };
        s.make_contains_if_set()
    }

    /// Sets `contained` to `true` if it was asked for.
    pub fn make_contained_if_set(self) -> (r: Self)
        ensures
            r == self.spec_with_contained(),
    {
        Self { contained: raise(self.contained), ..self }
    }

    /// Sets `strict_contained` and `contained` to `true` where they were asked for.
    pub fn make_strict_contained_if_set(self) -> (r: Self)
        ensures
            r == self.spec_with_strict_contained(),
    {
        let s = Self { strict_contained: raise(self.strict_contained), ..self };
        s.make_contained_if_set()
    }

    /// Sets `intersect` to `true` if it was asked for.
    pub fn make_intersect_if_set(self) -> (r: Self)
        ensures
            r == self.spec_with_intersect(),
    {
        Self { intersect: raise(self.intersect), ..self }
    }

    /// Sets `disjoint` to `true` if it was asked for.
    pub fn make_disjoint_if_set(self) -> (r: Self)
        ensures
            r == self.spec_with_disjoint(),
    {
        Self { disjoint: raise(self.disjoint), ..self }
    }

    /// Unsets both strict flags.
    pub fn strip_strict(self) -> (r: Self)
        ensures
            r == (OutputRelation { strict_contains: None, strict_contained: None, ..self }),
    {
        Self { strict_contains: None, strict_contained: None, ..self }
    }

    /// Returns `true` if some flag other than `disjoint` holds and `disjoint` does not.
    pub fn any_relation(&self) -> (r: bool)
        ensures
            r == self.spec_any_relation(),
    {
        !truth(self.disjoint) && (truth(self.contains) || truth(self.strict_contains) || truth(
            self.contained,
        ) || truth(self.strict_contained) || truth(self.intersect))
    }

    /// Swaps the contains and the contained flags, plain and strict.
    pub fn swap_contains_relation(self) -> (r: Self)
        ensures
            r == self.swapped(),
    {
        Self {
            contains: self.contained,
            strict_contains: self.strict_contained,
            contained: self.contains,
            strict_contained: self.strict_contains,
            ..self
        }
    }

    /// Flag-wise OR of two answers: each flag set on the left becomes
    /// `left || right`, an unset right flag counting as `false`; a flag unset on
    /// the left stays unset.
    pub fn union(self, other: Self) -> (r: Self)
        ensures
            r == self.spec_or(other),
    {
        let mut contains = self.contains;
        if let Some(s) = contains {
            contains = Some(s || truth(other.contains));
        }
        let mut strict_contains = self.strict_contains;
        if let Some(s) = strict_contains {
            strict_contains = Some(s || truth(other.strict_contains));
        }
        let mut contained = self.contained;
        if let Some(s) = contained {
            contained = Some(s || truth(other.contained));
        }
        let mut strict_contained = self.strict_contained;
        if let Some(s) = strict_contained {
            strict_contained = Some(s || truth(other.strict_contained));
        }
        let mut intersect = self.intersect;
        if let Some(s) = intersect {
            intersect = Some(s || truth(other.intersect));
        }
        let mut disjoint = self.disjoint;
        if let Some(s) = disjoint {
            disjoint = Some(s || truth(other.disjoint));
        }
        Self { contains, strict_contains, contained, strict_contained, intersect, disjoint }
    }
}

impl core::ops::BitOr for OutputRelation {
    type Output = Self;

    fn bitor(self, other: Self) -> (r: Self) {
        self.union(other)
    }
}

impl vstd::std_specs::ops::BitOrSpecImpl for OutputRelation {
    open spec fn obeys_bitor_spec() -> bool {
        true
    }

    open spec fn bitor_req(self, other: OutputRelation) -> bool {
        true
    }

    open spec fn bitor_spec(self, other: OutputRelation) -> OutputRelation {
        self.spec_or(other)
    }
}

impl core::ops::BitOrAssign for OutputRelation {
    fn bitor_assign(&mut self, rhs: Self) {
        *self = self.union(rhs);
    }
}

/// A request for one flag alone, with early exit.
pub open spec fn single(req: InputRelation) -> InputRelation {
    InputRelation { early_exit: true, ..req }
}

/// Lets callers ask how two shapes stand to each other.
pub trait RelationBetweenShapes<Other> {
    /// The answer that [`Self::relation`] gives.
    spec fn relation_spec(&self, other: &Other, relation: InputRelation) -> OutputRelation;

    /// The relation between the two shapes, answered for the flags of
    /// `relation`: each flag asked for comes back set, the others unset.
    fn relation(&self, other: &Other, relation: InputRelation) -> (r: OutputRelation)
        ensures
            r == self.relation_spec(other, relation),
            answers(r, relation),
    ;

    /// Every relation, with no early exit.
    fn all_relation(&self, other: &Other) -> (r: OutputRelation)
        ensures
            r == self.relation_spec(other, InputRelation::spec_all()),
    {
        self.relation(other, InputRelation::all())
    }

    /// Every relation, with early exit.
    fn any_relation(&self, other: &Other) -> (r: OutputRelation)
        ensures
            r == self.relation_spec(other, InputRelation { early_exit: true, ..InputRelation::spec_all() }),
    {
        self.relation(other, InputRelation::any())
    }

    /// `true` if this shape contains `other`.
    fn contains(&self, other: &Other) -> (r: bool)
        ensures
            r == holds(self.relation_spec(other, single(InputRelation { contains: true, ..InputRelation::spec_none() })).contains),
    {
        let req = InputRelation { contains: true, early_exit: true, ..InputRelation::none() };
        truth(self.relation(other, req).contains)
    }

    /// `true` if this shape strictly contains `other`.
    fn strict_contains(&self, other: &Other) -> (r: bool)
        ensures
            r == holds(self.relation_spec(other, single(InputRelation { strict_contains: true, ..InputRelation::spec_none() })).strict_contains),
    {
        let req = InputRelation { strict_contains: true, early_exit: true, ..InputRelation::none() };
        truth(self.relation(other, req).strict_contains)
    }

    /// `true` if this shape is contained in `other`.
    fn contained(&self, other: &Other) -> (r: bool)
        ensures
            r == holds(self.relation_spec(other, single(InputRelation { contained: true, ..InputRelation::spec_none() })).contained),
    {
        let req = InputRelation { contained: true, early_exit: true, ..InputRelation::none() };
        truth(self.relation(other, req).contained)
    }

    /// `true` if this shape is strictly contained in `other`.
    fn strict_contained(&self, other: &Other) -> (r: bool)
        ensures
            r == holds(self.relation_spec(other, single(InputRelation { strict_contained: true, ..InputRelation::spec_none() })).strict_contained),
    {
        let req = InputRelation {
            strict_contained: true,
            early_exit: true,
            ..InputRelation::none()
        };
        truth(self.relation(other, req).strict_contained)
    }

    /// `true` if the two shapes intersect.
    fn intersects(&self, other: &Other) -> (r: bool)
        ensures
            r == holds(self.relation_spec(other, single(InputRelation { intersect: true, ..InputRelation::spec_none() })).intersect),
    {
        let req = InputRelation { intersect: true, early_exit: true, ..InputRelation::none() };
        truth(self.relation(other, req).intersect)
    }

    /// `true` if the two shapes are disjoint.
    fn disjoint(&self, other: &Other) -> (r: bool)
        ensures
            r == holds(self.relation_spec(other, single(InputRelation { disjoint: true, ..InputRelation::spec_none() })).disjoint),
    {
        let req = InputRelation { disjoint: true, early_exit: true, ..InputRelation::none() };
        truth(self.relation(other, req).disjoint)
    }
}

/// Swapping the contains and contained flags of a request, asking, and swapping
/// them back in the answer undoes itself: swapping twice is the identity.
pub proof fn lemma_swap_involutive(req: InputRelation, out: OutputRelation)
    ensures
        req.swapped().swapped() == req,
        out.swapped().swapped() == out,
        answers(out, req.swapped()) ==> answers(out.swapped(), req),
{
}

/// Raising the strict flags never breaks "strict implies plain", and neither
/// does combining two answers that both keep it, nor swapping directions.
pub proof fn lemma_strict_implies_plain_preserved(a: OutputRelation, b: OutputRelation)
    requires
        strict_implies_plain(a),
        strict_implies_plain(b),
    ensures
        strict_implies_plain(a.spec_with_strict_contains()),
        strict_implies_plain(a.spec_with_strict_contained()),
        strict_implies_plain(a.spec_with_contains()),
        strict_implies_plain(a.spec_with_contained()),
        strict_implies_plain(a.spec_with_intersect()),
        strict_implies_plain(a.spec_with_disjoint()),
        strict_implies_plain(a.swapped()),
        (b.strict_contains is Some ==> b.contains is Some) && (b.strict_contained is Some
            ==> b.contained is Some) ==> strict_implies_plain(a.spec_or(b)),
{
}

/// A freshly seeded answer keeps "strict implies plain".
pub proof fn lemma_seeded_strict_implies_plain(req: InputRelation, value: bool)
    ensures
        strict_implies_plain(OutputRelation::spec_seeded(req, value)),
        answers(OutputRelation::spec_seeded(req, value), req),
{
}

} // verus!
