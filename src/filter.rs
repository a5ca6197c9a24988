use vstd::prelude::*;
use vstd::std_specs::cmp::PartialEqSpec;

verus! {

/// Whether `pattern` is a regular expression that compiles.
pub uninterp spec fn regex_valid(pattern: Seq<char>) -> bool;

/// Whether the compiled `pattern` matches somewhere in `text`.
pub uninterp spec fn regex_matches(pattern: Seq<char>, text: Seq<char>) -> bool;

/// Relies on `regex::Regex::new` (the pattern compiles or not) and
/// `regex::Regex::is_match` (whether it matches somewhere in the text).
#[verifier::external_body]
fn regex_search(pattern: &str, text: &str) -> (r: Option<bool>)
    ensures
        r is Some <==> regex_valid(pattern@),
        r matches Some(b) ==> b == regex_matches(pattern@, text@),
{
    regex::Regex::new(pattern).ok().map(|re| re.is_match(text))
}

/// A value that filters can inspect: as text, as a number, or by equality.
pub trait Parsable: Sized + Copy + PartialEq {
    /// The text a regular expression is matched against, if any.
    spec fn text(&self) -> Option<Seq<char>>;

    /// The number a range is tested against, if any.
    spec fn number(&self) -> Option<usize>;

    fn to_string(&self) -> (r: Option<String>)
        ensures
            r is Some <==> self.text() is Some,
            r matches Some(s) ==> self.text() == Some(s@),
    ;

    fn to_usize(&self) -> (r: Option<usize>)
        ensures
            r == self.number(),
    ;
}

/// Plain numbers are filtered by range only.
impl Parsable for u32 {
    open spec fn text(&self) -> Option<Seq<char>> {
        None
    }

    open spec fn number(&self) -> Option<usize> {
        Some(*self as usize)
    }

    fn to_string(&self) -> (r: Option<String>) {
        None
    }

    fn to_usize(&self) -> (r: Option<usize>) {
        Some(*self as usize)
    }
}

/// Labels are filtered by regular expression only.
impl Parsable for &'static str {
    open spec fn text(&self) -> Option<Seq<char>> {
        Some(self@)
    }

    open spec fn number(&self) -> Option<usize> {
        None
    }

    fn to_string(&self) -> (r: Option<String>) {
        broadcast use vstd::string::to_string_from_display_ensures_for_str;

        let s: &str = *self;
        Some(s.to_string())
    }

    fn to_usize(&self) -> (r: Option<usize>) {
        None
    }
}

/// Both sides of a binary filter.
#[derive(Debug)]
pub struct Clause<T: Parsable> {
    pub left: Box<Filter<T>>,
    pub right: Box<Filter<T>>,
}

impl<T: Parsable> Clause<T> {
    pub fn new(left: Filter<T>, right: Filter<T>) -> (r: Self)
        ensures
            *r.left == left,
            *r.right == right,
    {
        Clause { left: Box::new(left), right: Box::new(right) }
    }
}

#[derive(Debug, Clone)]
pub struct RegexQuery {
    pub regex: String,
}

/// Relies on `RangeInclusive::start`: the lower bound the range was built with.
pub assume_specification<Idx>[ std::ops::RangeInclusive::<Idx>::start ](
    r: &std::ops::RangeInclusive<Idx>,
) -> (s: &Idx)
    ensures
        *s == r@.start,
;

/// Relies on `RangeInclusive::end`: the upper bound the range was built with.
pub assume_specification<Idx>[ std::ops::RangeInclusive::<Idx>::end ](
    r: &std::ops::RangeInclusive<Idx>,
) -> (e: &Idx)
    ensures
        *e == r@.end,
;

#[derive(Debug, Clone)]
/// The inclusive bounds of a numeric range.
pub struct RangeQuery {
    pub start: usize,
    pub end: usize,
}

/// A leaf test: equality with a value, a regular expression on the text
/// form, or an inclusive range on the numeric form.
#[derive(Debug)]
pub enum Primitive<T: Parsable> {
    Raw(T),
    Regex(RegexQuery),
    Range(RangeQuery),
}

/// A predicate over values, built from primitives with and / or / not.
#[derive(Debug)]
pub enum Filter<T: Parsable> {
    And(Clause<T>),
    Or(Clause<T>),
    Not(Box<Filter<T>>),
    BaseCase(Primitive<T>),
}

/// Whether a primitive keeps the value `x`.
pub open spec fn primitive_accepts<T: Parsable>(p: Primitive<T>, x: T) -> bool {
    match p {
        Primitive::Raw(raw) => x.eq_spec(&raw),
        Primitive::Regex(q) => match x.text() {
            Some(s) => regex_valid(q.regex@) && regex_matches(q.regex@, s),
            None => false,
        },
        Primitive::Range(q) => match x.number() {
            Some(n) => q.start <= n <= q.end,
            None => false,
        },
    }
}

/// Some element of `v` equals `x`.
pub open spec fn seq_has<T: Parsable>(v: Seq<T>, x: T) -> bool {
    exists|j: int| 0 <= j < v.len() && (#[trigger] v[j]).eq_spec(&x)
}

/// The values that occur in `v`.
pub open spec fn found_in<T: Parsable>(v: Seq<T>) -> spec_fn(T) -> bool {
    |x: T| seq_has(v, x)
}

/// The values that do not occur in `v`.
pub open spec fn missing_from<T: Parsable>(v: Seq<T>) -> spec_fn(T) -> bool {
    |x: T| !seq_has(v, x)
}

/// The values the primitive keeps.
pub open spec fn kept_by<T: Parsable>(p: Primitive<T>) -> spec_fn(T) -> bool {
    |x: T| primitive_accepts(p, x)
}

/// What applying filter `f` to `list` yields: for `and`, the left result
/// restricted to values found on the right; for `or`, both results one after
/// the other; for `not`, the values of the list absent from the inner result.
pub open spec fn applied<T: Parsable>(f: Filter<T>, list: Seq<T>) -> Seq<T>
    decreases f,
{
    match f {
        Filter::And(c) => applied(*c.left, list).filter(found_in(applied(*c.right, list))),
        Filter::Or(c) => applied(*c.left, list) + applied(*c.right, list),
        Filter::Not(g) => list.filter(missing_from(applied(*g, list))),
        Filter::BaseCase(p) => list.filter(kept_by(p)),
    }
}

/// The filter keeps the single value `x`.
pub open spec fn accepts_value<T: Parsable>(f: Filter<T>, x: T) -> bool {
    applied(f, seq![x]).len() > 0
}

fn contains_item<T: Parsable>(v: &Vec<T>, x: &T) -> (r: bool)
    ensures
        T::obeys_eq_spec() ==> r == seq_has(v@, *x),
{
    let mut i: usize = 0;
    while i < v.len()
        invariant
            i <= v.len(),
            T::obeys_eq_spec() ==> forall|j: int| 0 <= j < i ==> !(#[trigger] v@[j]).eq_spec(x),
        decreases v.len() - i,
    {
        if v[i] == *x {
            return true;
        }
        i = i + 1;
    }
    false
}

/// Filtering a prefix one element longer keeps that element or not.
pub proof fn lemma_filter_step<T>(s: Seq<T>, i: int, pred: spec_fn(T) -> bool)
    requires
        0 <= i < s.len(),
    ensures
        s.subrange(0, i + 1).filter(pred) == if pred(s[i]) {
            s.subrange(0, i).filter(pred).push(s[i])
        } else {
            s.subrange(0, i).filter(pred)
        },
{
    reveal(Seq::filter);
    assert(s.subrange(0, i + 1).drop_last() =~= s.subrange(0, i));
}

fn primitive_keeps<T: Parsable>(p: &Primitive<T>, x: &T) -> (r: bool)
    ensures
        T::obeys_eq_spec() ==> r == primitive_accepts(*p, *x),
{
    match p {
        Primitive::Raw(raw) => *x == *raw,
        Primitive::Regex(q) => match x.to_string() {
            Some(s) => match regex_search(q.regex.as_str(), s.as_str()) {
                Some(b) => b,
                None => false,
            },
            None => false,
        },
        Primitive::Range(q) => match x.to_usize() {
            Some(n) => q.start <= n && n <= q.end,
            None => false,
        },
    }
}

/// The values of `list` that the primitive keeps, in order.
pub fn filter<T: Parsable>(list: &Vec<T>, primitive: &Primitive<T>) -> (r: Vec<T>)
    ensures
        T::obeys_eq_spec() ==> r@ == list@.filter(kept_by(*primitive)),
{
    let mut out: Vec<T> = Vec::new();
    let mut i: usize = 0;
    while i < list.len()
        invariant
            i <= list.len(),
            T::obeys_eq_spec() ==> out@ == list@.subrange(0, i as int).filter(kept_by(*primitive)),
        decreases list.len() - i,
    {
        proof {
            lemma_filter_step(list@, i as int, kept_by(*primitive));
        }
        let x = list[i];
        if primitive_keeps(primitive, &x) {
            out.push(x);
        }
        i = i + 1;
    }
    proof {
        assert(list@.subrange(0, list.len() as int) =~= list@);
    }
    out
}

impl<T: Parsable> Primitive<T> {
    /// An equal copy of the primitive.
    pub fn duplicate(&self) -> (r: Self)
        ensures
            r == *self,
    {
        match self {
            Primitive::Raw(raw) => Primitive::Raw(*raw),
            Primitive::Regex(q) => {
                let regex = q.regex.clone();
                proof {
                    assert(regex@ =~= q.regex@);
                }
                Primitive::Regex(RegexQuery { regex })
            },
            Primitive::Range(q) => {
                Primitive::Range(RangeQuery { start: q.start, end: q.end })
            },
        }
    }
}

impl<T: Parsable> Clone for Primitive<T> {
    fn clone(&self) -> Self {
        self.duplicate()
    }
}

impl<T: Parsable> Filter<T> {
    /// An equal copy of the filter.
    pub fn duplicate(&self) -> (r: Self)
        ensures
            r == *self,
        decreases *self,
    {
        match self {
            Filter::And(c) => Filter::And(Clause::new(c.left.duplicate(), c.right.duplicate())),
            Filter::Or(c) => Filter::Or(Clause::new(c.left.duplicate(), c.right.duplicate())),
            Filter::Not(g) => Filter::Not(Box::new(g.duplicate())),
            Filter::BaseCase(p) => Filter::BaseCase(p.duplicate()),
        }
    }

    pub fn and(self, other: Filter<T>) -> (r: Self)
        ensures
            r matches Filter::And(c) && *c.left == self && *c.right == other,
    {
        Filter::And(Clause::new(self, other))
    }

    pub fn or(self, other: Filter<T>) -> (r: Self)
        ensures
            r matches Filter::Or(c) && *c.left == self && *c.right == other,
    {
        Filter::Or(Clause::new(self, other))
    }

    pub fn new(raw: T) -> (r: Self)
        ensures
            r == Filter::BaseCase(Primitive::Raw(raw)),
    {
        Filter::BaseCase(Primitive::Raw(raw))
    }

    pub fn regex(regex: &str) -> (r: Self)
        ensures
            r matches Filter::BaseCase(Primitive::Regex(q)) && q.regex@ == regex@,
    {
        Filter::BaseCase(Primitive::Regex(RegexQuery { regex: regex.to_string() }))
    }

    /// Keeps values whose number lies between the range's two bounds.
    pub fn range(range: std::ops::RangeInclusive<usize>) -> (r: Self)
        ensures
            r == Filter::BaseCase(
                Primitive::<T>::Range(RangeQuery { start: range@.start, end: range@.end }),
            ),
    {
        let start = *range.start();
        let end = *range.end();
        Filter::BaseCase(Primitive::Range(RangeQuery { start, end }))
    }

    pub fn not(self) -> (r: Self)
        ensures
            r matches Filter::Not(g) && *g == self,
    {
        Filter::Not(Box::new(self))
    }

    /// The values of `list` that the filter keeps, in the shape of `applied`.
    pub fn apply_on(&self, list: &Vec<T>) -> (r: Vec<T>)
        ensures
            T::obeys_eq_spec() ==> r@ == applied(*self, list@),
        decreases *self,
    {
        match self {
            Filter::And(clause) => {
                let left = clause.left.apply_on(list);
                let right = clause.right.apply_on(list);
                let mut out: Vec<T> = Vec::new();
                let mut i: usize = 0;
                while i < left.len()
                    invariant
                        i <= left.len(),
                        T::obeys_eq_spec() ==> out@ == left@.subrange(0, i as int).filter(
                            found_in(right@),
                        ),
                    decreases left.len() - i,
                {
                    proof {
                        lemma_filter_step(left@, i as int, found_in(right@));
                    }
                    let x = left[i];
                    let keep = contains_item(&right, &x);
                    if keep {
                        out.push(x);
                    }
                    i = i + 1;
                }
                proof {
                    assert(left@.subrange(0, left.len() as int) =~= left@);
                }
                out
            },
            Filter::Or(clause) => {
                let mut left = clause.left.apply_on(list);
                let mut right = clause.right.apply_on(list);
                left.append(&mut right);
                left
            },
            Filter::Not(inner) => {
                let filtered = inner.apply_on(list);
                let mut out: Vec<T> = Vec::new();
                let mut i: usize = 0;
                while i < list.len()
                    invariant
                        i <= list.len(),
                        T::obeys_eq_spec() ==> out@ == list@.subrange(0, i as int).filter(
                            missing_from(filtered@),
                        ),
                    decreases list.len() - i,
                {
                    proof {
                        lemma_filter_step(list@, i as int, missing_from(filtered@));
                    }
                    let x = list[i];
                    let found = contains_item(&filtered, &x);
                    if !found {
                        out.push(x);
                    }
                    i = i + 1;
                }
                proof {
                    assert(list@.subrange(0, list.len() as int) =~= list@);
                }
                out
            },
            Filter::BaseCase(primitive) => filter(list, primitive),
        }
    }

    /// Whether the filter keeps the single value `raw`.
    pub fn accepts(&self, raw: &T) -> (r: bool)
        ensures
            T::obeys_eq_spec() ==> r == accepts_value(*self, *raw),
    {
        let single = vec![*raw];
        let kept = self.apply_on(&single);
        proof {
            assert(single@ =~= seq![*raw]);
        }
        kept.len() > 0
    }
}

impl<T: Parsable> Clone for Filter<T> {
    fn clone(&self) -> Self {
        self.duplicate()
    }
}

} // verus!
