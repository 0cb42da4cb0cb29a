use vstd::prelude::*;

verus! {

/// The numbers the marketplace speaks: prices, token counts, rates and scores.
///
/// Every rule of this library is written once against this trait. An
/// implementation supplies the arithmetic, the comparisons and the decimal
/// rendering of one representation; each operation is a function of its
/// arguments, and the specification function beside it names that function.
/// The defaults are for representations outside the verified code, which write no
/// specification functions: what is proved over this trait holds of such a one as
/// far as its operations are functions of their arguments.
///
/// Equality, ordering and arithmetic need not obey any algebra: a representation
/// may round, saturate or hold values that compare with nothing.
pub trait Amount: Copy {
    /// The whole number `n`.
    closed spec fn whole(n: u64) -> Self {
        arbitrary()
    }

    /// The amount no price reaches.
    closed spec fn boundless() -> Self {
        arbitrary()
    }

    closed spec fn sum(self, other: Self) -> Self {
        arbitrary()
    }

    closed spec fn difference(self, other: Self) -> Self {
        arbitrary()
    }

    closed spec fn product(self, other: Self) -> Self {
        arbitrary()
    }

    closed spec fn quotient(self, other: Self) -> Self {
        arbitrary()
    }

    /// The absolute value.
    closed spec fn magnitude(self) -> Self {
        arbitrary()
    }

    closed spec fn greater(self, other: Self) -> Self {
        arbitrary()
    }

    closed spec fn lesser(self, other: Self) -> Self {
        arbitrary()
    }

    /// The nearest whole number, halves away from zero.
    closed spec fn nearest_whole(self) -> Self {
        arbitrary()
    }

    closed spec fn less(self, other: Self) -> bool {
        arbitrary()
    }

    closed spec fn at_most(self, other: Self) -> bool {
        arbitrary()
    }

    /// Whether this is an ordinary number, neither infinite nor undefined.
    closed spec fn finite(self) -> bool {
        arbitrary()
    }

    /// The place of this number in a total order of the representation.
    closed spec fn rank(self) -> i128 {
        arbitrary()
    }

    /// The decimal text with exactly `digits` digits after the point.
    closed spec fn fixed_text(self, digits: nat) -> Seq<char> {
        arbitrary()
    }

    /// The shortest decimal text that stands for this number.
    closed spec fn plain_text(self) -> Seq<char> {
        arbitrary()
    }

    fn of(n: u64) -> (r: Self)
        ensures
            r == Self::whole(n),
    ;

    fn beyond_all() -> (r: Self)
        ensures
            r == Self::boundless(),
    ;

    fn plus(self, other: Self) -> (r: Self)
        ensures
            r == self.sum(other),
    ;

    fn minus(self, other: Self) -> (r: Self)
        ensures
            r == self.difference(other),
    ;

    fn times(self, other: Self) -> (r: Self)
        ensures
            r == self.product(other),
    ;

    fn over(self, other: Self) -> (r: Self)
        ensures
            r == self.quotient(other),
    ;

    fn absolute(self) -> (r: Self)
        ensures
            r == self.magnitude(),
    ;

    fn larger_of(self, other: Self) -> (r: Self)
        ensures
            r == self.greater(other),
    ;

    fn smaller_of(self, other: Self) -> (r: Self)
        ensures
            r == self.lesser(other),
    ;

    fn rounded(self) -> (r: Self)
        ensures
            r == self.nearest_whole(),
    ;

    fn is_below(self, other: Self) -> (r: bool)
        ensures
            r == self.less(other),
    ;

    fn is_at_most(self, other: Self) -> (r: bool)
        ensures
            r == self.at_most(other),
    ;

    fn is_finite(self) -> (r: bool)
        ensures
            r == self.finite(),
    ;

    fn order_key(self) -> (r: i128)
        ensures
            r == self.rank(),
    ;

    fn fixed(self, digits: u8) -> (r: String)
        ensures
            r@ == self.fixed_text(digits as nat),
    ;

    fn plain(self) -> (r: String)
        ensures
            r@ == self.plain_text(),
    ;
}

/// What a report keeps of an amount: one that is no ordinary number is lost from
/// it and reads back as zero.
pub open spec fn recorded<N: Amount>(n: N) -> N {
    if n.finite() {
        n
    } else {
        N::whole(0)
    }
}

pub fn as_recorded<N: Amount>(n: N) -> (r: N)
    ensures
        r == recorded(n),
{
    if n.is_finite() {
        n
    } else {
        N::of(0)
    }
}

/// A percentage as a factor.
pub open spec fn percent<N: Amount>(pct: N) -> N {
    pct.quotient(N::whole(100))
}

pub fn percent_of<N: Amount>(pct: N) -> (r: N)
    ensures
        r == percent(pct),
{
    pct.over(N::of(100))
}

} // verus!
