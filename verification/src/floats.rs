//! Doubles as bit patterns, and the unit that computes on them.
//!
//! A double is held as the 64 bits of its IEEE 754 binary64 encoding. What can be
//! read off the bits (zero, not-a-number, equality) is decided here; arithmetic,
//! the reading of a decimal literal and the printing of a double are handed to a
//! [`FloatUnit`], as a [`FloatRequest`] that says exactly what is to be computed.
//!
//! Nothing is assumed of the unit. [`Floats`] keeps a ghost log of what the
//! unit was asked and what it answered, and the contracts of the library are
//! stated for every [`Oracle`] that answers as the log says: they tell what a
//! function returns for whatever the unit answered.
use vstd::prelude::*;

verus! {

/// The arithmetic operators on doubles.
#[derive(Clone, Copy, Debug, PartialEq, Eq, Structural)]
pub enum FloatOp {
    Add,
    Sub,
    Mul,
    Div,
    Pow,
}

/// One operand of a float operation: a double by its bits, or an integer that
/// the unit converts to the nearest double first.
#[derive(Clone, Copy, Debug, PartialEq, Eq, Structural)]
pub enum FloatOperand {
    Bits(u64),
    Integer(i64),
}

/// What a [`FloatUnit`] is asked to compute. The answer is always the bit
/// pattern of a double.
#[derive(Debug, PartialEq)]
pub enum FloatRequest {
    /// The double nearest to a decimal literal: digits, a point, digits.
    Literal(String),
    /// The double nearest to an integer.
    Promote(i64),
    /// `lhs op rhs`. `Pow` with an integer on the right raises to an integer
    /// power, the exponent reduced to 32 bits.
    Binary(FloatOp, FloatOperand, FloatOperand),
}

/// A [`FloatRequest`] with its text as a sequence of characters.
pub enum FloatRequestView {
    Literal(Seq<char>),
    Promote(i64),
    Binary(FloatOp, FloatOperand, FloatOperand),
}

impl View for FloatRequest {
    type V = FloatRequestView;

    open spec fn view(&self) -> FloatRequestView {
        match self {
            FloatRequest::Literal(s) => FloatRequestView::Literal(s@),
            FloatRequest::Promote(i) => FloatRequestView::Promote(*i),
            FloatRequest::Binary(op, l, r) => FloatRequestView::Binary(*op, *l, *r),
        }
    }
}

/// The floating-point unit of the host. The library decides when it is asked
/// and what it is asked; it promises nothing of the answers, and every function
/// that consults it is verified for whatever comes back.
pub trait FloatUnit {
    /// Carries out `request` and returns the bits of the resulting double.
    fn compute(&self, request: &FloatRequest) -> u64;

    /// The decimal text of the double with these bits.
    fn render(&self, bits: u64) -> String;
}

/// One consultation of the float unit: what it was asked and what it answered.
pub enum Consultation {
    Computed(FloatRequestView, u64),
    Rendered(u64, Seq<char>),
}

/// A way the float unit might answer: a result for every request and a text
/// for every double, for each time that it is consulted. The times are
/// counted from the first consultation on, which is time 0.
///
/// The contracts of the library say what a function returns under every
/// oracle that answers as the unit did while the function ran.
pub struct Oracle {
    pub compute: spec_fn(int, FloatRequestView) -> u64,
    pub render: spec_fn(int, u64) -> Seq<char>,
}

impl Oracle {
    /// Whether the oracle answers at time `at` as the unit did in this
    /// consultation.
    pub open spec fn agrees(self, at: int, c: Consultation) -> bool {
        match c {
            Consultation::Computed(request, answer) => (self.compute)(at, request) == answer,
            Consultation::Rendered(bits, text) => (self.render)(at, bits) == text,
        }
    }

    /// Whether the oracle answers as the unit did in all consultations of the
    /// log from time `from` on.
    pub open spec fn explains(self, log: Seq<Consultation>, from: int) -> bool {
        forall|i: int| from <= i < log.len() ==> self.agrees(i, #[trigger] log[i])
    }
}

/// The answer of a consultation, where it is a computation.
pub open spec fn answer_of(c: Consultation) -> u64 {
    match c {
        Consultation::Computed(_, answer) => answer,
        Consultation::Rendered(..) => 0,
    }
}

/// The text of a consultation, where it is a rendering.
pub open spec fn rendering_of(c: Consultation) -> Seq<char> {
    match c {
        Consultation::Computed(..) => Seq::empty(),
        Consultation::Rendered(_, text) => text,
    }
}

/// The oracle that answers whatever the log holds for the time.
pub open spec fn oracle_of(log: Seq<Consultation>) -> Oracle {
    Oracle {
        compute: |at: int, request: FloatRequestView|
            if 0 <= at < log.len() {
                answer_of(log[at])
            } else {
                0
            },
        render: |at: int, bits: u64|
            if 0 <= at < log.len() {
                rendering_of(log[at])
            } else {
                Seq::empty()
            },
    }
}

/// A float unit together with the log of its consultations. The log is a
/// ghost: it is there for the contracts, and costs nothing when the program
/// runs.
pub struct Floats<F: FloatUnit> {
    unit: F,
    log: Ghost<Seq<Consultation>>,
}

impl<F: FloatUnit> Floats<F> {
    /// The consultations so far, the earliest first.
    pub closed spec fn log(&self) -> Seq<Consultation> {
        self.log@
    }

    /// How often the unit has been consulted.
    pub open spec fn asked(&self) -> int {
        self.log().len() as int
    }

    /// Whether the log of `self` is that of `before` and what followed.
    pub open spec fn extends(&self, before: &Self) -> bool {
        &&& before.log().len() <= self.log().len()
        &&& forall|i: int| 0 <= i < before.log().len() ==> self.log()[i] == before.log()[i]
    }

    /// Whether the oracle answers as the unit did between `before` and
    /// `self`.
    pub open spec fn told(&self, before: &Self, o: Oracle) -> bool {
        o.explains(self.log(), before.log().len() as int)
    }

    /// Whether `self` comes of `before` by consultations that some oracle
    /// explains. Whatever the unit answers, some oracle does.
    pub open spec fn follows(&self, before: &Self) -> bool {
        self.extends(before) && exists|o: Oracle| #[trigger] self.told(before, o)
    }

    /// The consultations of a unit are explained by the oracle that answers
    /// what its log holds.
    pub proof fn lemma_follows(&self, before: &Self)
        requires
            self.extends(before),
        ensures
            self.follows(before),
    {
        let o = oracle_of(self.log());
        assert(self.told(before, o));
    }

    /// A unit that has not been consulted yet.
    pub fn new(unit: F) -> (r: Self)
        ensures
            r.log() == Seq::<Consultation>::empty(),
    {
        Floats { unit, log: Ghost(Seq::empty()) }
    }

    /// Asks the unit to carry out `request`. The consultation is the one new
    /// entry of the log, so an oracle that answers as the unit did gives this
    /// answer to this request at this time.
    pub fn compute(&mut self, request: &FloatRequest) -> (answer: u64)
        ensures
            final(self).log() == old(self).log().push(
                Consultation::Computed(request@, answer),
            ),
            final(self).extends(old(self)),
            final(self).asked() == old(self).asked() + 1,
            forall|o: Oracle| #[trigger]
                final(self).told(old(self), o) ==> (o.compute)(old(self).asked(), request@)
                    == answer,
    {
        let answer = self.unit.compute(request);
        proof {
            self.log@ = self.log@.push(Consultation::Computed(request@, answer));
            assert(self.log()[old(self).log().len() as int] == Consultation::Computed(
                request@,
                answer,
            ));
        }
        answer
    }

    /// Asks the unit for the decimal text of a double. The consultation is
    /// the one new entry of the log.
    pub fn render(&mut self, bits: u64) -> (text: String)
        ensures
            final(self).log() == old(self).log().push(Consultation::Rendered(bits, text@)),
            final(self).extends(old(self)),
            final(self).asked() == old(self).asked() + 1,
            forall|o: Oracle| #[trigger]
                final(self).told(old(self), o) ==> (o.render)(old(self).asked(), bits) == text@,
    {
        let text = self.unit.render(bits);
        proof {
            self.log@ = self.log@.push(Consultation::Rendered(bits, text@));
            assert(self.log()[old(self).log().len() as int] == Consultation::Rendered(bits, text@));
        }
        text
    }
}

/// What an oracle has to answer to explain a stretch of the log, it has to
/// answer to explain the two parts of the stretch.
pub proof fn lemma_told_in_parts<F: FloatUnit>(
    start: &Floats<F>,
    middle: &Floats<F>,
    end: &Floats<F>,
    o: Oracle,
)
    requires
        middle.extends(start),
        end.extends(middle),
        end.told(start, o),
    ensures
        middle.told(start, o),
        end.told(middle, o),
        end.extends(start),
{
    assert forall|i: int| start.log().len() <= i < middle.log().len() implies o.agrees(
        i,
        #[trigger] middle.log()[i],
    ) by {
        assert(o.agrees(i, end.log()[i]));
    }
}

/// A log that has grown twice has grown.
pub proof fn lemma_extends_in_parts<F: FloatUnit>(
    start: &Floats<F>,
    middle: &Floats<F>,
    end: &Floats<F>,
)
    requires
        middle.extends(start),
        end.extends(middle),
    ensures
        end.extends(start),
{
}

/// What a function that may consult the float unit comes to: its result, and
/// how often the unit has been consulted when it returns.
pub struct Told<T> {
    pub value: T,
    pub asked: int,
}

/// The result `value` after `asked` consultations.
pub open spec fn after<T>(asked: int, value: T) -> Told<T> {
    Told { value, asked }
}

/// The bit of the sign.
pub const SIGN_BIT: u64 = 0x8000_0000_0000_0000;

/// The bits of positive infinity: the exponent all ones, the fraction zero.
pub const INFINITY_BITS: u64 = 0x7ff0_0000_0000_0000;

/// The bits without the sign.
pub open spec fn magnitude(bits: u64) -> int {
    if bits >= SIGN_BIT {
        bits - SIGN_BIT
    } else {
        bits as int
    }
}

/// Positive or negative zero.
pub open spec fn is_zero(bits: u64) -> bool {
    magnitude(bits) == 0
}

/// Not a number: the exponent all ones and a fraction that is not zero.
pub open spec fn is_nan(bits: u64) -> bool {
    magnitude(bits) > INFINITY_BITS
}

/// Equality of doubles: not-a-number equals nothing, the two zeros equal each
/// other, and any other double equals only itself.
pub open spec fn equal(a: u64, b: u64) -> bool {
    !is_nan(a) && !is_nan(b) && (a == b || (is_zero(a) && is_zero(b)))
}

/// Whether the double with these bits is zero.
pub fn float_is_zero(bits: u64) -> (r: bool)
    ensures
        r == is_zero(bits),
{
    bits == 0 || bits == SIGN_BIT
}

/// Whether the double with these bits is not a number.
pub fn float_is_nan(bits: u64) -> (r: bool)
    ensures
        r == is_nan(bits),
{
    let m: u64 = if bits >= SIGN_BIT {
        bits - SIGN_BIT
    } else {
        bits
    };
    m > INFINITY_BITS
}

/// Whether two doubles are equal.
pub fn floats_equal(a: u64, b: u64) -> (r: bool)
    ensures
        r == equal(a, b),
{
    !float_is_nan(a) && !float_is_nan(b) && (a == b || (float_is_zero(a) && float_is_zero(b)))
}

/// Equality of doubles is symmetric.
pub proof fn equal_is_symmetric(a: u64, b: u64)
    ensures
        equal(a, b) == equal(b, a),
{
}

} // verus!
