//! Text helpers: building strings from characters, decimal numerals, and the
//! two character classes that identifiers are made of.
use vstd::prelude::*;
use vstd::std_specs::iter::IteratorSpec;

verus! {

/// Whether `char::is_alphabetic` holds of `c`.
pub uninterp spec fn is_letter(c: char) -> bool;

/// Whether `char::is_alphanumeric` holds of `c`.
pub uninterp spec fn is_word_char(c: char) -> bool;

/// `char::is_alphabetic`: the Unicode property `Alphabetic`. Nothing is claimed
/// of it but that it is a function of the character.
pub assume_specification[ char::is_alphabetic ](c: char) -> (r: bool)
    ensures
        r == is_letter(c),
;

/// `char::is_alphanumeric`: alphabetic or numeric in Unicode's sense. Nothing is
/// claimed of it but that it is a function of the character.
pub assume_specification[ char::is_alphanumeric ](c: char) -> (r: bool)
    ensures
        r == is_word_char(c),
;

/// `String::push` appends one character to the end of the string.
pub assume_specification[ std::string::String::push ](s: &mut std::string::String, c: char)
    ensures
        final(s)@ == old(s)@.push(c),
;

/// An ASCII decimal digit.
pub open spec fn is_digit(c: char) -> bool {
    '0' <= c && c <= '9'
}

/// Whether `c` is an ASCII decimal digit.
pub fn digit(c: char) -> (r: bool)
    ensures
        r == is_digit(c),
{
    c >= '0' && c <= '9'
}

/// The characters of `v` from `from` up to `to`, cut to the vector's bounds.
pub open spec fn slice_of(v: Seq<char>, from: int, to: int) -> Seq<char> {
    if 0 <= from <= to <= v.len() {
        v.subrange(from, to)
    } else {
        Seq::empty()
    }
}

/// Collects `v[from..to]` into a string; an empty one where the range is not
/// inside the vector.
pub fn text_of(v: &Vec<char>, from: usize, to: usize) -> (s: String)
    ensures
        s@ == slice_of(v@, from as int, to as int),
{
    let mut s = String::new();
    if from <= to && to <= v.len() {
        let mut i: usize = from;
        while i < to
            invariant
                from <= i <= to <= v.len(),
                s@ == v@.subrange(from as int, i as int),
            decreases to - i,
        {
            s.push(v[i]);
            i += 1;
        }
    }
    s
}

/// The characters of a string slice.
pub fn chars_of(s: &str) -> (v: Vec<char>)
    ensures
        v@ == s@,
{
    let mut v: Vec<char> = Vec::new();
    let mut it = s.chars();
    loop
        invariant
            it.obeys_prophetic_iter_laws(),
            it.decrease() is Some,
            s@ == v@ + it.remaining(),
        ensures
            v@ == s@,
        decreases it.decrease()->0,
    {
        let ghost before = it;
        match it.next() {
            Some(c) => {
                assert(before.remaining().len() > 0);
                assert(before.remaining() =~= seq![c] + it.remaining());
                v.push(c);
            },
            None => {
                assert(before.remaining().len() == 0);
                break ;
            },
        }
    }
    v
}

/// An owned copy of a string slice.
pub fn owned(s: &str) -> (r: String)
    ensures
        r@ == s@,
{
    s.to_owned()
}

/// `a` followed by `b`.
pub fn joined(a: &String, b: &String) -> (r: String)
    ensures
        r@ == a@ + b@,
{
    let mut r = a.clone();
    r.append(b.as_str());
    r
}

/// The character of the decimal digit `d`.
pub open spec fn digit_char(d: int) -> char {
    (48 + d) as char
}

/// The decimal numeral of a natural number, without leading zeros.
pub open spec fn digits_of(n: nat) -> Seq<char>
    decreases n,
{
    if n < 10 {
        seq![digit_char(n as int)]
    } else {
        digits_of(n / 10).push(digit_char((n % 10) as int))
    }
}

/// The decimal numeral of an integer: a minus sign where it is negative, then
/// the numeral of its magnitude.
pub open spec fn decimal(i: int) -> Seq<char> {
    if i < 0 {
        seq!['-'] + digits_of((-i) as nat)
    } else {
        digits_of(i as nat)
    }
}

fn push_digits(s: &mut String, n: u64)
    ensures
        final(s)@ == old(s)@ + digits_of(n as nat),
    decreases n,
{
    if n >= 10 {
        push_digits(s, n / 10);
    }
    let d: u8 = (n % 10) as u8;
    s.push((48 + d) as char);
}

/// The decimal numeral of a natural number.
pub fn natural_text(n: u64) -> (r: String)
    ensures
        r@ == digits_of(n as nat),
{
    let mut s = String::new();
    push_digits(&mut s, n);
    s
}

/// The decimal numeral of an integer.
pub fn integer_text(i: i64) -> (r: String)
    ensures
        r@ == decimal(i as int),
{
    let mut s = String::new();
    if i < 0 {
        s.push('-');
        let m: u64 = (-(i + 1)) as u64 + 1;
        push_digits(&mut s, m);
    } else {
        push_digits(&mut s, i as u64);
    }
    s
}

/// What a character counts for in a numeral: its digit, or nothing.
pub open spec fn digit_value(c: char) -> nat {
    if is_digit(c) {
        (c as int - 48) as nat
    } else {
        0
    }
}

/// The number that a run of decimal digits denotes.
pub open spec fn decimal_value(s: Seq<char>) -> nat
    decreases s.len(),
{
    if s.len() == 0 {
        0
    } else {
        decimal_value(s.drop_last()) * 10 + digit_value(s.last())
    }
}

/// The value of an integer literal: the number its digits denote, or zero where
/// that number does not fit in 64 bits with a sign.
pub open spec fn integer_literal(s: Seq<char>) -> i64 {
    if decimal_value(s) <= i64::MAX {
        decimal_value(s) as i64
    } else {
        0
    }
}

/// Reads `v[from..to]` as an integer literal.
pub fn integer_of(v: &Vec<char>, from: usize, to: usize) -> (r: i64)
    ensures
        r == integer_literal(slice_of(v@, from as int, to as int)),
{
    if !(from <= to && to <= v.len()) {
        return 0;
    }
    let mut acc: i64 = 0;
    let mut fits: bool = true;
    let mut i: usize = from;
    while i < to
        invariant
            from <= i <= to <= v.len(),
            fits ==> acc == decimal_value(v@.subrange(from as int, i as int)),
            fits ==> acc >= 0,
            !fits ==> decimal_value(v@.subrange(from as int, i as int)) > i64::MAX,
        decreases to - i,
    {
        let c = v[i];
        let d: i64 = if digit(c) {
            ((c as u8) - 48) as i64
        } else {
            0
        };
        proof {
            let next = v@.subrange(from as int, i + 1);
            assert(next.drop_last() =~= v@.subrange(from as int, i as int));
            assert(next.last() == c);
            assert(d == digit_value(c));
        }
        if fits {
            match acc.checked_mul(10) {
                Some(t) => match t.checked_add(d) {
                    Some(u) => {
                        acc = u;
                    },
                    None => {
                        fits = false;
                    },
                },
                None => {
                    fits = false;
                },
            }
        }
        i += 1;
    }
    if fits {
        acc
    } else {
        0
    }
}

/// The texts of a sequence of strings.
pub open spec fn texts(v: Seq<String>) -> Seq<Seq<char>> {
    Seq::new(v.len(), |i: int| v[i]@)
}

/// Whether the strings `now` are the strings `before` followed by strings with
/// the texts `added`.
pub open spec fn extended_by(now: Seq<String>, before: Seq<String>, added: Seq<Seq<char>>) -> bool {
    &&& now.len() == before.len() + added.len()
    &&& now.take(before.len() as int) == before
    &&& forall|i: int| 0 <= i < added.len() ==> #[trigger] added[i] == now[before.len() + i]@
    &&& forall|j: int|
        before.len() <= j < now.len() ==> added[j - before.len()] == (#[trigger] now[j])@
}

/// Nothing added leaves the strings as they were.
pub proof fn lemma_extended_by_nothing(now: Seq<String>)
    ensures
        extended_by(now, now, Seq::empty()),
{
    assert(now.take(now.len() as int) =~= now);
}

/// One more string at the end adds its text at the end.
pub proof fn lemma_extended_by_one(
    now: Seq<String>,
    middle: Seq<String>,
    before: Seq<String>,
    added: Seq<Seq<char>>,
)
    requires
        extended_by(middle, before, added),
        now.len() == middle.len() + 1,
        now.drop_last() == middle,
    ensures
        extended_by(now, before, added.push(now.last()@)),
{
    let grown = added.push(now.last()@);
    assert(now.take(before.len() as int) =~= middle.take(before.len() as int));
    assert forall|i: int| 0 <= i < grown.len() implies #[trigger] grown[i] == now[before.len()
        + i]@ by {
        if i < added.len() {
            assert(added[i] == middle[before.len() + i]@);
            assert(now.drop_last()[before.len() + i] == now[before.len() + i]);
        }
    }
}

/// Copies a vector of strings.
pub fn clone_texts(v: &Vec<String>) -> (r: Vec<String>)
    ensures
        texts(r@) == texts(v@),
{
    let mut r: Vec<String> = Vec::new();
    let mut i: usize = 0;
    while i < v.len()
        invariant
            i <= v.len(),
            r.len() == i,
            forall|j: int| 0 <= j < i ==> r[j]@ == v[j]@,
        decreases v.len() - i,
    {
        r.push(v[i].clone());
        i += 1;
    }
    assert(texts(r@) =~= texts(v@));
    r
}

/// Copies a vector of characters.
pub fn clone_chars(v: &Vec<char>) -> (r: Vec<char>)
    ensures
        r@ == v@,
{
    let mut r: Vec<char> = Vec::new();
    let mut i: usize = 0;
    while i < v.len()
        invariant
            i <= v.len(),
            r@ == v@.subrange(0, i as int),
        decreases v.len() - i,
    {
        r.push(v[i]);
        i += 1;
    }
    assert(v@.subrange(0, v@.len() as int) =~= v@);
    r
}

/// A numeral denotes the number it is the numeral of: what is written out
/// with [`digits_of`] is read back by [`decimal_value`].
pub proof fn numeral_round_trip(n: nat)
    ensures
        decimal_value(digits_of(n)) == n,
    decreases n,
{
    let last = digit_char((n % 10) as int);
    assert(digit_value(last) == n % 10);
    if n < 10 {
        let s = digits_of(n);
        assert(s.drop_last() =~= Seq::<char>::empty());
        assert(decimal_value(s.drop_last()) == 0);
    } else {
        numeral_round_trip(n / 10);
        let s = digits_of(n);
        assert(s.drop_last() =~= digits_of(n / 10));
    }
}

/// An integer that fits is, as a literal, itself: what [`integer_text`] writes
/// for an integer that is not negative, [`integer_of`] reads back.
pub proof fn integer_literal_round_trip(i: i64)
    requires
        i >= 0,
    ensures
        integer_literal(decimal(i as int)) == i,
{
    numeral_round_trip(i as nat);
}

} // verus!
