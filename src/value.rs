//! The runtime value model: equality, ordering, truthiness and concatenation.
use vstd::prelude::*;

verus! {

/// A runtime value. A number holds the bit pattern of a binary64 float.
#[derive(Debug)]
pub enum Value {
    Bool(bool),
    Null,
    Number(u64),
    Str(Vec<char>),
}

/// The mathematical model of a value.
pub ghost enum ValueModel {
    Bool(bool),
    Null,
    Number(u64),
    Str(Seq<char>),
}

impl View for Value {
    type V = ValueModel;

    open spec fn view(&self) -> ValueModel {
        match self {
            Value::Bool(b) => ValueModel::Bool(*b),
            Value::Null => ValueModel::Null,
            Value::Number(n) => ValueModel::Number(*n),
            Value::Str(s) => ValueModel::Str(s@),
        }
    }
}

pub const SIGN_BIT: u64 = 0x8000_0000_0000_0000;
pub const MAGNITUDE_MASK: u64 = 0x7fff_ffff_ffff_ffff;
pub const EXPONENT_MASK: u64 = 0x7ff0_0000_0000_0000;
pub const FRACTION_MASK: u64 = 0x000f_ffff_ffff_ffff;

/// The bits encode a NaN: all exponent bits set and a non-zero fraction.
pub open spec fn is_nan(b: u64) -> bool {
    b & EXPONENT_MASK == EXPONENT_MASK && b & FRACTION_MASK != 0
}

pub open spec fn magnitude(b: u64) -> u64 {
    b & MAGNITUDE_MASK
}

pub open spec fn is_negative(b: u64) -> bool {
    b & SIGN_BIT != 0
}

/// Float equality on bit patterns: NaN equals nothing, and the two zeros are equal.
pub open spec fn num_eq(a: u64, b: u64) -> bool {
    !is_nan(a) && !is_nan(b) && (a == b || (magnitude(a) == 0 && magnitude(b) == 0))
}

/// Float `<` on bit patterns: NaN is unordered and the two zeros are equal.
pub open spec fn num_lt(a: u64, b: u64) -> bool {
    &&& !is_nan(a)
    &&& !is_nan(b)
    &&& !(magnitude(a) == 0 && magnitude(b) == 0)
    &&& if is_negative(a) != is_negative(b) {
        is_negative(a)
    } else if is_negative(a) {
        magnitude(b) < magnitude(a)
    } else {
        magnitude(a) < magnitude(b)
    }
}

/// Float negation flips the sign bit and nothing else.
pub open spec fn num_neg(a: u64) -> u64 {
    a ^ SIGN_BIT
}

pub fn number_is_nan(b: u64) -> (r: bool)
    ensures
        r == is_nan(b),
{
    b & EXPONENT_MASK == EXPONENT_MASK && b & FRACTION_MASK != 0
}

pub fn numbers_equal(a: u64, b: u64) -> (r: bool)
    ensures
        r == num_eq(a, b),
{
    !number_is_nan(a) && !number_is_nan(b) && (a == b || (a & MAGNITUDE_MASK == 0 && b
        & MAGNITUDE_MASK == 0))
}

pub fn number_less(a: u64, b: u64) -> (r: bool)
    ensures
        r == num_lt(a, b),
{
    if number_is_nan(a) || number_is_nan(b) {
        return false;
    }
    let ma = a & MAGNITUDE_MASK;
    let mb = b & MAGNITUDE_MASK;
    if ma == 0 && mb == 0 {
        return false;
    }
    let na = a & SIGN_BIT != 0;
    let nb = b & SIGN_BIT != 0;
    if na != nb {
        na
    } else if na {
        mb < ma
    } else {
        ma < mb
    }
}

pub fn number_negate(a: u64) -> (r: u64)
    ensures
        r == num_neg(a),
{
    a ^ SIGN_BIT
}

/// Structural equality of two values; values of different kinds are never equal.
pub open spec fn values_equal_spec(a: ValueModel, b: ValueModel) -> bool {
    match (a, b) {
        (ValueModel::Null, ValueModel::Null) => true,
        (ValueModel::Number(x), ValueModel::Number(y)) => num_eq(x, y),
        (ValueModel::Bool(x), ValueModel::Bool(y)) => x == y,
        (ValueModel::Str(x), ValueModel::Str(y)) => x == y,
        _ => false,
    }
}

/// Ordering is defined on numbers and booleans only.
pub open spec fn orderable(a: ValueModel) -> bool {
    a is Number || a is Bool
}

/// `a < b` for orderable values; a number and a boolean are never ordered.
pub open spec fn values_less_spec(a: ValueModel, b: ValueModel) -> bool {
    match (a, b) {
        (ValueModel::Number(x), ValueModel::Number(y)) => num_lt(x, y),
        (ValueModel::Bool(x), ValueModel::Bool(y)) => !x && y,
        _ => false,
    }
}

/// Only null and `false` are falsy.
pub open spec fn is_falsy(v: ValueModel) -> bool {
    v is Null || v == ValueModel::Bool(false)
}

/// Why an ordering could not be computed.
#[derive(Debug, Clone, Copy, PartialEq, Eq, Structural)]
pub enum OrderError {
    NotOrderable,
}

pub fn chars_equal(a: &Vec<char>, b: &Vec<char>) -> (r: bool)
    ensures
        r == (a@ == b@),
{
    if a.len() != b.len() {
        return false;
    }
    let mut i: usize = 0;
    while i < a.len()
        invariant
            a@.len() == b@.len(),
            0 <= i <= a@.len(),
            forall|k: int| 0 <= k < i ==> a@[k] == b@[k],
        decreases a@.len() - i,
    {
        if a[i] != b[i] {
            return false;
        }
        i += 1;
    }
    assert(a@ =~= b@);
    true
}

pub fn copy_chars(a: &Vec<char>) -> (r: Vec<char>)
    ensures
        r@ == a@,
{
    let mut r: Vec<char> = Vec::new();
    let mut i: usize = 0;
    while i < a.len()
        invariant
            0 <= i <= a@.len(),
            r@ == a@.subrange(0, i as int),
        decreases a@.len() - i,
    {
        r.push(a[i]);
        i += 1;
        assert(r@ =~= a@.subrange(0, i as int));
    }
    assert(a@.subrange(0, a@.len() as int) =~= a@);
    r
}

/// The characters of `source` from `a` up to `b`.
pub fn copy_range(source: &Vec<char>, a: usize, b: usize) -> (r: Vec<char>)
    requires
        a <= b <= source@.len(),
    ensures
        r@ == source@.subrange(a as int, b as int),
{
    let mut r: Vec<char> = Vec::new();
    let mut i = a;
    while i < b
        invariant
            a <= i <= b <= source@.len(),
            r@ == source@.subrange(a as int, i as int),
        decreases b - i,
    {
        r.push(source[i]);
        i += 1;
        assert(r@ =~= source@.subrange(a as int, i as int));
    }
    r
}

/// The concatenation that `+` performs on two strings.
pub open spec fn concat(a: Seq<char>, b: Seq<char>) -> Seq<char> {
    a + b
}

/// Appends the characters of `right` after those of `left`.
pub fn add_strings(left: &Vec<char>, right: &Vec<char>) -> (r: Vec<char>)
    ensures
        r@ == concat(left@, right@),
{
    let mut r = copy_chars(left);
    let mut i: usize = 0;
    while i < right.len()
        invariant
            0 <= i <= right@.len(),
            r@ == left@ + right@.subrange(0, i as int),
        decreases right@.len() - i,
    {
        r.push(right[i]);
        i += 1;
        assert(r@ =~= left@ + right@.subrange(0, i as int));
    }
    assert(right@.subrange(0, right@.len() as int) =~= right@);
    r
}

/// String concatenation is associative, has the empty string as identity on
/// both sides, and its length is the sum of the operands' lengths.
pub proof fn lemma_concat_laws(a: Seq<char>, b: Seq<char>, c: Seq<char>)
    ensures
        concat(concat(a, b), c) == concat(a, concat(b, c)),
        concat(a, Seq::empty()) == a,
        concat(Seq::empty(), a) == a,
        concat(a, b).len() == a.len() + b.len(),
{
    assert(concat(concat(a, b), c) =~= concat(a, concat(b, c)));
    assert(concat(a, Seq::empty()) =~= a);
    assert(concat(Seq::empty(), a) =~= a);
}

impl Value {
    /// A copy of the value that owns its own characters.
    pub fn copy(&self) -> (r: Value)
        ensures
            r@ == self@,
    {
        match self {
            Value::Bool(b) => Value::Bool(*b),
            Value::Null => Value::Null,
            Value::Number(n) => Value::Number(*n),
            Value::Str(s) => Value::Str(copy_chars(s)),
        }
    }
}

/// Structural equality of two values.
pub fn values_equal(val1: &Value, val2: &Value) -> (r: bool)
    ensures
        r == values_equal_spec(val1@, val2@),
{
    match (val1, val2) {
        (Value::Null, Value::Null) => true,
        (Value::Number(x), Value::Number(y)) => numbers_equal(*x, *y),
        (Value::Bool(x), Value::Bool(y)) => *x == *y,
        (Value::Str(x), Value::Str(y)) => chars_equal(x, y),
        _ => false,
    }
}

/// `val1 < val2`; an error where either operand is a string or null.
pub fn values_less(val1: &Value, val2: &Value) -> (r: Result<bool, OrderError>)
    ensures
        r is Err <==> !(orderable(val1@) && orderable(val2@)),
        r is Ok ==> r->Ok_0 == values_less_spec(val1@, val2@),
{
    match (val1, val2) {
        (Value::Number(x), Value::Number(y)) => Ok(number_less(*x, *y)),
        (Value::Bool(x), Value::Bool(y)) => Ok(!*x && *y),
        (Value::Number(_), Value::Bool(_)) => Ok(false),
        (Value::Bool(_), Value::Number(_)) => Ok(false),
        _ => Err(OrderError::NotOrderable),
    }
}

/// `val1 > val2`, which is `val2 < val1`; an error where either operand is a
/// string or null.
pub fn values_greater(val1: &Value, val2: &Value) -> (r: Result<bool, OrderError>)
    ensures
        r is Err <==> !(orderable(val1@) && orderable(val2@)),
        r is Ok ==> r->Ok_0 == values_less_spec(val2@, val1@),
{
    values_less(val2, val1)
}

/// Whether a branch on this value is not taken.
pub fn is_falsy_value(v: &Value) -> (r: bool)
    ensures
        r == is_falsy(v@),
{
    match v {
        Value::Null => true,
        Value::Bool(b) => !*b,
        _ => false,
    }
}

/// A vector holding the characters of a string.
pub fn str_chars(s: &str) -> (r: Vec<char>)
    ensures
        r@ == s@,
{
    let n = s.unicode_len();
    let mut r: Vec<char> = Vec::new();
    let mut i: usize = 0;
    while i < n
        invariant
            n == s@.len(),
            0 <= i <= n,
            r@ == s@.subrange(0, i as int),
        decreases n - i,
    {
        r.push(s.get_char(i));
        i += 1;
        assert(r@ =~= s@.subrange(0, i as int));
    }
    assert(s@.subrange(0, n as int) =~= s@);
    r
}

/// A vector holding the characters of `w`.
pub fn chars_of(w: &[char]) -> (r: Vec<char>)
    ensures
        r@ == w@,
{
    let mut r: Vec<char> = Vec::new();
    let mut i: usize = 0;
    while i < w.len()
        invariant
            0 <= i <= w@.len(),
            r@ == w@.subrange(0, i as int),
        decreases w@.len() - i,
    {
        r.push(w[i]);
        i += 1;
        assert(r@ =~= w@.subrange(0, i as int));
    }
    assert(w@.subrange(0, w@.len() as int) =~= w@);
    r
}

/// How `print` renders a value; a number renders as `number_text`, the
/// decimal text of its float.
pub open spec fn value_text(v: ValueModel, number_text: Seq<char>) -> Seq<char> {
    match v {
        ValueModel::Bool(true) => seq!['t', 'r', 'u', 'e'],
        ValueModel::Bool(false) => seq!['f', 'a', 'l', 's', 'e'],
        ValueModel::Null => seq!['n', 'u', 'l', 'l'],
        ValueModel::Number(_) => number_text,
        ValueModel::Str(s) => s,
    }
}

/// The rendering used in traces: a string between double quotes.
pub open spec fn quoted_text(v: ValueModel, number_text: Seq<char>) -> Seq<char> {
    match v {
        ValueModel::Str(s) => seq!['"'] + s + seq!['"'],
        _ => value_text(v, number_text),
    }
}

/// The text that `print` shows for a value, given the decimal text of the
/// value where it is a number.
pub fn get_value_str(value: &Value, number_text: &Vec<char>) -> (r: Vec<char>)
    ensures
        r@ == value_text(value@, number_text@),
{
    match value {
        Value::Bool(true) => chars_of(&['t', 'r', 'u', 'e']),
        Value::Bool(false) => chars_of(&['f', 'a', 'l', 's', 'e']),
        Value::Null => chars_of(&['n', 'u', 'l', 'l']),
        Value::Number(_) => copy_chars(number_text),
        Value::Str(s) => copy_chars(s),
    }
}

/// The text of a value in traces: as `get_value_str`, but a string is shown
/// between double quotes.
pub fn get_value_str_with_quotes(value: &Value, number_text: &Vec<char>) -> (r: Vec<char>)
    ensures
        r@ == quoted_text(value@, number_text@),
{
    match value {
        Value::Str(s) => {
            let mut r = chars_of(&['"']);
            let mut i: usize = 0;
            while i < s.len()
                invariant
                    0 <= i <= s@.len(),
                    r@ == seq!['"'] + s@.subrange(0, i as int),
                decreases s@.len() - i,
            {
                r.push(s[i]);
                i += 1;
                assert(r@ =~= seq!['"'] + s@.subrange(0, i as int));
            }
            r.push('"');
            assert(s@.subrange(0, s@.len() as int) =~= s@);
            assert(r@ =~= seq!['"'] + s@ + seq!['"']);
            r
        },
        _ => get_value_str(value, number_text),
    }
}

} // verus!
