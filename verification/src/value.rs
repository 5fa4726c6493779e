use vstd::prelude::*;
use vstd::string::StringExecFns;

verus! {

/// Sign bit of an IEEE-754 double.
pub const SIGN_MASK: u64 = 0x8000_0000_0000_0000;

/// Exponent field of an IEEE-754 double.
pub const EXP_MASK: u64 = 0x7ff0_0000_0000_0000;

/// Fraction field of an IEEE-754 double.
pub const FRAC_MASK: u64 = 0x000f_ffff_ffff_ffff;

/// Whether the bit pattern `b` encodes a NaN: exponent all ones and a
/// non-zero fraction.
pub open spec fn nan_bits(b: u64) -> bool {
    b & EXP_MASK == EXP_MASK && b & FRAC_MASK != 0
}

/// Whether the bit pattern `b` encodes positive or negative zero.
pub open spec fn zero_bits(b: u64) -> bool {
    b == 0 || b == SIGN_MASK
}

/// IEEE-754 equality of two doubles given by their bit patterns: a NaN equals
/// nothing, the two zeros equal each other, and any other double equals
/// exactly the patterns identical to its own.
pub open spec fn eq_bits(a: u64, b: u64) -> bool {
    &&& !nan_bits(a)
    &&& !nan_bits(b)
    &&& (a == b || (zero_bits(a) && zero_bits(b)))
}

/// IEEE-754 `<` on two doubles given by their bit patterns.  For non-negative
/// doubles the bit patterns order as the values do; for negative doubles the
/// order is reversed; a NaN is less than nothing.
pub open spec fn lt_bits(a: u64, b: u64) -> bool {
    if nan_bits(a) || nan_bits(b) {
        false
    } else if zero_bits(a) && zero_bits(b) {
        false
    } else {
        let na = a & SIGN_MASK != 0;
        let nb = b & SIGN_MASK != 0;
        if na != nb {
            na
        } else if !na {
            a < b
        } else {
            b < a
        }
    }
}

/// IEEE-754 negation of a double given by its bit pattern: the sign bit flips.
pub open spec fn neg_bits(b: u64) -> u64 {
    b ^ SIGN_MASK
}

/// A NaN never equals anything, itself included.
pub proof fn lemma_nan_not_equal(a: u64, b: u64)
    requires
        nan_bits(a) || nan_bits(b),
    ensures
        !eq_bits(a, b),
{
}

/// IEEE-754 equality test on two doubles given by their bit patterns.
pub fn number_eq(a: u64, b: u64) -> (r: bool)
    ensures
        r == eq_bits(a, b),
{
    let a_nan = (a & EXP_MASK) == EXP_MASK && (a & FRAC_MASK) != 0;
    let b_nan = (b & EXP_MASK) == EXP_MASK && (b & FRAC_MASK) != 0;
    if a_nan || b_nan {
        false
    } else {
        a == b || ((a == 0 || a == SIGN_MASK) && (b == 0 || b == SIGN_MASK))
    }
}

/// IEEE-754 `<` on two doubles given by their bit patterns.
pub fn number_lt(a: u64, b: u64) -> (r: bool)
    ensures
        r == lt_bits(a, b),
{
    let a_nan = (a & EXP_MASK) == EXP_MASK && (a & FRAC_MASK) != 0;
    let b_nan = (b & EXP_MASK) == EXP_MASK && (b & FRAC_MASK) != 0;
    if a_nan || b_nan {
        false
    } else if (a == 0 || a == SIGN_MASK) && (b == 0 || b == SIGN_MASK) {
        false
    } else {
        let na = a & SIGN_MASK != 0;
        let nb = b & SIGN_MASK != 0;
        if na != nb {
            na
        } else if !na {
            a < b
        } else {
            b < a
        }
    }
}

/// Whether the bit pattern encodes a NaN.
pub fn number_is_nan(b: u64) -> (r: bool)
    ensures
        r == nan_bits(b),
{
    (b & EXP_MASK) == EXP_MASK && (b & FRAC_MASK) != 0
}

/// IEEE-754 negation of a double given by its bit pattern.
pub fn negate_bits(b: u64) -> (r: u64)
    ensures
        r == neg_bits(b),
{
    b ^ SIGN_MASK
}

/// The mathematical value of a runtime [`Value`].
pub enum ValueV {
    Nil,
    Bool(bool),
    Num(u64),
    Str(Seq<char>),
}

/// Whether two runtime values are equal: structural within a tag, false
/// across tags, and IEEE-754 equality for numbers.
pub open spec fn values_equal(a: ValueV, b: ValueV) -> bool {
    match (a, b) {
        (ValueV::Nil, ValueV::Nil) => true,
        (ValueV::Bool(x), ValueV::Bool(y)) => x == y,
        (ValueV::Num(x), ValueV::Num(y)) => eq_bits(x, y),
        (ValueV::Str(x), ValueV::Str(y)) => x == y,
        _ => false,
    }
}

/// The mathematical values of a sequence of runtime values.
pub open spec fn views_of(s: Seq<Value>) -> Seq<ValueV> {
    s.map_values(|v: Value| v@)
}

/// Mapping to mathematical values commutes with appending.
pub proof fn lemma_views_push(s: Seq<Value>, v: Value)
    ensures
        views_of(s.push(v)) == views_of(s).push(v@),
{
    assert(views_of(s.push(v)) =~= views_of(s).push(v@));
}

/// Mapping to mathematical values commutes with dropping the last element.
pub proof fn lemma_views_drop_last(s: Seq<Value>)
    requires
        s.len() >= 1,
    ensures
        views_of(s.drop_last()) == views_of(s).drop_last(),
{
    assert(views_of(s.drop_last()) =~= views_of(s).drop_last());
}

/// Mapping to mathematical values commutes with taking a prefix.
pub proof fn lemma_views_take(s: Seq<Value>, n: int)
    requires
        0 <= n <= s.len(),
    ensures
        views_of(s.take(n)) == views_of(s).take(n),
{
    assert(views_of(s.take(n)) =~= views_of(s).take(n));
}

/// The tag and payload of a runtime value.  A number is stored as the 64-bit
/// pattern of an IEEE-754 double.
#[allow(non_camel_case_types)]
#[derive(Debug)]
pub enum ValueType {
    VAL_BOOL(bool),
    VAL_NIL,
    VAL_NUMBER(u64),
    VAL_STRING(String),
}

/// A runtime value of the language.
#[derive(Debug)]
pub struct Value {
    pub type_v: ValueType,
}

impl View for Value {
    type V = ValueV;

    open spec fn view(&self) -> ValueV {
        match self.type_v {
            ValueType::VAL_NIL => ValueV::Nil,
            ValueType::VAL_BOOL(b) => ValueV::Bool(b),
            ValueType::VAL_NUMBER(n) => ValueV::Num(n),
            ValueType::VAL_STRING(s) => ValueV::Str(s@),
        }
    }
}

impl Clone for Value {
    /// Copies the value, string payload included.
    fn clone(&self) -> (v: Value)
        ensures
            v@ == self@,
    {
        match &self.type_v {
            ValueType::VAL_NIL => Value { type_v: ValueType::VAL_NIL },
            ValueType::VAL_BOOL(b) => Value { type_v: ValueType::VAL_BOOL(*b) },
            ValueType::VAL_NUMBER(n) => Value { type_v: ValueType::VAL_NUMBER(*n) },
            ValueType::VAL_STRING(s) => Value { type_v: ValueType::VAL_STRING(s.clone()) },
        }
    }
}

impl Value {
    /// A boolean value.
    pub fn bool_value(value: bool) -> (v: Self)
        ensures
            v@ == ValueV::Bool(value),
    {
        Value { type_v: ValueType::VAL_BOOL(value) }
    }

    /// The nil value.
    pub fn nil_value() -> (v: Self)
        ensures
            v@ == ValueV::Nil,
    {
        Value { type_v: ValueType::VAL_NIL }
    }

    /// The number whose IEEE-754 double has the bit pattern `value`.
    pub fn number_value(value: u64) -> (v: Self)
        ensures
            v@ == ValueV::Num(value),
    {
        Value { type_v: ValueType::VAL_NUMBER(value) }
    }

    /// A string value with the given text.
    pub fn obj_value(str: &str) -> (v: Self)
        ensures
            v@ == ValueV::Str(str@),
    {
        Value { type_v: ValueType::VAL_STRING(String::from_str(str)) }
    }

    /// The payload of a boolean value.
    pub fn as_bool(&self) -> (b: bool)
        requires
            self@ is Bool,
        ensures
            self@ == ValueV::Bool(b),
    {
        if let ValueType::VAL_BOOL(b) = self.type_v {
            b
        } else {
            false
        }
    }

    /// The bit pattern of a number value.
    pub fn as_number(&self) -> (n: u64)
        requires
            self@ is Num,
        ensures
            self@ == ValueV::Num(n),
    {
        if let ValueType::VAL_NUMBER(n) = self.type_v {
            n
        } else {
            0
        }
    }

    /// A copy of the text of a string value.
    pub fn as_obj(&self) -> (s: String)
        requires
            self@ is Str,
        ensures
            self@ == ValueV::Str(s@),
    {
        if let ValueType::VAL_STRING(s) = &self.type_v {
            s.clone()
        } else {
            String::new()
        }
    }

    /// Whether the value is a boolean.
    pub fn is_bool(&self) -> (r: bool)
        ensures
            r == (self@ is Bool),
    {
        matches!(self.type_v, ValueType::VAL_BOOL(_))
    }

    /// Whether the value is a string.
    pub fn is_obj(&self) -> (r: bool)
        ensures
            r == (self@ is Str),
    {
        matches!(self.type_v, ValueType::VAL_STRING(_))
    }

    /// Whether the value is a number.
    pub fn is_number(&self) -> (r: bool)
        ensures
            r == (self@ is Num),
    {
        matches!(self.type_v, ValueType::VAL_NUMBER(_))
    }

    /// Whether the value is nil.
    pub fn is_nil(&self) -> (r: bool)
        ensures
            r == (self@ is Nil),
    {
        matches!(self.type_v, ValueType::VAL_NIL)
    }
}

/// The constant pool of a chunk: an append-only sequence of values.
#[derive(Debug)]
pub struct ValueArray {
    pub values: Vec<Value>,
}

impl ValueArray {
    /// An empty pool.
    pub fn new() -> (a: Self)
        ensures
            a.values@.len() == 0,
    {
        ValueArray { values: Vec::new() }
    }
}

} // verus!
