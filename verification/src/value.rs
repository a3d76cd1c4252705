//! Owned values bound to SQL queries.
//!
//! Scalars that other crates model (decimals, UUIDs, timestamps, JSON) are
//! held here in a plain, lossless form; converting to and from the richer
//! types is the job of the code that talks to a driver.
use vstd::prelude::*;

verus! {

/// An owned runtime value bound to a SQL query.
#[derive(Debug, PartialEq)]
pub enum Value {
    /// SQL `NULL`.
    Null,
    /// A boolean.
    Bool(bool),
    /// A 32-bit integer.
    I32(i32),
    /// A 64-bit integer.
    I64(i64),
    /// A double, held as its IEEE 754 binary64 bit pattern.
    F64(u64),
    /// An exact decimal, held as its canonical decimal text.
    Decimal(String),
    /// A string.
    Str(String),
    /// A UUID, held as its 128-bit big-endian value.
    Uuid(u128),
    /// A UTC timestamp, in microseconds since the Unix epoch.
    DateTime(i64),
    /// A calendar date, in days since 1970-01-01.
    Date(i32),
    /// A time of day, in nanoseconds since midnight.
    Time(u64),
    /// A JSON document, held as its text.
    Json(String),
    /// A byte string.
    Bytes(Vec<u8>),
    /// A homogeneous array of values.
    Array(Vec<Value>),
}

/// The mathematical content of a [`Value`].
pub enum ValueView {
    /// SQL `NULL`.
    Null,
    /// A boolean.
    Bool(bool),
    /// A 32-bit integer.
    I32(i32),
    /// A 64-bit integer.
    I64(i64),
    /// A double's bit pattern.
    F64(u64),
    /// A decimal's text.
    Decimal(Seq<char>),
    /// A string.
    Str(Seq<char>),
    /// A UUID.
    Uuid(u128),
    /// Microseconds since the Unix epoch.
    DateTime(i64),
    /// Days since 1970-01-01.
    Date(i32),
    /// Nanoseconds since midnight.
    Time(u64),
    /// JSON text.
    Json(Seq<char>),
    /// Bytes.
    Bytes(Seq<u8>),
    /// Array elements.
    Array(Seq<ValueView>),
}

/// The views of a sequence of values, element by element.
pub open spec fn views_of(s: Seq<Value>) -> Seq<ValueView>
    decreases s,
{
    if s.len() == 0 {
        Seq::empty()
    } else {
        views_of(s.drop_last()).push(s.last().view())
    }
}

impl View for Value {
    type V = ValueView;

    open spec fn view(&self) -> ValueView
        decreases self,
    {
        match self {
            Value::Null => ValueView::Null,
            Value::Bool(b) => ValueView::Bool(*b),
            Value::I32(i) => ValueView::I32(*i),
            Value::I64(i) => ValueView::I64(*i),
            Value::F64(f) => ValueView::F64(*f),
            Value::Decimal(s) => ValueView::Decimal(s@),
            Value::Str(s) => ValueView::Str(s@),
            Value::Uuid(u) => ValueView::Uuid(*u),
            Value::DateTime(t) => ValueView::DateTime(*t),
            Value::Date(t) => ValueView::Date(*t),
            Value::Time(t) => ValueView::Time(*t),
            Value::Json(s) => ValueView::Json(s@),
            Value::Bytes(b) => ValueView::Bytes(b@),
            Value::Array(v) => {
                proof {
                    broadcast use vstd::std_specs::vec::axiom_vec_decreases_to_view;

                }
                ValueView::Array(views_of(v@))
            },
        }
    }
}

/// `views_of` distributes over concatenation.
pub proof fn lemma_views_of_add(a: Seq<Value>, b: Seq<Value>)
    ensures
        views_of(a + b) == views_of(a) + views_of(b),
    decreases b.len(),
{
    if b.len() == 0 {
        assert(a + b =~= a);
        assert(views_of(a) + views_of(b) =~= views_of(a));
    } else {
        lemma_views_of_add(a, b.drop_last());
        assert((a + b).drop_last() =~= a + b.drop_last());
        assert(views_of(a) + views_of(b) =~= views_of(a) + views_of(b.drop_last()).push(
            b.last()@,
        ));
    }
}

/// `views_of` keeps the length and maps each element to its view.
pub proof fn lemma_views_of_index(s: Seq<Value>)
    ensures
        views_of(s).len() == s.len(),
        forall|i: int| 0 <= i < s.len() ==> #[trigger] views_of(s)[i] == s[i]@,
    decreases s.len(),
{
    if s.len() > 0 {
        lemma_views_of_index(s.drop_last());
        assert(views_of(s) == views_of(s.drop_last()).push(s.last()@));
        assert forall|i: int| 0 <= i < s.len() implies #[trigger] views_of(s)[i] == s[i]@ by {
            if i < s.len() - 1 {
                assert(views_of(s)[i] == views_of(s.drop_last())[i]);
                assert(s.drop_last()[i] == s[i]);
            }
        }
    }
}

/// A copy of `v` with the same content.
pub fn copy_value(v: &Value) -> (r: Value)
    ensures
        r@ == v@,
    decreases v,
{
    match v {
        Value::Null => Value::Null,
        Value::Bool(b) => Value::Bool(*b),
        Value::I32(i) => Value::I32(*i),
        Value::I64(i) => Value::I64(*i),
        Value::F64(f) => Value::F64(*f),
        Value::Decimal(s) => Value::Decimal(s.clone()),
        Value::Str(s) => Value::Str(s.clone()),
        Value::Uuid(u) => Value::Uuid(*u),
        Value::DateTime(t) => Value::DateTime(*t),
        Value::Date(t) => Value::Date(*t),
        Value::Time(t) => Value::Time(*t),
        Value::Json(s) => Value::Json(s.clone()),
        Value::Bytes(b) => {
            let mut out: Vec<u8> = Vec::new();
            let mut i: usize = 0;
            while i < b.len()
                invariant
                    i <= b@.len(),
                    out@ == b@.take(i as int),
                decreases b@.len() - i,
            {
                out.push(b[i]);
                proof {
                    assert(b@.take(i + 1) =~= b@.take(i as int).push(b@[i as int]));
                }
                i = i + 1;
            }
            proof {
                assert(b@.take(b@.len() as int) =~= b@);
            }
            Value::Bytes(out)
        },
        Value::Array(items) => {
            let mut out: Vec<Value> = Vec::new();
            let mut i: usize = 0;
            while i < items.len()
                invariant
                    i <= items@.len(),
                    *v == Value::Array(*items),
                    views_of(out@) == views_of(items@.take(i as int)),
                decreases items@.len() - i,
            {
                proof {
                    vstd::std_specs::vec::axiom_vec_index_decreases(*items, i as int);
                    assert(decreases_to!(*v => (*v)->Array_0));
                    assert(decreases_to!(*v => items[i as int]));
                }
                let c = copy_value(&items[i]);
                let ghost before = out@;
                out.push(c);
                proof {
                    assert(out@.drop_last() =~= before);
                    assert(items@.take(i + 1).drop_last() =~= items@.take(i as int));
                }
                i = i + 1;
            }
            proof {
                assert(items@.take(items@.len() as int) =~= items@);
            }
            Value::Array(out)
        },
    }
}

/// Whether two values have the same content.
pub fn same_value(a: &Value, b: &Value) -> (r: bool)
    ensures
        r == (a@ == b@),
    decreases a,
{
    match (a, b) {
        (Value::Null, Value::Null) => true,
        (Value::Bool(x), Value::Bool(y)) => *x == *y,
        (Value::I32(x), Value::I32(y)) => *x == *y,
        (Value::I64(x), Value::I64(y)) => *x == *y,
        (Value::F64(x), Value::F64(y)) => *x == *y,
        (Value::Decimal(x), Value::Decimal(y)) => *x == *y,
        (Value::Str(x), Value::Str(y)) => *x == *y,
        (Value::Uuid(x), Value::Uuid(y)) => *x == *y,
        (Value::DateTime(x), Value::DateTime(y)) => *x == *y,
        (Value::Date(x), Value::Date(y)) => *x == *y,
        (Value::Time(x), Value::Time(y)) => *x == *y,
        (Value::Json(x), Value::Json(y)) => *x == *y,
        (Value::Bytes(x), Value::Bytes(y)) => {
            if x.len() != y.len() {
                return false;
            }
            let mut i: usize = 0;
            while i < x.len()
                invariant
                    i <= x@.len(),
                    x@.len() == y@.len(),
                    *a == Value::Bytes(*x),
                    *b == Value::Bytes(*y),
                    forall|k: int| 0 <= k < i ==> x@[k] == y@[k],
                decreases x@.len() - i,
            {
                if x[i] != y[i] {
                    proof {
                        assert(x@[i as int] != y@[i as int]);
                        assert(x@ != y@);
                    }
                    return false;
                }
                i = i + 1;
            }
            proof {
                assert(x@ =~= y@);
            }
            true
        },
        (Value::Array(x), Value::Array(y)) => {
            proof {
                lemma_views_of_index(x@);
                lemma_views_of_index(y@);
            }
            if x.len() != y.len() {
                return false;
            }
            let mut i: usize = 0;
            while i < x.len()
                invariant
                    i <= x@.len(),
                    x@.len() == y@.len(),
                    *a == Value::Array(*x),
                    *b == Value::Array(*y),
                    views_of(x@).len() == x@.len(),
                    views_of(y@).len() == y@.len(),
                    forall|k: int| 0 <= k < x@.len() ==> #[trigger] views_of(x@)[k] == x@[k]@,
                    forall|k: int| 0 <= k < y@.len() ==> #[trigger] views_of(y@)[k] == y@[k]@,
                    forall|k: int| 0 <= k < i ==> x@[k]@ == y@[k]@,
                decreases x@.len() - i,
            {
                proof {
                    vstd::std_specs::vec::axiom_vec_index_decreases(*x, i as int);
                    assert(decreases_to!(*a => (*a)->Array_0));
                    assert(decreases_to!(*a => x[i as int]));
                }
                if !same_value(&x[i], &y[i]) {
                    proof {
                        assert(views_of(x@)[i as int] != views_of(y@)[i as int]);
                        assert(views_of(x@) != views_of(y@));
                        assert(a@ == ValueView::Array(views_of(x@)));
                        assert(b@ == ValueView::Array(views_of(y@)));
                    }
                    return false;
                }
                i = i + 1;
            }
            proof {
                assert(views_of(x@) =~= views_of(y@));
            }
            true
        },
        _ => false,
    }
}

/// Copies of `vs`, element by element.
pub fn copy_values(vs: &Vec<Value>) -> (r: Vec<Value>)
    ensures
        views_of(r@) == views_of(vs@),
{
    let mut out: Vec<Value> = Vec::new();
    let mut i: usize = 0;
    while i < vs.len()
        invariant
            i <= vs@.len(),
            views_of(out@) == views_of(vs@.take(i as int)),
        decreases vs@.len() - i,
    {
        let c = copy_value(&vs[i]);
        let ghost before = out@;
        out.push(c);
        proof {
            assert(out@.drop_last() =~= before);
            assert(vs@.take(i + 1).drop_last() =~= vs@.take(i as int));
        }
        i = i + 1;
    }
    proof {
        assert(vs@.take(vs@.len() as int) =~= vs@);
    }
    out
}

impl Clone for Value {
    fn clone(&self) -> (r: Self)
        ensures
            r@ == self@,
    {
        copy_value(self)
    }
}

impl Value {
    /// Returns `true` for `Value::Null`.
    pub fn is_null(&self) -> (b: bool)
        ensures
            b == (*self is Null),
    {
        matches!(self, Value::Null)
    }
}

/// A binary64 floating-point number held as its IEEE 754 bit pattern; the
/// result type of `AVG`.
#[derive(Debug, Clone, Copy, PartialEq, Eq)]
pub struct Double(pub u64);

/// A value that can be encoded into a bound SQL parameter.
pub trait Encodable {
    /// The value `to_value` produces.
    spec fn encoded(&self) -> ValueView;

    /// Encode `self` into a runtime value.
    fn to_value(&self) -> (v: Value)
        ensures
            v@ == self.encoded(),
    ;
}

/// Marker trait for types that support ordered comparisons in SQL.
///
/// `String` is deliberately not `Ordered`; use the string-specific methods on
/// `Column<M, String>` instead.
pub trait Ordered: Encodable {

}

impl Encodable for bool {
    open spec fn encoded(&self) -> ValueView {
        ValueView::Bool(*self)
    }

    fn to_value(&self) -> (v: Value) {
        Value::Bool(*self)
    }
}

impl Ordered for bool {

}

impl Encodable for i32 {
    open spec fn encoded(&self) -> ValueView {
        ValueView::I32(*self)
    }

    fn to_value(&self) -> (v: Value) {
        Value::I32(*self)
    }
}

impl Ordered for i32 {

}

impl Encodable for i64 {
    open spec fn encoded(&self) -> ValueView {
        ValueView::I64(*self)
    }

    fn to_value(&self) -> (v: Value) {
        Value::I64(*self)
    }
}

impl Ordered for i64 {

}

impl Encodable for String {
    open spec fn encoded(&self) -> ValueView {
        ValueView::Str(self@)
    }

    fn to_value(&self) -> (v: Value) {
        Value::Str(self.clone())
    }
}

impl Encodable for Value {
    open spec fn encoded(&self) -> ValueView {
        self@
    }

    fn to_value(&self) -> (v: Value) {
        copy_value(self)
    }
}

impl<T: Encodable> Encodable for Option<T> {
    open spec fn encoded(&self) -> ValueView {
        match self {
            Some(v) => v.encoded(),
            None => ValueView::Null,
        }
    }

    fn to_value(&self) -> (v: Value) {
        match self {
            Some(v) => v.to_value(),
            None => Value::Null,
        }
    }
}

impl<T: Ordered> Ordered for Option<T> {

}

} // verus!
