use vstd::prelude::*;
use crate::ast::{Operator, op_text, push_str};
use crate::number::{Number, settle, sum_parts, prod_parts, quot_parts, number_text};
use crate::text::{chars_of, string_of};

verus! {

/// The kinds of runtime values, as errors name them.
#[derive(Clone, Copy, Debug, PartialEq, Eq, Structural)]
pub enum ValueKind {
    Number,
    Str,
    Bool,
    Nil,
    Callable,
}

/// What can go wrong while a program runs.
#[derive(Clone, Copy, Debug, PartialEq, Eq, Structural)]
pub enum RuntimeError {
    /// The operator does not take operands of these kinds.
    TypeMismatch(Operator, ValueKind, ValueKind),
    /// No scope in the chain declares the name.
    Undeclared,
    /// The name is declared but was never given a value.
    UsedBeforeInit,
    /// A function was called with the wrong number of arguments.
    ArityMismatch,
    /// Only functions can be called.
    NotCallable,
    /// A number cannot serve where it stands: a repetition count too large
    /// for memory, or a number that breaks the representation's rules.
    NumberOverflow,
    /// The operator cannot stand in this place of an expression.
    InvalidOperator(Operator),
    /// The evaluation went deeper or longer than it was allowed to.
    OutOfFuel,
}

#[derive(Debug, PartialEq)]
pub enum LoxType {
    VNumb(Number),
    VStr(String),
    VBool(bool),
    VNil,
    /// A function: its name and its index in the environment's function table.
    VCallable(String, usize),
}

/// A runtime value.
#[derive(Debug, PartialEq)]
pub struct LoxValue(pub LoxType);

/// A runtime value as mathematics.
pub enum ValueV {
    Num(Number),
    Str(Seq<char>),
    Bool(bool),
    Nil,
    Callable(Seq<char>, nat),
}

impl View for LoxValue {
    type V = ValueV;

    open spec fn view(&self) -> ValueV {
        match self.0 {
            LoxType::VNumb(n) => ValueV::Num(n),
            LoxType::VStr(s) => ValueV::Str(s@),
            LoxType::VBool(b) => ValueV::Bool(b),
            LoxType::VNil => ValueV::Nil,
            LoxType::VCallable(name, f) => ValueV::Callable(name@, f as nat),
        }
    }
}

/// Numbers are well formed.
pub open spec fn value_wf(v: ValueV) -> bool {
    v matches ValueV::Num(n) ==> n.wf()
}

pub open spec fn kind(v: ValueV) -> ValueKind {
    match v {
        ValueV::Num(_) => ValueKind::Number,
        ValueV::Str(_) => ValueKind::Str,
        ValueV::Bool(_) => ValueKind::Bool,
        ValueV::Nil => ValueKind::Nil,
        ValueV::Callable(_, _) => ValueKind::Callable,
    }
}

/// `nil` and `false` are false; every other value, `0` and `""` among
/// them, is true.
pub open spec fn truthy(v: ValueV) -> bool {
    !(v is Nil || v == ValueV::Bool(false))
}

/// The text of a value when printed: strings without quotes, functions by
/// their name.
pub open spec fn display(v: ValueV) -> Seq<char> {
    match v {
        ValueV::Num(n) => number_text(n),
        ValueV::Str(s) => s,
        ValueV::Bool(b) => if b {
            "true"@
        } else {
            "false"@
        },
        ValueV::Nil => "nil"@,
        ValueV::Callable(name, _) => name,
    }
}

pub open spec fn num_result(n: Number) -> Result<ValueV, RuntimeError> {
    Ok(ValueV::Num(n))
}

/// `s` written `k` times.
pub open spec fn repeat(s: Seq<char>, k: nat) -> Seq<char>
    decreases k,
{
    if k == 0 {
        seq![]
    } else {
        repeat(s, (k - 1) as nat) + s
    }
}

/// How many times `n` repeats a string: its whole part, and none for a
/// negative number or not-a-number. Infinity gives no count.
pub open spec fn rep_count(n: Number) -> Option<nat> {
    if n.den == 0 {
        if n.num > 0 {
            None
        } else {
            Some(0)
        }
    } else if n.num <= 0 {
        Some(0)
    } else {
        Some((n.num / n.den) as nat)
    }
}

/// `s` repeated as often as `n` says, where that fits in memory.
pub open spec fn repeat_by(s: Seq<char>, n: Number) -> Result<ValueV, RuntimeError> {
    match rep_count(n) {
        Some(k) => if k * s.len() <= usize::MAX {
            Ok(ValueV::Str(repeat(s, k)))
        } else {
            Err(RuntimeError::NumberOverflow)
        },
        None => Err(RuntimeError::NumberOverflow),
    }
}

/// The lexicographic order of strings by code point.
pub open spec fn text_less(a: Seq<char>, b: Seq<char>) -> bool
    decreases a.len(),
{
    if a.len() == 0 {
        b.len() > 0
    } else if b.len() == 0 {
        false
    } else if a[0] != b[0] {
        (a[0] as u32) < (b[0] as u32)
    } else {
        text_less(a.drop_first(), b.drop_first())
    }
}

/// Equality of values: numbers by value (not-a-number equals nothing),
/// strings and booleans by content, `nil` equals `nil`, a function equals
/// itself; values of different kinds are never equal.
pub open spec fn equal(a: ValueV, b: ValueV) -> bool {
    match (a, b) {
        (ValueV::Num(x), ValueV::Num(y)) => x.spec_same(y),
        (ValueV::Str(x), ValueV::Str(y)) => x == y,
        (ValueV::Bool(x), ValueV::Bool(y)) => x == y,
        (ValueV::Nil, ValueV::Nil) => true,
        (ValueV::Callable(_, f), ValueV::Callable(_, g)) => f == g,
        _ => false,
    }
}

/// The order of values: numbers, strings and booleans (`false < true`)
/// among their own kind; any other pair is unordered.
pub open spec fn less(a: ValueV, b: ValueV) -> bool {
    match (a, b) {
        (ValueV::Num(x), ValueV::Num(y)) => x.spec_less(y),
        (ValueV::Str(x), ValueV::Str(y)) => text_less(x, y),
        (ValueV::Bool(x), ValueV::Bool(y)) => !x && y,
        _ => false,
    }
}

pub open spec fn mismatch(op: Operator, a: ValueV, b: ValueV) -> Result<ValueV, RuntimeError> {
    Err(RuntimeError::TypeMismatch(op, kind(a), kind(b)))
}

/// The result of a binary operator on two values.
pub open spec fn binary(op: Operator, a: ValueV, b: ValueV) -> Result<ValueV, RuntimeError> {
    match op {
        Operator::Add => match (a, b) {
            (ValueV::Num(x), ValueV::Num(y)) => num_result(settle(sum_parts(x, y).0, sum_parts(x, y).1)),
            (ValueV::Str(x), ValueV::Str(y)) => Ok(ValueV::Str(x + y)),
            _ => mismatch(op, a, b),
        },
        Operator::Sub => match (a, b) {
            (ValueV::Num(x), ValueV::Num(y)) => num_result(
                settle(x.num * y.den - y.num * x.den, x.den * y.den),
            ),
            _ => mismatch(op, a, b),
        },
        Operator::Mul => match (a, b) {
            (ValueV::Num(x), ValueV::Num(y)) => num_result(settle(prod_parts(x, y).0, prod_parts(x, y).1)),
            (ValueV::Str(x), ValueV::Num(y)) => repeat_by(x, y),
            (ValueV::Num(x), ValueV::Str(y)) => repeat_by(y, x),
            _ => mismatch(op, a, b),
        },
        Operator::Div => match (a, b) {
            (ValueV::Num(x), ValueV::Num(y)) => num_result(settle(quot_parts(x, y).0, quot_parts(x, y).1)),
            _ => mismatch(op, a, b),
        },
        Operator::Equal => Ok(ValueV::Bool(equal(a, b))),
        Operator::NotEqual => Ok(ValueV::Bool(!equal(a, b))),
        Operator::Less => Ok(ValueV::Bool(less(a, b))),
        Operator::LessEqual => Ok(ValueV::Bool(less(a, b) || equal(a, b))),
        Operator::Greater => Ok(ValueV::Bool(less(b, a))),
        Operator::GreaterEqual => Ok(ValueV::Bool(less(b, a) || equal(a, b))),
        _ => Err(RuntimeError::InvalidOperator(op)),
    }
}

/// The result of a unary operator on a value.
pub open spec fn unary(op: Operator, a: ValueV) -> Result<ValueV, RuntimeError> {
    match op {
        Operator::Not => Ok(ValueV::Bool(!truthy(a))),
        Operator::Negate => match a {
            ValueV::Num(x) => num_result(settle(-x.num, x.den as int)),
            _ => mismatch(op, a, a),
        },
        _ => Err(RuntimeError::InvalidOperator(op)),
    }
}

/// How messages name a kind of value.
pub open spec fn kind_word(k: ValueKind) -> Seq<char> {
    match k {
        ValueKind::Number => "Number"@,
        ValueKind::Str => "String"@,
        ValueKind::Bool => "Bool"@,
        ValueKind::Nil => "Nil"@,
        ValueKind::Callable => "Callable"@,
    }
}

pub open spec fn runtime_message(e: RuntimeError) -> Seq<char> {
    match e {
        RuntimeError::TypeMismatch(op, a, b) => "cannot apply "@ + op_text(op) + " to "@ + kind_word(a) + " and "@
            + kind_word(b),
        RuntimeError::Undeclared => "variable not declared"@,
        RuntimeError::UsedBeforeInit => "variable used before initialization"@,
        RuntimeError::ArityMismatch => "wrong number of arguments"@,
        RuntimeError::NotCallable => "only functions can be called"@,
        RuntimeError::NumberOverflow => "number out of range"@,
        RuntimeError::InvalidOperator(op) => "operator "@ + op_text(op) + " cannot stand here"@,
        RuntimeError::OutOfFuel => "evaluation ran out of fuel"@,
    }
}

impl ValueKind {
    pub fn word(&self) -> (r: &'static str)
        ensures
            r@ == kind_word(*self),
    {
        match self {
            ValueKind::Number => "Number",
            ValueKind::Str => "String",
            ValueKind::Bool => "Bool",
            ValueKind::Nil => "Nil",
            ValueKind::Callable => "Callable",
        }
    }
}

impl RuntimeError {
    /// What went wrong, in words.
    pub fn message(&self) -> (r: String)
        ensures
            r@ == runtime_message(*self),
    {
        let mut v: Vec<char> = Vec::new();
        match self {
            RuntimeError::TypeMismatch(op, a, b) => {
                push_str(&mut v, "cannot apply ");
                push_str(&mut v, op.text());
                push_str(&mut v, " to ");
                push_str(&mut v, a.word());
                push_str(&mut v, " and ");
                push_str(&mut v, b.word());
            },
            RuntimeError::Undeclared => push_str(&mut v, "variable not declared"),
            RuntimeError::UsedBeforeInit => push_str(&mut v, "variable used before initialization"),
            RuntimeError::ArityMismatch => push_str(&mut v, "wrong number of arguments"),
            RuntimeError::NotCallable => push_str(&mut v, "only functions can be called"),
            RuntimeError::NumberOverflow => push_str(&mut v, "number out of range"),
            RuntimeError::InvalidOperator(op) => {
                push_str(&mut v, "operator ");
                push_str(&mut v, op.text());
                push_str(&mut v, " cannot stand here");
            },
            RuntimeError::OutOfFuel => push_str(&mut v, "evaluation ran out of fuel"),
        }
        assert(v@ =~= runtime_message(*self));
        string_of(&v)
    }
}

pub open spec fn value_res(r: Result<LoxValue, RuntimeError>) -> Result<ValueV, RuntimeError> {
    match r {
        Ok(v) => Ok(v@),
        Err(e) => Err(e),
    }
}


fn text_less_exec(a: &Vec<char>, b: &Vec<char>) -> (r: bool)
    ensures
        r == text_less(a@, b@),
{
    let mut i: usize = 0;
    assert(a@.skip(0) =~= a@);
    assert(b@.skip(0) =~= b@);
    loop
        invariant
            i <= a.len(),
            i <= b.len(),
            text_less(a@, b@) == text_less(a@.skip(i as int), b@.skip(i as int)),
        decreases a.len() - i,
    {
        if i == a.len() {
            return i < b.len();
        }
        if i == b.len() {
            return false;
        }
        if a[i] != b[i] {
            return (a[i] as u32) < (b[i] as u32);
        }
        assert(a@.skip(i as int).drop_first() =~= a@.skip(i + 1));
        assert(b@.skip(i as int).drop_first() =~= b@.skip(i + 1));
        i = i + 1;
    }
}

/// `s` written as often as `n` says.
fn repeat_text(s: &String, n: &Number) -> (r: Result<LoxValue, RuntimeError>)
    requires
        n.wf(),
    ensures
        value_res(r) == repeat_by(s@, *n),
        r matches Ok(v) ==> v.wf(),
{
    let count: u64 = if n.den == 0 {
        if n.num > 0 {
            return Err(RuntimeError::NumberOverflow);
        }
        0
    } else if n.num <= 0 {
        0
    } else {
        (n.num / n.den) as u64
    };
    assert(rep_count(*n) == Some(count as nat));
    let chars = chars_of(s.as_str());
    assert((count as u128) * (chars.len() as u128) <= u128::MAX) by (nonlinear_arith)
        requires
            count <= 0xffff_ffff_ffff_ffff,
            chars.len() <= 0xffff_ffff_ffff_ffff,
    ;
    if (count as u128) * (chars.len() as u128) > usize::MAX as u128 {
        return Err(RuntimeError::NumberOverflow);
    }
    let mut out: Vec<char> = Vec::new();
    let mut i: u64 = 0;
    assert(out@ =~= repeat(s@, 0));
    while i < count
        invariant
            i <= count,
            chars@ == s@,
            out@ == repeat(s@, i as nat),
        decreases count - i,
    {
        let ghost before = out@;
        let mut j: usize = 0;
        while j < chars.len()
            invariant
                j <= chars.len(),
                out@ == before + chars@.take(j as int),
            decreases chars.len() - j,
        {
            out.push(chars[j]);
            j = j + 1;
            assert(out@ =~= before + chars@.take(j as int));
        }
        assert(chars@.take(chars.len() as int) =~= chars@);
        i = i + 1;
    }
    Ok(LoxValue(LoxType::VStr(string_of(&out))))
}

fn num_value(r: Number) -> (v: Result<LoxValue, RuntimeError>)
    requires
        r.wf(),
    ensures
        value_res(v) == num_result(r),
        v matches Ok(x) ==> x.wf(),
{
    Ok(LoxValue(LoxType::VNumb(r)))
}

impl LoxValue {
    pub open spec fn wf(&self) -> bool {
        value_wf(self@)
    }

    pub fn new(t: LoxType) -> (r: LoxValue)
        ensures
            r == LoxValue(t),
    {
        LoxValue(t)
    }

    /// The kind of this value.
    pub fn kind(&self) -> (r: ValueKind)
        ensures
            r == kind(self@),
    {
        match &self.0 {
            LoxType::VNumb(_) => ValueKind::Number,
            LoxType::VStr(_) => ValueKind::Str,
            LoxType::VBool(_) => ValueKind::Bool,
            LoxType::VNil => ValueKind::Nil,
            LoxType::VCallable(_, _) => ValueKind::Callable,
        }
    }

    /// A value equal to this one.
    pub fn copy(&self) -> (r: LoxValue)
        ensures
            r@ == self@,
    {
        match &self.0 {
            LoxType::VNumb(n) => LoxValue(LoxType::VNumb(*n)),
            LoxType::VStr(s) => LoxValue(LoxType::VStr(s.clone())),
            LoxType::VBool(b) => LoxValue(LoxType::VBool(*b)),
            LoxType::VNil => LoxValue(LoxType::VNil),
            LoxType::VCallable(name, f) => LoxValue(LoxType::VCallable(name.clone(), *f)),
        }
    }

    /// The text of this value when printed.
    pub fn value_string(&self) -> (r: String)
        requires
            self.wf(),
        ensures
            r@ == display(self@),
    {
        match &self.0 {
            LoxType::VNumb(n) => string_of(&n.text()),
            LoxType::VStr(s) => s.clone(),
            LoxType::VBool(b) => if *b {
                "true".to_owned()
            } else {
                "false".to_owned()
            },
            LoxType::VNil => "nil".to_owned(),
            LoxType::VCallable(name, _) => name.clone(),
        }
    }

    pub fn _is_truthy(&self) -> (r: bool)
        ensures
            r == truthy(self@),
    {
        match &self.0 {
            LoxType::VBool(false) | LoxType::VNil => false,
            _ => true,
        }
    }

    /// The truth of this value, as a boolean value.
    pub fn is_truthy(&self) -> (r: LoxValue)
        ensures
            r@ == ValueV::Bool(truthy(self@)),
    {
        LoxValue(LoxType::VBool(self._is_truthy()))
    }

    pub fn not(&self) -> (r: Result<LoxValue, RuntimeError>)
        ensures
            value_res(r) == unary(Operator::Not, self@),
            r matches Ok(v) ==> v.wf(),
    {
        Ok(LoxValue(LoxType::VBool(!self._is_truthy())))
    }

    pub fn negate(&self) -> (r: Result<LoxValue, RuntimeError>)
        requires
            self.wf(),
        ensures
            value_res(r) == unary(Operator::Negate, self@),
            r matches Ok(v) ==> v.wf(),
    {
        match &self.0 {
            LoxType::VNumb(n) => num_value(n.negated()),
            _ => Err(RuntimeError::TypeMismatch(Operator::Negate, self.kind(), self.kind())),
        }
    }

    pub fn sub(&self, b: &LoxValue) -> (r: Result<LoxValue, RuntimeError>)
        requires
            self.wf(),
            b.wf(),
        ensures
            value_res(r) == binary(Operator::Sub, self@, b@),
            r matches Ok(v) ==> v.wf(),
    {
        match (&self.0, &b.0) {
            (LoxType::VNumb(x), LoxType::VNumb(y)) => num_value(x.minus(y)),
            _ => Err(RuntimeError::TypeMismatch(Operator::Sub, self.kind(), b.kind())),
        }
    }

    pub fn add(&self, b: &LoxValue) -> (r: Result<LoxValue, RuntimeError>)
        requires
            self.wf(),
            b.wf(),
        ensures
            value_res(r) == binary(Operator::Add, self@, b@),
            r matches Ok(v) ==> v.wf(),
    {
        match (&self.0, &b.0) {
            (LoxType::VNumb(x), LoxType::VNumb(y)) => num_value(x.plus(y)),
            (LoxType::VStr(x), LoxType::VStr(y)) => {
                let mut v = chars_of(x.as_str());
                let w = chars_of(y.as_str());
                let ghost v0 = v@;
                let mut i: usize = 0;
                while i < w.len()
                    invariant
                        i <= w.len(),
                        v@ == v0 + w@.take(i as int),
                    decreases w.len() - i,
                {
                    v.push(w[i]);
                    i = i + 1;
                    assert(v@ =~= v0 + w@.take(i as int));
                }
                assert(w@.take(w.len() as int) =~= w@);
                Ok(LoxValue(LoxType::VStr(string_of(&v))))
            },
            _ => Err(RuntimeError::TypeMismatch(Operator::Add, self.kind(), b.kind())),
        }
    }

    pub fn mul(&self, b: &LoxValue) -> (r: Result<LoxValue, RuntimeError>)
        requires
            self.wf(),
            b.wf(),
        ensures
            value_res(r) == binary(Operator::Mul, self@, b@),
            r matches Ok(v) ==> v.wf(),
    {
        match (&self.0, &b.0) {
            (LoxType::VNumb(x), LoxType::VNumb(y)) => num_value(x.times(y)),
            (LoxType::VStr(x), LoxType::VNumb(y)) => repeat_text(x, y),
            (LoxType::VNumb(x), LoxType::VStr(y)) => repeat_text(y, x),
            _ => Err(RuntimeError::TypeMismatch(Operator::Mul, self.kind(), b.kind())),
        }
    }

    pub fn div(&self, b: &LoxValue) -> (r: Result<LoxValue, RuntimeError>)
        requires
            self.wf(),
            b.wf(),
        ensures
            value_res(r) == binary(Operator::Div, self@, b@),
            r matches Ok(v) ==> v.wf(),
    {
        match (&self.0, &b.0) {
            (LoxType::VNumb(x), LoxType::VNumb(y)) => num_value(x.over(y)),
            _ => Err(RuntimeError::TypeMismatch(Operator::Div, self.kind(), b.kind())),
        }
    }

    /// Whether the two values are equal, as `equal` states it.
    pub fn same_as(&self, b: &LoxValue) -> (r: bool)
        requires
            self.wf(),
            b.wf(),
        ensures
            r == equal(self@, b@),
    {
        match (&self.0, &b.0) {
            (LoxType::VNumb(x), LoxType::VNumb(y)) => x.same(y),
            (LoxType::VStr(x), LoxType::VStr(y)) => *x == *y,
            (LoxType::VBool(x), LoxType::VBool(y)) => *x == *y,
            (LoxType::VNil, LoxType::VNil) => true,
            (LoxType::VCallable(_, f), LoxType::VCallable(_, g)) => *f == *g,
            _ => false,
        }
    }

    /// Whether this value comes before `b`, as `less` states it.
    pub fn before(&self, b: &LoxValue) -> (r: bool)
        requires
            self.wf(),
            b.wf(),
        ensures
            r == less(self@, b@),
    {
        match (&self.0, &b.0) {
            (LoxType::VNumb(x), LoxType::VNumb(y)) => x.less(y),
            (LoxType::VStr(x), LoxType::VStr(y)) => text_less_exec(
                &chars_of(x.as_str()),
                &chars_of(y.as_str()),
            ),
            (LoxType::VBool(x), LoxType::VBool(y)) => !*x && *y,
            _ => false,
        }
    }

    pub fn neq(&self, b: &LoxValue) -> (r: Result<LoxValue, RuntimeError>)
        requires
            self.wf(),
            b.wf(),
        ensures
            value_res(r) == binary(Operator::NotEqual, self@, b@),
            r matches Ok(v) ==> v.wf(),
    {
        Ok(LoxValue(LoxType::VBool(!self.same_as(b))))
    }

    pub fn eq(&self, b: &LoxValue) -> (r: Result<LoxValue, RuntimeError>)
        requires
            self.wf(),
            b.wf(),
        ensures
            value_res(r) == binary(Operator::Equal, self@, b@),
            r matches Ok(v) ==> v.wf(),
    {
        Ok(LoxValue(LoxType::VBool(self.same_as(b))))
    }

    pub fn gt(&self, b: &LoxValue) -> (r: Result<LoxValue, RuntimeError>)
        requires
            self.wf(),
            b.wf(),
        ensures
            value_res(r) == binary(Operator::Greater, self@, b@),
            r matches Ok(v) ==> v.wf(),
    {
        Ok(LoxValue(LoxType::VBool(b.before(self))))
    }

    pub fn ge(&self, b: &LoxValue) -> (r: Result<LoxValue, RuntimeError>)
        requires
            self.wf(),
            b.wf(),
        ensures
            value_res(r) == binary(Operator::GreaterEqual, self@, b@),
            r matches Ok(v) ==> v.wf(),
    {
        Ok(LoxValue(LoxType::VBool(b.before(self) || self.same_as(b))))
    }

    pub fn lt(&self, b: &LoxValue) -> (r: Result<LoxValue, RuntimeError>)
        requires
            self.wf(),
            b.wf(),
        ensures
            value_res(r) == binary(Operator::Less, self@, b@),
            r matches Ok(v) ==> v.wf(),
    {
        Ok(LoxValue(LoxType::VBool(self.before(b))))
    }

    pub fn le(&self, b: &LoxValue) -> (r: Result<LoxValue, RuntimeError>)
        requires
            self.wf(),
            b.wf(),
        ensures
            value_res(r) == binary(Operator::LessEqual, self@, b@),
            r matches Ok(v) ==> v.wf(),
    {
        Ok(LoxValue(LoxType::VBool(self.before(b) || self.same_as(b))))
    }

    /// Both values true.
    pub fn and(&self, b: &LoxValue) -> (r: Result<LoxValue, RuntimeError>)
        ensures
            value_res(r) == Ok::<ValueV, RuntimeError>(ValueV::Bool(truthy(self@) && truthy(b@))),
            r matches Ok(v) ==> v.wf(),
    {
        Ok(LoxValue(LoxType::VBool(self._is_truthy() && b._is_truthy())))
    }

    /// Either value true.
    pub fn or(&self, b: &LoxValue) -> (r: Result<LoxValue, RuntimeError>)
        ensures
            value_res(r) == Ok::<ValueV, RuntimeError>(ValueV::Bool(truthy(self@) || truthy(b@))),
            r matches Ok(v) ==> v.wf(),
    {
        Ok(LoxValue(LoxType::VBool(self._is_truthy() || b._is_truthy())))
    }
}

/// A binary operator applied to two values.
pub fn eval_bin_op(op: &Operator, left: &LoxValue, right: &LoxValue) -> (r: Result<LoxValue, RuntimeError>)
    requires
        left.wf(),
        right.wf(),
    ensures
        value_res(r) == binary(*op, left@, right@),
        r matches Ok(v) ==> v.wf(),
{
    match op {
        Operator::Sub => left.sub(right),
        Operator::Add => left.add(right),
        Operator::Mul => left.mul(right),
        Operator::Div => left.div(right),
        Operator::NotEqual => left.neq(right),
        Operator::Equal => left.eq(right),
        Operator::Greater => left.gt(right),
        Operator::GreaterEqual => left.ge(right),
        Operator::Less => left.lt(right),
        Operator::LessEqual => left.le(right),
        _ => Err(RuntimeError::InvalidOperator(*op)),
    }
}

/// A unary operator applied to a value.
pub fn eval_unary_op(op: &Operator, operand: &LoxValue) -> (r: Result<LoxValue, RuntimeError>)
    requires
        operand.wf(),
    ensures
        value_res(r) == unary(*op, operand@),
        r matches Ok(v) ==> v.wf(),
{
    match op {
        Operator::Not => operand.not(),
        Operator::Negate => operand.negate(),
        _ => Err(RuntimeError::InvalidOperator(*op)),
    }
}

} // verus!
