//! Attributes attached to declarations, and the lookups that decide how two
//! matched declarations are compared.
use vstd::prelude::*;

use crate::diff::same_text;
use crate::user_attributes;
use crate::user_attributes::memoized;

verus! {

/// The argument names that a `__Native` attribute may carry.
pub const OP_CODE_IMPL: &'static str = "OpCodeImpl";

pub const NO_INJECTION: &'static str = "NoInjection";

/// A constant value given as an attribute argument.
pub enum TypedValue {
    Uninit,
    Int(i64),
    Bool(bool),
    String(String),
    LazyClass(String),
    Null,
}

/// An attribute: a name and a series of arguments.
pub struct Attribute {
    pub name: String,
    pub arguments: Vec<TypedValue>,
}

/// Some argument of `attr` is the string `s`.
pub open spec fn has_string_arg(attr: Attribute, s: Seq<char>) -> bool {
    exists|j: int|
        0 <= j < attr.arguments@.len() && (#[trigger] attr.arguments@[j] matches TypedValue::String(
            t,
        ) && t@ == s)
}

/// Some attribute of `attrs` is named `n`.
pub open spec fn has_named(attrs: Seq<Attribute>, n: Seq<char>) -> bool {
    exists|i: int| 0 <= i < attrs.len() && (#[trigger] attrs[i]).name@ == n
}

impl Attribute {
    /// An attribute named `name` with the given arguments.
    pub fn new(name: &str, arguments: Vec<TypedValue>) -> (r: Attribute)
        ensures
            r.name@ == name@,
            r.arguments@ == arguments@,
    {
        Attribute { name: name.to_owned(), arguments }
    }

    /// Applies the test `f` to the attribute's name.
    pub fn is<F: Fn(&str) -> bool>(&self, f: F) -> (r: bool)
        requires
            forall|s: &str| #[trigger] f.requires((s,)),
        ensures
            exists|s: &str| s@ == self.name@ && #[trigger] f.ensures((s,), r),
    {
        let s = self.name.as_str();
        let r = f(s);
        assert(f.ensures((s,), r));
        r
    }
}

fn has_string_argument(attr: &Attribute, s: &str) -> (r: bool)
    ensures
        r == has_string_arg(*attr, s@),
{
    let mut j: usize = 0;
    while j < attr.arguments.len()
        invariant
            j <= attr.arguments@.len(),
            forall|m: int|
                0 <= m < j ==> !(#[trigger] attr.arguments@[m] matches TypedValue::String(t) && t@
                    == s@),
        decreases attr.arguments@.len() - j,
    {
        match &attr.arguments[j] {
            TypedValue::String(t) => {
                if same_text(t.as_str(), s) {
                    return true;
                }
            },
            _ => {},
        }
        j = j + 1;
    }
    false
}

/// Some `__Native` attribute carries the string argument `s`.
pub open spec fn native_with(attrs: Seq<Attribute>, s: Seq<char>) -> bool {
    exists|i: int|
        0 <= i < attrs.len() && (#[trigger] attrs[i]).name@ == user_attributes::NATIVE@
            && has_string_arg(attrs[i], s)
}

/// Some memoizing attribute carries the string argument `s`.
pub open spec fn memoize_with(attrs: Seq<Attribute>, s: Seq<char>) -> bool {
    exists|i: int|
        0 <= i < attrs.len() && memoized((#[trigger] attrs[i]).name@) && has_string_arg(attrs[i], s)
}

fn is_native_arg(s: &str, attrs: &[Attribute]) -> (r: bool)
    ensures
        r == native_with(attrs@, s@),
{
    let mut i: usize = 0;
    while i < attrs.len()
        invariant
            i <= attrs@.len(),
            forall|m: int|
                0 <= m < i ==> !((#[trigger] attrs@[m]).name@ == user_attributes::NATIVE@
                    && has_string_arg(attrs@[m], s@)),
        decreases attrs@.len() - i,
    {
        if user_attributes::is_native(attrs[i].name.as_str()) && has_string_argument(&attrs[i], s) {
            return true;
        }
        i = i + 1;
    }
    false
}

fn is_memoize_with(attrs: &[Attribute], arg: &str) -> (r: bool)
    ensures
        r == memoize_with(attrs@, arg@),
{
    let mut i: usize = 0;
    while i < attrs.len()
        invariant
            i <= attrs@.len(),
            forall|m: int|
                0 <= m < i ==> !(memoized((#[trigger] attrs@[m]).name@) && has_string_arg(
                    attrs@[m],
                    arg@,
                )),
        decreases attrs@.len() - i,
    {
        if user_attributes::is_memoized(attrs[i].name.as_str()) && has_string_argument(
            &attrs[i],
            arg,
        ) {
            return true;
        }
        i = i + 1;
    }
    false
}

fn has(attrs: &[Attribute], name: &str) -> (r: bool)
    ensures
        r == has_named(attrs@, name@),
{
    let mut i: usize = 0;
    while i < attrs.len()
        invariant
            i <= attrs@.len(),
            forall|m: int| 0 <= m < i ==> (#[trigger] attrs@[m]).name@ != name@,
        decreases attrs@.len() - i,
    {
        if same_text(attrs[i].name.as_str(), name) {
            return true;
        }
        i = i + 1;
    }
    false
}

/// A `__Native` attribute carries `"NoInjection"`.
pub fn is_no_injection(attrs: &[Attribute]) -> (r: bool)
    ensures
        r == native_with(attrs@, NO_INJECTION@),
{
    is_native_arg(NO_INJECTION, attrs)
}

/// A `__Native` attribute carries `"OpCodeImpl"`.
pub fn is_native_opcode_impl(attrs: &[Attribute]) -> (r: bool)
    ensures
        r == native_with(attrs@, OP_CODE_IMPL@),
{
    is_native_arg(OP_CODE_IMPL, attrs)
}

pub const KEYED_BY_IC: &'static str = "KeyedByIC";

pub const NOT_KEYED_BY_IC_AND_LEAK_IC: &'static str = "NotKeyedByICAndLeakIC__DO_NOT_USE";

/// A memoizing attribute carries `"KeyedByIC"`.
pub fn is_keyed_by_ic_memoize(attrs: &[Attribute]) -> (r: bool)
    ensures
        r == memoize_with(attrs@, KEYED_BY_IC@),
{
    is_memoize_with(attrs, KEYED_BY_IC)
}

/// A memoizing attribute carries `"NotKeyedByICAndLeakIC__DO_NOT_USE"`.
pub fn is_not_keyed_by_ic_and_leak_ic(attrs: &[Attribute]) -> (r: bool)
    ensures
        r == memoize_with(attrs@, NOT_KEYED_BY_IC_AND_LEAK_IC@),
{
    is_memoize_with(attrs, NOT_KEYED_BY_IC_AND_LEAK_IC)
}

pub fn has_asio_low_pri(attrs: &[Attribute]) -> (r: bool)
    ensures
        r == has_named(attrs@, user_attributes::ASIO_LOW_PRI@),
{
    has(attrs, user_attributes::ASIO_LOW_PRI)
}

pub fn has_enum_class(attrs: &[Attribute]) -> (r: bool)
    ensures
        r == has_named(attrs@, user_attributes::ENUM_CLASS@),
{
    has(attrs, user_attributes::ENUM_CLASS)
}

pub fn has_dynamically_constructible(attrs: &[Attribute]) -> (r: bool)
    ensures
        r == has_named(attrs@, user_attributes::DYNAMICALLY_CONSTRUCTIBLE@),
{
    has(attrs, user_attributes::DYNAMICALLY_CONSTRUCTIBLE)
}

/// Some `__DynamicallyReferenced` attribute has no arguments.
pub fn has_dynamically_referenced(attrs: &[Attribute]) -> (r: bool)
    ensures
        r == exists|i: int|
            0 <= i < attrs@.len() && (#[trigger] attrs@[i]).name@
                == user_attributes::DYNAMICALLY_REFERENCED@ && attrs@[i].arguments@.len() == 0,
{
    let mut i: usize = 0;
    while i < attrs.len()
        invariant
            i <= attrs@.len(),
            forall|m: int|
                0 <= m < i ==> !((#[trigger] attrs@[m]).name@
                    == user_attributes::DYNAMICALLY_REFERENCED@ && attrs@[m].arguments@.len() == 0),
        decreases attrs@.len() - i,
    {
        if same_text(attrs[i].name.as_str(), user_attributes::DYNAMICALLY_REFERENCED)
            && attrs[i].arguments.len() == 0 {
            return true;
        }
        i = i + 1;
    }
    false
}

pub fn has_foldable(attrs: &[Attribute]) -> (r: bool)
    ensures
        r == has_named(attrs@, user_attributes::IS_FOLDABLE@),
{
    has(attrs, user_attributes::IS_FOLDABLE)
}

pub fn has_sealed(attrs: &[Attribute]) -> (r: bool)
    ensures
        r == has_named(attrs@, user_attributes::SEALED@),
{
    has(attrs, user_attributes::SEALED)
}

pub fn has_const(attrs: &[Attribute]) -> (r: bool)
    ensures
        r == has_named(attrs@, user_attributes::CONST@),
{
    has(attrs, user_attributes::CONST)
}

pub fn has_meth_caller(attrs: &[Attribute]) -> (r: bool)
    ensures
        r == has_named(attrs@, user_attributes::METH_CALLER@),
{
    has(attrs, user_attributes::METH_CALLER)
}

pub fn has_provenance_skip_frame(attrs: &[Attribute]) -> (r: bool)
    ensures
        r == has_named(attrs@, user_attributes::PROVENANCE_SKIP_FRAME@),
{
    has(attrs, user_attributes::PROVENANCE_SKIP_FRAME)
}

pub fn has_dynamically_callable(attrs: &[Attribute]) -> (r: bool)
    ensures
        r == has_named(attrs@, user_attributes::DYNAMICALLY_CALLABLE@),
{
    has(attrs, user_attributes::DYNAMICALLY_CALLABLE)
}

/// The arguments of the first `__Deprecated` attribute, if there is one.
pub fn deprecation_info(attrs: &[Attribute]) -> (r: Option<&[TypedValue]>)
    ensures
        match r {
            Some(args) => exists|i: int|
                0 <= i < attrs@.len() && (#[trigger] attrs@[i]).name@ == user_attributes::DEPRECATED@
                    && args@ == attrs@[i].arguments@ && forall|m: int|
                    0 <= m < i ==> (#[trigger] attrs@[m]).name@ != user_attributes::DEPRECATED@,
            None => !has_named(attrs@, user_attributes::DEPRECATED@),
        },
{
    let mut i: usize = 0;
    while i < attrs.len()
        invariant
            i <= attrs@.len(),
            forall|m: int| 0 <= m < i ==> (#[trigger] attrs@[m]).name@ != user_attributes::DEPRECATED@,
        decreases attrs@.len() - i,
    {
        if same_text(attrs[i].name.as_str(), user_attributes::DEPRECATED) {
            return Some(attrs[i].arguments.as_slice());
        }
        i = i + 1;
    }
    None
}

} // verus!
