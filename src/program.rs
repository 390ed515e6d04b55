//! A tree of named program entities, compared with the comparators.
use vstd::prelude::*;

use crate::diff::DiffResult;
use crate::diff::MapName;
use crate::diff::sem_diff_map_t;
use crate::diff::sem_diff_option;
use crate::diff::sem_diff_slice;
use crate::diff::sem_diff_str;
use crate::diff::total;
use crate::laws::decides;
use crate::laws::keyed;
use crate::laws::lemma_keyed_reflexive;
use crate::laws::lemma_map_decides;
use crate::laws::lemma_seq_decides;
use crate::laws::lemma_under_here;
use crate::laws::lemma_under_push;
use crate::laws::pointwise;
use crate::laws::under;
use crate::path::CodePath;
use crate::path::Step;

verus! {

/// A method of a class.
pub struct Method {
    pub name: String,
    /// The declared types of the parameters, in order.
    pub params: Vec<String>,
    pub return_type: String,
    pub doc_comment: Option<String>,
}

/// A top-level function.
pub struct Function {
    pub name: String,
    /// The declared types of the parameters, in order.
    pub params: Vec<String>,
    pub return_type: String,
    pub doc_comment: Option<String>,
}

/// A named constant, with its value where it has one.
pub struct Constant {
    pub name: String,
    pub value: Option<String>,
}

/// A property of a class.
pub struct Property {
    pub name: String,
    pub declared_type: String,
    pub initial_value: Option<String>,
}

/// A type alias.
pub struct Typedef {
    pub name: String,
    pub declared_type: String,
}

/// A class and its members.
pub struct Class {
    pub name: String,
    pub methods: Vec<Method>,
    pub properties: Vec<Property>,
    pub constants: Vec<Constant>,
}

/// A compiled unit: its classes, functions, constants and type aliases.
pub struct Program {
    pub classes: Vec<Class>,
    pub functions: Vec<Function>,
    pub constants: Vec<Constant>,
    pub typedefs: Vec<Typedef>,
}

impl MapName for Method {
    open spec fn name_spec(&self) -> Seq<char> {
        self.name@
    }

    fn get_name(&self) -> (r: &str) {
        self.name.as_str()
    }
}

impl MapName for Function {
    open spec fn name_spec(&self) -> Seq<char> {
        self.name@
    }

    fn get_name(&self) -> (r: &str) {
        self.name.as_str()
    }
}

impl MapName for Constant {
    open spec fn name_spec(&self) -> Seq<char> {
        self.name@
    }

    fn get_name(&self) -> (r: &str) {
        self.name.as_str()
    }
}

impl MapName for Property {
    open spec fn name_spec(&self) -> Seq<char> {
        self.name@
    }

    fn get_name(&self) -> (r: &str) {
        self.name.as_str()
    }
}

impl MapName for Typedef {
    open spec fn name_spec(&self) -> Seq<char> {
        self.name@
    }

    fn get_name(&self) -> (r: &str) {
        self.name.as_str()
    }
}

impl MapName for Class {
    open spec fn name_spec(&self) -> Seq<char> {
        self.name@
    }

    fn get_name(&self) -> (r: &str) {
        self.name.as_str()
    }
}

/// Two strings hold the same characters.
pub open spec fn same_text(x: String, y: String) -> bool {
    x@ == y@
}

/// Both optional strings are absent, or both are present with the same characters.
pub open spec fn same_opt_text(x: Option<String>, y: Option<String>) -> bool {
    match (x, y) {
        (None, None) => true,
        (Some(p), Some(q)) => p@ == q@,
        _ => false,
    }
}

/// Two signatures agree: parameter types position by position, return type,
/// and documentation.
pub open spec fn same_signature(
    pa: Seq<String>,
    ra: String,
    da: Option<String>,
    pb: Seq<String>,
    rb: String,
    db: Option<String>,
) -> bool {
    &&& pointwise(pa, pb, |x: String, y: String| same_text(x, y))
    &&& ra@ == rb@
    &&& same_opt_text(da, db)
}

pub open spec fn method_equiv(a: Method, b: Method) -> bool {
    same_signature(a.params@, a.return_type, a.doc_comment, b.params@, b.return_type, b.doc_comment)
}

pub open spec fn function_equiv(a: Function, b: Function) -> bool {
    same_signature(a.params@, a.return_type, a.doc_comment, b.params@, b.return_type, b.doc_comment)
}

pub open spec fn constant_equiv(a: Constant, b: Constant) -> bool {
    same_opt_text(a.value, b.value)
}

pub open spec fn property_equiv(a: Property, b: Property) -> bool {
    a.declared_type@ == b.declared_type@ && same_opt_text(a.initial_value, b.initial_value)
}

pub open spec fn typedef_equiv(a: Typedef, b: Typedef) -> bool {
    a.declared_type@ == b.declared_type@
}

/// Two classes agree when their methods, properties and constants agree by name.
pub open spec fn class_equiv(a: Class, b: Class) -> bool {
    &&& keyed(a.methods@, b.methods@, |x: Method, y: Method| method_equiv(x, y))
    &&& keyed(a.properties@, b.properties@, |x: Property, y: Property| property_equiv(x, y))
    &&& keyed(a.constants@, b.constants@, |x: Constant, y: Constant| constant_equiv(x, y))
}

/// Two programs agree when their classes, functions, constants and type
/// aliases agree by name.
pub open spec fn program_equiv(a: Program, b: Program) -> bool {
    &&& keyed(a.classes@, b.classes@, |x: Class, y: Class| class_equiv(x, y))
    &&& keyed(a.functions@, b.functions@, |x: Function, y: Function| function_equiv(x, y))
    &&& keyed(a.constants@, b.constants@, |x: Constant, y: Constant| constant_equiv(x, y))
    &&& keyed(a.typedefs@, b.typedefs@, |x: Typedef, y: Typedef| typedef_equiv(x, y))
}

fn text_result(p: &CodePath, x: &String, y: &String) -> (r: DiffResult)
    ensures
        r is Ok <==> x@ == y@,
        r matches Err(e) ==> under(e, p@),
{
    let r = sem_diff_str(p, x.as_str(), y.as_str());
    proof {
        if r is Err {
            lemma_under_here(r->Err_0, p@);
        }
    }
    r
}

fn diff_text_field(path: &CodePath, field: &str, x: &String, y: &String) -> (r: DiffResult)
    ensures
        r is Ok <==> x@ == y@,
        r matches Err(e) ==> under(e, path@),
{
    let p = path.field(field);
    let r = text_result(&p, x, y);
    proof {
        if r is Err {
            lemma_under_push(r->Err_0, path@, Step::Field(field@));
        }
    }
    r
}

fn diff_opt_text_field(path: &CodePath, field: &str, x: &Option<String>, y: &Option<String>) -> (r: DiffResult)
    ensures
        r is Ok <==> same_opt_text(*x, *y),
        r matches Err(e) ==> under(e, path@),
{
    let p = path.field(field);
    let r = sem_diff_option(&p, x.as_ref(), y.as_ref(), text_result);
    proof {
        if r is Err {
            if x is Some && y is Some {
                lemma_under_push(r->Err_0, p@, Step::Qualifier("unwrap()"@));
            } else {
                lemma_under_here(r->Err_0, p@);
            }
            lemma_under_push(r->Err_0, path@, Step::Field(field@));
        }
    }
    r
}

fn diff_keyed<T: MapName, F: Fn(&CodePath, &T, &T) -> DiffResult>(
    path: &CodePath,
    field: &str,
    a: &Vec<T>,
    b: &Vec<T>,
    f: F,
    Ghost(eqv): Ghost<spec_fn(T, T) -> bool>,
) -> (r: DiffResult)
    requires
        total(f),
        decides(f, eqv),
    ensures
        r is Ok <==> keyed(a@, b@, eqv),
        r matches Err(e) ==> under(e, path@),
{
    let p = path.field(field);
    let r = sem_diff_map_t(&p, a.as_slice(), b.as_slice(), f);
    proof {
        lemma_map_decides(f, eqv, p@, a@, b@, r);
        if r is Err {
            lemma_under_push(r->Err_0, path@, Step::Field(field@));
        }
    }
    r
}

fn sem_diff_signature(
    path: &CodePath,
    pa: &Vec<String>,
    ra: &String,
    da: &Option<String>,
    pb: &Vec<String>,
    rb: &String,
    db: &Option<String>,
) -> (r: DiffResult)
    ensures
        r is Ok <==> same_signature(pa@, *ra, *da, pb@, *rb, *db),
        r matches Err(e) ==> under(e, path@),
{
    let params_path = path.field("params");
    let r = sem_diff_slice(&params_path, pa.as_slice(), pb.as_slice(), text_result);
    proof {
        lemma_seq_decides(text_result, |x: String, y: String| same_text(x, y), params_path@, pa@, pb@, r);
        if r is Err {
            lemma_under_push(r->Err_0, path@, Step::Field("params"@));
        }
    }
    if r.is_err() {
        return r;
    }
    let r = diff_text_field(path, "return_type", ra, rb);
    if r.is_err() {
        return r;
    }
    diff_opt_text_field(path, "doc_comment", da, db)
}

/// Compares two methods: parameter types, return type, documentation.
pub fn sem_diff_method(path: &CodePath, a: &Method, b: &Method) -> (r: DiffResult)
    ensures
        r is Ok <==> method_equiv(*a, *b),
        r matches Err(e) ==> under(e, path@),
{
    sem_diff_signature(path, &a.params, &a.return_type, &a.doc_comment, &b.params, &b.return_type, &b.doc_comment)
}

/// Compares two functions: parameter types, return type, documentation.
pub fn sem_diff_function(path: &CodePath, a: &Function, b: &Function) -> (r: DiffResult)
    ensures
        r is Ok <==> function_equiv(*a, *b),
        r matches Err(e) ==> under(e, path@),
{
    sem_diff_signature(path, &a.params, &a.return_type, &a.doc_comment, &b.params, &b.return_type, &b.doc_comment)
}

/// Compares two constants: their values.
pub fn sem_diff_constant(path: &CodePath, a: &Constant, b: &Constant) -> (r: DiffResult)
    ensures
        r is Ok <==> constant_equiv(*a, *b),
        r matches Err(e) ==> under(e, path@),
{
    diff_opt_text_field(path, "value", &a.value, &b.value)
}

/// Compares two properties: type, then initial value.
pub fn sem_diff_property(path: &CodePath, a: &Property, b: &Property) -> (r: DiffResult)
    ensures
        r is Ok <==> property_equiv(*a, *b),
        r matches Err(e) ==> under(e, path@),
{
    let r = diff_text_field(path, "declared_type", &a.declared_type, &b.declared_type);
    if r.is_err() {
        return r;
    }
    diff_opt_text_field(path, "initial_value", &a.initial_value, &b.initial_value)
}

/// Compares two type aliases: the types they stand for.
pub fn sem_diff_typedef(path: &CodePath, a: &Typedef, b: &Typedef) -> (r: DiffResult)
    ensures
        r is Ok <==> typedef_equiv(*a, *b),
        r matches Err(e) ==> under(e, path@),
{
    diff_text_field(path, "declared_type", &a.declared_type, &b.declared_type)
}

/// Compares two classes: methods, properties and constants, each by name,
/// under `methods`, `properties` and `constants`.
pub fn sem_diff_class(path: &CodePath, a: &Class, b: &Class) -> (r: DiffResult)
    ensures
        r is Ok <==> class_equiv(*a, *b),
        r matches Err(e) ==> under(e, path@),
{
    let r = diff_keyed(path, "methods", &a.methods, &b.methods, sem_diff_method, Ghost(|x: Method, y: Method| method_equiv(x, y)));
    if r.is_err() {
        return r;
    }
    let r = diff_keyed(path, "properties", &a.properties, &b.properties, sem_diff_property, Ghost(|x: Property, y: Property| property_equiv(x, y)));
    if r.is_err() {
        return r;
    }
    diff_keyed(path, "constants", &a.constants, &b.constants, sem_diff_constant, Ghost(|x: Constant, y: Constant| constant_equiv(x, y)))
}

/// Compares two programs: classes, functions, constants and type aliases,
/// each by name, under `classes`, `functions`, `constants` and `typedefs`.
pub fn sem_diff_program(path: &CodePath, a: &Program, b: &Program) -> (r: DiffResult)
    ensures
        r is Ok <==> program_equiv(*a, *b),
        r matches Err(e) ==> under(e, path@),
{
    let r = diff_keyed(path, "classes", &a.classes, &b.classes, sem_diff_class, Ghost(|x: Class, y: Class| class_equiv(x, y)));
    if r.is_err() {
        return r;
    }
    let r = diff_keyed(path, "functions", &a.functions, &b.functions, sem_diff_function, Ghost(|x: Function, y: Function| function_equiv(x, y)));
    if r.is_err() {
        return r;
    }
    let r = diff_keyed(path, "constants", &a.constants, &b.constants, sem_diff_constant, Ghost(|x: Constant, y: Constant| constant_equiv(x, y)));
    if r.is_err() {
        return r;
    }
    diff_keyed(path, "typedefs", &a.typedefs, &b.typedefs, sem_diff_typedef, Ghost(|x: Typedef, y: Typedef| typedef_equiv(x, y)))
}

/// Every program agrees with itself, so comparing a program with an
/// identical copy succeeds.
pub proof fn lemma_program_reflexive(t: Program)
    ensures
        program_equiv(t, t),
{
    let me = |x: Method, y: Method| method_equiv(x, y);
    assert forall|x: Method| #[trigger] me(x, x) by {
        assert(pointwise(x.params@, x.params@, |x: String, y: String| same_text(x, y)));
    }
    let pe = |x: Property, y: Property| property_equiv(x, y);
    let ce = |x: Constant, y: Constant| constant_equiv(x, y);
    assert forall|x: Property| #[trigger] pe(x, x) by {}
    assert forall|x: Constant| #[trigger] ce(x, x) by {}
    assert forall|c: Class| #[trigger] class_equiv(c, c) by {
        lemma_keyed_reflexive(c.methods@, me);
        lemma_keyed_reflexive(c.properties@, pe);
        lemma_keyed_reflexive(c.constants@, ce);
    }
    lemma_keyed_reflexive(t.constants@, ce);
    let te = |x: Typedef, y: Typedef| typedef_equiv(x, y);
    assert forall|x: Typedef| #[trigger] te(x, x) by {}
    lemma_keyed_reflexive(t.typedefs@, te);
    lemma_keyed_reflexive(t.classes@, |x: Class, y: Class| class_equiv(x, y));
    let fe = |x: Function, y: Function| function_equiv(x, y);
    assert forall|x: Function| #[trigger] fe(x, x) by {
        assert(pointwise(x.params@, x.params@, |x: String, y: String| same_text(x, y)));
    }
    lemma_keyed_reflexive(t.functions@, fe);
}

} // verus!
