//! Breadcrumb trails that locate a point inside two trees being compared.
use vstd::prelude::*;

verus! {

/// One step of a path, as a mathematical value.
pub enum Step {
    Field(Seq<char>),
    Index(nat),
    Key(Seq<char>),
    Qualifier(Seq<char>),
}

/// One step of a path.
pub enum Segment {
    /// A named field, such as `classes`.
    Field(String),
    /// A zero-based position within an ordered sequence.
    Index(usize),
    /// The name of an entry in a keyed collection.
    Key(String),
    /// A free-form suffix, such as `unwrap()` for an unwrapped optional value.
    Qualifier(String),
}

impl View for Segment {
    type V = Step;

    open spec fn view(&self) -> Step {
        match self {
            Segment::Field(s) => Step::Field(s@),
            Segment::Index(i) => Step::Index(*i as nat),
            Segment::Key(s) => Step::Key(s@),
            Segment::Qualifier(s) => Step::Qualifier(s@),
        }
    }
}

impl Segment {
    /// An independent copy of this segment.
    pub fn duplicate(&self) -> (r: Segment)
        ensures
            r@ == self@,
    {
        match self {
            Segment::Field(s) => Segment::Field(s.clone()),
            Segment::Index(i) => Segment::Index(*i),
            Segment::Key(s) => Segment::Key(s.clone()),
            Segment::Qualifier(s) => Segment::Qualifier(s.clone()),
        }
    }
}

/// A path from the roots of the two trees to the point being compared.
/// Each descent builds a new path; the parent is left as it was.
pub struct CodePath {
    segments: Vec<Segment>,
}

impl View for CodePath {
    type V = Seq<Step>;

    closed spec fn view(&self) -> Seq<Step> {
        self.segments@.map_values(|s: Segment| s@)
    }
}

/// The character for a decimal digit.
pub open spec fn digit_char(d: nat) -> char {
    if d == 0 { '0' }
    else if d == 1 { '1' }
    else if d == 2 { '2' }
    else if d == 3 { '3' }
    else if d == 4 { '4' }
    else if d == 5 { '5' }
    else if d == 6 { '6' }
    else if d == 7 { '7' }
    else if d == 8 { '8' }
    else { '9' }
}

/// The decimal text of a natural number, without leading zeros.
pub open spec fn decimal(n: nat) -> Seq<char>
    decreases n,
{
    if n < 10 {
        seq![digit_char(n)]
    } else {
        decimal(n / 10).push(digit_char(n % 10))
    }
}

/// The separator before a field or a qualifier: none at the start of a path.
pub open spec fn dot(first: bool) -> Seq<char> {
    if first { Seq::empty() } else { seq!['.'] }
}

/// The text of one step: `.field`, `[index]`, `[key]` or `.qualifier`; a
/// field or qualifier that starts the path has no dot.
pub open spec fn step_text(s: Step, first: bool) -> Seq<char> {
    match s {
        Step::Field(name) => dot(first) + name,
        Step::Index(i) => seq!['['] + decimal(i) + seq![']'],
        Step::Key(k) => seq!['['] + k + seq![']'],
        Step::Qualifier(q) => dot(first) + q,
    }
}

/// The text of a path: the texts of its steps, in order.
pub open spec fn path_text(p: Seq<Step>) -> Seq<char>
    decreases p.len(),
{
    if p.len() == 0 {
        Seq::empty()
    } else {
        path_text(p.drop_last()) + step_text(p.last(), p.len() == 1)
    }
}

/// Relies on `String::push_str`: appends the characters of `t`.
#[verifier::external_body]
pub(crate) fn append_text(s: &mut String, t: &str)
    ensures
        final(s)@ == old(s)@ + t@,
{
    s.push_str(t);
}

/// Relies on `String::push`: appends one character.
#[verifier::external_body]
pub(crate) fn append_char(s: &mut String, c: char)
    ensures
        final(s)@ == old(s)@.push(c),
{
    s.push(c);
}

fn digit(d: usize) -> (c: char)
    requires
        d < 10,
    ensures
        c == digit_char(d as nat),
{
    if d == 0 { '0' }
    else if d == 1 { '1' }
    else if d == 2 { '2' }
    else if d == 3 { '3' }
    else if d == 4 { '4' }
    else if d == 5 { '5' }
    else if d == 6 { '6' }
    else if d == 7 { '7' }
    else if d == 8 { '8' }
    else { '9' }
}

fn append_decimal(s: &mut String, n: usize)
    ensures
        final(s)@ == old(s)@ + decimal(n as nat),
    decreases n,
{
    if n >= 10 {
        append_decimal(s, n / 10);
    }
    append_char(s, digit(n % 10));
}

impl CodePath {
    /// The empty path.
    pub fn root() -> (r: CodePath)
        ensures
            r@ == Seq::<Step>::empty(),
    {
        let r = CodePath { segments: Vec::new() };
        proof {
            assert(r@ =~= Seq::<Step>::empty());
        }
        r
    }

    fn extended(&self, seg: Segment) -> (r: CodePath)
        ensures
            r@ == self@.push(seg@),
    {
        let mut segments: Vec<Segment> = Vec::new();
        let mut i: usize = 0;
        while i < self.segments.len()
            invariant
                i <= self.segments@.len(),
                segments@.len() == i,
                forall|j: int| 0 <= j < i ==> (#[trigger] segments@[j])@ == self.segments@[j]@,
            decreases self.segments@.len() - i,
        {
            segments.push(self.segments[i].duplicate());
            i = i + 1;
        }
        segments.push(seg);
        let r = CodePath { segments };
        proof {
            assert(r@ =~= self@.push(seg@));
        }
        r
    }

    /// This path followed by the field `name`.
    pub fn field(&self, name: &str) -> (r: CodePath)
        ensures
            r@ == self@.push(Step::Field(name@)),
    {
        self.extended(Segment::Field(name.to_owned()))
    }

    /// This path followed by the position `i`.
    pub fn index(&self, i: usize) -> (r: CodePath)
        ensures
            r@ == self@.push(Step::Index(i as nat)),
    {
        self.extended(Segment::Index(i))
    }

    /// This path followed by the key `k`.
    pub fn index_str(&self, k: &str) -> (r: CodePath)
        ensures
            r@ == self@.push(Step::Key(k@)),
    {
        self.extended(Segment::Key(k.to_owned()))
    }

    /// This path followed by the free-form qualifier `note`.
    pub fn qualified(&self, note: &str) -> (r: CodePath)
        ensures
            r@ == self@.push(Step::Qualifier(note@)),
    {
        self.extended(Segment::Qualifier(note.to_owned()))
    }

    /// An independent copy of this path.
    pub fn duplicate(&self) -> (r: CodePath)
        ensures
            r@ == self@,
    {
        let mut segments: Vec<Segment> = Vec::new();
        let mut i: usize = 0;
        while i < self.segments.len()
            invariant
                i <= self.segments@.len(),
                segments@.len() == i,
                forall|j: int| 0 <= j < i ==> (#[trigger] segments@[j])@ == self.segments@[j]@,
            decreases self.segments@.len() - i,
        {
            segments.push(self.segments[i].duplicate());
            i = i + 1;
        }
        let r = CodePath { segments };
        proof {
            assert(r@ =~= self@);
        }
        r
    }

    /// The number of steps in the path.
    pub fn len(&self) -> (r: usize)
        ensures
            r == self@.len(),
    {
        self.segments.len()
    }

    /// The canonical text of the path, such as `classes[Foo].methods[bar]`.
    pub fn render(&self) -> (r: String)
        ensures
            r@ == path_text(self@),
    {
        let mut out = String::new();
        let mut i: usize = 0;
        while i < self.segments.len()
            invariant
                i <= self@.len(),
                self@.len() == self.segments@.len(),
                out@ == path_text(self@.take(i as int)),
            decreases self.segments@.len() - i,
        {
            match &self.segments[i] {
                Segment::Field(s) => {
                    if i > 0 {
                        append_char(&mut out, '.');
                    }
                    append_text(&mut out, s.as_str());
                },
                Segment::Index(n) => {
                    append_char(&mut out, '[');
                    append_decimal(&mut out, *n);
                    append_char(&mut out, ']');
                },
                Segment::Key(s) => {
                    append_char(&mut out, '[');
                    append_text(&mut out, s.as_str());
                    append_char(&mut out, ']');
                },
                Segment::Qualifier(s) => {
                    if i > 0 {
                        append_char(&mut out, '.');
                    }
                    append_text(&mut out, s.as_str());
                },
            }
            proof {
                let next = self@.take(i + 1);
                assert(next.drop_last() =~= self@.take(i as int));
                assert(next.last() == self.segments@[i as int]@);
                assert(out@ =~= path_text(next));
            }
            i = i + 1;
        }
        proof {
            assert(self@.take(i as int) =~= self@);
        }
        out
    }
}

} // verus!
