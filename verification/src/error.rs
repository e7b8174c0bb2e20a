//! Structured validation errors with field paths, and the accumulator that
//! gathers every violation in one document before reporting them together.

use vstd::prelude::*;
use vstd::string::StringExecFns;

use crate::text::nat_dec;
use crate::text::push_usize_dec;

verus! {

// ---------------------------------------------------------------------------
// Path segments and paths
// ---------------------------------------------------------------------------

/// Mathematical model of one path segment.
#[verifier::ext_equal]
pub enum PathSegV {
    Key(Seq<char>),
    Number(int),
}

/// One step of a field location: a named field or a sequence index.
#[derive(Debug)]
pub enum PathSegment {
    Key(String),
    Number(usize),
}

impl View for PathSegment {
    type V = PathSegV;

    open spec fn view(&self) -> PathSegV {
        match self {
            PathSegment::Key(s) => PathSegV::Key(s@),
            PathSegment::Number(n) => PathSegV::Number(*n as int),
        }
    }
}

impl DeepView for PathSegment {
    type V = PathSegV;

    open spec fn deep_view(&self) -> PathSegV {
        self.view()
    }
}

impl PathSegment {
    /// A segment naming a field.
    pub fn key(name: &str) -> (r: Self)
        ensures
            r@ == PathSegV::Key(name@),
    {
        PathSegment::Key(String::from_str(name))
    }

    /// A segment indexing into a sequence.
    pub fn number(index: usize) -> (r: Self)
        ensures
            r@ == PathSegV::Number(index as int),
    {
        PathSegment::Number(index)
    }
}

impl Clone for PathSegment {
    fn clone(&self) -> (r: Self)
        ensures
            r@ == self@,
    {
        match self {
            PathSegment::Key(s) => PathSegment::Key(s.clone()),
            PathSegment::Number(n) => PathSegment::Number(*n),
        }
    }
}

/// The text of one segment as it appears inside a full path.
pub open spec fn seg_text(seg: PathSegV) -> Seq<char> {
    match seg {
        PathSegV::Key(name) => seq!['.'] + name,
        PathSegV::Number(i) => seq!['['] + nat_dec(i) + seq![']'],
    }
}

/// The text of a whole path: each segment rendered in order.
pub open spec fn path_text(segs: Seq<PathSegV>) -> Seq<char>
    decreases segs.len(),
{
    if segs.len() == 0 {
        Seq::empty()
    } else {
        seg_text(segs[0]) + path_text(segs.skip(1))
    }
}

/// An ordered field location built by prepending segments as an error
/// bubbles outward: the outer caller alone knows the name of the field it
/// owns, and adds it in front.
#[derive(Debug)]
pub struct Path {
    segments: Vec<PathSegment>,
}

impl View for Path {
    type V = Seq<PathSegV>;

    closed spec fn view(&self) -> Seq<PathSegV> {
        self.segments.deep_view()
    }
}

impl Path {
    /// An empty location.
    pub fn empty() -> (r: Self)
        ensures
            r@ == Seq::<PathSegV>::empty(),
    {
        let r = Path { segments: Vec::new() };
        proof {
            assert(r@ =~= Seq::<PathSegV>::empty());
        }
        r
    }

    /// Adds a segment in front of the path.
    pub fn push_front(&mut self, segment: PathSegment)
        ensures
            final(self)@ == seq![segment@] + old(self)@,
    {
        self.segments.insert(0, segment);
        proof {
            assert(self@ =~= seq![segment@] + old(self)@);
        }
    }

    /// The number of segments.
    pub fn len(&self) -> (r: usize)
        ensures
            r == self@.len(),
    {
        self.segments.len()
    }

    /// The segment at a given position, front first.
    pub fn segment(&self, i: usize) -> (r: &PathSegment)
        requires
            i < self@.len(),
        ensures
            r@ == self@[i as int],
    {
        &self.segments[i]
    }

    /// Renders the path, each key as `.key` and each index as `[index]`.
    pub fn to_text(&self) -> (r: String)
        ensures
            r@ == path_text(self@),
    {
        let mut out = String::new();
        let mut i: usize = 0;
        proof {
            assert(self@.skip(0) =~= self@);
        }
        while i < self.segments.len()
            invariant
                i <= self.segments.len(),
                self@.len() == self.segments.len(),
                out@ + path_text(self@.skip(i as int)) == path_text(self@),
            decreases self.segments.len() - i,
        {
            let ghost pre = out@;
            match &self.segments[i] {
                PathSegment::Key(name) => {
                    out.append(".");
                    out.append(name.as_str());
                    proof {
                        reveal_strlit(".");
                        assert((".")@ =~= seq!['.']);
                        assert(out@ =~= pre + seg_text(self@[i as int]));
                    }
                }
                PathSegment::Number(n) => {
                    out.append("[");
                    push_usize_dec(&mut out, *n);
                    out.append("]");
                    proof {
                        reveal_strlit("[");
                        reveal_strlit("]");
                        assert(("[")@ =~= seq!['[']);
                        assert(("]")@ =~= seq![']']);
                        assert(out@ =~= pre + seg_text(self@[i as int]));
                    }
                }
            }
            proof {
                assert(self@.skip(i as int)[0] == self@[i as int]);
                assert(self@.skip(i as int).skip(1) =~= self@.skip(i + 1));
            }
            i += 1;
        }
        proof {
            assert(path_text(self@.skip(self@.len() as int)) =~= Seq::<char>::empty());
            assert(out@ =~= path_text(self@));
        }
        out
    }
}

impl Clone for Path {
    #[verifier::loop_isolation(false)]
    fn clone(&self) -> (r: Self)
        ensures
            r@ == self@,
    {
        let mut segments: Vec<PathSegment> = Vec::new();
        let mut i: usize = 0;
        while i < self.segments.len()
            invariant
                i <= self.segments.len(),
                segments@.len() == i,
                forall|j: int| 0 <= j < i ==> #[trigger] segments@[j]@ == self.segments@[j]@,
            decreases self.segments.len() - i,
        {
            let seg = self.segments[i].clone();
            segments.push(seg);
            i += 1;
        }
        let r = Path { segments };
        proof {
            assert(r@ =~= self@);
        }
        r
    }
}

// ---------------------------------------------------------------------------
// Error variants
// ---------------------------------------------------------------------------

/// Mathematical model of a validation error.
#[verifier::ext_equal]
pub struct ValidationErrorV {
    pub path: Seq<PathSegV>,
    pub message: Seq<char>,
}

/// Mathematical model of a not-implemented error.
#[verifier::ext_equal]
pub struct NotImplementedErrorV {
    pub message: Seq<char>,
    pub path: Option<Seq<PathSegV>>,
}

/// Mathematical model of an error.
#[verifier::ext_equal]
pub enum ErrorV {
    Validation(ValidationErrorV),
    NotImplemented(NotImplementedErrorV),
    Custom(Seq<char>),
    Codec(Seq<char>),
    Multiple(Seq<ErrorV>),
}

/// A client-data violation of a structural or business rule, carrying the
/// location of the offending field.
#[derive(Debug)]
pub struct ValidationError {
    path: Path,
    message: String,
}

impl View for ValidationError {
    type V = ValidationErrorV;

    closed spec fn view(&self) -> ValidationErrorV {
        ValidationErrorV { path: self.path@, message: self.message@ }
    }
}

impl ValidationError {
    /// A validation error with an empty path.
    pub fn new(message: &str) -> (r: Self)
        ensures
            r@ == (ValidationErrorV { path: Seq::empty(), message: message@ }),
    {
        ValidationError { path: Path::empty(), message: String::from_str(message) }
    }

    /// A validation error naming a field that should have been present; the
    /// path starts at that field.
    pub fn missing_required_field(field_name: &str) -> (r: Self)
        ensures
            r@.path == seq![PathSegV::Key(field_name@)],
            r@.message == "missing required field '"@ + field_name@ + "'"@,
    {
        let mut message = String::from_str("missing required field '");
        message.append(field_name);
        message.append("'");
        let mut path = Path::empty();
        path.push_front(PathSegment::key(field_name));
        proof {
            assert(path@ =~= seq![PathSegV::Key(field_name@)]);
        }
        ValidationError { path, message }
    }

    /// Prepends a segment to the error's path.
    pub fn at(self, segment: PathSegment) -> (r: Self)
        ensures
            r@.path == seq![segment@] + self@.path,
            r@.message == self@.message,
    {
        let ValidationError { mut path, message } = self;
        path.push_front(segment);
        ValidationError { path, message }
    }

    /// The location of the offending field.
    pub fn path(&self) -> (r: &Path)
        ensures
            r@ == self@.path,
    {
        &self.path
    }

    /// The rule that was violated.
    pub fn message(&self) -> (r: &str)
        ensures
            r@ == self@.message,
    {
        self.message.as_str()
    }
}

impl Clone for ValidationError {
    fn clone(&self) -> (r: Self)
        ensures
            r@ == self@,
    {
        ValidationError { path: self.path.clone(), message: self.message.clone() }
    }
}

/// A well-formed request that this consumer declines to support.
#[derive(Debug)]
pub struct NotImplementedError {
    message: String,
    path: Option<Path>,
}

impl View for NotImplementedError {
    type V = NotImplementedErrorV;

    closed spec fn view(&self) -> NotImplementedErrorV {
        NotImplementedErrorV {
            message: self.message@,
            path: match &self.path {
                Some(p) => Some(p@),
                None => None,
            },
        }
    }
}

impl NotImplementedError {
    /// A not-implemented error without a location.
    pub fn new(message: &str) -> (r: Self)
        ensures
            r@ == (NotImplementedErrorV { message: message@, path: None }),
    {
        NotImplementedError { message: String::from_str(message), path: None }
    }

    /// Prepends a segment, starting a path when none is present yet.
    pub fn at(self, segment: PathSegment) -> (r: Self)
        ensures
            r@.message == self@.message,
            r@.path == match self@.path {
                Some(p) => Some(seq![segment@] + p),
                None => Some(seq![segment@]),
            },
    {
        let NotImplementedError { message, path } = self;
        let mut path = match path {
            Some(p) => p,
            None => Path::empty(),
        };
        path.push_front(segment);
        NotImplementedError { message, path: Some(path) }
    }

    /// The unsupported feature, in words.
    pub fn message(&self) -> (r: &str)
        ensures
            r@ == self@.message,
    {
        self.message.as_str()
    }

    /// The location, when one has been attached.
    pub fn path(&self) -> (r: Option<&Path>)
        ensures
            match r {
                Some(p) => self@.path == Some(p@),
                None => self@.path.is_none(),
            },
    {
        match &self.path {
            Some(p) => Some(p),
            None => None,
        }
    }
}

impl Clone for NotImplementedError {
    fn clone(&self) -> (r: Self)
        ensures
            r@ == self@,
    {
        NotImplementedError {
            message: self.message.clone(),
            path: match &self.path {
                Some(p) => Some(p.clone()),
                None => None,
            },
        }
    }
}

/// The effect of prepending a segment: every error that carries a path
/// grows it in front (a missing path starts at the segment), and inside an
/// aggregate every member is treated the same way; opaque internal and
/// codec failures carry no location and stay as they are.
pub open spec fn err_at(e: ErrorV, seg: PathSegV) -> ErrorV
    decreases e,
{
    match e {
        ErrorV::Validation(v) => ErrorV::Validation(
            ValidationErrorV { path: seq![seg] + v.path, message: v.message },
        ),
        ErrorV::NotImplemented(n) => ErrorV::NotImplemented(
            NotImplementedErrorV {
                message: n.message,
                path: match n.path {
                    Some(p) => Some(seq![seg] + p),
                    None => Some(seq![seg]),
                },
            },
        ),
        ErrorV::Multiple(errs) => ErrorV::Multiple(errs_at(errs, seg)),
        _ => e,
    }
}

/// [`err_at`], applied to each member of a list in order.
pub open spec fn errs_at(s: Seq<ErrorV>, seg: PathSegV) -> Seq<ErrorV>
    decreases s,
{
    if s.len() == 0 {
        Seq::empty()
    } else {
        seq![err_at(s[0], seg)] + errs_at(s.subrange(1, s.len() as int), seg)
    }
}

pub proof fn lemma_errs_at(s: Seq<ErrorV>, seg: PathSegV)
    ensures
        errs_at(s, seg).len() == s.len(),
        forall|i: int| 0 <= i < s.len() ==> errs_at(s, seg)[i] == err_at(s[i], seg),
    decreases s,
{
    if s.len() > 0 {
        let sub = s.subrange(1, s.len() as int);
        lemma_errs_at(sub, seg);
        assert forall|i: int| 0 <= i < s.len() implies errs_at(s, seg)[i] == err_at(s[i], seg) by {
            if i > 0 {
                assert(sub[i - 1] == s[i]);
            }
        }
    }
}

/// True of an error that is a validation failure.
pub open spec fn is_validation(e: ErrorV) -> bool {
    e matches ErrorV::Validation(_)
}

/// The path of a validation failure.
pub open spec fn validation_path(e: ErrorV) -> Seq<PathSegV> {
    match e {
        ErrorV::Validation(v) => v.path,
        _ => Seq::empty(),
    }
}

/// The message of a validation failure.
pub open spec fn validation_message(e: ErrorV) -> Seq<char> {
    match e {
        ErrorV::Validation(v) => v.message,
        _ => Seq::empty(),
    }
}

/// How an accumulator's recorded errors collapse into one result: none is
/// success, one is returned as itself, several become one aggregate.
pub open spec fn collapse_errors(errs: Seq<ErrorV>) -> Result<(), ErrorV> {
    if errs.len() == 0 {
        Ok(())
    } else if errs.len() == 1 {
        Err(errs[0])
    } else {
        Err(ErrorV::Multiple(errs))
    }
}

/// Prepending a segment to an aggregate reaches every member: none is
/// passed over, and each member that carries a path — validation and
/// not-implemented failures alike — has the segment put in front of its
/// own path, a missing path starting at the segment.
pub proof fn lemma_at_multiple(errs: Seq<ErrorV>, seg: PathSegV)
    ensures
        err_at(ErrorV::Multiple(errs), seg) == ErrorV::Multiple(errs_at(errs, seg)),
        errs_at(errs, seg).len() == errs.len(),
        forall|i: int| 0 <= i < errs.len() ==> errs_at(errs, seg)[i] == err_at(errs[i], seg),
        forall|i: int|
            0 <= i < errs.len() && is_validation(errs[i]) ==> is_validation(
                #[trigger] err_at(errs[i], seg),
            ) && validation_path(err_at(errs[i], seg)) == seq![seg] + validation_path(errs[i])
                && validation_message(err_at(errs[i], seg)) == validation_message(errs[i]),
        forall|i: int|
            0 <= i < errs.len() ==> ((#[trigger] errs[i]) matches ErrorV::NotImplemented(n)
                ==> err_at(errs[i], seg) == ErrorV::NotImplemented(
                NotImplementedErrorV {
                    message: n.message,
                    path: match n.path {
                        Some(p) => Some(seq![seg] + p),
                        None => Some(seq![seg]),
                    },
                },
            )),
{
    lemma_errs_at(errs, seg);
}

/// The tagged union of every failure this library reports.
#[derive(Debug)]
pub enum Error {
    /// Client data violates a structural or business rule; recoverable,
    /// surfaced to the caller with a field path.
    Validation(ValidationError),
    /// A well-formed request that the consumer declines to support.
    NotImplemented(NotImplementedError),
    /// An opaque internal failure.
    Custom(String),
    /// A value-format conversion failure.
    Codec(String),
    /// Two or more failures gathered by one [`Accumulator`].
    Multiple(Vec<Error>),
}

impl View for Error {
    type V = ErrorV;

    open spec fn view(&self) -> ErrorV {
        error_view(self)
    }
}

/// The model of one error.
pub open spec fn error_view(e: &Error) -> ErrorV
    decreases e,
{
    match e {
        Error::Validation(v) => ErrorV::Validation(v@),
        Error::NotImplemented(v) => ErrorV::NotImplemented(v@),
        Error::Custom(m) => ErrorV::Custom(m@),
        Error::Codec(m) => ErrorV::Codec(m@),
        Error::Multiple(errs) => ErrorV::Multiple(errs_view(errs@)),
    }
}

/// The models of a list of errors, in order.
pub open spec fn errs_view(s: Seq<Error>) -> Seq<ErrorV>
    decreases s,
{
    if s.len() == 0 {
        Seq::empty()
    } else {
        seq![error_view(&s[0])] + errs_view(s.subrange(1, s.len() as int))
    }
}

pub proof fn lemma_errs_view(s: Seq<Error>)
    ensures
        errs_view(s).len() == s.len(),
        forall|i: int| 0 <= i < s.len() ==> errs_view(s)[i] == s[i]@,
    decreases s,
{
    if s.len() > 0 {
        let sub = s.subrange(1, s.len() as int);
        lemma_errs_view(sub);
        assert forall|i: int| 0 <= i < s.len() implies errs_view(s)[i] == s[i]@ by {
            if i > 0 {
                assert(sub[i - 1] == s[i]);
            }
        }
    }
}

impl DeepView for Error {
    type V = ErrorV;

    open spec fn deep_view(&self) -> ErrorV {
        self@
    }
}

impl Error {
    /// An opaque internal failure.
    pub fn custom(message: &str) -> (r: Self)
        ensures
            r@ == ErrorV::Custom(message@),
    {
        Error::Custom(String::from_str(message))
    }

    /// A value-format conversion failure.
    pub fn codec(message: &str) -> (r: Self)
        ensures
            r@ == ErrorV::Codec(message@),
    {
        Error::Codec(String::from_str(message))
    }

    /// A validation failure with an empty path.
    pub fn validation(message: &str) -> (r: Self)
        ensures
            r@ == ErrorV::Validation(ValidationErrorV { path: Seq::empty(), message: message@ }),
    {
        Error::Validation(ValidationError::new(message))
    }

    /// A not-implemented failure without a location.
    pub fn not_implemented(message: &str) -> (r: Self)
        ensures
            r@ == ErrorV::NotImplemented(NotImplementedErrorV { message: message@, path: None }),
    {
        Error::NotImplemented(NotImplementedError::new(message))
    }

    /// A fresh accumulator with nothing recorded.
    pub fn accumulator() -> (r: Accumulator)
        ensures
            r@.errors == Seq::<ErrorV>::empty(),
            r@.open,
    {
        Accumulator::new()
    }

    /// The validation error inside, if this is one.
    pub fn as_validation(&self) -> (r: Option<&ValidationError>)
        ensures
            match r {
                Some(v) => self@ == ErrorV::Validation(v@),
                None => !(self@ matches ErrorV::Validation(_)),
            },
    {
        match self {
            Error::Validation(e) => Some(e),
            _ => None,
        }
    }

    /// Prepends a location segment; see [`err_at`] for the exact effect.
    pub fn at(self, segment: PathSegment) -> (r: Self)
        ensures
            r@ == err_at(self@, segment@),
    {
        self.at_ref(&segment)
    }

    /// [`Error::at`], borrowing both the error and the segment.
    #[verifier::loop_isolation(false)]
    pub fn at_ref(&self, segment: &PathSegment) -> (r: Self)
        ensures
            r@ == err_at(self@, segment@),
        decreases self,
    {
        match self {
            Error::Validation(e) => Error::Validation(e.clone().at(segment.clone())),
            Error::NotImplemented(e) => Error::NotImplemented(e.clone().at(segment.clone())),
            Error::Multiple(errs) => {
                let mut out: Vec<Error> = Vec::new();
                let mut i: usize = 0;
                while i < errs.len()
                    invariant
                        i <= errs.len(),
                        out@.len() == i,
                        forall|j: int| 0 <= j < i
                            ==> #[trigger] out@[j]@ == err_at(errs@[j]@, segment@),
                    decreases errs.len() - i,
                {
                    proof {
                        assert(decreases_to!(*self => self->Multiple_0));
                        assert(decreases_to!(self->Multiple_0@ => self->Multiple_0@[i as int]));
                    }
                    let e = errs[i].at_ref(segment);
                    out.push(e);
                    i += 1;
                }
                let r = Error::Multiple(out);
                proof {
                    lemma_errs_view(out@);
                    lemma_errs_view(errs@);
                    lemma_errs_at(errs_view(errs@), segment@);
                    assert(errs_view(out@) =~= errs_at(errs_view(errs@), segment@));
                }
                r
            }
            _ => self.clone(),
        }
    }
}

impl Clone for Error {
    #[verifier::loop_isolation(false)]
    fn clone(&self) -> (r: Self)
        ensures
            r@ == self@,
        decreases self,
    {
        match self {
            Error::Validation(e) => Error::Validation(e.clone()),
            Error::NotImplemented(e) => Error::NotImplemented(e.clone()),
            Error::Custom(m) => Error::Custom(m.clone()),
            Error::Codec(m) => Error::Codec(m.clone()),
            Error::Multiple(errs) => {
                let mut out: Vec<Error> = Vec::new();
                let mut i: usize = 0;
                while i < errs.len()
                    invariant
                        i <= errs.len(),
                        out@.len() == i,
                        forall|j: int| 0 <= j < i ==> #[trigger] out@[j]@ == errs@[j]@,
                    decreases errs.len() - i,
                {
                    proof {
                        assert(decreases_to!(*self => self->Multiple_0));
                        assert(decreases_to!(self->Multiple_0@ => self->Multiple_0@[i as int]));
                    }
                    let e = errs[i].clone();
                    out.push(e);
                    i += 1;
                }
                let r = Error::Multiple(out);
                proof {
                    lemma_errs_view(out@);
                    lemma_errs_view(errs@);
                    assert(errs_view(out@) =~= errs_view(errs@));
                }
                r
            }
        }
    }
}

// ---------------------------------------------------------------------------
// Prepending a segment, as a capability
// ---------------------------------------------------------------------------

/// Prepending location information to an error-like value.
pub trait ErrorAt: View + Sized {
    /// What prepending a segment does, on the mathematical model.
    spec fn at_spec(v: Self::V, seg: PathSegV) -> Self::V;

    /// Adds a new path segment to the front of the value's location.
    fn at(self, segment: PathSegment) -> (r: Self)
        ensures
            r@ == Self::at_spec(self@, segment@),
    ;
}

impl ErrorAt for Error {
    open spec fn at_spec(v: ErrorV, seg: PathSegV) -> ErrorV {
        err_at(v, seg)
    }

    fn at(self, segment: PathSegment) -> (r: Self) {
        self.at(segment)
    }
}

impl ErrorAt for ValidationError {
    open spec fn at_spec(v: ValidationErrorV, seg: PathSegV) -> ValidationErrorV {
        ValidationErrorV { path: seq![seg] + v.path, message: v.message }
    }

    fn at(self, segment: PathSegment) -> (r: Self) {
        self.at(segment)
    }
}

impl ErrorAt for NotImplementedError {
    open spec fn at_spec(v: NotImplementedErrorV, seg: PathSegV) -> NotImplementedErrorV {
        NotImplementedErrorV {
            message: v.message,
            path: match v.path {
                Some(p) => Some(seq![seg] + p),
                None => Some(seq![seg]),
            },
        }
    }

    fn at(self, segment: PathSegment) -> (r: Self) {
        self.at(segment)
    }
}

// ---------------------------------------------------------------------------
// Accumulator
// ---------------------------------------------------------------------------

/// Mathematical model of an accumulator: what was recorded, and whether it
/// may still be fed and finished.
pub struct AccumulatorV {
    pub errors: Seq<ErrorV>,
    pub open: bool,
}

/// Collects every validation failure found in one document, so that a single
/// validation pass reports them all together.  It must be finished exactly
/// once: every operation demands that it is still open, and only
/// [`Accumulator::finish`] closes it.
#[must_use]
pub struct Accumulator {
    errors: Vec<Error>,
    open: bool,
}

impl View for Accumulator {
    type V = AccumulatorV;

    closed spec fn view(&self) -> AccumulatorV {
        AccumulatorV { errors: errs_view(self.errors@), open: self.open }
    }
}

impl Accumulator {
    /// A fresh accumulator with nothing recorded.
    pub fn new() -> (r: Self)
        ensures
            r@.errors == Seq::<ErrorV>::empty(),
            r@.open,
    {
        let r = Accumulator { errors: Vec::new(), open: true };
        proof {
            assert(r@.errors =~= Seq::<ErrorV>::empty());
        }
        r
    }

    /// True until the accumulator has been finished.
    pub fn is_open(&self) -> (r: bool)
        ensures
            r == self@.open,
    {
        self.open
    }

    /// Records one more error.
    pub fn push(&mut self, error: Error)
        requires
            old(self)@.open,
        ensures
            final(self)@.open,
            final(self)@.errors == old(self)@.errors + seq![error@],
    {
        self.errors.push(error);
        proof {
            lemma_errs_view(self.errors@);
            lemma_errs_view(old(self).errors@);
            assert(self@.errors =~= old(self)@.errors + seq![error@]);
        }
    }

    /// Records a failure and yields `None`, or passes a success through, so
    /// that the caller can go on extracting other fields.
    pub fn handle<T>(&mut self, result: Result<T, Error>) -> (r: Option<T>)
        requires
            old(self)@.open,
        ensures
            final(self)@.open,
            match result {
                Ok(v) => r == Some(v) && final(self)@.errors == old(self)@.errors,
                Err(e) => r.is_none() && final(self)@.errors == old(self)@.errors + seq![e@],
            },
    {
        match result {
            Ok(value) => Some(value),
            Err(err) => {
                self.push(err);
                None
            }
        }
    }

    /// Runs an operation and records its failure, as [`Accumulator::handle`]
    /// does for a ready result.
    pub fn handle_in<T, F: FnOnce() -> Result<T, Error>>(&mut self, op: F) -> (r: Option<T>)
        requires
            old(self)@.open,
            op.requires(()),
        ensures
            final(self)@.open,
            exists|res: Result<T, Error>|
                op.ensures((), res) && (match res {
                    Ok(v) => r == Some(v) && final(self)@.errors == old(self)@.errors,
                    Err(e) => r.is_none() && final(self)@.errors == old(self)@.errors + seq![
                        e@,
                    ],
                }),
    {
        let res = op();
        self.handle(res)
    }

    /// Collapses what was recorded so far: nothing yields `Ok` and leaves
    /// the accumulator open; one error is returned as itself; several are
    /// returned as one aggregate.  A non-empty checkpoint closes the
    /// accumulator.
    pub fn checkpoint(&mut self) -> (r: Result<(), Error>)
        requires
            old(self)@.open,
        ensures
            match r {
                Ok(()) => old(self)@.errors.len() == 0 && final(self)@.open
                    && final(self)@.errors == old(self)@.errors,
                Err(e) => old(self)@.errors.len() > 0 && !final(self)@.open
                    && (if old(self)@.errors.len() == 1 {
                        e@ == old(self)@.errors[0]
                    } else {
                        e@ == ErrorV::Multiple(old(self)@.errors)
                    }),
            },
    {
        if self.errors.len() == 0 {
            return Ok(());
        }
        proof {
            lemma_errs_view(self.errors@);
        }
        self.open = false;
        if self.errors.len() == 1 {
            let e = self.errors.remove(0);
            Err(e)
        } else {
            let mut errors = Vec::new();
            core::mem::swap(&mut errors, &mut self.errors);
            let e = Error::Multiple(errors);
            proof {
                assert(e@ =~= ErrorV::Multiple(old(self)@.errors));
            }
            Err(e)
        }
    }

    /// Finishes the accumulator: no recorded error yields `Ok`; exactly one
    /// yields that error; two or more yield an aggregate holding all of
    /// them in the order they were recorded.
    pub fn finish(self) -> (r: Result<(), Error>)
        requires
            self@.open,
        ensures
            match r {
                Ok(()) => self@.errors.len() == 0,
                Err(e) => self@.errors.len() > 0 && (if self@.errors.len() == 1 {
                    e@ == self@.errors[0]
                } else {
                    e@ == ErrorV::Multiple(self@.errors)
                }),
            },
    {
        let mut acc = self;
        acc.checkpoint()
    }

    /// Finishes, handing the given value back on success.
    pub fn finish_with<T>(self, value: T) -> (r: Result<T, Error>)
        requires
            self@.open,
        ensures
            match r {
                Ok(v) => self@.errors.len() == 0 && v == value,
                Err(e) => self@.errors.len() > 0 && (if self@.errors.len() == 1 {
                    e@ == self@.errors[0]
                } else {
                    e@ == ErrorV::Multiple(self@.errors)
                }),
            },
    {
        match self.finish() {
            Ok(()) => Ok(value),
            Err(e) => Err(e),
        }
    }

    /// Prepends a segment to every recorded error.
    #[verifier::loop_isolation(false)]
    pub fn at(self, segment: PathSegment) -> (r: Self)
        requires
            self@.open,
        ensures
            r@.open,
            r@.errors.len() == self@.errors.len(),
            forall|i: int| 0 <= i < self@.errors.len()
                ==> r@.errors[i] == err_at(self@.errors[i], segment@),
    {
        let Accumulator { errors, open } = self;
        let mut out: Vec<Error> = Vec::new();
        let mut i: usize = 0;
        while i < errors.len()
            invariant
                i <= errors.len(),
                out@.len() == i,
                forall|j: int| 0 <= j < i
                    ==> #[trigger] out@[j]@ == err_at(errors@[j]@, segment@),
            decreases errors.len() - i,
        {
            let e = errors[i].at_ref(&segment);
            out.push(e);
            i += 1;
        }
        let r = Accumulator { errors: out, open };
        proof {
            lemma_errs_view(out@);
            lemma_errs_view(errors@);
        }
        r
    }
}

} // verus!
