//! Validation results, issues and path segments, and the JSON Schema target
//! versions for schema reflection.

use vstd::prelude::*;

verus! {

/// One step in the path from the root of a value to a nested position:
/// an object property name or an array index.
#[derive(Debug, Clone, PartialEq, Eq)]
pub enum PathSegment {
    /// A string key (object property name).
    Key(String),
    /// A numeric index (array index).
    Index(usize),
}

/// Mathematical model of a path segment.
pub enum SegView {
    Key(Seq<char>),
    Index(int),
}

impl View for PathSegment {
    type V = SegView;

    open spec fn view(&self) -> SegView {
        match self {
            PathSegment::Key(s) => SegView::Key(s@),
            PathSegment::Index(i) => SegView::Index(*i as int),
        }
    }
}

/// Model of a whole path: the segment models in root-to-leaf order.
pub open spec fn path_view(p: Seq<PathSegment>) -> Seq<SegView> {
    p.map_values(|s: PathSegment| s@)
}

/// A validation issue describing why validation failed.
#[derive(Debug)]
pub struct ValidationIssue {
    /// The error message describing the issue.
    pub message: String,
    /// The path to the value that caused the issue, if known.
    pub path: Option<Vec<PathSegment>>,
}

/// Mathematical model of a validation issue.
pub struct IssueView {
    pub message: Seq<char>,
    pub path: Option<Seq<SegView>>,
}

impl View for ValidationIssue {
    type V = IssueView;

    open spec fn view(&self) -> IssueView {
        IssueView {
            message: self.message@,
            path: match self.path {
                Option::Some(p) => Option::Some(path_view(p@)),
                Option::None => Option::None,
            },
        }
    }
}

/// Model of a list of issues.
pub open spec fn issues_view(issues: Seq<ValidationIssue>) -> Seq<IssueView> {
    issues.map_values(|i: ValidationIssue| i@)
}

impl ValidationIssue {
    /// Creates a new issue with a message and no path.
    pub fn new(message: &str) -> (r: ValidationIssue)
        ensures
            r@ == (IssueView { message: message@, path: Option::None }),
    {
        ValidationIssue { message: message.to_owned(), path: Option::None }
    }

    /// Creates a new issue with a message and a path.
    pub fn with_path(message: &str, path: Vec<PathSegment>) -> (r: ValidationIssue)
        ensures
            r@ == (IssueView { message: message@, path: Option::Some(path_view(path@)) }),
    {
        ValidationIssue { message: message.to_owned(), path: Option::Some(path) }
    }
}

/// The result of a validation operation: either the validated value or a
/// non-empty list of issues describing every violated constraint.
#[derive(Debug)]
pub enum ValidationResult<T> {
    /// Validation succeeded with the output value.
    Success(T),
    /// Validation failed with one or more issues.
    Failure(Vec<ValidationIssue>),
}

impl<T> ValidationResult<T> {
    /// Whether this result is a success.
    pub open spec fn spec_is_success(&self) -> bool {
        self is Success
    }

    /// The issue models carried by this result; empty for a success.
    pub open spec fn spec_issues(&self) -> Seq<IssueView> {
        match self {
            ValidationResult::Success(_) => Seq::empty(),
            ValidationResult::Failure(issues) => issues_view(issues@),
        }
    }

    /// Creates a successful validation result.
    pub fn success(value: T) -> (r: Self)
        ensures
            r == ValidationResult::Success(value),
    {
        ValidationResult::Success(value)
    }

    /// Creates a failed validation result with a single issue.
    pub fn failure(message: &str) -> (r: Self)
        ensures
            !r.spec_is_success(),
            r.spec_issues() =~= seq![
                IssueView { message: message@, path: Option::None },
            ],
    {
        ValidationResult::Failure(vec![ValidationIssue::new(message)])
    }

    /// Creates a failed validation result with a single issue at a path.
    pub fn failure_at(message: &str, path: Vec<PathSegment>) -> (r: Self)
        ensures
            !r.spec_is_success(),
            r.spec_issues() =~= seq![
                IssueView { message: message@, path: Option::Some(path_view(path@)) },
            ],
    {
        ValidationResult::Failure(vec![ValidationIssue::with_path(message, path)])
    }

    /// Creates a failed validation result with the given issues.
    pub fn failures(issues: Vec<ValidationIssue>) -> (r: Self)
        ensures
            r == ValidationResult::<T>::Failure(issues),
    {
        ValidationResult::Failure(issues)
    }

    /// Returns `true` if the result is a success.
    pub fn is_success(&self) -> (r: bool)
        ensures
            r == self.spec_is_success(),
    {
        match self {
            ValidationResult::Success(_) => true,
            ValidationResult::Failure(_) => false,
        }
    }

    /// Returns `true` if the result is a failure.
    pub fn is_failure(&self) -> (r: bool)
        ensures
            r == !self.spec_is_success(),
    {
        match self {
            ValidationResult::Success(_) => false,
            ValidationResult::Failure(_) => true,
        }
    }

    /// Converts to an `Option`, returning `Some(value)` on success.
    pub fn ok(self) -> (r: Option<T>)
        ensures
            match self {
                ValidationResult::Success(v) => r == Option::Some(v),
                ValidationResult::Failure(_) => r == Option::<T>::None,
            },
    {
        match self {
            ValidationResult::Success(v) => Option::Some(v),
            ValidationResult::Failure(_) => Option::None,
        }
    }

    /// Maps the success value through `f`; a failure keeps its issues.
    pub fn map<U, F: FnOnce(T) -> U>(self, f: F) -> (r: ValidationResult<U>)
        requires
            self matches ValidationResult::Success(v) ==> call_requires(f, (v,)),
        ensures
            r is Success <==> self is Success,
            self matches ValidationResult::Success(v) ==> (r matches ValidationResult::Success(u)
                && call_ensures(f, (v,), u)),
            self matches ValidationResult::Failure(issues) ==> r == ValidationResult::<
                U,
            >::Failure(issues),
    {
        match self {
            ValidationResult::Success(v) => ValidationResult::Success(f(v)),
            ValidationResult::Failure(issues) => ValidationResult::Failure(issues),
        }
    }

    /// Prepends a path segment to every issue's path; a success is kept
    /// unchanged.
    pub fn with_path_prefix(self, segment: PathSegment) -> (r: Self)
        ensures
            self matches ValidationResult::Success(v) ==> r == ValidationResult::Success(v),
            !self.spec_is_success() ==> !r.spec_is_success(),
            r.spec_issues() =~= self.spec_issues().map_values(
                |iv: IssueView| prefix_issue(segment@, iv),
            ),
    {
        match self {
            ValidationResult::Success(v) => ValidationResult::Success(v),
            ValidationResult::Failure(issues) => {
                let mut out: Vec<ValidationIssue> = Vec::new();
                let mut i: usize = 0;
                while i < issues.len()
                    invariant
                        0 <= i <= issues@.len(),
                        out@.len() == i,
                        forall|k: int| 0 <= k < i ==> (#[trigger] out@[k])@ == prefix_issue(
                            segment@,
                            issues@[k]@,
                        ),
                    decreases issues@.len() - i,
                {
                    let issue = &issues[i];
                    let mut np: Vec<PathSegment> = Vec::new();
                    np.push(dup_seg(&segment));
                    match &issue.path {
                        Option::Some(p) => {
                            let mut j: usize = 0;
                            while j < p.len()
                                invariant
                                    0 <= j <= p@.len(),
                                    np@.len() == j + 1,
                                    np@[0]@ == segment@,
                                    forall|k: int| 0 <= k < j ==> (#[trigger] np@[k + 1])@
                                        == p@[k]@,
                                decreases p@.len() - j,
                            {
                                np.push(dup_seg(&p[j]));
                                j = j + 1;
                            }
                            proof {
                                assert(path_view(np@) =~= seq![segment@] + path_view(p@)) by {
                                    assert forall|k: int| 0 <= k < np@.len() implies path_view(
                                        np@,
                                    )[k] == (seq![segment@] + path_view(p@))[k] by {
                                        if k >= 1 {
                                            assert(np@[(k - 1) + 1]@ == p@[k - 1]@);
                                        }
                                    }
                                }
                            }
                        },
                        Option::None => {
                            proof {
                                assert(path_view(np@) =~= seq![segment@]);
                            }
                        },
                    }
                    out.push(ValidationIssue { message: issue.message.clone(), path: Option::Some(np) });
                    i = i + 1;
                }
                proof {
                    assert(issues_view(out@) =~= issues_view(issues@).map_values(
                        |iv: IssueView| prefix_issue(segment@, iv),
                    ));
                }
                ValidationResult::Failure(out)
            },
        }
    }

    /// Borrows the issues if this is a failure; empty for a success.
    pub fn issues(&self) -> (r: &[ValidationIssue])
        ensures
            issues_view(r@) =~= self.spec_issues(),
    {
        match self {
            ValidationResult::Success(_) => &[],
            ValidationResult::Failure(issues) => issues.as_slice(),
        }
    }
}

/// An issue with one more leading path segment; an absent path becomes
/// the one-segment path.
pub open spec fn prefix_issue(seg: SegView, iv: IssueView) -> IssueView {
    IssueView {
        message: iv.message,
        path: Option::Some(
            seq![seg] + (match iv.path {
                Option::Some(p) => p,
                Option::None => Seq::empty(),
            }),
        ),
    }
}

/// Copies one path segment, keeping its model.
pub fn dup_seg(s: &PathSegment) -> (r: PathSegment)
    ensures
        r@ == s@,
{
    match s {
        PathSegment::Key(k) => PathSegment::Key(k.clone()),
        PathSegment::Index(n) => PathSegment::Index(*n),
    }
}

pub proof fn lemma_path_view_push(p: Seq<PathSegment>, s: PathSegment)
    ensures
        path_view(p.push(s)) =~= path_view(p).push(s@),
{
}

pub proof fn lemma_path_view_drop_last(p: Seq<PathSegment>)
    requires
        p.len() > 0,
    ensures
        path_view(p.drop_last()) =~= path_view(p).drop_last(),
{
}

pub proof fn lemma_issues_view_push(issues: Seq<ValidationIssue>, i: ValidationIssue)
    ensures
        issues_view(issues.push(i)) =~= issues_view(issues).push(i@),
        issues_view(issues).push(i@) =~= issues_view(issues) + seq![i@],
{
}

/// Deep copy of a path, keeping its model.
pub fn dup_path(p: &Vec<PathSegment>) -> (r: Vec<PathSegment>)
    ensures
        path_view(r@) == path_view(p@),
{
    let mut out: Vec<PathSegment> = Vec::new();
    let mut i: usize = 0;
    while i < p.len()
        invariant
            0 <= i <= p@.len(),
            out@.len() == i,
            forall|k: int| 0 <= k < i ==> (#[trigger] out@[k])@ == p@[k]@,
        decreases p@.len() - i,
    {
        let seg = match &p[i] {
            PathSegment::Key(s) => PathSegment::Key(s.clone()),
            PathSegment::Index(n) => PathSegment::Index(*n),
        };
        out.push(seg);
        i = i + 1;
    }
    proof {
        assert(path_view(out@) =~= path_view(p@));
    }
    out
}

/// Target version for JSON Schema generation.
#[derive(Debug, Clone, Copy, PartialEq, Eq, Structural)]
pub enum JsonSchemaTarget {
    /// JSON Schema Draft 2020-12.
    Draft202012,
    /// JSON Schema Draft 07.
    Draft07,
    /// OpenAPI 3.0 compatible (no `$schema` field).
    OpenApi30,
}

impl JsonSchemaTarget {
    /// Returns the `$schema` URI for this target; empty when the target does
    /// not use one.
    pub fn schema_uri(&self) -> (r: &'static str)
        ensures
            *self == JsonSchemaTarget::Draft202012 ==> r@ == "https://json-schema.org/draft/2020-12/schema"@,
            *self == JsonSchemaTarget::Draft07 ==> r@ == "http://json-schema.org/draft-07/schema#"@,
            *self == JsonSchemaTarget::OpenApi30 ==> r@ == ""@,
    {
        match self {
            JsonSchemaTarget::Draft202012 => "https://json-schema.org/draft/2020-12/schema",
            JsonSchemaTarget::Draft07 => "http://json-schema.org/draft-07/schema#",
            JsonSchemaTarget::OpenApi30 => "",
        }
    }
}

} // verus!
