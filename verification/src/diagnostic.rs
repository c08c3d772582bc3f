//! Diagnostic types for reporting linting issues.

use vstd::prelude::*;
use crate::text::{chars_to_string, decimal, push_decimal, push_str};

verus! {

/// Severity level of a diagnostic.
#[derive(Debug, Clone, Copy, PartialEq, Eq, Hash, Structural)]
pub enum Severity {
    /// Informational hint
    Hint,
    /// Warning - code works but could be improved
    Warning,
    /// Error - code violates a rule
    Error,
}

pub open spec fn severity_text(s: Severity) -> Seq<char> {
    match s {
        Severity::Hint => "hint"@,
        Severity::Warning => "warning"@,
        Severity::Error => "error"@,
    }
}

impl Severity {
    /// The lower-case name of the severity, as it is displayed.
    pub fn as_str(&self) -> (r: &'static str)
        ensures
            r@ == severity_text(*self),
    {
        match self {
            Severity::Hint => "hint",
            Severity::Warning => "warning",
            Severity::Error => "error",
        }
    }
}

/// Location in a source file.
#[derive(Debug, Clone, Copy, PartialEq, Eq, Hash, Structural)]
pub struct Location {
    /// Line number (1-indexed)
    pub line: usize,
    /// Column number (1-indexed)
    pub column: usize,
}

/// `line:column`.
pub open spec fn location_text(l: Location) -> Seq<char> {
    decimal(l.line as nat) + ":"@ + decimal(l.column as nat)
}

impl Location {
    pub fn new(line: usize, column: usize) -> (r: Self)
        ensures
            r.line == line,
            r.column == column,
    {
        Location { line, column }
    }

    /// The displayed form `line:column`.
    pub fn to_text(&self) -> (r: String)
        ensures
            r@ == location_text(*self),
    {
        let mut v: Vec<char> = Vec::new();
        push_decimal(&mut v, self.line);
        push_str(&mut v, ":");
        push_decimal(&mut v, self.column);
        chars_to_string(v.as_slice())
    }
}

/// A suggested fix for a diagnostic.
#[derive(Debug, Clone, PartialEq, Eq)]
pub struct Fix {
    /// Description of what the fix does
    pub description: String,
    /// The replacement text
    pub replacement: String,
    /// Start location of the text to replace
    pub start: Location,
    /// End location of the text to replace
    pub end: Location,
}

/// The contents of a [`Fix`].
pub struct SpecFix {
    pub description: Seq<char>,
    pub replacement: Seq<char>,
    pub start: Location,
    pub end: Location,
}

impl View for Fix {
    type V = SpecFix;

    open spec fn view(&self) -> SpecFix {
        SpecFix {
            description: self.description@,
            replacement: self.replacement@,
            start: self.start,
            end: self.end,
        }
    }
}

impl Fix {
    pub fn new(description: &str, replacement: &str, start: Location, end: Location) -> (r: Self)
        ensures
            r@ == (SpecFix {
                description: description@,
                replacement: replacement@,
                start,
                end,
            }),
    {
        Fix {
            description: description.to_owned(),
            replacement: replacement.to_owned(),
            start,
            end,
        }
    }

    /// Create a fix that inserts text at a location.
    pub fn insert(description: &str, text: &str, location: Location) -> (r: Self)
        ensures
            r@ == (SpecFix {
                description: description@,
                replacement: text@,
                start: location,
                end: location,
            }),
    {
        Fix {
            description: description.to_owned(),
            replacement: text.to_owned(),
            start: location,
            end: location,
        }
    }

    /// Create a fix that deletes text between two locations.
    pub fn delete(description: &str, start: Location, end: Location) -> (r: Self)
        ensures
            r@ == (SpecFix {
                description: description@,
                replacement: Seq::<char>::empty(),
                start,
                end,
            }),
    {
        Fix { description: description.to_owned(), replacement: String::new(), start, end }
    }
}

/// A diagnostic message from a linter rule.
#[derive(Debug, Clone, PartialEq, Eq)]
pub struct Diagnostic {
    /// The rule that generated this diagnostic
    pub rule: String,
    /// Severity of the issue
    pub severity: Severity,
    /// Human-readable message
    pub message: String,
    /// Location in the source file
    pub location: Location,
    /// Optional end location for multi-character/line issues
    pub end_location: Option<Location>,
    /// Optional fix suggestion
    pub fix: Option<Fix>,
}

/// The contents of a [`Diagnostic`].
pub struct SpecDiagnostic {
    pub rule: Seq<char>,
    pub severity: Severity,
    pub message: Seq<char>,
    pub location: Location,
    pub end_location: Option<Location>,
    pub fix: Option<SpecFix>,
}

impl View for Diagnostic {
    type V = SpecDiagnostic;

    open spec fn view(&self) -> SpecDiagnostic {
        SpecDiagnostic {
            rule: self.rule@,
            severity: self.severity,
            message: self.message@,
            location: self.location,
            end_location: self.end_location,
            fix: match self.fix {
                Some(f) => Some(f@),
                None => None,
            },
        }
    }
}

/// The contents of a sequence of diagnostics.
pub open spec fn diags_view(v: Seq<Diagnostic>) -> Seq<SpecDiagnostic> {
    v.map_values(|d: Diagnostic| d@)
}

/// A diagnostic with no end location and no fix.
pub open spec fn plain_diag(rule: Seq<char>, severity: Severity, message: Seq<char>, location: Location) -> SpecDiagnostic {
    SpecDiagnostic { rule, severity, message, location, end_location: None, fix: None }
}

/// `d` with `fix` attached.
pub open spec fn with_fix_spec(d: SpecDiagnostic, fix: SpecFix) -> SpecDiagnostic {
    SpecDiagnostic { fix: Some(fix), ..d }
}

/// The displayed form `line:column: [rule] message`.
pub open spec fn diagnostic_text(d: SpecDiagnostic) -> Seq<char> {
    location_text(d.location) + ": ["@ + d.rule + "] "@ + d.message
}

pub proof fn lemma_diags_view_push(v: Seq<Diagnostic>, d: Diagnostic)
    ensures
        diags_view(v.push(d)) == diags_view(v).push(d@),
{
    assert(diags_view(v.push(d)) =~= diags_view(v).push(d@));
}

pub proof fn lemma_diags_view_concat(a: Seq<Diagnostic>, b: Seq<Diagnostic>)
    ensures
        diags_view(a + b) == diags_view(a) + diags_view(b),
{
    assert(diags_view(a + b) =~= diags_view(a) + diags_view(b));
}

/// Move all diagnostics of `src` to the end of `out`.
pub fn append_diags(out: &mut Vec<Diagnostic>, src: Vec<Diagnostic>)
    ensures
        diags_view(final(out)@) == diags_view(old(out)@) + diags_view(src@),
{
    let mut src = src;
    let ghost a = out@;
    let ghost b = src@;
    out.append(&mut src);
    proof {
        lemma_diags_view_concat(a, b);
    }
}

/// Whether `a` comes no later than `b` in (line, column) order.
pub open spec fn loc_le(a: SpecDiagnostic, b: SpecDiagnostic) -> bool {
    a.location.line < b.location.line || (a.location.line == b.location.line
        && a.location.column <= b.location.column)
}

/// Where a stable insertion puts `d` into `s`: after the last element that
/// does not come later than it.
pub open spec fn insert_pos(s: Seq<SpecDiagnostic>, d: SpecDiagnostic) -> int
    decreases s.len(),
{
    if s.len() == 0 {
        0
    } else if loc_le(s.last(), d) {
        s.len() as int
    } else {
        insert_pos(s.drop_last(), d)
    }
}

/// The diagnostics ordered by (line, column), keeping the original order
/// among equal locations (what a stable `sort_by_key` gives).
pub open spec fn sort_by_location(s: Seq<SpecDiagnostic>) -> Seq<SpecDiagnostic>
    decreases s.len(),
{
    if s.len() == 0 {
        s
    } else {
        let t = sort_by_location(s.drop_last());
        t.insert(insert_pos(t, s.last()), s.last())
    }
}

proof fn lemma_insert_pos_range(s: Seq<SpecDiagnostic>, d: SpecDiagnostic)
    ensures
        0 <= insert_pos(s, d) <= s.len(),
    decreases s.len(),
{
    if s.len() > 0 && !loc_le(s.last(), d) {
        lemma_insert_pos_range(s.drop_last(), d);
    }
}

proof fn lemma_sort_len(s: Seq<SpecDiagnostic>)
    ensures
        sort_by_location(s).len() == s.len(),
    decreases s.len(),
{
    if s.len() > 0 {
        lemma_sort_len(s.drop_last());
        lemma_insert_pos_range(sort_by_location(s.drop_last()), s.last());
    }
}

/// Whether the diagnostics come in (line, column) order.
pub open spec fn sorted_by_location(s: Seq<SpecDiagnostic>) -> bool {
    forall|i: int, j: int| 0 <= i < j < s.len() ==> loc_le(#[trigger] s[i], #[trigger] s[j])
}

proof fn lemma_insert_pos_split(t: Seq<SpecDiagnostic>, d: SpecDiagnostic)
    requires
        sorted_by_location(t),
    ensures
        forall|i: int| 0 <= i < insert_pos(t, d) ==> loc_le(#[trigger] t[i], d),
        forall|i: int| insert_pos(t, d) <= i < t.len() ==> !loc_le(#[trigger] t[i], d),
    decreases t.len(),
{
    lemma_insert_pos_range(t, d);
    if t.len() > 0 {
        if loc_le(t.last(), d) {
            assert forall|i: int| 0 <= i < t.len() implies loc_le(#[trigger] t[i], d) by {
                if i < t.len() - 1 {
                    assert(loc_le(t[i], t[t.len() - 1]));
                }
            }
        } else {
            let init = t.drop_last();
            assert forall|i: int, j: int| 0 <= i < j < init.len() implies loc_le(#[trigger] init[i], #[trigger] init[j]) by {
                assert(loc_le(t[i], t[j]));
            }
            lemma_insert_pos_split(init, d);
            lemma_insert_pos_range(init, d);
            assert forall|i: int| 0 <= i < insert_pos(t, d) implies loc_le(#[trigger] t[i], d) by {
                assert(t[i] == init[i]);
            }
            assert forall|i: int| insert_pos(t, d) <= i < t.len() implies !loc_le(#[trigger] t[i], d) by {
                if i < t.len() - 1 {
                    assert(t[i] == init[i]);
                }
            }
        }
    }
}

/// Sorting by location orders the diagnostics by (line, column) and keeps
/// exactly the diagnostics it was given.
pub proof fn lemma_sort_by_location(s: Seq<SpecDiagnostic>)
    ensures
        sorted_by_location(sort_by_location(s)),
        sort_by_location(s).to_multiset() == s.to_multiset(),
    decreases s.len(),
{
    broadcast use vstd::seq_lib::to_multiset_build, vstd::seq_lib::to_multiset_insert;

    if s.len() > 0 {
        let t = sort_by_location(s.drop_last());
        let d = s.last();
        lemma_sort_by_location(s.drop_last());
        lemma_insert_pos_split(t, d);
        lemma_insert_pos_range(t, d);
        let p = insert_pos(t, d);
        let r = t.insert(p, d);
        assert forall|i: int, j: int| 0 <= i < j < r.len() implies loc_le(#[trigger] r[i], #[trigger] r[j]) by {
            if j < p {
                assert(r[i] == t[i] && r[j] == t[j]);
            } else if j == p {
                assert(r[i] == t[i]);
            } else if i < p {
                assert(r[i] == t[i] && r[j] == t[j - 1]);
                assert(loc_le(t[i], t[j - 1]));
            } else if i == p {
                assert(r[j] == t[j - 1]);
                assert(!loc_le(t[j - 1], d));
            } else {
                assert(r[i] == t[i - 1] && r[j] == t[j - 1]);
            }
        }
        assert(s =~= s.drop_last().push(d));
    }
}

/// Sort diagnostics by (line, column), stably.
pub fn sort_diagnostics(v: Vec<Diagnostic>) -> (r: Vec<Diagnostic>)
    ensures
        diags_view(r@) == sort_by_location(diags_view(v@)),
{
    let mut out: Vec<Diagnostic> = Vec::new();
    let mut v = v;
    let ghost orig = diags_view(v@);
    let ghost total = v@.len();
    assert(orig.skip(0) =~= orig);
    while v.len() > 0
        invariant
            v@.len() <= total,
            total == orig.len(),
            diags_view(v@) == orig.skip(total - v@.len()),
            diags_view(out@) == sort_by_location(orig.take(total - v@.len())),
        decreases v@.len(),
    {
        let ghost before_v = diags_view(v@);
        let ghost k = total - v@.len();
        let d = v.remove(0);
        proof {
            assert(before_v[0] == d@);
            assert(orig[k] == d@);
            assert(diags_view(v@) =~= before_v.drop_first());
            assert(diags_view(v@) =~= orig.skip(k + 1));
            assert(orig.take(k + 1).drop_last() =~= orig.take(k));
        }
        let ghost sorted = diags_view(out@);
        let mut p = out.len();
        assert(sorted.take(out@.len() as int) =~= sorted);
        while p > 0 && !(out[p - 1].location.line < d.location.line || (out[p - 1].location.line
            == d.location.line && out[p - 1].location.column <= d.location.column))
            invariant
                p <= out@.len(),
                sorted == diags_view(out@),
                insert_pos(sorted.take(p as int), d@) == insert_pos(sorted, d@),
            decreases p,
        {
            assert(sorted.take(p as int).drop_last() =~= sorted.take(p - 1));
            p = p - 1;
        }
        proof {
            if p > 0 {
                assert(sorted.take(p as int).last() == sorted[p - 1]);
            }
            lemma_insert_pos_range(sorted, d@);
        }
        out.insert(p, d);
        proof {
            assert(diags_view(out@) =~= sorted.insert(p as int, d@));
        }
    }
    assert(orig.take(total as int) =~= orig);
    out
}

impl Diagnostic {
    pub fn new(rule: &str, severity: Severity, message: &str, location: Location) -> (r: Self)
        ensures
            r@ == plain_diag(rule@, severity, message@, location),
    {
        Diagnostic {
            rule: rule.to_owned(),
            severity,
            message: message.to_owned(),
            location,
            end_location: None,
            fix: None,
        }
    }

    pub fn error(rule: &str, message: &str, location: Location) -> (r: Self)
        ensures
            r@ == plain_diag(rule@, Severity::Error, message@, location),
    {
        Self::new(rule, Severity::Error, message, location)
    }

    pub fn warning(rule: &str, message: &str, location: Location) -> (r: Self)
        ensures
            r@ == plain_diag(rule@, Severity::Warning, message@, location),
    {
        Self::new(rule, Severity::Warning, message, location)
    }

    pub fn with_end(self, end: Location) -> (r: Self)
        ensures
            r@ == (SpecDiagnostic { end_location: Some(end), ..self@ }),
    {
        let mut s = self;
        s.end_location = Some(end);
        s
    }

    pub fn with_fix(self, fix: Fix) -> (r: Self)
        ensures
            r@ == with_fix_spec(self@, fix@),
    {
        let mut s = self;
        s.fix = Some(fix);
        s
    }

    /// The displayed form `line:column: [rule] message`.
    pub fn to_text(&self) -> (r: String)
        ensures
            r@ == diagnostic_text(self@),
    {
        let mut v: Vec<char> = Vec::new();
        push_decimal(&mut v, self.location.line);
        push_str(&mut v, ":");
        push_decimal(&mut v, self.location.column);
        push_str(&mut v, ": [");
        push_str(&mut v, self.rule.as_str());
        push_str(&mut v, "] ");
        push_str(&mut v, self.message.as_str());
        chars_to_string(v.as_slice())
    }
}

} // verus!
