use vstd::prelude::*;

use crate::exclude::{excluded_by, is_excluded};
use crate::paths::{append_all, contains_path, views};

verus! {

/// What the file system says an argument is.
#[derive(PartialEq, Eq, Structural, Clone, Copy, Debug)]
pub enum EntryKind {
    Directory,
    File,
    /// A symbolic link whose target is neither a file nor a directory.
    Symlink,
    Missing,
    /// Anything else that exists (a socket, a device, ...).
    Other,
}

/// Why an argument or a file was not printed.
#[derive(PartialEq, Eq, Structural, Clone, Copy, Debug)]
pub enum SkipReason {
    NotAFile,
    IsDirectory,
    IsSymlink,
    NotText,
    DoesNotExist,
}

/// What to do with one argument.
#[derive(PartialEq, Eq, Structural, Clone, Copy, Debug)]
pub enum Step {
    /// Walk the directory and process each file found.
    Walk,
    /// Record the argument's display path as excluded.
    Exclude,
    /// Read the file and print it if it is text.
    Read,
    /// Report the argument and go on.
    Skip(SkipReason),
}

/// The decision for one argument, in order of precedence: a directory is
/// walked when recursion is on and skipped otherwise; then an excluded path
/// is recorded as such; then a file is read; the rest is skipped.
pub open spec fn planned(kind: EntryKind, recursive: bool, excluded: bool) -> Step {
    if kind == EntryKind::Directory {
        if recursive {
            Step::Walk
        } else {
            Step::Skip(SkipReason::IsDirectory)
        }
    } else if excluded {
        Step::Exclude
    } else {
        match kind {
            EntryKind::File => Step::Read,
            EntryKind::Symlink => Step::Skip(SkipReason::IsSymlink),
            EntryKind::Missing => Step::Skip(SkipReason::DoesNotExist),
            _ => Step::Skip(SkipReason::NotAFile),
        }
    }
}

/// Decides what to do with an argument of kind `kind` whose canonical path
/// is `canonical`, given the canonical exclusion `patterns`.
pub fn plan_argument(kind: EntryKind, recursive: bool, canonical: &[u8], patterns: &Vec<Vec<u8>>) -> (r: Step)
    ensures
        r == planned(kind, recursive, excluded_by(canonical@, views(patterns@))),
{
    if kind == EntryKind::Directory {
        if recursive {
            Step::Walk
        } else {
            Step::Skip(SkipReason::IsDirectory)
        }
    } else if is_excluded(canonical, patterns) {
        Step::Exclude
    } else {
        match kind {
            EntryKind::File => Step::Read,
            EntryKind::Symlink => Step::Skip(SkipReason::IsSymlink),
            EntryKind::Missing => Step::Skip(SkipReason::DoesNotExist),
            _ => Step::Skip(SkipReason::NotAFile),
        }
    }
}

/// What became of one candidate file, by its display path.
pub enum Outcome {
    Printed(Vec<u8>),
    Excluded(Vec<u8>),
    Skipped(SkipReason),
}

/// What a report has gathered so far.
pub struct ReportView {
    pub excluded: Seq<Seq<u8>>,
    pub printed: Seq<Seq<u8>>,
    pub found_any: bool,
}

/// The outcomes of a run, gathered in the order they came: the display paths
/// excluded, those printed, and whether anything was printed at all.
pub struct Report {
    excluded: Vec<Vec<u8>>,
    printed: Vec<Vec<u8>>,
    found_any: bool,
}

impl View for Report {
    type V = ReportView;

    closed spec fn view(&self) -> ReportView {
        ReportView {
            excluded: views(self.excluded@),
            printed: views(self.printed@),
            found_any: self.found_any,
        }
    }
}

/// The separator between arguments in the closing error: `', '`.
pub open spec fn arg_separator() -> Seq<u8> {
    seq![39u8, 44u8, 32u8, 39u8]
}

/// The arguments joined with the separator between each two.
pub open spec fn joined_args(args: Seq<Seq<u8>>) -> Seq<u8>
    decreases args.len(),
{
    if args.len() == 0 {
        Seq::empty()
    } else if args.len() == 1 {
        args[0]
    } else {
        joined_args(args.drop_last()) + arg_separator() + args.last()
    }
}

/// The arguments of a run joined for the closing error message.
pub fn join_arguments(args: &Vec<Vec<u8>>) -> (r: Vec<u8>)
    ensures
        r@ == joined_args(views(args@)),
{
    let mut out: Vec<u8> = Vec::new();
    let mut i: usize = 0;
    while i < args.len()
        invariant
            i <= args@.len(),
            out@ == joined_args(views(args@.subrange(0, i as int))),
        decreases args@.len() - i,
    {
        let ghost before = views(args@.subrange(0, i as int));
        if i > 0 {
            out.push(39u8);
            out.push(44u8);
            out.push(32u8);
            out.push(39u8);
        }
        append_all(&mut out, args[i].as_slice());
        i = i + 1;
        let ghost after = views(args@.subrange(0, i as int));
        assert(after.drop_last() =~= before);
        assert(after.last() == args@[i - 1]@);
        if i > 1 {
            assert(out@ =~= joined_args(before) + arg_separator() + args@[i - 1]@);
        } else {
            assert(out@ =~= args@[0]@);
        }
    }
    assert(args@.subrange(0, i as int) =~= args@);
    out
}

proof fn lemma_push_new(s: Seq<Seq<u8>>, p: Seq<u8>)
    requires
        s.no_duplicates(),
        !s.contains(p),
    ensures
        s.push(p).no_duplicates(),
{
    let next = s.push(p);
    assert forall|i: int, j: int| 0 <= i < next.len() && 0 <= j < next.len() && i != j
        implies next[i] != next[j] by {
        if i == s.len() as int {
            assert(s[j] == next[j]);
        } else if j == s.len() as int {
            assert(s[i] == next[i]);
        }
    }
}

/// What is said once all arguments are done.
pub struct Summary {
    /// The excluded display paths, where there are any.
    pub excluded: Option<Vec<Vec<u8>>>,
    /// The printed display paths; an empty list is reported as "None".
    pub printed: Vec<Vec<u8>>,
    /// Where nothing was printed: all the arguments, joined.
    pub no_valid_files: Option<Vec<u8>>,
}

impl Report {
    /// The invariant: something was found exactly when something was
    /// printed, and neither list names a path twice.
    pub open spec fn wf(&self) -> bool {
        &&& self@.found_any == (self@.printed.len() > 0)
        &&& self@.printed.no_duplicates()
        &&& self@.excluded.no_duplicates()
    }

    /// An empty report.
    pub fn new() -> (r: Report)
        ensures
            r.wf(),
            r@.excluded.len() == 0,
            r@.printed.len() == 0,
            !r@.found_any,
    {
        Report { excluded: Vec::new(), printed: Vec::new(), found_any: false }
    }

    /// Whether printing the file shown as `display` would repeat one
    /// printed before.
    pub fn already_printed(&self, display: &[u8]) -> (r: bool)
        ensures
            r == self@.printed.contains(display@),
    {
        contains_path(&self.printed, display)
    }

    /// Folds one outcome into the report: a printed or excluded path not in
    /// its list yet is appended to it, so that each list names a path once;
    /// a repeated path and a skip change nothing. The result tells whether
    /// the outcome was new.
    pub fn record(&mut self, outcome: Outcome) -> (fresh: bool)
        requires
            old(self).wf(),
        ensures
            final(self).wf(),
            match outcome {
                Outcome::Printed(p) => {
                    &&& fresh == !old(self)@.printed.contains(p@)
                    &&& fresh ==> final(self)@.printed == old(self)@.printed.push(p@)
                    &&& !fresh ==> final(self)@.printed == old(self)@.printed
                    &&& final(self)@.excluded == old(self)@.excluded
                    &&& final(self)@.found_any
                },
                Outcome::Excluded(p) => {
                    &&& fresh == !old(self)@.excluded.contains(p@)
                    &&& fresh ==> final(self)@.excluded == old(self)@.excluded.push(p@)
                    &&& !fresh ==> final(self)@.excluded == old(self)@.excluded
                    &&& final(self)@.printed == old(self)@.printed
                    &&& final(self)@.found_any == old(self)@.found_any
                },
                Outcome::Skipped(_) => fresh && final(self)@ == old(self)@,
            },
    {
        match outcome {
            Outcome::Printed(p) => {
                if contains_path(&self.printed, p.as_slice()) {
                    return false;
                }
                self.printed.push(p);
                self.found_any = true;
                assert(views(self.printed@) =~= views(old(self).printed@).push(p@));
                proof {
                    lemma_push_new(old(self)@.printed, p@);
                }
                true
            },
            Outcome::Excluded(p) => {
                if contains_path(&self.excluded, p.as_slice()) {
                    return false;
                }
                self.excluded.push(p);
                assert(views(self.excluded@) =~= views(old(self).excluded@).push(p@));
                proof {
                    lemma_push_new(old(self)@.excluded, p@);
                }
                true
            },
            Outcome::Skipped(_) => true,
        }
    }

    /// Whether any file has been printed.
    pub fn found_any(&self) -> (r: bool)
        ensures
            r == self@.found_any,
    {
        self.found_any
    }

    /// Closes the run over the arguments `args`: the excluded paths where
    /// there are any, the printed paths always, and the error naming every
    /// argument exactly when nothing was printed.
    pub fn finish(self, args: &Vec<Vec<u8>>) -> (r: Summary)
        requires
            self.wf(),
        ensures
            self@.excluded.len() == 0 ==> r.excluded is None,
            self@.excluded.len() > 0 ==> (r.excluded matches Some(e) && views(e@) == self@.excluded),
            views(r.printed@) == self@.printed,
            views(r.printed@).no_duplicates(),
            self@.found_any ==> r.no_valid_files is None,
            !self@.found_any ==> (r.no_valid_files matches Some(j) && j@ == joined_args(views(args@))),
    {
        let excluded = if self.excluded.len() == 0 {
            None
        } else {
            Some(self.excluded)
        };
        let no_valid_files = if self.found_any {
            None
        } else {
            Some(join_arguments(args))
        };
        Summary { excluded, printed: self.printed, no_valid_files }
    }
}

} // verus!
