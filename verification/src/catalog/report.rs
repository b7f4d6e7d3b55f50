//! Everything wrong with one catalog, and how it reads when said.

use vstd::prelude::*;

use crate::text::{joined, push_joined, views};

verus! {

/// Everything wrong with one catalog, gathered in a single pass.
#[derive(Debug, Clone, PartialEq, Eq)]
pub struct Report {
    problems: Vec<String>,
}

impl Report {
    /// The problems, as text, in the order they were found.
    pub closed spec fn spec_problems(&self) -> Seq<Seq<char>> {
        views(self.problems@)
    }

    /// A report carrying these problems.
    pub fn of(problems: Vec<String>) -> (report: Report)
        ensures
            report.spec_problems() == views(problems@),
    {
        Report { problems }
    }

    /// A report carrying one problem, for failures that stop the parse.
    pub fn single(problem: String) -> (report: Report)
        ensures
            report.spec_problems() == seq![problem@],
    {
        let mut problems = Vec::new();
        problems.push(problem);
        assert(views(problems@) =~= seq![problem@]);
        Report { problems }
    }

    /// The problems, in the order they were found.
    pub fn problems(&self) -> (problems: &[String])
        ensures
            views(problems@) == self.spec_problems(),
    {
        self.problems.as_slice()
    }

    /// The report as it is said: one problem to a line.
    pub fn message(&self) -> (text: String)
        ensures
            text@ == joined(self.spec_problems(), "\n"@),
    {
        let mut out = String::new();
        push_joined(&mut out, &self.problems, "\n");
        out
    }
}

} // verus!
