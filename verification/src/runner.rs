//! The bookkeeping of a test run: counting passes and failures, and the
//! lines that report them.
use vstd::prelude::*;
use crate::text::{append_str, decimal, u64_text};

verus! {

/// The progress of a run of `total` tests.
pub struct TestRun {
    total: usize,
    passed: usize,
    failed_tests: Vec<String>,
}

/// The line that announces a run of `total` tests.
pub open spec fn header_text(total: nat) -> Seq<char> {
    "running "@ + decimal(total) + " test"@ + if total == 1 {
        ""@
    } else {
        "s"@
    }
}

/// The line that reports one test: its position, outcome, name and duration,
/// and for a failure the error on a second, indented line.
pub open spec fn result_text(index: nat, total: nat, name: Seq<char>, duration_ms: nat, error: Option<Seq<char>>) -> Seq<char> {
    let head = "["@ + decimal(index) + "/"@ + decimal(total) + "] "@;
    match error {
        None => head + "PASS "@ + name + " ("@ + decimal(duration_ms) + " ms)"@,
        Some(e) => head + "FAIL "@ + name + " ("@ + decimal(duration_ms) + " ms)\n       "@ + e,
    }
}

/// The error when a script registered no tests.
pub open spec fn no_tests_text(path: Seq<char>) -> Seq<char> {
    "no tests were registered from `"@ + path + "`. make sure files call `test(\"name\", fn)`"@
}

impl TestRun {
    #[verifier::type_invariant]
    spec fn inv(self) -> bool {
        self.passed + self.failed_tests@.len() <= self.total
    }

    /// The number of tests in the run.
    pub closed spec fn total(self) -> nat {
        self.total as nat
    }

    /// The number of tests reported so far.
    pub closed spec fn recorded(self) -> nat {
        (self.passed + self.failed_tests@.len()) as nat
    }

    /// The number of tests that passed.
    pub closed spec fn passed(self) -> nat {
        self.passed as nat
    }

    /// The number of tests that failed.
    pub closed spec fn failed(self) -> nat {
        self.failed_tests@.len()
    }

    /// The names of the failed tests, in the order they ran.
    pub closed spec fn failed_names(self) -> Seq<Seq<char>> {
        self.failed_tests@.map_values(|n: String| n@)
    }

    /// A run of the `total` tests that the scripts under `path` registered;
    /// a run without tests is an error.
    pub fn start(path: &str, total: usize) -> (r: Result<TestRun, String>)
        ensures
            total == 0 ==> (r matches Err(m) && m@ == no_tests_text(path@)),
            total > 0 ==> (r matches Ok(run) && run.total() == total && run.recorded() == 0
                && run.passed() == 0 && run.failed() == 0 && run.failed_names().len() == 0),
    {
        if total == 0 {
            let mut m = String::from_str("no tests were registered from `");
            append_str(&mut m, path);
            append_str(&mut m, "`. make sure files call `test(\"name\", fn)`");
            return Err(m);
        }
        let run = TestRun { total, passed: 0, failed_tests: Vec::new() };
        assert(run.failed_names() =~= Seq::<Seq<char>>::empty());
        Ok(run)
    }

    /// The line that announces the run.
    pub fn header(&self) -> (t: String)
        ensures
            t@ == header_text(self.total()),
    {
        let mut t = String::from_str("running ");
        let n = u64_text(self.total as u64);
        append_str(&mut t, n.as_str());
        append_str(&mut t, " test");
        if self.total != 1 {
            append_str(&mut t, "s");
        }
        proof {
            reveal_strlit("");
            assert(t@ + ""@ =~= t@);
        }
        t
    }

    /// Whether every test of the run has been reported.
    pub fn is_complete(&self) -> (b: bool)
        ensures
            b == (self.recorded() == self.total()),
    {
        proof {
            use_type_invariant(self);
        }
        self.passed + self.failed_tests.len() == self.total
    }

    /// Reports the next test: its name, how long it took, and its error when it
    /// failed. Gives the line that reports it.
    pub fn record(&mut self, name: String, duration_ms: u64, error: Option<String>) -> (line: String)
        requires
            old(self).recorded() < old(self).total(),
        ensures
            final(self).total() == old(self).total(),
            final(self).recorded() == old(self).recorded() + 1,
            final(self).passed() + final(self).failed() == final(self).recorded(),
            final(self).failed_names().len() == final(self).failed(),
            error is None ==> final(self).passed() == old(self).passed() + 1 && final(self).failed()
                == old(self).failed() && final(self).failed_names() == old(self).failed_names(),
            error is Some ==> final(self).passed() == old(self).passed() && final(self).failed()
                == old(self).failed() + 1 && final(self).failed_names() == old(
                self,
            ).failed_names().push(name@),
            line@ == result_text(
                old(self).recorded() + 1,
                old(self).total(),
                name@,
                duration_ms as nat,
                match error {
                    Some(e) => Some(e@),
                    None => None,
                },
            ),
    {
        proof {
            use_type_invariant(&*self);
        }
        let index = self.passed + self.failed_tests.len() + 1;
        let mut line = String::from_str("[");
        append_str(&mut line, u64_text(index as u64).as_str());
        append_str(&mut line, "/");
        append_str(&mut line, u64_text(self.total as u64).as_str());
        append_str(&mut line, "] ");
        let ghost head = line@;
        match error {
            None => {
                append_str(&mut line, "PASS ");
                append_str(&mut line, name.as_str());
                append_str(&mut line, " (");
                append_str(&mut line, u64_text(duration_ms).as_str());
                append_str(&mut line, " ms)");
                self.passed = self.passed + 1;
            },
            Some(e) => {
                append_str(&mut line, "FAIL ");
                append_str(&mut line, name.as_str());
                append_str(&mut line, " (");
                append_str(&mut line, u64_text(duration_ms).as_str());
                append_str(&mut line, " ms)\n       ");
                append_str(&mut line, e.as_str());
                let ghost before = self.failed_tests@;
                let mut failed_tests: Vec<String> = Vec::new();
                std::mem::swap(&mut failed_tests, &mut self.failed_tests);
                failed_tests.push(name);
                proof {
                    assert(failed_tests@.map_values(|n: String| n@) =~= before.map_values(
                        |n: String| n@,
                    ).push(failed_tests@.last()@));
                }
                self.failed_tests = failed_tests;
            },
        }
        line
    }

    /// The summary line of the run, with its total duration.
    pub fn summary(&self, duration_ms: u64) -> (t: String)
        ensures
            t@ == "summary: total="@ + decimal(self.total()) + " passed="@ + decimal(self.passed())
                + " failed="@ + decimal(self.failed()) + " duration="@ + decimal(
                duration_ms as nat,
            ) + " ms"@,
    {
        let mut t = String::from_str("summary: total=");
        append_str(&mut t, u64_text(self.total as u64).as_str());
        append_str(&mut t, " passed=");
        append_str(&mut t, u64_text(self.passed as u64).as_str());
        append_str(&mut t, " failed=");
        append_str(&mut t, u64_text(self.failed_tests.len() as u64).as_str());
        append_str(&mut t, " duration=");
        append_str(&mut t, u64_text(duration_ms).as_str());
        append_str(&mut t, " ms");
        t
    }

    /// The lines that list the failed tests, after a heading; none when no
    /// test failed.
    pub fn failure_lines(&self) -> (lines: Vec<String>)
        ensures
            self.failed() == 0 ==> lines@.len() == 0,
            self.failed() > 0 ==> lines@.len() == self.failed() + 1 && lines@[0]@
                == "failed tests:"@ && forall|i: int|
                0 <= i < self.failed() ==> #[trigger] lines@[i + 1]@ == "  - "@
                    + self.failed_names()[i],
    {
        proof {
            use_type_invariant(self);
        }
        let mut lines: Vec<String> = Vec::new();
        if self.failed_tests.len() == 0 {
            return lines;
        }
        lines.push(String::from_str("failed tests:"));
        let mut i: usize = 0;
        while i < self.failed_tests.len()
            invariant
                i <= self.failed_tests@.len(),
                lines@.len() == i + 1,
                lines@[0]@ == "failed tests:"@,
                forall|j: int|
                    0 <= j < i ==> #[trigger] lines@[j + 1]@ == "  - "@ + self.failed_tests@[j]@,
            decreases self.failed_tests@.len() - i,
        {
            let mut l = String::from_str("  - ");
            append_str(&mut l, self.failed_tests[i].as_str());
            lines.push(l);
            i = i + 1;
        }
        lines
    }

    /// The outcome of the run: an error that counts the failures when a test failed.
    pub fn finish(&self) -> (r: Result<(), String>)
        ensures
            self.failed() == 0 ==> r is Ok,
            self.failed() > 0 ==> (r matches Err(m) && m@ == decimal(self.failed()) + "/"@
                + decimal(self.total()) + " test(s) failed"@),
    {
        if self.failed_tests.len() == 0 {
            return Ok(());
        }
        let mut m = u64_text(self.failed_tests.len() as u64);
        append_str(&mut m, "/");
        append_str(&mut m, u64_text(self.total as u64).as_str());
        append_str(&mut m, " test(s) failed");
        Err(m)
    }
}

/// The error when a test script fails to run.
pub fn script_failure(path: &str, report: &str) -> (m: String)
    ensures
        m@ == "failed to execute Lua file `"@ + path@ + "`:\n"@ + report@,
{
    let mut m = String::from_str("failed to execute Lua file `");
    append_str(&mut m, path);
    append_str(&mut m, "`:\n");
    append_str(&mut m, report);
    m
}

} // verus!
