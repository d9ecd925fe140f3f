//! `storehouse test`: its options, and the reports of the behaviour
//! suites it ran, rendered compact, rspec-style or as TAP, with the exit
//! code the run ends with.

use vstd::prelude::*;
use crate::parser::{source_lines, source_lines_exec};
use crate::run_follow::events::{entries_view, items_view, json_view, lemma_entries_view, lemma_items_view, lemma_items_view_push, Json, JsonView};
use crate::text::{strip_suffix_rep, strip_suffix_rep_exec, append, chars_of, contains_seq, dec_str, eq_str, find_str, starts_with, starts_with_str, string_of, u64_chars, views};
use crate::cli::edits::{lowercase, to_lowercase};

verus! {

// ---------------------------------------------------------------------
// Options
// ---------------------------------------------------------------------

#[derive(Clone, Copy, PartialEq, Eq, Structural, Debug)]
pub enum TestFmt {
    Compact,
    Tap,
    Rspec,
    Json,
}

/// The options of `storehouse test`. Without a path the caller picks the
/// default directory.
pub struct TestOpts {
    pub path: Option<String>,
    pub filter: Option<String>,
    pub aggregate: Option<String>,
    pub fmt: TestFmt,
    pub fail_fast: bool,
    pub list: bool,
    pub corpus: Option<String>,
    pub allow_empty: bool,
}

pub struct TestOptsModel {
    pub path: Option<Seq<char>>,
    pub filter: Option<Seq<char>>,
    pub aggregate: Option<Seq<char>>,
    pub fmt: TestFmt,
    pub fail_fast: bool,
    pub list: bool,
    pub corpus: Option<Seq<char>>,
    pub allow_empty: bool,
}

pub open spec fn text_opt(o: Option<String>) -> Option<Seq<char>> {
    match o {
        Some(s) => Some(s@),
        None => None,
    }
}

impl View for TestOpts {
    type V = TestOptsModel;

    open spec fn view(&self) -> TestOptsModel {
        TestOptsModel {
            path: text_opt(self.path),
            filter: text_opt(self.filter),
            aggregate: text_opt(self.aggregate),
            fmt: self.fmt,
            fail_fast: self.fail_fast,
            list: self.list,
            corpus: text_opt(self.corpus),
            allow_empty: self.allow_empty,
        }
    }
}

/// The format a `--format` value names.
pub open spec fn fmt_named(v: Seq<char>) -> Option<TestFmt> {
    if v == "compact"@ {
        Some(TestFmt::Compact)
    } else if v == "tap"@ {
        Some(TestFmt::Tap)
    } else if v == "rspec"@ {
        Some(TestFmt::Rspec)
    } else if v == "json"@ {
        Some(TestFmt::Json)
    } else {
        None
    }
}

/// The options read from `args[i..]` onto `st`, or the complaint about
/// the first bad argument.
pub open spec fn test_opts_from(args: Seq<Seq<char>>, i: int, st: TestOptsModel) -> Result<
    TestOptsModel,
    Seq<char>,
>
    decreases args.len() - i,
{
    if i < 0 || i >= args.len() {
        Ok(st)
    } else {
        let a = args[i];
        if a == "--filter"@ {
            if i + 1 < args.len() {
                test_opts_from(args, i + 2, TestOptsModel { filter: Some(args[i + 1]), ..st })
            } else {
                Err("--filter needs a value"@)
            }
        } else if a == "--aggregate"@ {
            if i + 1 < args.len() {
                test_opts_from(args, i + 2, TestOptsModel { aggregate: Some(args[i + 1]), ..st })
            } else {
                Err("--aggregate needs a value"@)
            }
        } else if a == "--format"@ {
            if i + 1 < args.len() {
                match fmt_named(args[i + 1]) {
                    Some(f) => test_opts_from(args, i + 2, TestOptsModel { fmt: f, ..st }),
                    None => Err("--format expects compact|tap|rspec|json, got `"@ + args[i + 1] + "`"@),
                }
            } else {
                Err("--format expects compact|tap|rspec|json, got `"@ + "`"@)
            }
        } else if a == "--fail-fast"@ {
            test_opts_from(args, i + 1, TestOptsModel { fail_fast: true, ..st })
        } else if a == "--list"@ {
            test_opts_from(args, i + 1, TestOptsModel { list: true, ..st })
        } else if a == "--corpus"@ {
            if i + 1 < args.len() {
                test_opts_from(args, i + 2, TestOptsModel { corpus: Some(args[i + 1]), ..st })
            } else {
                Err("--corpus needs a value"@)
            }
        } else if a == "--allow-empty"@ {
            test_opts_from(args, i + 1, TestOptsModel { allow_empty: true, ..st })
        } else if starts_with(a, "--"@) {
            Err("unknown flag: "@ + a)
        } else if st.path is None {
            test_opts_from(args, i + 1, TestOptsModel { path: Some(a), ..st })
        } else {
            Err("unexpected positional arg: "@ + a)
        }
    }
}

/// The options after the program name and the subcommand.
pub open spec fn test_opts(args: Seq<Seq<char>>) -> Result<TestOptsModel, Seq<char>> {
    test_opts_from(
        args,
        2,
        TestOptsModel {
            path: None,
            filter: None,
            aggregate: None,
            fmt: TestFmt::Compact,
            fail_fast: false,
            list: false,
            corpus: None,
            allow_empty: false,
        },
    )
}

fn copy_text(v: &Vec<char>) -> (r: Option<String>)
    ensures
        r is Some,
        r->0@ == v@,
{
    Some(string_of(v))
}

/// Reads the options of `storehouse test` (`args[0]` the program,
/// `args[1]` the subcommand).
pub fn parse_test_opts(args: &Vec<String>) -> (r: Result<TestOpts, String>)
    ensures
        match r {
            Ok(o) => test_opts(crate::text::strings_view(args@)) == Ok::<TestOptsModel, Seq<char>>(o@),
            Err(e) => test_opts(crate::text::strings_view(args@)) == Err::<TestOptsModel, Seq<char>>(e@),
        },
{
    let ghost av = crate::text::strings_view(args@);
    let mut st = TestOpts {
        path: None,
        filter: None,
        aggregate: None,
        fmt: TestFmt::Compact,
        fail_fast: false,
        list: false,
        corpus: None,
        allow_empty: false,
    };
    let n = args.len();
    let mut i: usize = 2;
    while i < n
        invariant
            2 <= i,
            i <= n || i == 2,
            n == args.len(),
            av == crate::text::strings_view(args@),
            av.len() == n,
            test_opts_from(av, i as int, st@) == test_opts(av),
        decreases n + 2 - i,
    {
        let a = chars_of(args[i].as_str());
        assert(av[i as int] == a@);
        proof {
            reveal_strlit("--filter");
            reveal_strlit("--aggregate");
            reveal_strlit("--format");
            reveal_strlit("--fail-fast");
            reveal_strlit("--list");
            reveal_strlit("--corpus");
            reveal_strlit("--allow-empty");
            reveal_strlit("--");
            reveal_strlit("compact");
            reveal_strlit("tap");
            reveal_strlit("rspec");
            reveal_strlit("json");
        }
        if i + 1 < n {
            assert(av[i + 1] == args@[i + 1]@);
        }
        if eq_str(&a, "--filter") {
            if i + 1 >= n {
                return Err("--filter needs a value".to_owned());
            }
            st.filter = copy_text(&chars_of(args[i + 1].as_str()));
            i = i + 2;
        } else if eq_str(&a, "--aggregate") {
            if i + 1 >= n {
                return Err("--aggregate needs a value".to_owned());
            }
            st.aggregate = copy_text(&chars_of(args[i + 1].as_str()));
            i = i + 2;
        } else if eq_str(&a, "--format") {
            if i + 1 >= n {
                proof {
                    reveal_strlit("--format expects compact|tap|rspec|json, got `");
                    reveal_strlit("`");
                    reveal_strlit("--format expects compact|tap|rspec|json, got ``");
                    assert("--format expects compact|tap|rspec|json, got ``"@ =~= "--format expects compact|tap|rspec|json, got `"@
                        + "`"@);
                }
                return Err("--format expects compact|tap|rspec|json, got ``".to_owned());
            }
            let v = chars_of(args[i + 1].as_str());
            let f = if eq_str(&v, "compact") {
                TestFmt::Compact
            } else if eq_str(&v, "tap") {
                TestFmt::Tap
            } else if eq_str(&v, "rspec") {
                TestFmt::Rspec
            } else if eq_str(&v, "json") {
                TestFmt::Json
            } else {
                let mut m = chars_of("--format expects compact|tap|rspec|json, got `");
                append(&mut m, &v);
                append(&mut m, &chars_of("`"));
                return Err(string_of(&m));
            };
            st.fmt = f;
            i = i + 2;
        } else if eq_str(&a, "--fail-fast") {
            st.fail_fast = true;
            i = i + 1;
        } else if eq_str(&a, "--list") {
            st.list = true;
            i = i + 1;
        } else if eq_str(&a, "--corpus") {
            if i + 1 >= n {
                return Err("--corpus needs a value".to_owned());
            }
            st.corpus = copy_text(&chars_of(args[i + 1].as_str()));
            i = i + 2;
        } else if eq_str(&a, "--allow-empty") {
            st.allow_empty = true;
            i = i + 1;
        } else if starts_with_str(&a, "--") {
            let mut m = chars_of("unknown flag: ");
            append(&mut m, &a);
            return Err(string_of(&m));
        } else if st.path.is_none() {
            st.path = copy_text(&a);
            i = i + 1;
        } else {
            let mut m = chars_of("unexpected positional arg: ");
            append(&mut m, &a);
            return Err(string_of(&m));
        }
    }
    Ok(st)
}

// ---------------------------------------------------------------------
// Reports
// ---------------------------------------------------------------------

#[derive(Clone, Copy, PartialEq, Eq, Structural, Debug)]
pub enum TestStatus {
    Pass,
    Fail,
    Error,
}

/// One test's outcome.
pub struct TestRun {
    pub description: String,
    pub status: TestStatus,
    pub message: Option<String>,
}

/// One suite's outcome: where it came from, a parse error if it did not
/// parse, how many tests the filter skipped, and each test run.
pub struct SuiteReport {
    pub suite_path: String,
    pub source_path: String,
    pub fixtures_path: Option<String>,
    pub parse_error: Option<String>,
    pub skipped_by_filter: u64,
    pub runs: Vec<TestRun>,
}

pub struct RunModel {
    pub description: Seq<char>,
    pub status: TestStatus,
    pub message: Option<Seq<char>>,
}

impl View for TestRun {
    type V = RunModel;

    open spec fn view(&self) -> RunModel {
        RunModel { description: self.description@, status: self.status, message: text_opt(self.message) }
    }
}

pub struct ReportModel {
    pub suite_path: Seq<char>,
    pub source_path: Seq<char>,
    pub fixtures_path: Option<Seq<char>>,
    pub parse_error: Option<Seq<char>>,
    pub skipped_by_filter: nat,
    pub runs: Seq<RunModel>,
}

impl View for SuiteReport {
    type V = ReportModel;

    open spec fn view(&self) -> ReportModel {
        ReportModel {
            suite_path: self.suite_path@,
            source_path: self.source_path@,
            fixtures_path: text_opt(self.fixtures_path),
            parse_error: text_opt(self.parse_error),
            skipped_by_filter: self.skipped_by_filter as nat,
            runs: crate::ir::seq_view(self.runs@),
        }
    }
}

/// `indent` + the text + a newline, or nothing.
pub open spec fn opt_line(indent: Seq<char>, t: Option<Seq<char>>) -> Seq<char> {
    match t {
        Some(x) => indent + x + "\n"@,
        None => Seq::empty(),
    }
}

pub open spec fn icon(s: TestStatus) -> Seq<char> {
    match s {
        TestStatus::Pass => "PASS"@,
        TestStatus::Fail => "FAIL"@,
        TestStatus::Error => "ERR "@,
    }
}

pub open spec fn runs_compact(runs: Seq<RunModel>) -> Seq<char>
    decreases runs.len(),
{
    if runs.len() == 0 {
        Seq::empty()
    } else {
        let r = runs.last();
        runs_compact(runs.drop_last()) + "  "@ + icon(r.status) + " "@ + r.description + "\n"@
            + opt_line("       "@, r.message)
    }
}

/// What the compact format prints as a suite finishes.
pub open spec fn compact_inline_text(r: ReportModel) -> Seq<char> {
    match r.parse_error {
        Some(e) => "PARSE ERROR — "@ + r.suite_path + ": "@ + e + "\n"@,
        None => "Running "@ + dec_str(r.runs.len()) + " test(s) from "@ + r.suite_path + "\n"@
            + "  source: "@ + r.source_path + "\n"@ + opt_line("  fixtures: "@, r.fixtures_path)
            + runs_compact(r.runs),
    }
}

pub open spec fn status_char(s: TestStatus) -> char {
    match s {
        TestStatus::Pass => '.',
        TestStatus::Fail => 'F',
        TestStatus::Error => 'E',
    }
}

/// What the rspec format prints as a suite finishes: `E` for a suite
/// that did not parse, else one character per test.
pub open spec fn rspec_inline_text(r: ReportModel) -> Seq<char> {
    match r.parse_error {
        Some(_) => "E"@,
        None => r.runs.map_values(|x: RunModel| status_char(x.status)),
    }
}

fn push_str(out: &mut Vec<char>, s: &str)
    ensures
        final(out)@ == old(out)@ + s@,
{
    append(out, &chars_of(s));
}

fn push_text(out: &mut Vec<char>, s: &String)
    ensures
        final(out)@ == old(out)@ + s@,
{
    append(out, &chars_of(s.as_str()));
}

fn push_opt_line(out: &mut Vec<char>, indent: &str, t: &Option<String>)
    ensures
        final(out)@ == old(out)@ + opt_line(indent@, text_opt(*t)),
{
    match t {
        Some(x) => {
            push_str(out, indent);
            push_text(out, x);
            push_str(out, "\n");
        },
        None => {
            assert(old(out)@ + Seq::<char>::empty() =~= old(out)@);
        },
    }
}

fn push_icon(out: &mut Vec<char>, s: TestStatus)
    ensures
        final(out)@ == old(out)@ + icon(s),
{
    match s {
        TestStatus::Pass => push_str(out, "PASS"),
        TestStatus::Fail => push_str(out, "FAIL"),
        TestStatus::Error => push_str(out, "ERR "),
    }
}

/// The compact format's text for a finished suite.
pub fn compact_inline(r: &SuiteReport) -> (t: String)
    ensures
        t@ == compact_inline_text(r@),
{
    let mut out: Vec<char> = Vec::new();
    match &r.parse_error {
        Some(e) => {
            push_str(&mut out, "PARSE ERROR — ");
            push_text(&mut out, &r.suite_path);
            push_str(&mut out, ": ");
            push_text(&mut out, e);
            push_str(&mut out, "\n");
            assert(out@ =~= compact_inline_text(r@));
            return string_of(&out);
        },
        None => {},
    }
    push_str(&mut out, "Running ");
    append(&mut out, &u64_chars(r.runs.len() as u64));
    push_str(&mut out, " test(s) from ");
    push_text(&mut out, &r.suite_path);
    push_str(&mut out, "\n  source: ");
    push_text(&mut out, &r.source_path);
    push_str(&mut out, "\n");
    push_opt_line(&mut out, "  fixtures: ", &r.fixtures_path);
    let ghost head = out@;
    let ghost rv = r@.runs;
    proof {
        reveal_strlit("\n  source: ");
        reveal_strlit("  source: ");
        reveal_strlit("\n");
        assert("\n  source: "@ =~= "\n"@ + "  source: "@);
    }
    let mut k: usize = 0;
    assert(runs_compact(rv.take(0)) =~= Seq::<char>::empty());
    while k < r.runs.len()
        invariant
            k <= r.runs.len(),
            rv == r@.runs,
            rv.len() == r.runs@.len(),
            out@ == head + runs_compact(rv.take(k as int)),
        decreases r.runs.len() - k,
    {
        let x = &r.runs[k];
        assert(rv[k as int] == x@);
        assert(rv.take(k + 1).drop_last() =~= rv.take(k as int));
        assert(rv.take(k + 1).last() == x@);
        push_str(&mut out, "  ");
        push_icon(&mut out, x.status);
        push_str(&mut out, " ");
        push_text(&mut out, &x.description);
        push_str(&mut out, "\n");
        push_opt_line(&mut out, "       ", &x.message);
        k = k + 1;
    }
    assert(rv.take(r.runs.len() as int) =~= rv);
    assert(out@ =~= compact_inline_text(r@));
    string_of(&out)
}

/// The rspec format's text for a finished suite.
pub fn rspec_inline(r: &SuiteReport) -> (t: String)
    ensures
        t@ == rspec_inline_text(r@),
{
    if r.parse_error.is_some() {
        return "E".to_owned();
    }
    let ghost rv = r@.runs;
    let mut out: Vec<char> = Vec::new();
    let mut k: usize = 0;
    while k < r.runs.len()
        invariant
            k <= r.runs.len(),
            rv == r@.runs,
            rv.len() == r.runs@.len(),
            out@ == rv.take(k as int).map_values(|x: RunModel| status_char(x.status)),
        decreases r.runs.len() - k,
    {
        let x = &r.runs[k];
        assert(rv[k as int] == x@);
        let c = match x.status {
            TestStatus::Pass => '.',
            TestStatus::Fail => 'F',
            TestStatus::Error => 'E',
        };
        out.push(c);
        assert(out@ =~= rv.take(k + 1).map_values(|x: RunModel| status_char(x.status)));
        k = k + 1;
    }
    assert(rv.take(r.runs.len() as int) =~= rv);
    string_of(&out)
}

// ---------------------------------------------------------------------
// Totals and the exit code
// ---------------------------------------------------------------------

/// How many runs have the status.
pub open spec fn status_in(runs: Seq<RunModel>, st: TestStatus) -> nat
    decreases runs.len(),
{
    if runs.len() == 0 {
        0
    } else {
        status_in(runs.drop_last(), st) + if runs.last().status == st {
            1nat
        } else {
            0nat
        }
    }
}

pub open spec fn count_status(reports: Seq<ReportModel>, st: TestStatus) -> nat
    decreases reports.len(),
{
    if reports.len() == 0 {
        0
    } else {
        count_status(reports.drop_last(), st) + status_in(reports.last().runs, st)
    }
}

pub open spec fn total_runs(reports: Seq<ReportModel>) -> nat
    decreases reports.len(),
{
    if reports.len() == 0 {
        0
    } else {
        total_runs(reports.drop_last()) + reports.last().runs.len()
    }
}

pub open spec fn filtered_total(reports: Seq<ReportModel>) -> nat
    decreases reports.len(),
{
    if reports.len() == 0 {
        0
    } else {
        filtered_total(reports.drop_last()) + reports.last().skipped_by_filter
    }
}

pub open spec fn any_parse_error(reports: Seq<ReportModel>) -> bool {
    exists|i: int| 0 <= i < reports.len() && #[trigger] reports[i].parse_error is Some
}

pub open spec fn suite_failed(r: ReportModel) -> bool {
    exists|j: int| 0 <= j < r.runs.len() && #[trigger] r.runs[j].status != TestStatus::Pass
}

pub open spec fn any_failure(reports: Seq<ReportModel>) -> bool {
    exists|i: int| 0 <= i < reports.len() && #[trigger] suite_failed(reports[i])
}

/// The exit code of a test run over its reports: 3 when no test ran and
/// no suite failed to parse (0 with `--allow-empty`), else 2 on a parse
/// error, 1 on a failing or erroring test, 0 when all passed.
pub open spec fn test_exit(reports: Seq<ReportModel>, allow_empty: bool) -> int {
    if total_runs(reports) == 0 && !any_parse_error(reports) {
        if allow_empty {
            0
        } else {
            3
        }
    } else if any_parse_error(reports) {
        2
    } else if any_failure(reports) {
        1
    } else {
        0
    }
}

proof fn lemma_total_zero(reports: Seq<ReportModel>)
    ensures
        total_runs(reports) == 0 <==> forall|i: int| 0 <= i < reports.len() ==> #[trigger] reports[i].runs.len() == 0,
    decreases reports.len(),
{
    if reports.len() > 0 {
        let d = reports.drop_last();
        lemma_total_zero(d);
        if total_runs(reports) == 0 {
            assert forall|i: int| 0 <= i < reports.len() implies #[trigger] reports[i].runs.len() == 0 by {
                if i < reports.len() - 1 {
                    assert(d[i] == reports[i]);
                }
            }
        }
        if forall|i: int| 0 <= i < reports.len() ==> #[trigger] reports[i].runs.len() == 0 {
            assert forall|i: int| 0 <= i < d.len() implies #[trigger] d[i].runs.len() == 0 by {
                assert(d[i] == reports[i]);
            }
            assert(reports.last().runs.len() == 0);
        }
    }
}

/// Whether a suite had a test that did not pass.
pub fn suite_did_fail(r: &SuiteReport) -> (b: bool)
    ensures
        b == suite_failed(r@),
{
    let mut k: usize = 0;
    while k < r.runs.len()
        invariant
            k <= r.runs.len(),
            r@.runs.len() == r.runs@.len(),
            forall|j: int| 0 <= j < k ==> #[trigger] r@.runs[j].status == TestStatus::Pass,
        decreases r.runs.len() - k,
    {
        assert(r@.runs[k as int] == r.runs@[k as int]@);
        if r.runs[k].status != TestStatus::Pass {
            assert(r@.runs[k as int].status != TestStatus::Pass);
            return true;
        }
        k = k + 1;
    }
    false
}

/// `--list` shows a planned test when its description contains the
/// `--filter` text, both lowercased, and it is on the `--aggregate` named;
/// an option not given lets every test through.
pub open spec fn listed_test(
    description: Seq<char>,
    on_aggregate: Seq<char>,
    filter: Option<Seq<char>>,
    aggregate: Option<Seq<char>>,
) -> bool {
    &&& match filter {
        Some(f) => contains_seq(lowercase(description), lowercase(f)),
        None => true,
    }
    &&& match aggregate {
        Some(a) => on_aggregate == a,
        None => true,
    }
}

/// Whether `--list` shows a planned test.
pub fn is_listed(description: &str, on_aggregate: &str, filter: &Option<String>, aggregate: &Option<String>) -> (b: bool)
    ensures
        b == listed_test(description@, on_aggregate@, text_opt(*filter), text_opt(*aggregate)),
{
    let filter_ok = match filter {
        Some(f) => {
            let d = chars_of(to_lowercase(description).as_str());
            let lf = to_lowercase(f.as_str());
            find_str(&d, lf.as_str()).is_some()
        },
        None => true,
    };
    let agg_ok = match aggregate {
        Some(a) => eq_str(&chars_of(on_aggregate), a.as_str()),
        None => true,
    };
    filter_ok && agg_ok
}

/// Whether any suite so far failed to parse.
fn any_parse_error_exec(reports: &Vec<SuiteReport>) -> (b: bool)
    ensures
        b == any_parse_error(crate::ir::seq_view(reports@)),
{
    let ghost rv = crate::ir::seq_view(reports@);
    let mut i: usize = 0;
    while i < reports.len()
        invariant
            i <= reports.len(),
            rv == crate::ir::seq_view(reports@),
            forall|k: int| 0 <= k < i ==> !(#[trigger] rv[k].parse_error is Some),
        decreases reports.len() - i,
    {
        assert(rv[i as int] == reports@[i as int]@);
        if reports[i].parse_error.is_some() {
            assert(rv[i as int].parse_error is Some);
            return true;
        }
        i = i + 1;
    }
    false
}

/// Whether any suite so far had a test that did not pass.
fn any_failure_exec(reports: &Vec<SuiteReport>) -> (b: bool)
    ensures
        b == any_failure(crate::ir::seq_view(reports@)),
{
    let ghost rv = crate::ir::seq_view(reports@);
    let mut i: usize = 0;
    while i < reports.len()
        invariant
            i <= reports.len(),
            rv == crate::ir::seq_view(reports@),
            forall|k: int| 0 <= k < i ==> !#[trigger] suite_failed(rv[k]),
        decreases reports.len() - i,
    {
        assert(rv[i as int] == reports@[i as int]@);
        if suite_did_fail(&reports[i]) {
            return true;
        }
        i = i + 1;
    }
    false
}

/// With `--fail-fast`, the run stops after a suite once any suite so far
/// failed to parse or had a test that did not pass.
pub fn stops_after_suite(fail_fast: bool, reports: &Vec<SuiteReport>) -> (b: bool)
    ensures
        b == (fail_fast && (any_failure(crate::ir::seq_view(reports@)) || any_parse_error(
            crate::ir::seq_view(reports@),
        ))),
{
    fail_fast && (any_failure_exec(reports) || any_parse_error_exec(reports))
}

/// The exit code of a test run over its reports.
pub fn test_exit_code(reports: &Vec<SuiteReport>, allow_empty: bool) -> (c: i32)
    ensures
        c as int == test_exit(crate::ir::seq_view(reports@), allow_empty),
{
    let ghost rv = crate::ir::seq_view(reports@);
    let mut any_runs = false;
    let mut parse_err = false;
    let mut failed = false;
    let mut i: usize = 0;
    while i < reports.len()
        invariant
            i <= reports.len(),
            rv == crate::ir::seq_view(reports@),
            rv.len() == reports@.len(),
            any_runs <==> exists|m: int| 0 <= m < i && (#[trigger] rv[m]).runs.len() > 0,
            parse_err <==> exists|m: int| 0 <= m < i && (#[trigger] rv[m]).parse_error is Some,
            failed <==> exists|m: int| 0 <= m < i && suite_failed(#[trigger] rv[m]),
        decreases reports.len() - i,
    {
        let r = &reports[i];
        assert(rv[i as int] == r@);
        if r.runs.len() > 0 {
            any_runs = true;
        }
        if r.parse_error.is_some() {
            parse_err = true;
        }
        if suite_did_fail(r) {
            failed = true;
        }
        i = i + 1;
    }
    proof {
        lemma_total_zero(rv);
        if !any_runs {
            assert forall|m: int| 0 <= m < rv.len() implies #[trigger] rv[m].runs.len() == 0 by {
                if rv[m].runs.len() > 0 {
                    assert(exists|q: int| 0 <= q < i && (#[trigger] rv[q]).runs.len() > 0);
                }
            }
        }
    }
    if !any_runs && !parse_err {
        if allow_empty {
            0
        } else {
            3
        }
    } else if parse_err {
        2
    } else if failed {
        1
    } else {
        0
    }
}

// ---------------------------------------------------------------------
// Summaries
// ---------------------------------------------------------------------

/// The counts a run's summary reports.
pub struct Tally {
    pub files: u64,
    pub runs: u64,
    pub passed: u64,
    pub failed: u64,
    pub errored: u64,
    pub filtered: u64,
}

proof fn lemma_status_le(runs: Seq<RunModel>, st: TestStatus)
    ensures
        status_in(runs, st) <= runs.len(),
    decreases runs.len(),
{
    if runs.len() > 0 {
        lemma_status_le(runs.drop_last(), st);
    }
}

proof fn lemma_counts_le(reports: Seq<ReportModel>, k: int)
    requires
        0 <= k <= reports.len(),
    ensures
        total_runs(reports.take(k)) <= total_runs(reports),
        filtered_total(reports.take(k)) <= filtered_total(reports),
        count_status(reports.take(k), TestStatus::Pass) <= total_runs(reports.take(k)),
        count_status(reports.take(k), TestStatus::Fail) <= total_runs(reports.take(k)),
        count_status(reports.take(k), TestStatus::Error) <= total_runs(reports.take(k)),
    decreases reports.len(),
{
    if k == reports.len() {
        assert(reports.take(k) =~= reports);
        lemma_counts_all(reports);
    } else {
        lemma_counts_le(reports.drop_last(), k);
        assert(reports.drop_last().take(k) =~= reports.take(k));
    }
}

proof fn lemma_counts_all(reports: Seq<ReportModel>)
    ensures
        count_status(reports, TestStatus::Pass) <= total_runs(reports),
        count_status(reports, TestStatus::Fail) <= total_runs(reports),
        count_status(reports, TestStatus::Error) <= total_runs(reports),
    decreases reports.len(),
{
    if reports.len() > 0 {
        lemma_counts_all(reports.drop_last());
        lemma_status_le(reports.last().runs, TestStatus::Pass);
        lemma_status_le(reports.last().runs, TestStatus::Fail);
        lemma_status_le(reports.last().runs, TestStatus::Error);
    }
}

/// A suite's passed, failed and errored counts.
fn suite_counts(r: &SuiteReport) -> (c: (u64, u64, u64))
    ensures
        c.0 == status_in(r@.runs, TestStatus::Pass),
        c.1 == status_in(r@.runs, TestStatus::Fail),
        c.2 == status_in(r@.runs, TestStatus::Error),
{
    let ghost rr = r@.runs;
    let mut p: u64 = 0;
    let mut f: u64 = 0;
    let mut e: u64 = 0;
    let mut j: usize = 0;
    while j < r.runs.len()
        invariant
            j <= r.runs.len(),
            rr == r@.runs,
            rr.len() == r.runs@.len(),
            p == status_in(rr.take(j as int), TestStatus::Pass),
            f == status_in(rr.take(j as int), TestStatus::Fail),
            e == status_in(rr.take(j as int), TestStatus::Error),
            p + f + e == j,
        decreases r.runs.len() - j,
    {
        assert(rr[j as int] == r.runs@[j as int]@);
        assert(rr.take(j + 1).drop_last() =~= rr.take(j as int));
        match r.runs[j].status {
            TestStatus::Pass => p = p + 1,
            TestStatus::Fail => f = f + 1,
            TestStatus::Error => e = e + 1,
        }
        j = j + 1;
    }
    assert(rr.take(r.runs.len() as int) =~= rr);
    (p, f, e)
}

/// The counts over all reports: files, tests, passed, failed, errored,
/// and skipped by the filter.
pub fn tally(reports: &Vec<SuiteReport>) -> (t: Tally)
    requires
        total_runs(crate::ir::seq_view(reports@)) <= u64::MAX,
        filtered_total(crate::ir::seq_view(reports@)) <= u64::MAX,
    ensures
        t.files == reports.len(),
        t.runs == total_runs(crate::ir::seq_view(reports@)),
        t.passed == count_status(crate::ir::seq_view(reports@), TestStatus::Pass),
        t.failed == count_status(crate::ir::seq_view(reports@), TestStatus::Fail),
        t.errored == count_status(crate::ir::seq_view(reports@), TestStatus::Error),
        t.filtered == filtered_total(crate::ir::seq_view(reports@)),
{
    let ghost rv = crate::ir::seq_view(reports@);
    let mut runs: u64 = 0;
    let mut passed: u64 = 0;
    let mut failed: u64 = 0;
    let mut errored: u64 = 0;
    let mut filtered: u64 = 0;
    let mut i: usize = 0;
    while i < reports.len()
        invariant
            i <= reports.len(),
            rv == crate::ir::seq_view(reports@),
            rv.len() == reports@.len(),
            total_runs(rv) <= u64::MAX,
            filtered_total(rv) <= u64::MAX,
            runs == total_runs(rv.take(i as int)),
            passed == count_status(rv.take(i as int), TestStatus::Pass),
            failed == count_status(rv.take(i as int), TestStatus::Fail),
            errored == count_status(rv.take(i as int), TestStatus::Error),
            filtered == filtered_total(rv.take(i as int)),
        decreases reports.len() - i,
    {
        let r = &reports[i];
        assert(rv[i as int] == r@);
        let ghost next = rv.take(i + 1);
        assert(next.drop_last() =~= rv.take(i as int));
        assert(next.last() == r@);
        proof {
            lemma_counts_le(rv, i + 1);
        }
        let (p, f, e) = suite_counts(r);
        proof {
            lemma_status_le(r@.runs, TestStatus::Pass);
            lemma_status_le(r@.runs, TestStatus::Fail);
            lemma_status_le(r@.runs, TestStatus::Error);
        }
        runs = runs + r.runs.len() as u64;
        passed = passed + p;
        failed = failed + f;
        errored = errored + e;
        filtered = filtered + r.skipped_by_filter;
        i = i + 1;
    }
    assert(rv.take(reports.len() as int) =~= rv);
    Tally { files: reports.len() as u64, runs, passed, failed, errored, filtered }
}

/// The compact format's closing summary.
pub open spec fn compact_summary_text(files: nat, runs: nat, passed: nat, failed: nat, errored: nat, filtered: nat) -> Seq<char> {
    "\n"@ + dec_str(files) + " file(s) ; "@ + dec_str(runs) + " test(s) : "@ + dec_str(passed)
        + " passed, "@ + dec_str(failed) + " failed, "@ + dec_str(errored) + " errored\n"@ + if filtered
        > 0 {
        "  ("@ + dec_str(filtered) + " skipped by filter)\n"@
    } else {
        Seq::empty()
    }
}

pub fn compact_summary(t: &Tally) -> (s: String)
    ensures
        s@ == compact_summary_text(
            t.files as nat,
            t.runs as nat,
            t.passed as nat,
            t.failed as nat,
            t.errored as nat,
            t.filtered as nat,
        ),
{
    let mut out: Vec<char> = Vec::new();
    push_str(&mut out, "\n");
    append(&mut out, &u64_chars(t.files));
    push_str(&mut out, " file(s) ; ");
    append(&mut out, &u64_chars(t.runs));
    push_str(&mut out, " test(s) : ");
    append(&mut out, &u64_chars(t.passed));
    push_str(&mut out, " passed, ");
    append(&mut out, &u64_chars(t.failed));
    push_str(&mut out, " failed, ");
    append(&mut out, &u64_chars(t.errored));
    push_str(&mut out, " errored\n");
    if t.filtered > 0 {
        push_str(&mut out, "  (");
        append(&mut out, &u64_chars(t.filtered));
        push_str(&mut out, " skipped by filter)\n");
    }
    assert(out@ =~= compact_summary_text(
        t.files as nat,
        t.runs as nat,
        t.passed as nat,
        t.failed as nat,
        t.errored as nat,
        t.filtered as nat,
    ));
    string_of(&out)
}

pub open spec fn failure_kind(s: TestStatus) -> Seq<char> {
    match s {
        TestStatus::Fail => "FAILED"@,
        TestStatus::Error => "ERROR"@,
        TestStatus::Pass => Seq::empty(),
    }
}

/// The rspec listing of one suite: its parse error, then each test that
/// did not pass, with its message.
pub open spec fn rspec_failures(runs: Seq<RunModel>) -> Seq<char>
    decreases runs.len(),
{
    if runs.len() == 0 {
        Seq::empty()
    } else {
        let r = runs.last();
        rspec_failures(runs.drop_last()) + if r.status != TestStatus::Pass {
            "  "@ + failure_kind(r.status) + " — "@ + r.description + "\n"@ + opt_line("    "@, r.message)
        } else {
            Seq::empty()
        }
    }
}

pub open spec fn rspec_listing(reports: Seq<ReportModel>) -> Seq<char>
    decreases reports.len(),
{
    if reports.len() == 0 {
        Seq::empty()
    } else {
        let r = reports.last();
        rspec_listing(reports.drop_last()) + rspec_report(r)
    }
}

/// One suite's part of the rspec listing.
pub open spec fn rspec_report(r: ReportModel) -> Seq<char> {
    (match r.parse_error {
        Some(e) => "PARSE ERROR — "@ + r.suite_path + ": "@ + e + "\n"@,
        None => Seq::empty(),
    }) + rspec_failures(r.runs)
}

fn push_rspec_report(out: &mut Vec<char>, r: &SuiteReport)
    ensures
        final(out)@ == old(out)@ + rspec_report(r@),
{
    let ghost start = out@;
    match &r.parse_error {
        Some(e) => {
            push_str(out, "PARSE ERROR — ");
            push_text(out, &r.suite_path);
            push_str(out, ": ");
            push_text(out, e);
            push_str(out, "\n");
        },
        None => {},
    }
    let ghost mid = out@;
    let ghost rr = r@.runs;
    let mut k: usize = 0;
    assert(rspec_failures(rr.take(0)) =~= Seq::<char>::empty());
    while k < r.runs.len()
        invariant
            k <= r.runs.len(),
            rr == r@.runs,
            rr.len() == r.runs@.len(),
            out@ == mid + rspec_failures(rr.take(k as int)),
        decreases r.runs.len() - k,
    {
        let x = &r.runs[k];
        assert(rr[k as int] == x@);
        assert(rr.take(k + 1).drop_last() =~= rr.take(k as int));
        assert(rr.take(k + 1).last() == x@);
        if x.status != TestStatus::Pass {
            push_str(out, "  ");
            match x.status {
                TestStatus::Fail => push_str(out, "FAILED"),
                TestStatus::Error => push_str(out, "ERROR"),
                TestStatus::Pass => {},
            }
            push_str(out, " — ");
            push_text(out, &x.description);
            push_str(out, "\n");
            push_opt_line(out, "    ", &x.message);
        }
        assert(out@ =~= mid + rspec_failures(rr.take(k + 1)));
        k = k + 1;
    }
    assert(rr.take(r.runs.len() as int) =~= rr);
    assert(out@ =~= start + rspec_report(r@));
}

/// The rspec format's closing text.
pub open spec fn rspec_summary_text(reports: Seq<ReportModel>, runs: nat, failed: nat, errored: nat) -> Seq<char> {
    "\n"@ + rspec_listing(reports) + "\n"@ + dec_str(runs) + " examples, "@ + dec_str(failed)
        + " failures, "@ + dec_str(errored) + " errors\n"@
}

pub fn rspec_summary(reports: &Vec<SuiteReport>, t: &Tally) -> (s: String)
    ensures
        s@ == rspec_summary_text(
            crate::ir::seq_view(reports@),
            t.runs as nat,
            t.failed as nat,
            t.errored as nat,
        ),
{
    let ghost rv = crate::ir::seq_view(reports@);
    let mut out: Vec<char> = Vec::new();
    push_str(&mut out, "\n");
    let ghost head = out@;
    let mut i: usize = 0;
    assert(rspec_listing(rv.take(0)) =~= Seq::<char>::empty());
    while i < reports.len()
        invariant
            i <= reports.len(),
            rv == crate::ir::seq_view(reports@),
            rv.len() == reports@.len(),
            out@ == head + rspec_listing(rv.take(i as int)),
        decreases reports.len() - i,
    {
        let r = &reports[i];
        assert(rv[i as int] == r@);
        assert(rv.take(i + 1).drop_last() =~= rv.take(i as int));
        assert(rv.take(i + 1).last() == r@);
        let ghost before = out@;
        push_rspec_report(&mut out, r);
        assert(out@ =~= head + rspec_listing(rv.take(i + 1)));
        i = i + 1;
    }
    assert(rv.take(reports.len() as int) =~= rv);
    push_str(&mut out, "\n");
    append(&mut out, &u64_chars(t.runs));
    push_str(&mut out, " examples, ");
    append(&mut out, &u64_chars(t.failed));
    push_str(&mut out, " failures, ");
    append(&mut out, &u64_chars(t.errored));
    push_str(&mut out, " errors\n");
    assert(out@ =~= rspec_summary_text(rv, t.runs as nat, t.failed as nat, t.errored as nat));
    string_of(&out)
}

/// How many tests the TAP stream numbers: those of suites that parsed.
pub open spec fn numbered(reports: Seq<ReportModel>) -> nat
    decreases reports.len(),
{
    if reports.len() == 0 {
        0
    } else {
        numbered(reports.drop_last()) + if reports.last().parse_error is Some {
            0
        } else {
            reports.last().runs.len()
        }
    }
}

/// A message's lines, each indented by two spaces.
pub open spec fn msg_block(lines: Seq<Seq<char>>) -> Seq<char>
    decreases lines.len(),
{
    if lines.len() == 0 {
        Seq::empty()
    } else {
        msg_block(lines.drop_last()) + "  "@ + lines.last() + "\n"@
    }
}

/// Test number `n` as a TAP line, its message as a YAML-ish block.
pub open spec fn tap_run(r: RunModel, n: nat) -> Seq<char> {
    (if r.status == TestStatus::Pass {
        "ok"@
    } else {
        "not ok"@
    }) + " "@ + dec_str(n) + " - "@ + r.description + "\n"@ + match r.message {
        Some(m) => "  ---\n"@ + msg_block(source_lines(m)) + "  ---\n"@,
        None => Seq::empty(),
    }
}

pub open spec fn tap_runs(runs: Seq<RunModel>, before: nat) -> Seq<char>
    decreases runs.len(),
{
    if runs.len() == 0 {
        Seq::empty()
    } else {
        tap_runs(runs.drop_last(), before) + tap_run(runs.last(), before + runs.len())
    }
}

pub open spec fn tap_body(reports: Seq<ReportModel>) -> Seq<char>
    decreases reports.len(),
{
    if reports.len() == 0 {
        Seq::empty()
    } else {
        let r = reports.last();
        tap_body(reports.drop_last()) + tap_report(r, numbered(reports.drop_last()))
    }
}

/// The TAP format's whole text: the plan, one line per test numbered
/// across suites (a suite that did not parse gives a comment), and the
/// closing counts.
pub open spec fn tap_text_of(reports: Seq<ReportModel>, runs: nat, passed: nat, failed: nat, errored: nat) -> Seq<char> {
    "TAP version 13\n"@ + "1.."@ + dec_str(runs) + "\n"@ + tap_body(reports) + "# "@ + dec_str(passed)
        + " passed, "@ + dec_str(failed) + " failed, "@ + dec_str(errored) + " errored\n"@
}

proof fn lemma_numbered_le(reports: Seq<ReportModel>)
    ensures
        numbered(reports) <= total_runs(reports),
    decreases reports.len(),
{
    if reports.len() > 0 {
        lemma_numbered_le(reports.drop_last());
    }
}

fn push_msg_block(out: &mut Vec<char>, m: &String)
    ensures
        final(out)@ == old(out)@ + msg_block(source_lines(m@)),
{
    let lines = source_lines_exec(&chars_of(m.as_str()));
    let ghost lv = views(lines@);
    let ghost start = out@;
    let mut k: usize = 0;
    assert(msg_block(lv.take(0)) =~= Seq::<char>::empty());
    while k < lines.len()
        invariant
            k <= lines.len(),
            lv == views(lines@),
            lv == source_lines(m@),
            out@ == start + msg_block(lv.take(k as int)),
        decreases lines.len() - k,
    {
        assert(lv[k as int] == lines@[k as int]@);
        assert(lv.take(k + 1).drop_last() =~= lv.take(k as int));
        push_str(out, "  ");
        append(out, &lines[k]);
        push_str(out, "\n");
        k = k + 1;
    }
    assert(lv.take(lines.len() as int) =~= lv);
}

fn push_tap_run(out: &mut Vec<char>, x: &TestRun, n: u64)
    ensures
        final(out)@ == old(out)@ + tap_run(x@, n as nat),
{
    if x.status == TestStatus::Pass {
        push_str(out, "ok");
    } else {
        push_str(out, "not ok");
    }
    push_str(out, " ");
    append(out, &u64_chars(n));
    push_str(out, " - ");
    push_text(out, &x.description);
    push_str(out, "\n");
    match &x.message {
        Some(m) => {
            push_str(out, "  ---\n");
            push_msg_block(out, m);
            push_str(out, "  ---\n");
        },
        None => {},
    }
    assert(out@ =~= old(out)@ + tap_run(x@, n as nat));
}

/// One suite's part of the TAP stream, its tests numbered after `before`.
pub open spec fn tap_report(r: ReportModel, before: nat) -> Seq<char> {
    match r.parse_error {
        Some(e) => "# parse error in "@ + r.suite_path + ": "@ + e + "\n"@,
        None => tap_runs(r.runs, before),
    }
}

fn push_tap_report(out: &mut Vec<char>, r: &SuiteReport, before: u64)
    requires
        before + r.runs.len() <= u64::MAX,
    ensures
        final(out)@ == old(out)@ + tap_report(r@, before as nat),
{
    match &r.parse_error {
        Some(e) => {
            push_str(out, "# parse error in ");
            push_text(out, &r.suite_path);
            push_str(out, ": ");
            push_text(out, e);
            push_str(out, "\n");
        },
        None => {
            let ghost mid = out@;
            let ghost rr = r@.runs;
            let mut n = before;
            let mut k: usize = 0;
            assert(tap_runs(rr.take(0), before as nat) =~= Seq::<char>::empty());
            while k < r.runs.len()
                invariant
                    k <= r.runs.len(),
                    rr == r@.runs,
                    rr.len() == r.runs@.len(),
                    before + rr.len() <= u64::MAX,
                    n == before + k,
                    out@ == mid + tap_runs(rr.take(k as int), before as nat),
                decreases r.runs.len() - k,
            {
                let x = &r.runs[k];
                assert(rr[k as int] == x@);
                assert(rr.take(k + 1).drop_last() =~= rr.take(k as int));
                assert(rr.take(k + 1).last() == x@);
                n = n + 1;
                push_tap_run(out, x, n);
                k = k + 1;
            }
            assert(rr.take(r.runs.len() as int) =~= rr);
        },
    }
}

/// The TAP format's text.
pub fn tap_text(reports: &Vec<SuiteReport>, t: &Tally) -> (s: String)
    requires
        total_runs(crate::ir::seq_view(reports@)) <= u64::MAX,
    ensures
        s@ == tap_text_of(
            crate::ir::seq_view(reports@),
            t.runs as nat,
            t.passed as nat,
            t.failed as nat,
            t.errored as nat,
        ),
{
    let ghost rv = crate::ir::seq_view(reports@);
    let mut out: Vec<char> = Vec::new();
    push_str(&mut out, "TAP version 13\n1..");
    append(&mut out, &u64_chars(t.runs));
    push_str(&mut out, "\n");
    proof {
        reveal_strlit("TAP version 13\n1..");
        reveal_strlit("TAP version 13\n");
        reveal_strlit("1..");
        assert("TAP version 13\n1.."@ =~= "TAP version 13\n"@ + "1.."@);
    }
    let ghost head = out@;
    let mut n: u64 = 0;
    let mut i: usize = 0;
    assert(tap_body(rv.take(0)) =~= Seq::<char>::empty());
    while i < reports.len()
        invariant
            i <= reports.len(),
            rv == crate::ir::seq_view(reports@),
            rv.len() == reports@.len(),
            total_runs(rv) <= u64::MAX,
            n == numbered(rv.take(i as int)),
            out@ == head + tap_body(rv.take(i as int)),
        decreases reports.len() - i,
    {
        let r = &reports[i];
        assert(rv[i as int] == r@);
        assert(rv.take(i + 1).drop_last() =~= rv.take(i as int));
        assert(rv.take(i + 1).last() == r@);
        proof {
            lemma_counts_le(rv, i + 1);
            lemma_numbered_le(rv.take(i as int));
            assert(total_runs(rv.take(i + 1)) == total_runs(rv.take(i as int)) + r@.runs.len());
        }
        let ghost before = n as nat;
        push_tap_report(&mut out, r, n);
        if r.parse_error.is_none() {
            n = n + r.runs.len() as u64;
        }
        assert(out@ =~= head + tap_body(rv.take(i + 1)));
        i = i + 1;
    }
    assert(rv.take(reports.len() as int) =~= rv);
    push_str(&mut out, "# ");
    append(&mut out, &u64_chars(t.passed));
    push_str(&mut out, " passed, ");
    append(&mut out, &u64_chars(t.failed));
    push_str(&mut out, " failed, ");
    append(&mut out, &u64_chars(t.errored));
    push_str(&mut out, " errored\n");
    assert(out@ =~= tap_text_of(rv, t.runs as nat, t.passed as nat, t.failed as nat, t.errored as nat));
    string_of(&out)
}

// ---------------------------------------------------------------------
// The JSON report
// ---------------------------------------------------------------------

pub open spec fn num_json(n: nat) -> JsonView {
    JsonView::Number(dec_str(n), Some(n as u64))
}

pub open spec fn opt_str_json(o: Option<Seq<char>>) -> JsonView {
    match o {
        Some(s) => JsonView::Str(s),
        None => JsonView::Null,
    }
}

pub open spec fn status_name(s: TestStatus) -> Seq<char> {
    match s {
        TestStatus::Pass => "pass"@,
        TestStatus::Fail => "fail"@,
        TestStatus::Error => "error"@,
    }
}

pub open spec fn run_json(r: RunModel) -> JsonView {
    JsonView::Object(
        seq![
            ("description"@, JsonView::Str(r.description)),
            ("message"@, opt_str_json(r.message)),
            ("status"@, JsonView::Str(status_name(r.status))),
        ],
    )
}

pub open spec fn file_json(r: ReportModel) -> JsonView {
    JsonView::Object(
        seq![
            ("fixtures"@, opt_str_json(r.fixtures_path)),
            ("parse_error"@, opt_str_json(r.parse_error)),
            ("runs"@, JsonView::Array(r.runs.map_values(|x: RunModel| run_json(x)))),
            ("skipped_by_filter"@, num_json(r.skipped_by_filter)),
            ("source"@, JsonView::Str(r.source_path)),
            ("suite"@, JsonView::Str(r.suite_path)),
        ],
    )
}

/// The JSON format's document: every suite with its runs, and the
/// summary counts.
pub open spec fn report_json_of(reports: Seq<ReportModel>, files: nat, runs: nat, passed: nat, failed: nat, errored: nat, filtered: nat) -> JsonView {
    JsonView::Object(
        seq![
            ("files"@, JsonView::Array(reports.map_values(|r: ReportModel| file_json(r)))),
            (
                "summary"@,
                JsonView::Object(
                    seq![
                        ("errored"@, num_json(errored)),
                        ("failed"@, num_json(failed)),
                        ("files"@, num_json(files)),
                        ("filtered"@, num_json(filtered)),
                        ("passed"@, num_json(passed)),
                        ("total"@, num_json(runs)),
                    ],
                ),
            ),
        ],
    )
}

fn num_exec(n: u64) -> (j: Json)
    ensures
        json_view(j) == num_json(n as nat),
{
    Json::Number(string_of(&u64_chars(n)), Some(n))
}

fn opt_str_exec(o: &Option<String>) -> (j: Json)
    ensures
        json_view(j) == opt_str_json(text_opt(*o)),
{
    match o {
        Some(s) => Json::Str(string_of(&chars_of(s.as_str()))),
        None => Json::Null,
    }
}

fn run_json_exec(r: &TestRun) -> (j: Json)
    ensures
        json_view(j) == run_json(r@),
{
    let name = match r.status {
        TestStatus::Pass => "pass",
        TestStatus::Fail => "fail",
        TestStatus::Error => "error",
    };
    let mut e: Vec<(String, Json)> = Vec::new();
    e.push(("description".to_owned(), Json::Str(string_of(&chars_of(r.description.as_str())))));
    e.push(("message".to_owned(), opt_str_exec(&r.message)));
    e.push(("status".to_owned(), Json::Str(name.to_owned())));
    proof {
        lemma_entries_view(e@);
        assert(entries_view(e@) =~= seq![
            ("description"@, JsonView::Str(r@.description)),
            ("message"@, opt_str_json(r@.message)),
            ("status"@, JsonView::Str(status_name(r@.status))),
        ]);
    }
    Json::Object(e)
}

fn file_json_exec(r: &SuiteReport) -> (j: Json)
    ensures
        json_view(j) == file_json(r@),
{
    let ghost rr = r@.runs;
    let mut runs: Vec<Json> = Vec::new();
    let mut k: usize = 0;
    proof {
        lemma_items_view(runs@);
    }
    while k < r.runs.len()
        invariant
            k <= r.runs.len(),
            rr == r@.runs,
            rr.len() == r.runs@.len(),
            items_view(runs@) == rr.take(k as int).map_values(|x: RunModel| run_json(x)),
        decreases r.runs.len() - k,
    {
        assert(rr[k as int] == r.runs@[k as int]@);
        let x = run_json_exec(&r.runs[k]);
        proof {
            lemma_items_view_push(runs@, x);
        }
        runs.push(x);
        assert(items_view(runs@) =~= rr.take(k + 1).map_values(|x: RunModel| run_json(x)));
        k = k + 1;
    }
    assert(rr.take(r.runs.len() as int) =~= rr);
    let ghost rv = items_view(runs@);
    let mut e: Vec<(String, Json)> = Vec::new();
    e.push(("fixtures".to_owned(), opt_str_exec(&r.fixtures_path)));
    e.push(("parse_error".to_owned(), opt_str_exec(&r.parse_error)));
    e.push(("runs".to_owned(), Json::Array(runs)));
    e.push(("skipped_by_filter".to_owned(), num_exec(r.skipped_by_filter)));
    e.push(("source".to_owned(), Json::Str(string_of(&chars_of(r.source_path.as_str())))));
    e.push(("suite".to_owned(), Json::Str(string_of(&chars_of(r.suite_path.as_str())))));
    proof {
        lemma_entries_view(e@);
        assert(entries_view(e@) =~= seq![
            ("fixtures"@, opt_str_json(r@.fixtures_path)),
            ("parse_error"@, opt_str_json(r@.parse_error)),
            ("runs"@, JsonView::Array(rv)),
            ("skipped_by_filter"@, num_json(r@.skipped_by_filter)),
            ("source"@, JsonView::Str(r@.source_path)),
            ("suite"@, JsonView::Str(r@.suite_path)),
        ]);
    }
    Json::Object(e)
}

/// The JSON format's document.
pub fn json_report(reports: &Vec<SuiteReport>, t: &Tally) -> (j: Json)
    ensures
        json_view(j) == report_json_of(
            crate::ir::seq_view(reports@),
            t.files as nat,
            t.runs as nat,
            t.passed as nat,
            t.failed as nat,
            t.errored as nat,
            t.filtered as nat,
        ),
{
    let ghost rv = crate::ir::seq_view(reports@);
    let mut files: Vec<Json> = Vec::new();
    let mut i: usize = 0;
    proof {
        lemma_items_view(files@);
    }
    while i < reports.len()
        invariant
            i <= reports.len(),
            rv == crate::ir::seq_view(reports@),
            rv.len() == reports@.len(),
            items_view(files@) == rv.take(i as int).map_values(|r: ReportModel| file_json(r)),
        decreases reports.len() - i,
    {
        assert(rv[i as int] == reports@[i as int]@);
        let x = file_json_exec(&reports[i]);
        proof {
            lemma_items_view_push(files@, x);
        }
        files.push(x);
        assert(items_view(files@) =~= rv.take(i + 1).map_values(|r: ReportModel| file_json(r)));
        i = i + 1;
    }
    assert(rv.take(reports.len() as int) =~= rv);
    let ghost fv = items_view(files@);
    let mut sm: Vec<(String, Json)> = Vec::new();
    sm.push(("errored".to_owned(), num_exec(t.errored)));
    sm.push(("failed".to_owned(), num_exec(t.failed)));
    sm.push(("files".to_owned(), num_exec(t.files)));
    sm.push(("filtered".to_owned(), num_exec(t.filtered)));
    sm.push(("passed".to_owned(), num_exec(t.passed)));
    sm.push(("total".to_owned(), num_exec(t.runs)));
    let ghost sv = entries_view(sm@);
    proof {
        lemma_entries_view(sm@);
    }
    let mut e: Vec<(String, Json)> = Vec::new();
    e.push(("files".to_owned(), Json::Array(files)));
    e.push(("summary".to_owned(), Json::Object(sm)));
    proof {
        lemma_entries_view(e@);
        assert(sv =~= seq![
            ("errored"@, num_json(t.errored as nat)),
            ("failed"@, num_json(t.failed as nat)),
            ("files"@, num_json(t.files as nat)),
            ("filtered"@, num_json(t.filtered as nat)),
            ("passed"@, num_json(t.passed as nat)),
            ("total"@, num_json(t.runs as nat)),
        ]);
        assert(entries_view(e@) =~= seq![
            ("files"@, JsonView::Array(fv)),
            ("summary"@, JsonView::Object(sv)),
        ]);
    }
    Json::Object(e)
}

// ---------------------------------------------------------------------
// The bluebook a suite tests
// ---------------------------------------------------------------------

/// What `Path::file_stem` gives for a path: its file name without the
/// last extension, if it has a file name.
pub uninterp spec fn path_stem(p: Seq<char>) -> Option<Seq<char>>;

/// What `Path::parent` gives for a path, if it has one.
pub uninterp spec fn path_parent(p: Seq<char>) -> Option<Seq<char>>;

/// What `Path::join` gives for a directory and a file name.
pub uninterp spec fn path_join(dir: Seq<char>, name: Seq<char>) -> Seq<char>;

/// Calls std's `Path::file_stem` (and `OsStr::to_str`); the stem is named
/// by `path_stem`, a function of the path text alone.
#[verifier::external_body]
fn file_stem(p: &str) -> (r: Option<String>)
    ensures
        match r {
            Some(s) => path_stem(p@) == Some(s@),
            None => path_stem(p@) is None,
        },
{
    std::path::Path::new(p).file_stem().and_then(|s| s.to_str()).map(|s| s.to_string())
}

/// Calls std's `Path::parent`; the parent is named by `path_parent`.
#[verifier::external_body]
fn parent_dir(p: &str) -> (r: Option<String>)
    ensures
        match r {
            Some(s) => path_parent(p@) == Some(s@),
            None => path_parent(p@) is None,
        },
{
    std::path::Path::new(p).parent().map(|d| d.to_string_lossy().into_owned())
}

/// Calls std's `Path::join`; the joined path is named by `path_join`.
#[verifier::external_body]
fn join_path(dir: &str, name: &str) -> (r: String)
    ensures
        r@ == path_join(dir@, name@),
{
    std::path::Path::new(dir).join(name).to_string_lossy().into_owned()
}

/// The bluebook a behaviours suite tests: `foo.behaviors` and the older
/// `foo_behavioral_tests.bluebook` both name `foo.bluebook` beside them
/// (in `.` when the path has no parent).
pub open spec fn source_of_suite(suite: Seq<char>) -> Seq<char> {
    let stem = match path_stem(suite) {
        Some(s) => s,
        None => Seq::empty(),
    };
    let dir = match path_parent(suite) {
        Some(d) => d,
        None => "."@,
    };
    path_join(dir, strip_suffix_rep(stem, "_behavioral_tests"@) + ".bluebook"@)
}

/// The bluebook a behaviours suite tests.
pub fn source_for_suite(suite_path: &str) -> (r: String)
    ensures
        r@ == source_of_suite(suite_path@),
{
    let stem = match file_stem(suite_path) {
        Some(s) => chars_of(s.as_str()),
        None => Vec::new(),
    };
    let mut name = strip_suffix_rep_exec(&stem, "_behavioral_tests");
    append(&mut name, &chars_of(".bluebook"));
    let dir = match parent_dir(suite_path) {
        Some(d) => d,
        None => ".".to_owned(),
    };
    join_path(dir.as_str(), string_of(&name).as_str())
}

} // verus!
