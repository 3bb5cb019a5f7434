//! Acceptance-criteria verification reporting: aggregating step and item
//! outcomes into per-issue reports, summary counts and an exit code.
//!
//! Parsing the criteria out of YAML and executing command steps are the
//! caller's business; this module owns every decision that follows from
//! the outcomes: a step's result record, an item's status (any failed
//! step fails it; otherwise any manual step leaves it manual), an
//! issue's status, the summary counts and the rendered text report.

use vstd::prelude::*;

use crate::error::BeadsError;
use crate::text::{
    i64_to_decimal, is_prefix_of, spec_decimal, spec_decimal_signed, str_starts_with,
    u64_to_decimal,
};

verus! {

/// Outcome of one verification step or item.
#[derive(Clone, Copy, PartialEq, Eq, Structural, Debug)]
pub enum StepStatus {
    Passed,
    Failed,
    Manual,
}

/// What kind of verification a step asks for.
#[derive(Clone, Copy, PartialEq, Eq, Structural, Debug)]
pub enum StepKind {
    Command,
    File,
    Manual,
}

/// Status of one issue's whole verification.
#[derive(Clone, Copy, PartialEq, Eq, Structural, Debug)]
pub enum ReportStatus {
    Passed,
    Failed,
    Manual,
    Missing,
    Error,
}

/// One verification step of an acceptance item.
pub enum VerifyStep {
    Command { run: String },
    File { path: String },
    Manual { note: String },
}

/// One acceptance item: a requirement with optional verification steps.
pub struct AcceptanceItem {
    pub id: String,
    pub text: String,
    pub verify: Option<Vec<VerifyStep>>,
}

/// Structured acceptance criteria of one issue.
pub struct AcceptanceCriteria {
    pub schema: u32,
    pub items: Vec<AcceptanceItem>,
}

/// The outcome record of one executed step.
pub struct StepResult {
    pub kind: StepKind,
    pub status: StepStatus,
    pub run: Option<String>,
    pub path: Option<String>,
    pub note: Option<String>,
    pub exit_code: Option<i32>,
    pub error: Option<String>,
}

/// The outcome of one acceptance item.
pub struct ItemResult {
    pub id: String,
    pub text: String,
    pub status: StepStatus,
    pub steps: Vec<StepResult>,
    pub error: Option<String>,
}

/// The outcome of one issue's verification.
pub struct IssueVerifyReport {
    pub id: String,
    pub title: String,
    pub status: ReportStatus,
    pub items: Vec<ItemResult>,
    pub error: Option<String>,
}

/// The whole verification run's counts and per-issue reports.
pub struct VerifyReport {
    pub total: usize,
    pub passed: usize,
    pub failed: usize,
    pub manual: usize,
    pub issues: Vec<IssueVerifyReport>,
}

/// Running counts of issue outcomes.
pub struct VerifySummary {
    pub total: usize,
    pub passed: usize,
    pub failed: usize,
    pub manual: usize,
}

impl VerifySummary {
    /// An empty summary.
    pub fn new() -> (r: VerifySummary)
        ensures
            r.total == 0 && r.passed == 0 && r.failed == 0 && r.manual == 0,
    {
        VerifySummary { total: 0, passed: 0, failed: 0, manual: 0 }
    }

    /// The process exit code the run deserves: failure on any failed
    /// issue, and on any manual issue unless manual outcomes are
    /// allowed.
    pub fn exit_code(&self, allow_manual: bool) -> (r: i32)
        ensures
            r == (if self.failed > 0 || (!allow_manual && self.manual > 0) {
                1int
            } else {
                0int
            }),
    {
        if self.failed > 0 {
            return 1;
        }
        if !allow_manual && self.manual > 0 {
            return 1;
        }
        0
    }

    /// Counts one issue outcome: `Missing` and `Error` count as failed.
    pub fn record(&mut self, status: ReportStatus)
        requires
            old(self).total < usize::MAX,
            old(self).passed < usize::MAX,
            old(self).failed < usize::MAX,
            old(self).manual < usize::MAX,
        ensures
            final(self).total == old(self).total + 1,
            final(self).passed == old(self).passed + (if status is Passed {
                1int
            } else {
                0int
            }),
            final(self).failed == old(self).failed + (
            if status is Failed || status is Missing || status is Error {
                1int
            } else {
                0int
            }),
            final(self).manual == old(self).manual + (if status is Manual {
                1int
            } else {
                0int
            }),
    {
        self.total = self.total + 1;
        match status {
            ReportStatus::Passed => {
                self.passed = self.passed + 1;
            },
            ReportStatus::Manual => {
                self.manual = self.manual + 1;
            },
            ReportStatus::Failed | ReportStatus::Missing | ReportStatus::Error => {
                self.failed = self.failed + 1;
            },
        }
    }
}

/// Accepts the criteria iff they carry the one supported schema.
pub fn validate_acceptance_schema(parsed: AcceptanceCriteria) -> (r: Result<
    AcceptanceCriteria,
    BeadsError,
>)
    ensures
        parsed.schema == 1 ==> (r matches Ok(a) && a == parsed),
        parsed.schema != 1 ==> (r matches Err(e) && e is Validation),
{
    if parsed.schema != 1 {
        return Err(BeadsError::validation("acceptance_criteria.schema", "schema must be 1"));
    }
    Ok(parsed)
}

/// The path a file step names: absolute paths stand as given, relative
/// ones are joined onto the repository root with a slash.
pub open spec fn spec_resolve_path(path: Seq<char>, root: Seq<char>) -> Seq<char> {
    if is_prefix_of("/"@, path) {
        path
    } else {
        root + "/"@ + path
    }
}

/// Resolves a step path against the repository root.
pub fn resolve_path(path: &str, root: &str) -> (r: String)
    ensures
        r@ == spec_resolve_path(path@, root@),
{
    if str_starts_with(path, "/") {
        path.to_owned()
    } else {
        let mut out = root.to_owned();
        out.append("/");
        out.append(path);
        out
    }
}

/// Records a file step's outcome from whether the resolved path exists.
pub fn run_file_step(path: &str, root: &str, exists: bool) -> (r: StepResult)
    ensures
        r.kind is File,
        r.status == (if exists {
            StepStatus::Passed
        } else {
            StepStatus::Failed
        }),
        r.run is None && r.note is None && r.exit_code is None,
        (r.path matches Some(p) && p@ == spec_resolve_path(path@, root@)),
        exists ==> r.error is None,
        !exists ==> (r.error matches Some(m) && m@ == "file not found"@),
{
    StepResult {
        kind: StepKind::File,
        status: if exists {
            StepStatus::Passed
        } else {
            StepStatus::Failed
        },
        run: None,
        path: Some(resolve_path(path, root)),
        note: None,
        exit_code: None,
        error: if exists {
            None
        } else {
            Some("file not found".to_owned())
        },
    }
}

/// The failure message for a command that exited with the given code.
pub open spec fn spec_exit_message(code: int) -> Seq<char> {
    "command exited with code "@ + spec_decimal_signed(code)
}

/// Records a command step's outcome.  `outcome` is what running the
/// command yielded: `Ok((success, code))` when it ran, `Err(message)`
/// when it could not be started.
pub fn command_step_result(run: &str, outcome: Result<(bool, Option<i32>), String>) -> (r:
    StepResult)
    ensures
        r.kind is Command,
        (r.run matches Some(c) && c@ == run@),
        r.path is None && r.note is None,
        outcome matches Ok(o) ==> r.status == (if o.0 {
            StepStatus::Passed
        } else {
            StepStatus::Failed
        }) && r.exit_code == Some(
            match o.1 {
                Some(c) => c,
                None => 1i32,
            },
        ) && (o.0 ==> r.error is None) && (!o.0 ==> (r.error matches Some(m) && m@
            == spec_exit_message(
            match o.1 {
                Some(c) => c as int,
                None => 1int,
            },
        ))),
        outcome matches Err(m) ==> r.status is Failed && r.exit_code is None && (
        r.error matches Some(e) && e@ == m@),
{
    match outcome {
        Ok((success, code)) => {
            let exit = match code {
                Some(c) => c,
                None => 1,
            };
            StepResult {
                kind: StepKind::Command,
                status: if success {
                    StepStatus::Passed
                } else {
                    StepStatus::Failed
                },
                run: Some(run.to_owned()),
                path: None,
                note: None,
                exit_code: Some(exit),
                error: if success {
                    None
                } else {
                    let mut m = String::new();
                    m.append("command exited with code ");
                    m.append(i64_to_decimal(exit as i64).as_str());
                    Some(m)
                },
            }
        },
        Err(m) => StepResult {
            kind: StepKind::Command,
            status: StepStatus::Failed,
            run: Some(run.to_owned()),
            path: None,
            note: None,
            exit_code: None,
            error: Some(m),
        },
    }
}

/// Records a manual step: never run, always left for a human.
pub fn manual_step_result(note: String) -> (r: StepResult)
    ensures
        r.kind is Manual,
        r.status is Manual,
        r.run is None && r.path is None && r.exit_code is None && r.error is None,
        (r.note matches Some(n) && n == note),
{
    StepResult {
        kind: StepKind::Manual,
        status: StepStatus::Manual,
        run: None,
        path: None,
        note: Some(note),
        exit_code: None,
        error: None,
    }
}

/// Some step in the sequence has the given status.
pub open spec fn any_step(steps: Seq<StepResult>, st: StepStatus) -> bool {
    exists|i: int| 0 <= i < steps.len() && (#[trigger] steps[i]).status == st
}

/// The status an item earns from its steps: no steps means manual; any
/// failed step fails it; otherwise any manual step leaves it manual.
pub open spec fn spec_item_status(steps: Seq<StepResult>) -> StepStatus {
    if steps.len() == 0 {
        StepStatus::Manual
    } else if any_step(steps, StepStatus::Failed) {
        StepStatus::Failed
    } else if any_step(steps, StepStatus::Manual) {
        StepStatus::Manual
    } else {
        StepStatus::Passed
    }
}

/// Folds one item's executed steps into its result record.
pub fn aggregate_item(id: String, text: String, steps: Vec<StepResult>) -> (r: ItemResult)
    ensures
        r.id == id && r.text == text && r.steps == steps && r.error is None,
        r.status == spec_item_status(steps@),
{
    let mut failed = false;
    let mut manual = false;
    let mut i: usize = 0;
    while i < steps.len()
        invariant
            i <= steps@.len(),
            failed == any_step(steps@.take(i as int), StepStatus::Failed),
            manual == any_step(steps@.take(i as int), StepStatus::Manual),
        decreases steps@.len() - i,
    {
        let ghost pre = steps@.take(i as int);
        match steps[i].status {
            StepStatus::Failed => {
                failed = true;
            },
            StepStatus::Manual => {
                manual = true;
            },
            StepStatus::Passed => {},
        }
        i = i + 1;
        proof {
            let cur = steps@.take(i as int);
            assert(cur[i - 1] == steps@[i - 1]);
            assert forall|st: StepStatus| true implies any_step(cur, st) == (any_step(pre, st) || (
            steps@[i - 1].status == st)) by {
                if any_step(cur, st) {
                    let k = choose|k: int| 0 <= k < cur.len() && cur[k].status == st;
                    if k < i - 1 {
                        assert(pre[k] == cur[k]);
                        assert(any_step(pre, st));
                    }
                }
                if any_step(pre, st) {
                    let k = choose|k: int| 0 <= k < pre.len() && pre[k].status == st;
                    assert(cur[k] == pre[k]);
                }
            }
        }
    }
    proof {
        assert(steps@.take(steps@.len() as int) =~= steps@);
    }
    let status = if steps.len() == 0 {
        StepStatus::Manual
    } else if failed {
        StepStatus::Failed
    } else if manual {
        StepStatus::Manual
    } else {
        StepStatus::Passed
    };
    ItemResult { id, text, status, steps, error: None }
}

/// Some item in the sequence has the given status.
pub open spec fn any_item(items: Seq<ItemResult>, st: StepStatus) -> bool {
    exists|i: int| 0 <= i < items.len() && (#[trigger] items[i]).status == st
}

/// The status an issue earns from its items: any failed item fails it;
/// otherwise any manual item leaves it manual.
pub open spec fn spec_issue_status(items: Seq<ItemResult>) -> ReportStatus {
    if any_item(items, StepStatus::Failed) {
        ReportStatus::Failed
    } else if any_item(items, StepStatus::Manual) {
        ReportStatus::Manual
    } else {
        ReportStatus::Passed
    }
}

/// Folds one issue's item results into its report.
pub fn aggregate_issue(id: String, title: String, items: Vec<ItemResult>) -> (r: IssueVerifyReport)
    ensures
        r.id == id && r.title == title && r.items == items && r.error is None,
        r.status == spec_issue_status(items@),
{
    let mut failed = false;
    let mut manual = false;
    let mut i: usize = 0;
    while i < items.len()
        invariant
            i <= items@.len(),
            failed == any_item(items@.take(i as int), StepStatus::Failed),
            manual == any_item(items@.take(i as int), StepStatus::Manual),
        decreases items@.len() - i,
    {
        let ghost pre = items@.take(i as int);
        match items[i].status {
            StepStatus::Failed => {
                failed = true;
            },
            StepStatus::Manual => {
                manual = true;
            },
            StepStatus::Passed => {},
        }
        i = i + 1;
        proof {
            let cur = items@.take(i as int);
            assert(cur[i - 1] == items@[i - 1]);
            assert forall|st: StepStatus| true implies any_item(cur, st) == (any_item(pre, st) || (
            items@[i - 1].status == st)) by {
                if any_item(cur, st) {
                    let k = choose|k: int| 0 <= k < cur.len() && cur[k].status == st;
                    if k < i - 1 {
                        assert(pre[k] == cur[k]);
                        assert(any_item(pre, st));
                    }
                }
                if any_item(pre, st) {
                    let k = choose|k: int| 0 <= k < pre.len() && pre[k].status == st;
                    assert(cur[k] == pre[k]);
                }
            }
        }
    }
    proof {
        assert(items@.take(items@.len() as int) =~= items@);
    }
    let status = if failed {
        ReportStatus::Failed
    } else if manual {
        ReportStatus::Manual
    } else {
        ReportStatus::Passed
    };
    IssueVerifyReport { id, title, status, items, error: None }
}

/// The word for a step or item status.
pub open spec fn spec_step_status_str(s: StepStatus) -> Seq<char> {
    match s {
        StepStatus::Passed => "passed"@,
        StepStatus::Failed => "failed"@,
        StepStatus::Manual => "manual"@,
    }
}

impl StepStatus {
    /// The word for this status.
    pub fn as_str(&self) -> (r: &'static str)
        ensures
            r@ == spec_step_status_str(*self),
    {
        match self {
            StepStatus::Passed => "passed",
            StepStatus::Failed => "failed",
            StepStatus::Manual => "manual",
        }
    }
}

/// The word for an issue-level status.
pub open spec fn spec_report_status_str(s: ReportStatus) -> Seq<char> {
    match s {
        ReportStatus::Passed => "passed"@,
        ReportStatus::Failed => "failed"@,
        ReportStatus::Manual => "manual"@,
        ReportStatus::Missing => "missing"@,
        ReportStatus::Error => "error"@,
    }
}

impl ReportStatus {
    /// The word for this status.
    pub fn as_str(&self) -> (r: &'static str)
        ensures
            r@ == spec_report_status_str(*self),
    {
        match self {
            ReportStatus::Passed => "passed",
            ReportStatus::Failed => "failed",
            ReportStatus::Manual => "manual",
            ReportStatus::Missing => "missing",
            ReportStatus::Error => "error",
        }
    }
}

/// The word for a step kind.
pub open spec fn spec_step_kind_str(k: StepKind) -> Seq<char> {
    match k {
        StepKind::Command => "command"@,
        StepKind::File => "file"@,
        StepKind::Manual => "manual"@,
    }
}

impl StepKind {
    /// The word for this kind.
    pub fn as_str(&self) -> (r: &'static str)
        ensures
            r@ == spec_step_kind_str(*self),
    {
        match self {
            StepKind::Command => "command",
            StepKind::File => "file",
            StepKind::Manual => "manual",
        }
    }
}

/// One step's report line.
pub open spec fn spec_step_line(st: StepResult) -> Seq<char> {
    let detail = match st.run {
        Some(r) => "run: "@ + r@,
        None => match st.path {
            Some(p) => "path: "@ + p@,
            None => match st.note {
                Some(n) => "note: "@ + n@,
                None => Seq::empty(),
            },
        },
    };
    "    - "@ + spec_step_kind_str(st.kind) + " ["@ + spec_step_status_str(st.status) + "] "@
        + detail + "\n"@
}

/// The report lines of a sequence of steps, in order.
pub open spec fn spec_steps_text(steps: Seq<StepResult>) -> Seq<char>
    decreases steps.len(),
{
    if steps.len() == 0 {
        Seq::empty()
    } else {
        spec_steps_text(steps.drop_last()) + spec_step_line(steps.last())
    }
}

/// One item's report block: its line, its error if any, its steps.
pub open spec fn spec_item_text(item: ItemResult) -> Seq<char> {
    "  "@ + item.id@ + ": "@ + item.text@ + " ["@ + spec_step_status_str(item.status) + "]\n"@ + (
    match item.error {
        Some(e) => "    "@ + e@ + "\n"@,
        None => Seq::empty(),
    }) + spec_steps_text(item.steps@)
}

/// The report blocks of a sequence of items, in order.
pub open spec fn spec_items_text(items: Seq<ItemResult>) -> Seq<char>
    decreases items.len(),
{
    if items.len() == 0 {
        Seq::empty()
    } else {
        spec_items_text(items.drop_last()) + spec_item_text(items.last())
    }
}

/// One issue's report block: its line, its error if any, its items, and
/// a closing blank line.
pub open spec fn spec_issue_text(issue: IssueVerifyReport) -> Seq<char> {
    issue.id@ + " - "@ + issue.title@ + " ["@ + spec_report_status_str(issue.status) + "]\n"@ + (
    match issue.error {
        Some(e) => e@ + "\n"@,
        None => Seq::empty(),
    }) + spec_items_text(issue.items@) + "\n"@
}

/// The report blocks of a sequence of issues, in order.
pub open spec fn spec_issues_text(issues: Seq<IssueVerifyReport>) -> Seq<char>
    decreases issues.len(),
{
    if issues.len() == 0 {
        Seq::empty()
    } else {
        spec_issues_text(issues.drop_last()) + spec_issue_text(issues.last())
    }
}

/// The whole text report: a notice when nothing was verified, otherwise
/// a heading, the counts, and one block per issue.
pub open spec fn spec_report_text(report: VerifyReport) -> Seq<char> {
    if report.issues@.len() == 0 {
        "No issues verified.\n"@
    } else {
        "Acceptance Criteria Verification\n"@ + "Checked: "@ + spec_decimal(report.total as nat)
            + "  Passed: "@ + spec_decimal(report.passed as nat) + "  Manual: "@ + spec_decimal(
            report.manual as nat,
        ) + "  Failed: "@ + spec_decimal(report.failed as nat) + "\n\n"@ + spec_issues_text(
            report.issues@,
        )
    }
}

/// Renders one step's line.
fn render_step(st: &StepResult) -> (r: String)
    ensures
        r@ == spec_step_line(*st),
{
    let mut out = String::new();
    out.append("    - ");
    out.append(st.kind.as_str());
    out.append(" [");
    out.append(st.status.as_str());
    out.append("] ");
    match &st.run {
        Some(c) => {
            out.append("run: ");
            out.append(c.as_str());
        },
        None => {
            match &st.path {
                Some(p) => {
                    out.append("path: ");
                    out.append(p.as_str());
                },
                None => {
                    match &st.note {
                        Some(n) => {
                            out.append("note: ");
                            out.append(n.as_str());
                        },
                        None => {},
                    }
                },
            }
        },
    }
    out.append("\n");
    proof {
        assert(out@ =~= spec_step_line(*st));
    }
    out
}

/// Renders one item's block.
fn render_item(item: &ItemResult) -> (r: String)
    ensures
        r@ == spec_item_text(*item),
{
    let mut out = String::new();
    out.append("  ");
    out.append(item.id.as_str());
    out.append(": ");
    out.append(item.text.as_str());
    out.append(" [");
    out.append(item.status.as_str());
    out.append("]\n");
    match &item.error {
        Some(e) => {
            out.append("    ");
            out.append(e.as_str());
            out.append("\n");
        },
        None => {},
    }
    let ghost head = out@;
    let mut i: usize = 0;
    while i < item.steps.len()
        invariant
            i <= item.steps@.len(),
            out@ == head + spec_steps_text(item.steps@.take(i as int)),
        decreases item.steps@.len() - i,
    {
        out.append(render_step(&item.steps[i]).as_str());
        i = i + 1;
        proof {
            assert(item.steps@.take(i as int).drop_last() =~= item.steps@.take(i - 1));
            assert(item.steps@.take(i as int).last() == item.steps@[i - 1]);
        }
    }
    proof {
        assert(item.steps@.take(item.steps@.len() as int) =~= item.steps@);
        assert(out@ =~= spec_item_text(*item));
    }
    out
}

/// Renders one issue's block.
fn render_issue(issue: &IssueVerifyReport) -> (r: String)
    ensures
        r@ == spec_issue_text(*issue),
{
    let mut out = String::new();
    out.append(issue.id.as_str());
    out.append(" - ");
    out.append(issue.title.as_str());
    out.append(" [");
    out.append(issue.status.as_str());
    out.append("]\n");
    match &issue.error {
        Some(e) => {
            out.append(e.as_str());
            out.append("\n");
        },
        None => {},
    }
    let ghost head = out@;
    let mut i: usize = 0;
    while i < issue.items.len()
        invariant
            i <= issue.items@.len(),
            out@ == head + spec_items_text(issue.items@.take(i as int)),
        decreases issue.items@.len() - i,
    {
        out.append(render_item(&issue.items[i]).as_str());
        i = i + 1;
        proof {
            assert(issue.items@.take(i as int).drop_last() =~= issue.items@.take(i - 1));
            assert(issue.items@.take(i as int).last() == issue.items@[i - 1]);
        }
    }
    out.append("\n");
    proof {
        assert(issue.items@.take(issue.items@.len() as int) =~= issue.items@);
        assert(out@ =~= spec_issue_text(*issue));
    }
    out
}

/// Renders the whole verification report as plain text.
pub fn render_text_report(report: &VerifyReport) -> (r: String)
    ensures
        r@ == spec_report_text(*report),
{
    if report.issues.len() == 0 {
        let r = "No issues verified.\n".to_owned();
        return r;
    }
    let mut out = String::new();
    out.append("Acceptance Criteria Verification\n");
    out.append("Checked: ");
    out.append(u64_to_decimal(report.total as u64).as_str());
    out.append("  Passed: ");
    out.append(u64_to_decimal(report.passed as u64).as_str());
    out.append("  Manual: ");
    out.append(u64_to_decimal(report.manual as u64).as_str());
    out.append("  Failed: ");
    out.append(u64_to_decimal(report.failed as u64).as_str());
    out.append("\n\n");
    let ghost head = out@;
    let mut i: usize = 0;
    while i < report.issues.len()
        invariant
            i <= report.issues@.len(),
            out@ == head + spec_issues_text(report.issues@.take(i as int)),
        decreases report.issues@.len() - i,
    {
        out.append(render_issue(&report.issues[i]).as_str());
        i = i + 1;
        proof {
            assert(report.issues@.take(i as int).drop_last() =~= report.issues@.take(i - 1));
            assert(report.issues@.take(i as int).last() == report.issues@[i - 1]);
        }
    }
    proof {
        assert(report.issues@.take(report.issues@.len() as int) =~= report.issues@);
        assert(out@ =~= spec_report_text(*report));
    }
    out
}

} // verus!
