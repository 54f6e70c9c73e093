//! What a backend can do, and whether it is well.

use crate::backend::MarkdownBackend;
use crate::error::failed_message;
use crate::paths::{join, join_path};
use crate::subject::{opt_text, SubjectStatus};
use crate::text::joined;
use crate::writer::{after_steps, steps_view, Disk, FileStep, StepView};
use vstd::prelude::*;

verus! {

/// What a backend can do.
#[derive(Debug)]
pub struct SubjectSchema {
    /// The kinds of subjects it has.
    pub kinds: Vec<String>,
    /// The statuses that its subjects can have.
    pub status_values: Vec<SubjectStatus>,
    pub supports_watch: bool,
    pub supports_create: bool,
    pub supports_pagination: bool,
    pub native_status_values: Vec<String>,
    pub status_dispatch_hints: Vec<String>,
    pub custom_fields: Vec<String>,
}

/// Whether a backend is well.
#[derive(Debug, Clone, Copy, PartialEq, Eq, Structural)]
pub enum HealthStatus {
    Healthy,
    Unhealthy,
}

/// What a health check found.
#[derive(Debug, PartialEq, Eq)]
pub struct HealthCheckResult {
    pub status: HealthStatus,
    pub uptime_ms: Option<u64>,
    pub memory_usage_bytes: Option<u64>,
    /// What is wrong, where something is.
    pub last_error: Option<String>,
}

/// What trying out the root directory gave.
#[derive(Debug, PartialEq, Eq)]
pub enum RootProbe {
    /// It is missing and could not be created, and why.
    CannotCreate(String),
    /// It is there and the probe file could not be written, and why.
    CannotWrite(String),
    /// The probe file was written.
    Writable,
}

/// The path of the file by which a root directory is tried out.
pub open spec fn probe_file(root: Seq<char>) -> Seq<char> {
    join_path(root, ".animus-write-probe"@)
}

/// How a root directory is tried out: it is made where it is missing, a small
/// file is written into it, and that file is removed.
pub open spec fn probe_plan(root: Seq<char>, root_exists: bool) -> Seq<StepView> {
    let last = seq![
        StepView::Write(probe_file(root), "ok"@),
        StepView::Remove(probe_file(root)),
    ];
    if root_exists {
        last
    } else {
        seq![StepView::CreateDirs(root)] + last
    }
}

/// What trying out a directory gave, given the first step that failed and why.
/// A probe file that could not be removed is no fault.
pub open spec fn probe_of(steps: Seq<StepView>, failed: Option<(usize, String)>) -> RootProbe {
    match failed {
        Some((at, why)) if at < steps.len() => match steps[at as int] {
            StepView::CreateDirs(_) => RootProbe::CannotCreate(why),
            StepView::Write(_, _) => RootProbe::CannotWrite(why),
            _ => RootProbe::Writable,
        },
        _ => RootProbe::Writable,
    }
}

/// What trying out a directory gave, given the steps that were to be taken, and
/// the first of them that failed and why.
pub fn probe_outcome(steps: &Vec<FileStep>, failed: Option<(usize, String)>) -> (probe: RootProbe)
    ensures
        probe == probe_of(steps_view(steps@), failed),
{
    match failed {
        Some((at, why)) => {
            if at < steps.len() {
                assert(steps_view(steps@)[at as int] == steps[at as int]@);
                match &steps[at] {
                    FileStep::CreateDirs(_) => RootProbe::CannotCreate(why),
                    FileStep::Write(_, _) => RootProbe::CannotWrite(why),
                    _ => RootProbe::Writable,
                }
            } else {
                RootProbe::Writable
            }
        },
        None => RootProbe::Writable,
    }
}

/// Trying out a directory leaves nothing behind.
pub proof fn law_probe_leaves_nothing(disk: Disk, root: Seq<char>, root_exists: bool)
    ensures
        after_steps(disk, probe_plan(root, root_exists)) == disk.remove(probe_file(root)),
{
    let steps = probe_plan(root, root_exists);
    reveal_with_fuel(after_steps, 4);
    assert(steps.drop_last().last() == StepView::Write(probe_file(root), "ok"@));
    if root_exists {
        assert(steps.drop_last().drop_last() =~= seq![]);
    } else {
        assert(steps.drop_last().drop_last() =~= seq![StepView::CreateDirs(root)]);
        assert(steps.drop_last().drop_last().drop_last() =~= seq![]);
    }
    assert(after_steps(disk, steps) =~= disk.remove(probe_file(root)));
}

/// What is wrong with the root, given what trying it out gave.
pub open spec fn root_fault(root: Seq<char>, probe: RootProbe) -> Option<Seq<char>> {
    match probe {
        RootProbe::CannotCreate(why) => Some("cannot create root "@ + root + ": "@ + why@),
        RootProbe::CannotWrite(why) => Some("root "@ + root + " not writable: "@ + why@),
        RootProbe::Writable => None,
    }
}

impl MarkdownBackend {
    /// What this backend can do.
    pub fn schema(&self) -> (schema: SubjectSchema)
        ensures
            schema.kinds.deep_view() == self@.config.kinds,
            schema.status_values@ == seq![
                SubjectStatus::Ready,
                SubjectStatus::InProgress,
                SubjectStatus::Blocked,
                SubjectStatus::Done,
                SubjectStatus::Cancelled,
            ],
            schema.supports_watch,
            schema.supports_create,
            !schema.supports_pagination,
            schema.native_status_values.len() == 0,
            schema.status_dispatch_hints.len() == 0,
            schema.custom_fields.len() == 0,
    {
        let kinds = self.config().clone().kinds;
        let mut status_values: Vec<SubjectStatus> = Vec::new();
        status_values.push(SubjectStatus::Ready);
        status_values.push(SubjectStatus::InProgress);
        status_values.push(SubjectStatus::Blocked);
        status_values.push(SubjectStatus::Done);
        status_values.push(SubjectStatus::Cancelled);
        SubjectSchema {
            kinds,
            status_values,
            supports_watch: true,
            supports_create: true,
            supports_pagination: false,
            native_status_values: Vec::new(),
            status_dispatch_hints: Vec::new(),
            custom_fields: Vec::new(),
        }
    }

    /// The steps by which the root directory is tried out. Each is to be taken
    /// only once the one before it has succeeded.
    pub fn probe_steps(&self, root_exists: bool) -> (steps: Vec<FileStep>)
        ensures
            steps_view(steps@) == probe_plan(self@.config.root, root_exists),
    {
        let root = self.config().root.clone();
        let file = join(root.as_str(), ".animus-write-probe");
        let mut steps: Vec<FileStep> = Vec::new();
        if !root_exists {
            steps.push(FileStep::CreateDirs(root));
        }
        steps.push(FileStep::Write(file.clone(), "ok".to_owned()));
        steps.push(FileStep::Remove(file));
        assert(steps_view(steps@) =~= probe_plan(self@.config.root, root_exists));
        steps
    }

    /// What a health check found, given what trying out the root directory
    /// gave.
    pub fn health(&self, probe: &RootProbe) -> (health: HealthCheckResult)
        ensures
            health.status == (if root_fault(self@.config.root, *probe) is None {
                HealthStatus::Healthy
            } else {
                HealthStatus::Unhealthy
            }),
            opt_text(health.last_error) == root_fault(self@.config.root, *probe),
            health.uptime_ms is None,
            health.memory_usage_bytes is None,
    {
        let (status, last_error) = match probe {
            RootProbe::CannotCreate(why) => {
                (
                    HealthStatus::Unhealthy,
                    Some(
                        failed_message(
                            "cannot create root ",
                            self.config().root.as_str(),
                            why.as_str(),
                        ),
                    ),
                )
            },
            RootProbe::CannotWrite(why) => {
                let mut message = joined("root ", self.config().root.as_str());
                message.append(" not writable: ");
                message.append(why.as_str());
                (HealthStatus::Unhealthy, Some(message))
            },
            RootProbe::Writable => (HealthStatus::Healthy, None),
        };
        HealthCheckResult { status, uptime_ms: None, memory_usage_bytes: None, last_error }
    }
}

} // verus!
