//! Workflow status codes and the status tree of a workflow and its children.

use std::collections::BTreeMap;

use vstd::prelude::*;

use crate::text::{owned, str_eq};

verus! {

/// The status of one workflow run, as shown in the user interface.
#[derive(Debug, Clone, Copy, PartialEq, Eq, PartialOrd, Ord, Hash)]
pub enum UiWorkflowStatusCode {
    /// No status known.
    Unspecified,
    /// Still running.
    Running,
    /// Finished successfully.
    Completed,
    /// Finished with an error.
    Failed,
    /// Canceled.
    Canceled,
    /// Terminated.
    Terminated,
    /// Continued as a new run.
    ContinuedAsNew,
    /// Timed out.
    TimedOut,
}

/// A workflow status name that no status code has.
#[derive(Debug, Clone, Copy, PartialEq, Eq)]
pub struct InvalidStatusName;

/// The name of a status code.
pub open spec fn status_name(c: UiWorkflowStatusCode) -> Seq<char> {
    match c {
        UiWorkflowStatusCode::Unspecified => "Unspecified"@,
        UiWorkflowStatusCode::Running => "Running"@,
        UiWorkflowStatusCode::Completed => "Completed"@,
        UiWorkflowStatusCode::Failed => "Failed"@,
        UiWorkflowStatusCode::Canceled => "Canceled"@,
        UiWorkflowStatusCode::Terminated => "Terminated"@,
        UiWorkflowStatusCode::ContinuedAsNew => "ContinuedAsNew"@,
        UiWorkflowStatusCode::TimedOut => "TimedOut"@,
    }
}

/// The status code that a name parses to; `Unspecified` has no name that
/// parses.
pub open spec fn status_from_name(s: Seq<char>) -> Option<UiWorkflowStatusCode> {
    if s == "Running"@ {
        Some(UiWorkflowStatusCode::Running)
    } else if s == "Completed"@ {
        Some(UiWorkflowStatusCode::Completed)
    } else if s == "Failed"@ {
        Some(UiWorkflowStatusCode::Failed)
    } else if s == "Canceled"@ {
        Some(UiWorkflowStatusCode::Canceled)
    } else if s == "Terminated"@ {
        Some(UiWorkflowStatusCode::Terminated)
    } else if s == "ContinuedAsNew"@ {
        Some(UiWorkflowStatusCode::ContinuedAsNew)
    } else if s == "TimedOut"@ {
        Some(UiWorkflowStatusCode::TimedOut)
    } else {
        None
    }
}

/// The display text of a status code: its name between double quotes.
pub open spec fn status_display(c: UiWorkflowStatusCode) -> Seq<char> {
    seq!['"'] + status_name(c) + seq!['"']
}

impl UiWorkflowStatusCode {
    /// Parses a status name; `Unspecified` and unknown names are refused.
    pub fn from_name(s: &str) -> (r: Result<UiWorkflowStatusCode, InvalidStatusName>)
        ensures
            match status_from_name(s@) {
                Some(c) => r == Ok::<UiWorkflowStatusCode, InvalidStatusName>(c),
                None => r == Err::<UiWorkflowStatusCode, InvalidStatusName>(InvalidStatusName),
            },
    {
        if str_eq(s, "Running") {
            Ok(UiWorkflowStatusCode::Running)
        } else if str_eq(s, "Completed") {
            Ok(UiWorkflowStatusCode::Completed)
        } else if str_eq(s, "Failed") {
            Ok(UiWorkflowStatusCode::Failed)
        } else if str_eq(s, "Canceled") {
            Ok(UiWorkflowStatusCode::Canceled)
        } else if str_eq(s, "Terminated") {
            Ok(UiWorkflowStatusCode::Terminated)
        } else if str_eq(s, "ContinuedAsNew") {
            Ok(UiWorkflowStatusCode::ContinuedAsNew)
        } else if str_eq(s, "TimedOut") {
            Ok(UiWorkflowStatusCode::TimedOut)
        } else {
            Err(InvalidStatusName)
        }
    }

    /// The name of this status code.
    pub fn name(&self) -> (r: String)
        ensures
            r@ == status_name(*self),
    {
        match self {
            UiWorkflowStatusCode::Unspecified => owned("Unspecified"),
            UiWorkflowStatusCode::Running => owned("Running"),
            UiWorkflowStatusCode::Completed => owned("Completed"),
            UiWorkflowStatusCode::Failed => owned("Failed"),
            UiWorkflowStatusCode::Canceled => owned("Canceled"),
            UiWorkflowStatusCode::Terminated => owned("Terminated"),
            UiWorkflowStatusCode::ContinuedAsNew => owned("ContinuedAsNew"),
            UiWorkflowStatusCode::TimedOut => owned("TimedOut"),
        }
    }

    /// The display text of this status code: its name in double quotes.
    pub fn to_display_string(&self) -> (r: String)
        ensures
            r@ == status_display(*self),
    {
        let mut r = owned("\"");
        let n = self.name();
        r.append(n.as_str());
        r.append("\"");
        proof {
            reveal_strlit("\"");
        }
        r
    }
}

impl std::str::FromStr for UiWorkflowStatusCode {
    type Err = InvalidStatusName;

    fn from_str(s: &str) -> (r: Result<UiWorkflowStatusCode, InvalidStatusName>)
        ensures
            match status_from_name(s@) {
                Some(c) => r == Ok::<UiWorkflowStatusCode, InvalidStatusName>(c),
                None => r == Err::<UiWorkflowStatusCode, InvalidStatusName>(InvalidStatusName),
            },
    {
        UiWorkflowStatusCode::from_name(s)
    }
}

/// Every status code but `Unspecified` parses back from its name, and
/// `Unspecified` does not parse.
pub proof fn lemma_status_name_roundtrip(c: UiWorkflowStatusCode)
    ensures
        c != UiWorkflowStatusCode::Unspecified ==> status_from_name(status_name(c)) == Some(c),
        c == UiWorkflowStatusCode::Unspecified ==> status_from_name(status_name(c)) is None,
{
    reveal_strlit("Unspecified");
    reveal_strlit("Running");
    reveal_strlit("Completed");
    reveal_strlit("Failed");
    reveal_strlit("Canceled");
    reveal_strlit("Terminated");
    reveal_strlit("ContinuedAsNew");
    reveal_strlit("TimedOut");
    assert("Unspecified"@.len() == 11);
    assert("Running"@[0] == 'R');
    assert("Completed"@[0] == 'C' && "Completed"@[1] == 'o');
    assert("Failed"@[0] == 'F');
    assert("Canceled"@[0] == 'C' && "Canceled"@[1] == 'a');
    assert("Terminated"@[0] == 'T' && "Terminated"@[1] == 'e');
    assert("ContinuedAsNew"@[0] == 'C' && "ContinuedAsNew"@[1] == 'o');
    assert("TimedOut"@[0] == 'T' && "TimedOut"@[1] == 'i');
    match c {
        UiWorkflowStatusCode::Completed => {
            assert("Completed"@ != "Running"@);
        },
        UiWorkflowStatusCode::Failed => {
            assert("Failed"@ != "Running"@);
            assert("Failed"@ != "Completed"@);
        },
        UiWorkflowStatusCode::Canceled => {
            assert("Canceled"@ != "Running"@);
            assert("Canceled"@ != "Completed"@);
            assert("Canceled"@ != "Failed"@);
        },
        UiWorkflowStatusCode::Terminated => {
            assert("Terminated"@ != "Running"@);
            assert("Terminated"@ != "Completed"@);
            assert("Terminated"@ != "Failed"@);
            assert("Terminated"@ != "Canceled"@);
        },
        UiWorkflowStatusCode::ContinuedAsNew => {
            assert("ContinuedAsNew"@ != "Running"@);
            assert("ContinuedAsNew"@.len() == 14 && "Completed"@.len() == 9);
            assert("ContinuedAsNew"@ != "Completed"@);
            assert("ContinuedAsNew"@ != "Failed"@);
            assert("ContinuedAsNew"@ != "Canceled"@);
            assert("ContinuedAsNew"@ != "Terminated"@);
        },
        UiWorkflowStatusCode::TimedOut => {
            assert("TimedOut"@ != "Running"@);
            assert("TimedOut"@ != "Completed"@);
            assert("TimedOut"@ != "Failed"@);
            assert("TimedOut"@ != "Canceled"@);
            assert("TimedOut"@ != "Terminated"@);
            assert("TimedOut"@ != "ContinuedAsNew"@);
        },
        _ => {},
    }
}

/// A workflow and its status, for the user interface.
#[derive(Debug, Clone, PartialEq, Eq, PartialOrd, Ord)]
pub struct UiWorkflowStatus {
    /// Workflow id.
    pub workflow_id: String,
    /// Task name.
    pub task_name: String,
    /// Task queue name.
    pub queue_name: String,
    /// Status of the workflow.
    pub task_status: UiWorkflowStatusCode,
    /// Status of the workflow and its children.
    pub status_tree: TemporalioWorkflowStatusTree,
}

/// The statuses of a workflow and of the children it started. Each map is
/// kept as a list of entries in the order they were set, a later entry for
/// a key replacing an earlier one.
#[derive(Debug, Clone, PartialEq, Eq, PartialOrd, Ord)]
pub struct TemporalioWorkflowStatusTree {
    /// The workflow at the root.
    pub root_workflow_id: String,
    /// Status of every workflow seen.
    pub nodes: Vec<(String, UiWorkflowStatusCode)>,
    /// Parent of every child seen.
    pub parent: Vec<(String, String)>,
    /// Children of every workflow expanded.
    pub children: Vec<(String, Vec<String>)>,
    /// Per expanded workflow, the number of children in each status.
    pub counts: Vec<(String, Vec<(UiWorkflowStatusCode, i64)>)>,
    /// Number of workflows in each status.
    pub total_counts: Vec<(UiWorkflowStatusCode, i64)>,
}

/// The map that a list of entries keyed by strings stands for: a later
/// entry for a key replaces an earlier one.
pub open spec fn entries_map<V>(entries: Seq<(String, V)>) -> Map<Seq<char>, V>
    decreases entries.len(),
{
    if entries.len() == 0 {
        Map::empty()
    } else {
        entries_map(entries.drop_last()).insert(entries.last().0@, entries.last().1)
    }
}

/// The map that a list of entries keyed by status stands for: a later
/// entry for a status replaces an earlier one.
pub open spec fn status_map(entries: Seq<(UiWorkflowStatusCode, i64)>) -> Map<UiWorkflowStatusCode, i64>
    decreases entries.len(),
{
    if entries.len() == 0 {
        Map::empty()
    } else {
        status_map(entries.drop_last()).insert(entries.last().0, entries.last().1)
    }
}

} // verus!
