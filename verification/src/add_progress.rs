//! The taking in of files, as the window is told of it.

use vstd::prelude::*;
use vstd::string::*;

verus! {

/// What the window is told of the taking in of files.
#[derive(Debug, Clone)]
pub enum AddEvent {
    Started { op_id: String, label: String },
    Progress { op_id: String, label: String, done: u32, total: u32 },
    Finished { op_id: String },
}

impl AddEvent {
    /// The name under which the window is told.
    pub fn name(&self) -> (r: &'static str)
        ensures
            r@ == (match self {
                AddEvent::Started { .. } => "add-started"@,
                AddEvent::Progress { .. } => "add-progress"@,
                AddEvent::Finished { .. } => "add-finished"@,
            }),
    {
        match self {
            AddEvent::Started { .. } => "add-started",
            AddEvent::Progress { .. } => "add-progress",
            AddEvent::Finished { .. } => "add-finished",
        }
    }
}

/// `uuid::Uuid::new_v4` and its text: the text is the hyphenated form, of 36 characters. Which
/// text it is rests on chance.
#[verifier::external_body]
fn fresh_id() -> (r: String)
    ensures
        r@.len() == 36,
{
    uuid::Uuid::new_v4().to_string()
}

/// One taking in of files.
#[derive(Debug, Clone)]
pub struct AddOp {
    pub op_id: String,
    pub label: String,
}

impl AddOp {
    /// Begins to take in files, under an identity of its own, and says so.
    pub fn new(label: String) -> (r: (Self, AddEvent))
        ensures
            r.0.label == label,
            r.0.op_id@.len() == 36,
            r.1 matches AddEvent::Started { op_id, label } && op_id@ == r.0.op_id@ && label@
                == r.0.label@,
    {
        let op_id: String = fresh_id();
        let event: AddEvent = AddEvent::Started { op_id: op_id.clone(), label: label.clone() };
        (AddOp { op_id, label }, event)
    }

    /// What is said when `done` of `total` files were looked at.
    pub fn report(&self, done: u32, total: u32) -> (r: AddEvent)
        ensures
            r matches AddEvent::Progress { op_id, label, done: d, total: t } && op_id@
                == self.op_id@ && label@ == self.label@ && d == done && t == total,
    {
        AddEvent::Progress { op_id: self.op_id.clone(), label: self.label.clone(), done, total }
    }

    /// What is said at the end, however it ended.
    pub fn finish(&self) -> (r: AddEvent)
        ensures
            r matches AddEvent::Finished { op_id } && op_id@ == self.op_id@,
    {
        AddEvent::Finished { op_id: self.op_id.clone() }
    }
}

} // verus!
