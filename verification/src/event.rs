//! Process events and their publication to listeners.

use vstd::prelude::*;
use crate::json::FlowData;
use crate::text::owned;

verus! {

/// Process event types.
#[derive(Debug, Clone, Copy, PartialEq, Eq, Structural)]
pub enum ProcessEventType {
    /// A process instance started (code 1).
    ProcessInstanceStart,
    /// A process instance ended (code 2).
    ProcessInstanceEnd,
    /// A task was created (code 3).
    ProcessTaskStart,
    /// A carbon copy was sent (code 4).
    CcCreate,
}

pub open spec fn event_type_code(t: ProcessEventType) -> i32 {
    match t {
        ProcessEventType::ProcessInstanceStart => 1,
        ProcessEventType::ProcessInstanceEnd => 2,
        ProcessEventType::ProcessTaskStart => 3,
        ProcessEventType::CcCreate => 4,
    }
}

impl ProcessEventType {
    pub fn from_code(code: i32) -> (r: Option<ProcessEventType>)
        ensures
            match r {
                Some(t) => event_type_code(t) == code,
                None => forall|t: ProcessEventType| event_type_code(t) != code,
            },
    {
        if code == 1 {
            Some(ProcessEventType::ProcessInstanceStart)
        } else if code == 2 {
            Some(ProcessEventType::ProcessInstanceEnd)
        } else if code == 3 {
            Some(ProcessEventType::ProcessTaskStart)
        } else if code == 4 {
            Some(ProcessEventType::CcCreate)
        } else {
            None
        }
    }

    pub fn code(&self) -> (r: i32)
        ensures
            r == event_type_code(*self),
    {
        match self {
            ProcessEventType::ProcessInstanceStart => 1,
            ProcessEventType::ProcessInstanceEnd => 2,
            ProcessEventType::ProcessTaskStart => 3,
            ProcessEventType::CcCreate => 4,
        }
    }
}

/// A process event.
pub struct ProcessEvent {
    pub event_type: ProcessEventType,
    pub source_id: i64,
    pub data: FlowData,
    /// The carbon-copy recipient (only on `CcCreate` events).
    pub cc_actor_id: Option<String>,
}

impl ProcessEvent {
    pub fn new(event_type: ProcessEventType, source_id: i64) -> (r: ProcessEvent)
        ensures
            r.event_type == event_type,
            r.source_id == source_id,
            r.data.kv().len() == 0,
            r.cc_actor_id is None,
    {
        ProcessEvent { event_type, source_id, data: FlowData::new(), cc_actor_id: None }
    }

    pub fn with_data(self, data: FlowData) -> (r: ProcessEvent)
        ensures
            r.event_type == self.event_type,
            r.source_id == self.source_id,
            r.data.kv() == data.kv(),
            crate::model::opt_view(r.cc_actor_id) == crate::model::opt_view(self.cc_actor_id),
    {
        ProcessEvent { event_type: self.event_type, source_id: self.source_id, data, cc_actor_id: self.cc_actor_id }
    }

    /// Attach the carbon-copy recipient.
    pub fn with_cc_actor_id(self, cc_actor_id: &str) -> (r: ProcessEvent)
        ensures
            r.event_type == self.event_type,
            r.source_id == self.source_id,
            r.data.kv() == self.data.kv(),
            crate::model::opt_view(r.cc_actor_id) == Some(cc_actor_id@),
    {
        ProcessEvent {
            event_type: self.event_type,
            source_id: self.source_id,
            data: self.data,
            cc_actor_id: Some(owned(cc_actor_id)),
        }
    }
}

/// Receives engine events.
pub trait ProcessEventListener {
    fn on_event(&self, event: &ProcessEvent);
}

/// Broadcasts events to listeners.
pub struct ProcessPublisher;

impl ProcessPublisher {
    /// Hand the event to every listener, in order.
    pub fn notify(event: &ProcessEvent, listeners: &[Box<dyn ProcessEventListener>]) {
        let mut i: usize = 0;
        while i < listeners.len()
            invariant
                0 <= i <= listeners.len(),
            decreases listeners.len() - i,
        {
            listeners[i].on_event(event);
            i = i + 1;
        }
    }
}

} // verus!
