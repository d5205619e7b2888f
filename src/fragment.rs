//! Fragments, their identities and statuses, and the rejections that a
//! ledger reports when a fragment cannot be applied.
use vstd::prelude::*;

verus! {

/// A slot of the chain: an epoch and a slot inside it.
#[derive(Clone, Copy, Debug, PartialEq, Eq, Structural)]
pub struct BlockDate {
    pub epoch: u32,
    pub slot_id: u32,
}

/// The identity of a fragment, derived from its content at ingress.
#[derive(Clone, Copy, Debug, PartialEq, Eq, Hash, Structural)]
pub struct FragmentId {
    pub value: u64,
}

/// A pending unit of ledger-affecting work: a signed transaction or a
/// certificate, with its identity and its serialized payload.
#[derive(Clone, Debug, PartialEq, Eq)]
pub struct Fragment {
    pub id: FragmentId,
    pub payload: Vec<u8>,
}

impl Fragment {
    pub fn new(id: FragmentId, payload: Vec<u8>) -> (r: Fragment)
        ensures
            r.id == id,
            r.payload == payload,
    {
        Fragment { id, payload }
    }

    pub fn id(&self) -> (r: FragmentId)
        ensures
            r == self.id,
    {
        self.id
    }
}

/// Why a ledger refused to apply a fragment, with an optional underlying
/// cause.
#[derive(Clone, Debug)]
pub struct RejectionError {
    pub message: String,
    pub source: Option<String>,
}

impl RejectionError {
    /// The human-readable reason: `"<error>: <cause>"` where a cause is
    /// present, `"<error>"` otherwise.
    pub open spec fn reason_view(&self) -> Seq<char> {
        match self.source {
            Some(cause) => self.message@ + ": "@ + cause@,
            None => self.message@,
        }
    }

    pub fn new(message: String, source: Option<String>) -> (r: RejectionError)
        ensures
            r.message == message,
            r.source == source,
    {
        RejectionError { message, source }
    }

    pub fn reason(&self) -> (r: String)
        ensures
            r@ == self.reason_view(),
    {
        match &self.source {
            Some(cause) => {
                let mut text = self.message.clone();
                text.append(": ");
                text.append(cause.as_str());
                text
            },
            None => self.message.clone(),
        }
    }
}

/// The abstract status of a fragment, as observers read it.
pub ghost enum StatusView {
    Pending,
    Rejected { reason: Seq<char> },
    InABlock { date: BlockDate },
}

/// The lifecycle status of a fragment, visible to external observers.
#[derive(Clone, Debug, PartialEq, Eq)]
pub enum FragmentStatus {
    Pending,
    Rejected { reason: String },
    InABlock { date: BlockDate },
}

impl View for FragmentStatus {
    type V = StatusView;

    open spec fn view(&self) -> StatusView {
        match self {
            FragmentStatus::Pending => StatusView::Pending,
            FragmentStatus::Rejected { reason } => StatusView::Rejected { reason: reason@ },
            FragmentStatus::InABlock { date } => StatusView::InABlock { date: *date },
        }
    }
}

} // verus!
