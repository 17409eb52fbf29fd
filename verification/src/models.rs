//! In-memory model of a BXES event log: typed attribute values, lifecycle
//! enumerations, events, trace variants and the log envelope.
//!
//! This crate implements the core schema: eleven value variants with stable
//! type tags. Floating-point payloads are carried as their IEEE-754
//! little-endian bit patterns (`u32`/`u64`), so value equality is bitwise,
//! which keeps the round-trip law total even for NaN payloads.
use vstd::prelude::*;

verus! {

/// BRAF lifecycle stages; the wire ordinal of each variant is given by
/// [`spec_braf_ordinal`].
#[derive(Clone, Copy, Debug, PartialEq, Eq, Hash, Structural)]
pub enum BrafLifecycle {
    Unspecified,
    Closed,
    ClosedCancelled,
    ClosedCancelledAborted,
    ClosedCancelledError,
    ClosedCancelledExited,
    ClosedCancelledObsolete,
    ClosedCancelledTerminated,
    Completed,
    CompletedFailed,
    CompletedSuccess,
    Open,
    OpenNotRunning,
    OpenNotRunningAssigned,
    OpenNotRunningReserved,
    OpenNotRunningSuspendedAssigned,
    OpenNotRunningSuspendedReserved,
    OpenRunning,
    OpenRunningInProgress,
    OpenRunningSuspended,
}

/// Standard lifecycle stages; the wire ordinal of each variant is given by
/// [`spec_standard_ordinal`].
#[derive(Clone, Copy, Debug, PartialEq, Eq, Hash, Structural)]
pub enum StandardLifecycle {
    Unspecified,
    Assign,
    AteAbort,
    Autoskip,
    Complete,
    ManualSkip,
    PiAbort,
    ReAssign,
    Resume,
    Schedule,
    Start,
    Suspend,
    Unknown,
    Withdraw,
}

/// The lifecycle stage of an event: one of the two enumerations.
#[derive(Clone, Copy, Debug, PartialEq, Eq, Structural)]
pub enum Lifecycle {
    Braf(BrafLifecycle),
    Standard(StandardLifecycle),
}

pub open spec fn spec_braf_ordinal(l: BrafLifecycle) -> u8 {
    match l {
        BrafLifecycle::Unspecified => 0,
        BrafLifecycle::Closed => 1,
        BrafLifecycle::ClosedCancelled => 2,
        BrafLifecycle::ClosedCancelledAborted => 3,
        BrafLifecycle::ClosedCancelledError => 4,
        BrafLifecycle::ClosedCancelledExited => 5,
        BrafLifecycle::ClosedCancelledObsolete => 6,
        BrafLifecycle::ClosedCancelledTerminated => 7,
        BrafLifecycle::Completed => 8,
        BrafLifecycle::CompletedFailed => 9,
        BrafLifecycle::CompletedSuccess => 10,
        BrafLifecycle::Open => 11,
        BrafLifecycle::OpenNotRunning => 12,
        BrafLifecycle::OpenNotRunningAssigned => 13,
        BrafLifecycle::OpenNotRunningReserved => 14,
        BrafLifecycle::OpenNotRunningSuspendedAssigned => 15,
        BrafLifecycle::OpenNotRunningSuspendedReserved => 16,
        BrafLifecycle::OpenRunning => 17,
        BrafLifecycle::OpenRunningInProgress => 18,
        BrafLifecycle::OpenRunningSuspended => 19,
    }
}

pub fn braf_ordinal(l: &BrafLifecycle) -> (r: u8)
    ensures
        r == spec_braf_ordinal(*l),
{
    match l {
        BrafLifecycle::Unspecified => 0,
        BrafLifecycle::Closed => 1,
        BrafLifecycle::ClosedCancelled => 2,
        BrafLifecycle::ClosedCancelledAborted => 3,
        BrafLifecycle::ClosedCancelledError => 4,
        BrafLifecycle::ClosedCancelledExited => 5,
        BrafLifecycle::ClosedCancelledObsolete => 6,
        BrafLifecycle::ClosedCancelledTerminated => 7,
        BrafLifecycle::Completed => 8,
        BrafLifecycle::CompletedFailed => 9,
        BrafLifecycle::CompletedSuccess => 10,
        BrafLifecycle::Open => 11,
        BrafLifecycle::OpenNotRunning => 12,
        BrafLifecycle::OpenNotRunningAssigned => 13,
        BrafLifecycle::OpenNotRunningReserved => 14,
        BrafLifecycle::OpenNotRunningSuspendedAssigned => 15,
        BrafLifecycle::OpenNotRunningSuspendedReserved => 16,
        BrafLifecycle::OpenRunning => 17,
        BrafLifecycle::OpenRunningInProgress => 18,
        BrafLifecycle::OpenRunningSuspended => 19,
    }
}

pub open spec fn spec_braf_of_ordinal(o: u8) -> Option<BrafLifecycle> {
    if o == 0 { Some(BrafLifecycle::Unspecified) }
    else if o == 1 { Some(BrafLifecycle::Closed) }
    else if o == 2 { Some(BrafLifecycle::ClosedCancelled) }
    else if o == 3 { Some(BrafLifecycle::ClosedCancelledAborted) }
    else if o == 4 { Some(BrafLifecycle::ClosedCancelledError) }
    else if o == 5 { Some(BrafLifecycle::ClosedCancelledExited) }
    else if o == 6 { Some(BrafLifecycle::ClosedCancelledObsolete) }
    else if o == 7 { Some(BrafLifecycle::ClosedCancelledTerminated) }
    else if o == 8 { Some(BrafLifecycle::Completed) }
    else if o == 9 { Some(BrafLifecycle::CompletedFailed) }
    else if o == 10 { Some(BrafLifecycle::CompletedSuccess) }
    else if o == 11 { Some(BrafLifecycle::Open) }
    else if o == 12 { Some(BrafLifecycle::OpenNotRunning) }
    else if o == 13 { Some(BrafLifecycle::OpenNotRunningAssigned) }
    else if o == 14 { Some(BrafLifecycle::OpenNotRunningReserved) }
    else if o == 15 { Some(BrafLifecycle::OpenNotRunningSuspendedAssigned) }
    else if o == 16 { Some(BrafLifecycle::OpenNotRunningSuspendedReserved) }
    else if o == 17 { Some(BrafLifecycle::OpenRunning) }
    else if o == 18 { Some(BrafLifecycle::OpenRunningInProgress) }
    else if o == 19 { Some(BrafLifecycle::OpenRunningSuspended) }
    else { None }
}

pub fn braf_of_ordinal(o: u8) -> (r: Option<BrafLifecycle>)
    ensures
        r == spec_braf_of_ordinal(o),
{
    match o {
        0 => Some(BrafLifecycle::Unspecified),
        1 => Some(BrafLifecycle::Closed),
        2 => Some(BrafLifecycle::ClosedCancelled),
        3 => Some(BrafLifecycle::ClosedCancelledAborted),
        4 => Some(BrafLifecycle::ClosedCancelledError),
        5 => Some(BrafLifecycle::ClosedCancelledExited),
        6 => Some(BrafLifecycle::ClosedCancelledObsolete),
        7 => Some(BrafLifecycle::ClosedCancelledTerminated),
        8 => Some(BrafLifecycle::Completed),
        9 => Some(BrafLifecycle::CompletedFailed),
        10 => Some(BrafLifecycle::CompletedSuccess),
        11 => Some(BrafLifecycle::Open),
        12 => Some(BrafLifecycle::OpenNotRunning),
        13 => Some(BrafLifecycle::OpenNotRunningAssigned),
        14 => Some(BrafLifecycle::OpenNotRunningReserved),
        15 => Some(BrafLifecycle::OpenNotRunningSuspendedAssigned),
        16 => Some(BrafLifecycle::OpenNotRunningSuspendedReserved),
        17 => Some(BrafLifecycle::OpenRunning),
        18 => Some(BrafLifecycle::OpenRunningInProgress),
        19 => Some(BrafLifecycle::OpenRunningSuspended),
        _ => None,
    }
}

pub open spec fn spec_standard_ordinal(l: StandardLifecycle) -> u8 {
    match l {
        StandardLifecycle::Unspecified => 0,
        StandardLifecycle::Assign => 1,
        StandardLifecycle::AteAbort => 2,
        StandardLifecycle::Autoskip => 3,
        StandardLifecycle::Complete => 4,
        StandardLifecycle::ManualSkip => 5,
        StandardLifecycle::PiAbort => 6,
        StandardLifecycle::ReAssign => 7,
        StandardLifecycle::Resume => 8,
        StandardLifecycle::Schedule => 9,
        StandardLifecycle::Start => 10,
        StandardLifecycle::Suspend => 11,
        StandardLifecycle::Unknown => 12,
        StandardLifecycle::Withdraw => 13,
    }
}

pub fn standard_ordinal(l: &StandardLifecycle) -> (r: u8)
    ensures
        r == spec_standard_ordinal(*l),
{
    match l {
        StandardLifecycle::Unspecified => 0,
        StandardLifecycle::Assign => 1,
        StandardLifecycle::AteAbort => 2,
        StandardLifecycle::Autoskip => 3,
        StandardLifecycle::Complete => 4,
        StandardLifecycle::ManualSkip => 5,
        StandardLifecycle::PiAbort => 6,
        StandardLifecycle::ReAssign => 7,
        StandardLifecycle::Resume => 8,
        StandardLifecycle::Schedule => 9,
        StandardLifecycle::Start => 10,
        StandardLifecycle::Suspend => 11,
        StandardLifecycle::Unknown => 12,
        StandardLifecycle::Withdraw => 13,
    }
}

pub open spec fn spec_standard_of_ordinal(o: u8) -> Option<StandardLifecycle> {
    if o == 0 { Some(StandardLifecycle::Unspecified) }
    else if o == 1 { Some(StandardLifecycle::Assign) }
    else if o == 2 { Some(StandardLifecycle::AteAbort) }
    else if o == 3 { Some(StandardLifecycle::Autoskip) }
    else if o == 4 { Some(StandardLifecycle::Complete) }
    else if o == 5 { Some(StandardLifecycle::ManualSkip) }
    else if o == 6 { Some(StandardLifecycle::PiAbort) }
    else if o == 7 { Some(StandardLifecycle::ReAssign) }
    else if o == 8 { Some(StandardLifecycle::Resume) }
    else if o == 9 { Some(StandardLifecycle::Schedule) }
    else if o == 10 { Some(StandardLifecycle::Start) }
    else if o == 11 { Some(StandardLifecycle::Suspend) }
    else if o == 12 { Some(StandardLifecycle::Unknown) }
    else if o == 13 { Some(StandardLifecycle::Withdraw) }
    else { None }
}

pub fn standard_of_ordinal(o: u8) -> (r: Option<StandardLifecycle>)
    ensures
        r == spec_standard_of_ordinal(o),
{
    match o {
        0 => Some(StandardLifecycle::Unspecified),
        1 => Some(StandardLifecycle::Assign),
        2 => Some(StandardLifecycle::AteAbort),
        3 => Some(StandardLifecycle::Autoskip),
        4 => Some(StandardLifecycle::Complete),
        5 => Some(StandardLifecycle::ManualSkip),
        6 => Some(StandardLifecycle::PiAbort),
        7 => Some(StandardLifecycle::ReAssign),
        8 => Some(StandardLifecycle::Resume),
        9 => Some(StandardLifecycle::Schedule),
        10 => Some(StandardLifecycle::Start),
        11 => Some(StandardLifecycle::Suspend),
        12 => Some(StandardLifecycle::Unknown),
        13 => Some(StandardLifecycle::Withdraw),
        _ => None,
    }
}

/// The wire ordinal of a BRAF stage decodes back to that stage.
pub proof fn lemma_braf_ordinal_roundtrip(l: BrafLifecycle)
    ensures
        spec_braf_of_ordinal(spec_braf_ordinal(l)) == Some(l),
{
}

/// The wire ordinal of a standard stage decodes back to that stage.
pub proof fn lemma_standard_ordinal_roundtrip(l: StandardLifecycle)
    ensures
        spec_standard_of_ordinal(spec_standard_ordinal(l)) == Some(l),
{
}

/// Mathematical model of an attribute value. Strings are character
/// sequences; floats are their bit patterns.
pub enum BxesValueView {
    Int32(i32),
    Int64(i64),
    Uint32(u32),
    Uint64(u64),
    Float32(u32),
    Float64(u64),
    Str(Seq<char>),
    Bool(bool),
    Timestamp(i64),
    BrafLifecycle(BrafLifecycle),
    StandardLifecycle(StandardLifecycle),
}

/// A typed attribute value. `Float32`/`Float64` hold IEEE-754 bit patterns;
/// equality over them is bitwise by design (see module doc).
#[derive(Debug)]
pub enum BxesValue {
    Int32(i32),
    Int64(i64),
    Uint32(u32),
    Uint64(u64),
    Float32(u32),
    Float64(u64),
    String(String),
    Bool(bool),
    Timestamp(i64),
    BrafLifecycle(BrafLifecycle),
    StandardLifecycle(StandardLifecycle),
}

impl View for BxesValue {
    type V = BxesValueView;

    open spec fn view(&self) -> BxesValueView {
        match self {
            BxesValue::Int32(x) => BxesValueView::Int32(*x),
            BxesValue::Int64(x) => BxesValueView::Int64(*x),
            BxesValue::Uint32(x) => BxesValueView::Uint32(*x),
            BxesValue::Uint64(x) => BxesValueView::Uint64(*x),
            BxesValue::Float32(x) => BxesValueView::Float32(*x),
            BxesValue::Float64(x) => BxesValueView::Float64(*x),
            BxesValue::String(s) => BxesValueView::Str(s@),
            BxesValue::Bool(b) => BxesValueView::Bool(*b),
            BxesValue::Timestamp(x) => BxesValueView::Timestamp(*x),
            BxesValue::BrafLifecycle(l) => BxesValueView::BrafLifecycle(*l),
            BxesValue::StandardLifecycle(l) => BxesValueView::StandardLifecycle(*l),
        }
    }
}

impl DeepView for BxesValue {
    type V = BxesValueView;

    open spec fn deep_view(&self) -> BxesValueView {
        self.view()
    }
}

impl Clone for BxesValue {
    fn clone(&self) -> (r: Self)
        ensures
            r@ == self@,
    {
        match self {
            BxesValue::Int32(x) => BxesValue::Int32(*x),
            BxesValue::Int64(x) => BxesValue::Int64(*x),
            BxesValue::Uint32(x) => BxesValue::Uint32(*x),
            BxesValue::Uint64(x) => BxesValue::Uint64(*x),
            BxesValue::Float32(x) => BxesValue::Float32(*x),
            BxesValue::Float64(x) => BxesValue::Float64(*x),
            BxesValue::String(s) => BxesValue::String(s.clone()),
            BxesValue::Bool(b) => BxesValue::Bool(*b),
            BxesValue::Timestamp(x) => BxesValue::Timestamp(*x),
            BxesValue::BrafLifecycle(l) => BxesValue::BrafLifecycle(*l),
            BxesValue::StandardLifecycle(l) => BxesValue::StandardLifecycle(*l),
        }
    }
}

impl PartialEq for BxesValue {
    /// Structural equality: same variant, same payload. Strings compare by
    /// character content; floats compare by bit pattern.
    fn eq(&self, other: &Self) -> (r: bool) {
        match self {
            BxesValue::Int32(a) => match other {
                BxesValue::Int32(b) => *a == *b,
                _ => false,
            },
            BxesValue::Int64(a) => match other {
                BxesValue::Int64(b) => *a == *b,
                _ => false,
            },
            BxesValue::Uint32(a) => match other {
                BxesValue::Uint32(b) => *a == *b,
                _ => false,
            },
            BxesValue::Uint64(a) => match other {
                BxesValue::Uint64(b) => *a == *b,
                _ => false,
            },
            BxesValue::Float32(a) => match other {
                BxesValue::Float32(b) => *a == *b,
                _ => false,
            },
            BxesValue::Float64(a) => match other {
                BxesValue::Float64(b) => *a == *b,
                _ => false,
            },
            BxesValue::String(a) => match other {
                BxesValue::String(b) => *a == *b,
                _ => false,
            },
            BxesValue::Bool(a) => match other {
                BxesValue::Bool(b) => *a == *b,
                _ => false,
            },
            BxesValue::Timestamp(a) => match other {
                BxesValue::Timestamp(b) => *a == *b,
                _ => false,
            },
            BxesValue::BrafLifecycle(a) => match other {
                BxesValue::BrafLifecycle(b) => *a == *b,
                _ => false,
            },
            BxesValue::StandardLifecycle(a) => match other {
                BxesValue::StandardLifecycle(b) => *a == *b,
                _ => false,
            },
        }
    }
}

impl vstd::std_specs::cmp::PartialEqSpecImpl for BxesValue {
    open spec fn obeys_eq_spec() -> bool {
        true
    }

    open spec fn eq_spec(&self, other: &Self) -> bool {
        self@ == other@
    }
}

/// Mathematical model of an event.
pub struct BxesEventView {
    pub name: BxesValueView,
    pub timestamp: i64,
    pub lifecycle: Lifecycle,
    pub attributes: Option<Seq<(BxesValueView, BxesValueView)>>,
}

/// One event: a name value, a timestamp, a lifecycle stage, and an optional
/// ordered attribute list.
#[derive(Debug)]
pub struct BxesEvent {
    pub name: BxesValue,
    pub timestamp: i64,
    pub lifecycle: Lifecycle,
    pub attributes: Option<Vec<(BxesValue, BxesValue)>>,
}

impl View for BxesEvent {
    type V = BxesEventView;

    open spec fn view(&self) -> BxesEventView {
        BxesEventView {
            name: self.name@,
            timestamp: self.timestamp,
            lifecycle: self.lifecycle,
            attributes: self.attributes.deep_view(),
        }
    }
}

impl DeepView for BxesEvent {
    type V = BxesEventView;

    open spec fn deep_view(&self) -> BxesEventView {
        self.view()
    }
}

/// Mathematical model of a trace variant.
pub struct BxesTraceVariantView {
    pub traces_count: u32,
    pub events: Seq<BxesEventView>,
}

/// A trace variant: a multiplicity and the ordered events of the trace.
#[derive(Debug)]
pub struct BxesTraceVariant {
    pub traces_count: u32,
    pub events: Vec<BxesEvent>,
}

impl View for BxesTraceVariant {
    type V = BxesTraceVariantView;

    open spec fn view(&self) -> BxesTraceVariantView {
        BxesTraceVariantView { traces_count: self.traces_count, events: self.events.deep_view() }
    }
}

impl DeepView for BxesTraceVariant {
    type V = BxesTraceVariantView;

    open spec fn deep_view(&self) -> BxesTraceVariantView {
        self.view()
    }
}

/// Mathematical model of an event log.
pub struct BxesEventLogView {
    pub version: u32,
    pub metadata: Option<Seq<(BxesValueView, BxesValueView)>>,
    pub variants: Seq<BxesTraceVariantView>,
}

/// The log envelope: schema version, optional metadata attribute list, and
/// the ordered trace variants.
#[derive(Debug)]
pub struct BxesEventLog {
    pub version: u32,
    pub metadata: Option<Vec<(BxesValue, BxesValue)>>,
    pub variants: Vec<BxesTraceVariant>,
}

impl View for BxesEventLog {
    type V = BxesEventLogView;

    open spec fn view(&self) -> BxesEventLogView {
        BxesEventLogView {
            version: self.version,
            metadata: self.metadata.deep_view(),
            variants: self.variants.deep_view(),
        }
    }
}

impl DeepView for BxesEventLog {
    type V = BxesEventLogView;

    open spec fn deep_view(&self) -> BxesEventLogView {
        self.view()
    }
}

/// Structural equality of two attributes: equal keys and equal values.
fn attributes_equals(
    first_attribute: &(BxesValue, BxesValue),
    second_attribute: &(BxesValue, BxesValue),
) -> (r: bool)
    ensures
        r == (first_attribute.deep_view() == second_attribute.deep_view()),
{
    first_attribute.0 == second_attribute.0 && first_attribute.1 == second_attribute.1
}

/// Order-sensitive equality of two optional attribute lists. Absence only
/// equals absence: a present list, even an empty one, differs from an
/// absent one.
#[verifier::loop_isolation(false)]
fn compare_list_of_attributes(
    first_attributes: &Option<Vec<(BxesValue, BxesValue)>>,
    second_attributes: &Option<Vec<(BxesValue, BxesValue)>>,
) -> (r: bool)
    ensures
        r == (first_attributes.deep_view() == second_attributes.deep_view()),
{
    match (first_attributes, second_attributes) {
        (Option::None, Option::None) => true,
        (Option::Some(a), Option::Some(b)) => {
            if a.len() != b.len() {
                proof {
                    assert(a.deep_view().len() != b.deep_view().len());
                    assert(first_attributes.deep_view() == Some(a.deep_view()));
                    assert(second_attributes.deep_view() == Some(b.deep_view()));
                }
                return false;
            }
            let mut i: usize = 0;
            while i < a.len()
                invariant
                    i <= a.len(),
                    a.len() == b.len(),
                    forall|j: int| 0 <= j < i ==> a.deep_view()[j] == b.deep_view()[j],
                decreases a.len() - i,
            {
                if !attributes_equals(&a[i], &b[i]) {
                    proof {
                        assert(a.deep_view()[i as int] != b.deep_view()[i as int]);
                        assert(a.deep_view() != b.deep_view());
                        assert(first_attributes.deep_view() == Some(a.deep_view()));
                        assert(second_attributes.deep_view() == Some(b.deep_view()));
                    }
                    return false;
                }
                i = i + 1;
            }
            proof {
                assert(a.deep_view() =~= b.deep_view());
                assert(first_attributes.deep_view() == Some(a.deep_view()));
                assert(second_attributes.deep_view() == Some(b.deep_view()));
            }
            true
        },
        _ => false,
    }
}

impl PartialEq for BxesEvent {
    /// Equality of events: equal name, timestamp, lifecycle and attribute
    /// list, the list order-sensitively.
    fn eq(&self, other: &Self) -> (r: bool) {
        self.name == other.name && self.timestamp == other.timestamp && self.lifecycle
            == other.lifecycle && compare_list_of_attributes(&self.attributes, &other.attributes)
    }
}

impl vstd::std_specs::cmp::PartialEqSpecImpl for BxesEvent {
    open spec fn obeys_eq_spec() -> bool {
        true
    }

    open spec fn eq_spec(&self, other: &Self) -> bool {
        self@ == other@
    }
}

impl PartialEq for BxesTraceVariant {
    /// Equality of variants: equal multiplicity and equal event sequence.
    #[verifier::loop_isolation(false)]
    fn eq(&self, other: &Self) -> (r: bool) {
        if self.traces_count != other.traces_count {
            return false;
        }
        if self.events.len() != other.events.len() {
            proof {
                assert(self.events.deep_view().len() != other.events.deep_view().len());
            }
            return false;
        }
        let mut i: usize = 0;
        while i < self.events.len()
            invariant
                i <= self.events.len(),
                self.events.len() == other.events.len(),
                self.traces_count == other.traces_count,
                forall|j: int|
                    0 <= j < i ==> self.events.deep_view()[j] == other.events.deep_view()[j],
            decreases self.events.len() - i,
        {
            if !(self.events[i] == other.events[i]) {
                proof {
                    assert(self.events.deep_view()[i as int] != other.events.deep_view()[
                        i as int
                    ]);
                }
                return false;
            }
            i = i + 1;
        }
        proof {
            assert(self.events.deep_view() =~= other.events.deep_view());
        }
        true
    }
}

impl vstd::std_specs::cmp::PartialEqSpecImpl for BxesTraceVariant {
    open spec fn obeys_eq_spec() -> bool {
        true
    }

    open spec fn eq_spec(&self, other: &Self) -> bool {
        self@ == other@
    }
}

impl PartialEq for BxesEventLog {
    /// Equality of logs: equal version, equal metadata and equal variant
    /// sequence, all order-sensitively.
    #[verifier::loop_isolation(false)]
    fn eq(&self, other: &Self) -> (r: bool) {
        if self.version != other.version {
            return false;
        }
        if !compare_list_of_attributes(&self.metadata, &other.metadata) {
            return false;
        }
        if self.variants.len() != other.variants.len() {
            proof {
                assert(self.variants.deep_view().len() != other.variants.deep_view().len());
            }
            return false;
        }
        let mut i: usize = 0;
        while i < self.variants.len()
            invariant
                i <= self.variants.len(),
                self.variants.len() == other.variants.len(),
                self.version == other.version,
                self.metadata.deep_view() == other.metadata.deep_view(),
                forall|j: int|
                    0 <= j < i ==> self.variants.deep_view()[j] == other.variants.deep_view()[j],
            decreases self.variants.len() - i,
        {
            if !(self.variants[i] == other.variants[i]) {
                proof {
                    assert(self.variants.deep_view()[i as int] != other.variants.deep_view()[
                        i as int
                    ]);
                }
                return false;
            }
            i = i + 1;
        }
        proof {
            assert(self.variants.deep_view() =~= other.variants.deep_view());
        }
        true
    }
}

impl vstd::std_specs::cmp::PartialEqSpecImpl for BxesEventLog {
    open spec fn obeys_eq_spec() -> bool {
        true
    }

    open spec fn eq_spec(&self, other: &Self) -> bool {
        self@ == other@
    }
}

/// The attribute sequence an optional attribute list stands for: absence is
/// the empty sequence.
pub open spec fn opt_attrs(a: Option<Seq<(BxesValueView, BxesValueView)>>) -> Seq<
    (BxesValueView, BxesValueView),
> {
    match a {
        Option::None => Seq::empty(),
        Option::Some(s) => s,
    }
}

/// The value a lifecycle stage is carried as on the wire.
pub open spec fn lifecycle_view(lc: Lifecycle) -> BxesValueView {
    match lc {
        Lifecycle::Braf(b) => BxesValueView::BrafLifecycle(b),
        Lifecycle::Standard(s) => BxesValueView::StandardLifecycle(s),
    }
}

} // verus!
