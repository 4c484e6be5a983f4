//! The router: the authority that binds an application to its first bucket.
//!
//! Provisioning asks the outside world twice: for the status of the storage
//! unit, and for the installation of the bucket's code into it. The router
//! decides; whoever drives it performs what it asks for and reports back.
//! A binding is made only once the installation has succeeded, and never for
//! an application that has one.

use vstd::prelude::*;
use ic_kit::RejectionCode;
use crate::identity::Identity;
use crate::registry::{Binding, Registry};

verus! {

/// The most bytes that a principal holds.
pub const MAX_PRINCIPAL_LEN: usize = 29;

/// The candid encoding of one principal argument, for a principal of the
/// given bytes: the magic number, an empty type table, one argument of the
/// type principal, and the principal as its marker, its length and its
/// bytes.
pub open spec fn candid_of_principal(principal: Seq<u8>) -> Seq<u8> {
    seq![0x44u8, 0x49u8, 0x44u8, 0x4cu8, 0x00u8, 0x01u8, 0x68u8, 0x01u8, principal.len() as u8]
        + principal
}

/// Encodes the principal that holds `principal` as the single argument of a
/// call, with `ic_kit::candid::encode_one`. The bytes must not be too many for
/// a principal. For such a principal the encoder does not fail, and writes
/// the bytes that `candid_of_principal` gives.
#[verifier::external_body]
fn encode_principal_argument(principal: &Vec<u8>) -> (r: Option<Vec<u8>>)
    requires
        principal@.len() <= MAX_PRINCIPAL_LEN,
    ensures
        r is Some,
        r->0@ == candid_of_principal(principal@),
{
    ic_kit::candid::encode_one(ic_kit::Principal::from_slice(principal)).ok()
}

/// The argument with which a bucket is installed for `owner`: the candid
/// encoding of the owner as a principal. There is none where the owner holds
/// too many bytes for a principal.
pub open spec fn install_argument_of(owner: Seq<u8>) -> Option<Seq<u8>> {
    if owner.len() <= MAX_PRINCIPAL_LEN {
        Some(candid_of_principal(owner))
    } else {
        None
    }
}

/// What the management authority reports of a storage unit.
#[derive(Clone, Debug, PartialEq, Eq)]
pub struct UnitStatus {
    /// Who controls the unit.
    pub controllers: Vec<Identity>,
    /// The digest of the code installed in the unit, where there is any.
    pub module_hash: Option<Vec<u8>>,
}

/// What makes a storage unit unfit to hold a bucket.
#[derive(Clone, Copy, Debug, PartialEq, Eq, Structural)]
pub enum ConfigurationFault {
    /// The unit does not have exactly one controller.
    ControllerCount,
    /// The unit already holds code.
    CodeInstalled,
}

/// Why a bucket was not provisioned.
#[derive(Debug, PartialEq, Eq)]
pub enum ProvisionError {
    /// The application already has a bucket.
    AlreadyRegistered,
    /// The storage unit is not an empty unit under a single controller.
    Configuration(ConfigurationFault),
    /// The argument for the installation could not be encoded.
    ArgumentEncoding,
    /// A report came that the router was not waiting for.
    OutOfOrder,
    /// No storage unit was at hand to hold the bucket.
    NoSpareUnit,
    /// The status query or the installation was rejected.
    Unexpected(RejectionCode, String),
}

/// A request to bind `unit` to `caller`.
#[derive(Clone, Debug, PartialEq, Eq)]
pub struct ProvisionRequest {
    pub caller: Identity,
    pub unit: Identity,
}

/// How far a provisioning has come.
#[derive(Clone, Copy, Debug, PartialEq, Eq, Structural)]
pub enum ProvisionStage {
    Requested,
    AwaitingStatus,
    AwaitingInstall,
    Finished,
}

/// What is reported to the router while it provisions.
#[derive(Debug, PartialEq, Eq)]
pub enum ProvisionEvent {
    /// The request has arrived.
    Begin,
    /// The status of the unit.
    Status(UnitStatus),
    /// The bucket's code is installed in the unit.
    Installed,
    /// The last thing asked for was rejected.
    Rejected(RejectionCode, String),
}

/// What the router asks for next.
#[derive(Debug, PartialEq, Eq)]
pub enum ProvisionAction {
    /// Ask for the status of the unit.
    QueryStatus,
    /// Install the bucket's code into the unit, with this argument.
    Install(Vec<u8>),
    /// The binding is made.
    Done,
    /// The provisioning has failed, and no binding was made.
    Fail(ProvisionError),
}

/// The mathematical value of a [`ProvisionAction`].
pub enum ProvisionActionView {
    QueryStatus,
    Install(Seq<u8>),
    Done,
    Fail(ProvisionError),
}

impl View for ProvisionAction {
    type V = ProvisionActionView;

    open spec fn view(&self) -> ProvisionActionView {
        match self {
            ProvisionAction::QueryStatus => ProvisionActionView::QueryStatus,
            ProvisionAction::Install(a) => ProvisionActionView::Install(a@),
            ProvisionAction::Done => ProvisionActionView::Done,
            ProvisionAction::Fail(e) => ProvisionActionView::Fail(*e),
        }
    }
}

/// What is wrong with a storage unit of the given status, if anything: the
/// number of controllers is looked at first.
pub open spec fn unit_fault(status: UnitStatus) -> Option<ConfigurationFault> {
    if status.controllers@.len() != 1 {
        Some(ConfigurationFault::ControllerCount)
    } else if status.module_hash is Some {
        Some(ConfigurationFault::CodeInstalled)
    } else {
        None
    }
}

/// The router's rule: from the directory, the request, the stage and the
/// report to the directory after, the next stage and what is to be done.
pub open spec fn provision_step(
    registry: Map<Seq<u8>, Seq<u8>>,
    caller: Seq<u8>,
    unit: Seq<u8>,
    stage: ProvisionStage,
    event: ProvisionEvent,
) -> (Map<Seq<u8>, Seq<u8>>, ProvisionStage, ProvisionActionView) {
    match (stage, event) {
        (ProvisionStage::Requested, ProvisionEvent::Begin) => {
            if registry.contains_key(caller) {
                (
                    registry,
                    ProvisionStage::Finished,
                    ProvisionActionView::Fail(ProvisionError::AlreadyRegistered),
                )
            } else {
                (registry, ProvisionStage::AwaitingStatus, ProvisionActionView::QueryStatus)
            }
        },
        (ProvisionStage::AwaitingStatus, ProvisionEvent::Status(status)) => {
            match unit_fault(status) {
                Some(fault) => (
                    registry,
                    ProvisionStage::Finished,
                    ProvisionActionView::Fail(ProvisionError::Configuration(fault)),
                ),
                None => match install_argument_of(caller) {
                    Some(argument) => (
                        registry,
                        ProvisionStage::AwaitingInstall,
                        ProvisionActionView::Install(argument),
                    ),
                    None => (
                        registry,
                        ProvisionStage::Finished,
                        ProvisionActionView::Fail(ProvisionError::ArgumentEncoding),
                    ),
                },
            }
        },
        (ProvisionStage::AwaitingInstall, ProvisionEvent::Installed) => {
            if registry.contains_key(caller) {
                (
                    registry,
                    ProvisionStage::Finished,
                    ProvisionActionView::Fail(ProvisionError::AlreadyRegistered),
                )
            } else {
                (registry.insert(caller, unit), ProvisionStage::Finished, ProvisionActionView::Done)
            }
        },
        (ProvisionStage::AwaitingStatus, ProvisionEvent::Rejected(code, message)) => (
            registry,
            ProvisionStage::Finished,
            ProvisionActionView::Fail(ProvisionError::Unexpected(code, message)),
        ),
        (ProvisionStage::AwaitingInstall, ProvisionEvent::Rejected(code, message)) => (
            registry,
            ProvisionStage::Finished,
            ProvisionActionView::Fail(ProvisionError::Unexpected(code, message)),
        ),
        _ => (
            registry,
            ProvisionStage::Finished,
            ProvisionActionView::Fail(ProvisionError::OutOfOrder),
        ),
    }
}

/// What is wrong with a storage unit of the given status, if anything.
pub fn check_unit(status: &UnitStatus) -> (r: Option<ConfigurationFault>)
    ensures
        r == unit_fault(*status),
{
    if status.controllers.len() != 1 {
        Some(ConfigurationFault::ControllerCount)
    } else if status.module_hash.is_some() {
        Some(ConfigurationFault::CodeInstalled)
    } else {
        None
    }
}

/// The argument with which a bucket is installed for `owner`.
pub fn install_argument(owner: &Identity) -> (r: Option<Vec<u8>>)
    ensures
        (match r {
            Some(b) => Some(b@),
            None => None,
        }) == install_argument_of(owner@),
{
    if owner.as_bytes().len() <= MAX_PRINCIPAL_LEN {
        encode_principal_argument(owner.as_bytes())
    } else {
        None
    }
}

/// The provisioning authority: the directory from each application to the
/// bucket that was provisioned for it.
#[derive(Debug)]
pub struct Router {
    registry: Registry,
}

impl View for Router {
    type V = Map<Seq<u8>, Seq<u8>>;

    closed spec fn view(&self) -> Map<Seq<u8>, Seq<u8>> {
        self.registry@
    }
}

impl Router {
    /// A router that has bound nothing yet.
    pub fn new() -> (r: Router)
        ensures
            r@ == Map::<Seq<u8>, Seq<u8>>::empty(),
    {
        Router { registry: Registry::new() }
    }

    /// The bucket that was provisioned for `application`, where one was.
    pub fn bucket_of(&self, application: &Identity) -> (r: Option<&Identity>)
        ensures
            match r {
                Some(bucket) => self@.contains_key(application@) && self@[application@] == bucket@,
                None => !self@.contains_key(application@),
            },
    {
        self.registry.get(application)
    }

    /// Whether a bucket was provisioned for `application`.
    pub fn is_registered(&self, application: &Identity) -> (r: bool)
        ensures
            r == self@.contains_key(application@),
    {
        self.registry.contains(application)
    }

    /// The bindings as they were made, oldest first.
    pub fn bindings(&self) -> (r: &Vec<Binding>)
        ensures
            crate::registry::bindings_map(crate::registry::bindings_view(r@)) == self@,
    {
        self.registry.bindings()
    }

    /// One step of a provisioning: takes the report of what was last asked
    /// for, and says what to do next. The directory changes in one case only:
    /// when the installation is reported for an application without a bucket.
    pub fn advance(
        &mut self,
        request: &ProvisionRequest,
        stage: ProvisionStage,
        event: ProvisionEvent,
    ) -> (r: (ProvisionStage, ProvisionAction))
        ensures
            (final(self)@, r.0, r.1@) == provision_step(
                old(self)@,
                request.caller@,
                request.unit@,
                stage,
                event,
            ),
    {
        match (stage, event) {
            (ProvisionStage::Requested, ProvisionEvent::Begin) => {
                if self.registry.contains(&request.caller) {
                    (ProvisionStage::Finished, ProvisionAction::Fail(ProvisionError::AlreadyRegistered))
                } else {
                    (ProvisionStage::AwaitingStatus, ProvisionAction::QueryStatus)
                }
            },
            (ProvisionStage::AwaitingStatus, ProvisionEvent::Status(status)) => {
                match check_unit(&status) {
                    Some(fault) => (
                        ProvisionStage::Finished,
                        ProvisionAction::Fail(ProvisionError::Configuration(fault)),
                    ),
                    None => match install_argument(&request.caller) {
                        Some(argument) => (
                            ProvisionStage::AwaitingInstall,
                            ProvisionAction::Install(argument),
                        ),
                        None => (
                            ProvisionStage::Finished,
                            ProvisionAction::Fail(ProvisionError::ArgumentEncoding),
                        ),
                    },
                }
            },
            (ProvisionStage::AwaitingInstall, ProvisionEvent::Installed) => {
                if self.registry.contains(&request.caller) {
                    (ProvisionStage::Finished, ProvisionAction::Fail(ProvisionError::AlreadyRegistered))
                } else {
                    self.registry.insert(request.caller.duplicate(), request.unit.duplicate());
                    (ProvisionStage::Finished, ProvisionAction::Done)
                }
            },
            (ProvisionStage::AwaitingStatus, ProvisionEvent::Rejected(code, message)) => (
                ProvisionStage::Finished,
                ProvisionAction::Fail(ProvisionError::Unexpected(code, message)),
            ),
            (ProvisionStage::AwaitingInstall, ProvisionEvent::Rejected(code, message)) => (
                ProvisionStage::Finished,
                ProvisionAction::Fail(ProvisionError::Unexpected(code, message)),
            ),
            _ => (ProvisionStage::Finished, ProvisionAction::Fail(ProvisionError::OutOfOrder)),
        }
    }
}

/// Whatever is reported, a step binds at most the caller of the request, to
/// the unit of the request, and only where the caller had no bucket and the
/// installation is reported to the router that waits for it. An application
/// that has a bucket keeps it: no step gives it a second one.
pub proof fn law_step_binds_once(
    registry: Map<Seq<u8>, Seq<u8>>,
    caller: Seq<u8>,
    unit: Seq<u8>,
    stage: ProvisionStage,
    event: ProvisionEvent,
)
    ensures
        ({
            let (after, next, action) = provision_step(registry, caller, unit, stage, event);
            &&& action is Done <==> stage == ProvisionStage::AwaitingInstall && event is Installed
                && !registry.contains_key(caller)
            &&& action is Done ==> after == registry.insert(caller, unit)
            &&& !(action is Done) ==> after == registry
            &&& registry.contains_key(caller) ==> after == registry
            &&& registry.contains_key(caller) && event is Begin && stage == ProvisionStage::Requested
                ==> action == ProvisionActionView::Fail(ProvisionError::AlreadyRegistered)
            &&& action is Done || action is Fail <==> next == ProvisionStage::Finished
        }),
{
}

/// A provisioning that went through makes the next request of the same
/// application fail with `AlreadyRegistered`, at its first step and at its
/// last, and leaves the binding as it is.
pub proof fn law_second_provisioning_rejected(
    registry: Map<Seq<u8>, Seq<u8>>,
    caller: Seq<u8>,
    first_unit: Seq<u8>,
    second_unit: Seq<u8>,
)
    requires
        !registry.contains_key(caller),
    ensures
        ({
            let bound = provision_step(
                registry,
                caller,
                first_unit,
                ProvisionStage::AwaitingInstall,
                ProvisionEvent::Installed,
            ).0;
            let again = provision_step(
                bound,
                caller,
                second_unit,
                ProvisionStage::Requested,
                ProvisionEvent::Begin,
            );
            let late = provision_step(
                bound,
                caller,
                second_unit,
                ProvisionStage::AwaitingInstall,
                ProvisionEvent::Installed,
            );
            &&& bound[caller] == first_unit
            &&& again == (
                bound,
                ProvisionStage::Finished,
                ProvisionActionView::Fail(ProvisionError::AlreadyRegistered),
            )
            &&& late == (
                bound,
                ProvisionStage::Finished,
                ProvisionActionView::Fail(ProvisionError::AlreadyRegistered),
            )
        }),
{
}

/// No step of a provisioning for one application shows in what the router
/// holds for another.
pub proof fn law_step_leaves_others(
    registry: Map<Seq<u8>, Seq<u8>>,
    caller: Seq<u8>,
    unit: Seq<u8>,
    stage: ProvisionStage,
    event: ProvisionEvent,
    other: Seq<u8>,
)
    requires
        other != caller,
    ensures
        ({
            let after = provision_step(registry, caller, unit, stage, event).0;
            &&& after.contains_key(other) == registry.contains_key(other)
            &&& after.contains_key(other) ==> after[other] == registry[other]
        }),
{
}

} // verus!
