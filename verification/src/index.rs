//! The index: the directory from an application to the root of its chain of
//! buckets. An entry is made once and never changed.

use vstd::prelude::*;
use crate::identity::Identity;
use crate::registry::{Binding, Registry};
use crate::router::{
    ProvisionAction,
    ProvisionError,
    ProvisionEvent,
    ProvisionRequest,
    ProvisionStage,
    Router,
    provision_step,
};

verus! {

/// Why the root bucket of an application was not found.
#[derive(Debug, PartialEq, Eq)]
pub enum GetContractRootError {
    /// The application has no root bucket, and none was to be made.
    NotFound,
    /// The application had no root bucket, and making one failed.
    Provision(ProvisionError),
}

/// What the index makes of a question for a root bucket.
#[derive(Clone, Debug, PartialEq, Eq)]
pub enum RootResolution {
    /// The application has this root bucket.
    Known(Identity),
    /// The application has none, and one is to be provisioned.
    Provision,
    /// The application has none, and none is to be made.
    NotFound,
}

/// The mathematical value of a [`RootResolution`].
pub enum RootResolutionView {
    Known(Seq<u8>),
    Provision,
    NotFound,
}

impl View for RootResolution {
    type V = RootResolutionView;

    open spec fn view(&self) -> RootResolutionView {
        match self {
            RootResolution::Known(root) => RootResolutionView::Known(root@),
            RootResolution::Provision => RootResolutionView::Provision,
            RootResolution::NotFound => RootResolutionView::NotFound,
        }
    }
}

/// The index's rule: a known root is handed out; an unknown one is made only
/// where the question asks for it.
pub open spec fn resolve_root(
    roots: Map<Seq<u8>, Seq<u8>>,
    application: Seq<u8>,
    create_if_missing: bool,
) -> RootResolutionView {
    if roots.contains_key(application) {
        RootResolutionView::Known(roots[application])
    } else if create_if_missing {
        RootResolutionView::Provision
    } else {
        RootResolutionView::NotFound
    }
}

/// The directory from each application to its root bucket.
#[derive(Debug)]
pub struct Index {
    roots: Registry,
}

impl View for Index {
    type V = Map<Seq<u8>, Seq<u8>>;

    closed spec fn view(&self) -> Map<Seq<u8>, Seq<u8>> {
        self.roots@
    }
}

impl Index {
    /// An index that knows no application yet.
    pub fn new() -> (r: Index)
        ensures
            r@ == Map::<Seq<u8>, Seq<u8>>::empty(),
    {
        Index { roots: Registry::new() }
    }

    /// The root bucket of `application`, where the index knows it.
    pub fn root_of(&self, application: &Identity) -> (r: Option<&Identity>)
        ensures
            match r {
                Some(root) => self@.contains_key(application@) && self@[application@] == root@,
                None => !self@.contains_key(application@),
            },
    {
        self.roots.get(application)
    }

    /// What to do about a question for the root bucket of `application`.
    pub fn resolve(&self, application: &Identity, create_if_missing: bool) -> (r: RootResolution)
        ensures
            r@ == resolve_root(self@, application@, create_if_missing),
    {
        match self.roots.get(application) {
            Some(root) => RootResolution::Known(root.duplicate()),
            None => if create_if_missing {
                RootResolution::Provision
            } else {
                RootResolution::NotFound
            },
        }
    }

    /// The root bucket of `application`, without making one.
    pub fn get_token_contract_root_bucket(&self, application: &Identity) -> (r: Result<
        Identity,
        GetContractRootError,
    >)
        ensures
            match r {
                Ok(root) => self@.contains_key(application@) && root@ == self@[application@],
                Err(e) => !self@.contains_key(application@) && e == GetContractRootError::NotFound,
            },
    {
        match self.roots.get(application) {
            Some(root) => Ok(root.duplicate()),
            None => Err(GetContractRootError::NotFound),
        }
    }

    /// Records `root` as the root bucket of `application`, unless the
    /// application has one: an entry is never reassigned.
    pub fn record(&mut self, application: &Identity, root: &Identity) -> (recorded: bool)
        ensures
            recorded == !old(self)@.contains_key(application@),
            recorded ==> final(self)@ == old(self)@.insert(application@, root@),
            !recorded ==> final(self)@ == old(self)@,
    {
        if self.roots.contains(application) {
            false
        } else {
            self.roots.insert(application.duplicate(), root.duplicate());
            true
        }
    }

    /// The entries as they were made, oldest first.
    pub fn entries(&self) -> (r: &Vec<Binding>)
        ensures
            crate::registry::bindings_map(crate::registry::bindings_view(r@)) == self@,
    {
        self.roots.bindings()
    }
}

/// The index after a step of a provisioning: a binding that the router made
/// is reflected into the index, unless the application has an entry there.
pub open spec fn reflected(
    roots: Map<Seq<u8>, Seq<u8>>,
    caller: Seq<u8>,
    unit: Seq<u8>,
    bound: bool,
) -> Map<Seq<u8>, Seq<u8>> {
    if bound && !roots.contains_key(caller) {
        roots.insert(caller, unit)
    } else {
        roots
    }
}

/// One step of a provisioning with the index kept up: the router decides as
/// [`Router::advance`] says, and where it makes the binding, the binding is
/// reflected into the index.
pub fn advance_with_index(
    router: &mut Router,
    index: &mut Index,
    request: &ProvisionRequest,
    stage: ProvisionStage,
    event: ProvisionEvent,
) -> (r: (ProvisionStage, ProvisionAction))
    ensures
        (final(router)@, r.0, r.1@) == provision_step(
            old(router)@,
            request.caller@,
            request.unit@,
            stage,
            event,
        ),
        final(index)@ == reflected(old(index)@, request.caller@, request.unit@, r.1@ is Done),
{
    let (next, action) = router.advance(request, stage, event);
    match action {
        ProvisionAction::Done => {
            let _ = index.record(&request.caller, &request.unit);
        },
        _ => {},
    }
    (next, action)
}

} // verus!
