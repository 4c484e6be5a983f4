//! What the client layer knows of its surroundings: the root bucket of its
//! application, and the index that told it. The store is the source of truth;
//! this is a copy, kept for the life of the process, and carried across an
//! upgrade by hand.

use vstd::prelude::*;
use crate::identity::Identity;
use crate::index::{GetContractRootError, Index};

verus! {

/// The cached binding of an application: its root bucket and its index.
#[derive(Clone, Debug, PartialEq, Eq)]
pub struct CapEnv {
    pub(crate) root: Identity,
    pub(crate) index: Identity,
}

/// The mathematical value of a [`CapEnv`].
pub struct CapEnvView {
    pub root: Seq<u8>,
    pub index: Seq<u8>,
}

impl View for CapEnv {
    type V = CapEnvView;

    closed spec fn view(&self) -> CapEnvView {
        CapEnvView { root: self.root@, index: self.index@ }
    }
}

/// The place in which a process keeps its [`CapEnv`].
#[derive(Debug)]
pub struct EnvSlot {
    env: Option<CapEnv>,
}

impl View for EnvSlot {
    type V = Option<CapEnvView>;

    closed spec fn view(&self) -> Option<CapEnvView> {
        match self.env {
            Some(env) => Some(env@),
            None => None,
        }
    }
}

impl EnvSlot {
    /// A place that holds nothing yet.
    pub fn new() -> (s: EnvSlot)
        ensures
            s@ is None,
    {
        EnvSlot { env: None }
    }

    /// What the place holds.
    pub fn cached(&self) -> (r: Option<&CapEnv>)
        ensures
            match r {
                Some(env) => self@ == Some(env@),
                None => self@ is None,
            },
    {
        match &self.env {
            Some(env) => Some(env),
            None => None,
        }
    }
}

impl CapEnv {
    /// The binding with the given root bucket, learned from the given index.
    pub fn new(root: Identity, index: Identity) -> (r: CapEnv)
        ensures
            r@ == (CapEnvView { root: root@, index: index@ }),
    {
        CapEnv { root, index }
    }

    /// The binding of `application` as the index with the identity `index_id`
    /// knows it. Nothing is provisioned: an application without a root bucket
    /// gets `NotFound`.
    pub fn create(index_id: Identity, index: &Index, application: &Identity) -> (r: Result<
        CapEnv,
        GetContractRootError,
    >)
        ensures
            match r {
                Ok(env) => index@.contains_key(application@) && env@ == (CapEnvView {
                    root: index@[application@],
                    index: index_id@,
                }),
                Err(e) => !index@.contains_key(application@) && e == GetContractRootError::NotFound,
            },
    {
        match index.get_token_contract_root_bucket(application) {
            Ok(root) => Ok(CapEnv { root, index: index_id }),
            Err(e) => Err(e),
        }
    }

    /// The root bucket of the application.
    pub fn root(&self) -> (r: &Identity)
        ensures
            r@ == self@.root,
    {
        &self.root
    }

    /// The index that the binding came from.
    pub fn index(&self) -> (r: &Identity)
        ensures
            r@ == self@.index,
    {
        &self.index
    }

    /// A copy of the binding.
    pub fn duplicate(&self) -> (r: CapEnv)
        ensures
            r@ == self@,
    {
        CapEnv { root: self.root.duplicate(), index: self.index.duplicate() }
    }

    /// Keeps a copy of the binding in `slot`, in place of what it held.
    pub fn store(&self, slot: &mut EnvSlot)
        ensures
            final(slot)@ == Some(self@),
    {
        slot.env = Some(self.duplicate());
    }

    /// The binding of `application`: the one that `slot` holds, or else, on a
    /// cold start, the one that is rebuilt from what the index with the
    /// identity `index_id` knows, and kept in `slot` from then on. Nothing is
    /// provisioned: where the slot is empty and the index knows no root
    /// bucket, there is `NotFound` and the slot stays empty.
    pub fn get<'a>(
        slot: &'a mut EnvSlot,
        index_id: Identity,
        index: &Index,
        application: &Identity,
    ) -> (r: Result<&'a CapEnv, GetContractRootError>)
        ensures
            (
                final(slot)@,
                match r {
                    Ok(env) => Ok(env@),
                    Err(e) => Err(e),
                },
            ) == rebuilt(old(slot)@, index_id@, index@, application@),
    {
        if slot.env.is_none() {
            match CapEnv::create(index_id, index, application) {
                Ok(env) => {
                    slot.env = Some(env);
                },
                Err(e) => {
                    return Err(e);
                },
            }
        }
        match &slot.env {
            Some(env) => Ok(env),
            None => Err(GetContractRootError::NotFound),
        }
    }

    /// Puts `env` in `slot`: what is done after an upgrade with the binding
    /// that was saved before it.
    pub fn load_from_archive(slot: &mut EnvSlot, env: CapEnv)
        ensures
            final(slot)@ == Some(env@),
    {
        env.store(slot);
    }

    /// A copy of the binding of `application`, to be saved before an upgrade:
    /// the one that `slot` holds, or else the one that is rebuilt from the
    /// index and kept, as [`CapEnv::get`] does.
    pub fn to_archive(
        slot: &mut EnvSlot,
        index_id: Identity,
        index: &Index,
        application: &Identity,
    ) -> (r: Result<CapEnv, GetContractRootError>)
        ensures
            (
                final(slot)@,
                match r {
                    Ok(env) => Ok(env@),
                    Err(e) => Err(e),
                },
            ) == rebuilt(old(slot)@, index_id@, index@, application@),
    {
        match CapEnv::get(slot, index_id, index, application) {
            Ok(env) => Ok(env.duplicate()),
            Err(e) => Err(e),
        }
    }
}

/// What a question for the binding of `application` does to the slot, and
/// what it answers. A binding that is held is handed out, and stays. An empty
/// slot is a cold start: the binding is rebuilt from the root bucket that the
/// index knows, and held from then on; where the index knows none, the answer
/// is `NotFound` and the slot stays empty.
pub open spec fn rebuilt(
    slot: Option<CapEnvView>,
    index_id: Seq<u8>,
    roots: Map<Seq<u8>, Seq<u8>>,
    application: Seq<u8>,
) -> (Option<CapEnvView>, Result<CapEnvView, GetContractRootError>) {
    match slot {
        Some(env) => (slot, Ok(env)),
        None => if roots.contains_key(application) {
            let env = CapEnvView { root: roots[application], index: index_id };
            (Some(env), Ok(env))
        } else {
            (None, Err(GetContractRootError::NotFound))
        },
    }
}

} // verus!
