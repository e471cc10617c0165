//! The lifecycle manager.
//!
//! One extension instance lives behind a [`GuardedStore`]: an optional
//! instance plus a poison flag. The host drives load, call and unload;
//! the store enforces the state machine Unloaded, Loaded, Poisoned.
//!
//! A call into the instance is unverified user code, so it runs outside
//! this library under a supervising wrapper that intercepts abnormal
//! termination and reports a [`CallOutcome`] back. The host glue calls
//! [`GuardedStore::begin_call`] to take the instance, runs it, and hands
//! the instance and the outcome to [`GuardedStore::settle_call`], which
//! updates the state and maps the outcome to an exit code. An
//! intercepted fault yields the fixed sentinel exit code and poisons the
//! store; every later call is refused until an unload, and unloading a
//! poisoned store hands the instance back to be leaked, not released:
//! its post-fault internal state is unknown, and running its release
//! logic would risk a second fault.

use vstd::prelude::*;

use crate::errors::Error;
use crate::errors::EXECUTION_FAILURE;
use crate::errors::EXECUTION_SUCCESS;
use crate::errors::FAULT_SENTINEL;

verus! {

/// Why a call could not begin.
#[derive(Debug, PartialEq, Eq, Structural, Clone, Copy)]
pub enum CallRefusal {
    /// An earlier call's abnormal termination was intercepted; the
    /// stored instance is unsafe to reuse until an unload.
    PoisonedState,
    /// No instance is stored: load has not run, or failed.
    NotLoaded,
}

impl CallRefusal {
    /// The exit code of a refused call.
    pub fn exit_code(&self) -> (r: i32)
        ensures
            r == EXECUTION_FAILURE,
    {
        EXECUTION_FAILURE
    }
}

/// What the supervising wrapper observed of one call into the instance.
#[derive(Debug)]
pub enum CallOutcome {
    /// The call returned normally, with the instance's declared result.
    Completed(Result<(), Error>),
    /// The wrapper intercepted an abnormal termination.
    Fault,
}

/// What the host should do with a finished call.
#[derive(Debug)]
pub struct CallDisposition {
    /// The exit code to return to the host.
    pub exit_code: i32,
    /// The message to print once to the host's error stream, for the
    /// error kinds that print.
    pub message: Option<Vec<u8>>,
}

/// What the host glue should do with the instance at unload.
#[derive(Debug)]
pub enum UnloadDisposition<T> {
    /// Drop the instance: its release logic runs.
    Release(T),
    /// Leak the instance without dropping it: it was poisoned by an
    /// intercepted fault, and its release logic must not run.
    Leak(T),
    /// Nothing was stored.
    NothingStored,
}

/// The abstract state of a guarded store.
pub struct StoreModel<T> {
    /// The stored instance, if one is loaded.
    pub instance: Option<T>,
    /// True after an intercepted fault, until the next unload.
    pub poisoned: bool,
}

/// Holds the single extension instance behind a poison flag.
pub struct GuardedStore<T> {
    instance: Option<T>,
    poisoned: bool,
}

impl<T> View for GuardedStore<T> {
    type V = StoreModel<T>;

    closed spec fn view(&self) -> StoreModel<T> {
        StoreModel { instance: self.instance, poisoned: self.poisoned }
    }
}

/// The state transition and result of `load`.
pub open spec fn load_rel<T>(pre: StoreModel<T>, instance: T, post: StoreModel<T>, r: Result<
    (),
    T,
>) -> bool {
    if pre.poisoned {
        &&& (r matches Err(t) && t == instance)
        &&& post == pre
    } else {
        &&& r matches Ok(())
        &&& post.instance == Option::Some(instance)
        &&& !post.poisoned
    }
}

/// The state transition and result of `begin_call`.
pub open spec fn begin_call_rel<T>(pre: StoreModel<T>, post: StoreModel<T>, r: Result<
    T,
    CallRefusal,
>) -> bool {
    if pre.poisoned {
        &&& (r matches Err(e) && e == CallRefusal::PoisonedState)
        &&& post == pre
    } else if pre.instance is None {
        &&& (r matches Err(e) && e == CallRefusal::NotLoaded)
        &&& post == pre
    } else {
        &&& (r matches Ok(t) && pre.instance == Option::Some(t))
        &&& post.instance is None
        &&& !post.poisoned
    }
}

/// The state transition and disposition of `settle_call`.
pub open spec fn settle_call_rel<T>(
    pre: StoreModel<T>,
    instance: T,
    outcome: CallOutcome,
    post: StoreModel<T>,
    r: CallDisposition,
) -> bool {
    &&& post.instance == Option::Some(instance)
    &&& match outcome {
        CallOutcome::Fault => {
            &&& post.poisoned
            &&& r.exit_code == FAULT_SENTINEL
            &&& r.message is None
        },
        CallOutcome::Completed(res) => {
            &&& post.poisoned == pre.poisoned
            &&& match res {
                Ok(()) => r.exit_code == EXECUTION_SUCCESS && r.message is None,
                Err(e) => {
                    &&& r.exit_code == e.exit_code_spec()
                    &&& match e {
                        Error::GenericError(m) => r.message == Option::Some(m),
                        _ => r.message is None,
                    }
                },
            }
        },
    }
}

/// The state transition and disposition of `unload`.
pub open spec fn unload_rel<T>(pre: StoreModel<T>, post: StoreModel<T>, r: UnloadDisposition<
    T,
>) -> bool {
    &&& post.instance is None
    &&& !post.poisoned
    &&& match pre.instance {
        Option::None => r is NothingStored,
        Option::Some(t) => if pre.poisoned {
            r == UnloadDisposition::Leak(t)
        } else {
            r == UnloadDisposition::Release(t)
        },
    }
}

impl<T> GuardedStore<T> {
    /// An empty, unpoisoned store.
    pub fn new() -> (r: GuardedStore<T>)
        ensures
            r@.instance is None,
            !r@.poisoned,
    {
        GuardedStore { instance: Option::None, poisoned: false }
    }

    /// True after an intercepted fault, until the next unload.
    pub fn is_poisoned(&self) -> (r: bool)
        ensures
            r == self@.poisoned,
    {
        self.poisoned
    }

    /// True if an instance is stored.
    pub fn is_loaded(&self) -> (r: bool)
        ensures
            r == (self@.instance is Some),
    {
        self.instance.is_some()
    }

    /// Stores a freshly constructed instance. A poisoned store refuses
    /// the instance and hands it back.
    pub fn load(&mut self, instance: T) -> (r: Result<(), T>)
        ensures
            load_rel(old(self)@, instance, final(self)@, r),
    {
        if self.poisoned {
            Err(instance)
        } else {
            self.instance = Option::Some(instance);
            Ok(())
        }
    }

    /// Takes the instance out to run one call. A poisoned store refuses
    /// without touching the instance; an empty store refuses as not
    /// loaded. The caller must hand the instance back, with the call's
    /// outcome, to [`GuardedStore::settle_call`].
    pub fn begin_call(&mut self) -> (r: Result<T, CallRefusal>)
        ensures
            begin_call_rel(old(self)@, final(self)@, r),
    {
        if self.poisoned {
            return Err(CallRefusal::PoisonedState);
        }
        let mut taken: Option<T> = Option::None;
        core::mem::swap(&mut taken, &mut self.instance);
        match taken {
            Option::None => Err(CallRefusal::NotLoaded),
            Option::Some(t) => Ok(t),
        }
    }

    /// Stores the instance back and resolves the call's outcome: an
    /// intercepted fault poisons the store and yields the fault
    /// sentinel; success yields exit code zero; a declared error yields
    /// its mapped exit code, with its message exactly when the error
    /// kind prints.
    pub fn settle_call(&mut self, instance: T, outcome: CallOutcome) -> (r: CallDisposition)
        ensures
            settle_call_rel(old(self)@, instance, outcome, final(self)@, r),
    {
        self.instance = Option::Some(instance);
        match outcome {
            CallOutcome::Fault => {
                self.poisoned = true;
                CallDisposition { exit_code: FAULT_SENTINEL, message: Option::None }
            },
            CallOutcome::Completed(res) => match res {
                Ok(()) => CallDisposition { exit_code: EXECUTION_SUCCESS, message: Option::None },
                Err(e) => {
                    let code = e.exit_code();
                    let message = match e {
                        Error::GenericError(m) => Option::Some(m),
                        _ => Option::None,
                    };
                    CallDisposition { exit_code: code, message }
                },
            },
        }
    }

    /// Empties the store and clears the poison flag. The instance comes
    /// back to the caller with the disposition the state machine
    /// demands: released after normal operation, leaked after a fault.
    pub fn unload(&mut self) -> (r: UnloadDisposition<T>)
        ensures
            unload_rel(old(self)@, final(self)@, r),
    {
        let was_poisoned = self.poisoned;
        self.poisoned = false;
        let mut taken: Option<T> = Option::None;
        core::mem::swap(&mut taken, &mut self.instance);
        match taken {
            Option::None => UnloadDisposition::NothingStored,
            Option::Some(t) => {
                if was_poisoned {
                    UnloadDisposition::Leak(t)
                } else {
                    UnloadDisposition::Release(t)
                }
            },
        }
    }
}

/// Fault containment: settling an intercepted fault poisons the store
/// and yields the fault sentinel; the next call is refused with the
/// internal-state error and the instance is not handed out; and an
/// unload after the fault hands the instance back to be leaked, so its
/// release logic does not run.
pub proof fn lemma_fault_containment<T>(
    pre: StoreModel<T>,
    inst: T,
    post1: StoreModel<T>,
    d: CallDisposition,
    post2: StoreModel<T>,
    r2: Result<T, CallRefusal>,
    post3: StoreModel<T>,
    r3: UnloadDisposition<T>,
)
    requires
        pre.instance is None,
        settle_call_rel(pre, inst, CallOutcome::Fault, post1, d),
        begin_call_rel(post1, post2, r2),
        unload_rel(post2, post3, r3),
    ensures
        post1.poisoned,
        d.exit_code == FAULT_SENTINEL,
        r2 == Err::<T, CallRefusal>(CallRefusal::PoisonedState),
        post2 == post1,
        r3 == UnloadDisposition::Leak(inst),
        post3.instance is None,
        !post3.poisoned,
{
}

} // verus!
