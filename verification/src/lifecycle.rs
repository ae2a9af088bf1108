use vstd::prelude::*;
use crate::value::Value;
use crate::capability::PluginKind;
use crate::registry::{Registry, InvokeOutcome, InvokeError, ConstructError, construct_post,
    invoke_post, destroy_post};

verus! {

/// Where a module stands in its life: mapped but dormant, or initialized
/// and serving calls.
pub enum LifecycleState {
    Unloaded,
    Loaded,
    Initialized,
}

/// Why a lifecycle transition was refused.
#[derive(Debug)]
pub enum LifecycleError {
    AlreadyLoaded,
    NotLoaded,
    InstancesStillLive,
}

/// The module's `init` answered success.
pub const STATUS_OK: i64 = 0;

/// The module was already initialized: a benign answer, not corruption.
pub const STATUS_ALREADY_INITIALIZED: i64 = 1;

/// `init` was called before the module was loaded.
pub const STATUS_NOT_LOADED: i64 = 2;

/// One loaded module and its live instances, driven through the protocol
/// load, init, construct and operate, destroy, unload.
pub struct Module {
    pub state: LifecycleState,
    pub registry: Registry,
}

impl Module {
    pub open spec fn wf(self) -> bool {
        self.registry.wf()
    }

    /// A module not yet loaded.
    pub fn new() -> (r: Module)
        ensures
            r.wf(),
            r.state is Unloaded,
            r.registry.live@.len() == 0,
            r.registry.next_handle == 0,
    {
        Module { state: LifecycleState::Unloaded, registry: Registry::new() }
    }

    /// Maps the module: no plugin code runs yet.
    pub fn load(&mut self) -> (r: Result<(), LifecycleError>)
        requires
            old(self).wf(),
        ensures
            final(self).wf(),
            final(self).registry == old(self).registry,
            r is Ok <==> old(self).state is Unloaded,
            r is Ok ==> final(self).state is Loaded,
            r is Err ==> *final(self) == *old(self) && r == Err::<(), LifecycleError>(
                LifecycleError::AlreadyLoaded,
            ),
    {
        match self.state {
            LifecycleState::Unloaded => {
                self.state = LifecycleState::Loaded;
                Ok(())
            },
            _ => Err(LifecycleError::AlreadyLoaded),
        }
    }

    /// Runs the module's single initialization step. The first call on a
    /// loaded module answers success; a second call answers a benign
    /// already-initialized status and changes nothing; a call before
    /// loading answers a failure status and changes nothing.
    pub fn init(&mut self) -> (r: i64)
        requires
            old(self).wf(),
        ensures
            final(self).wf(),
            final(self).registry == old(self).registry,
            old(self).state is Loaded ==> r == STATUS_OK && final(self).state is Initialized,
            old(self).state is Initialized ==> r == STATUS_ALREADY_INITIALIZED && *final(self)
                == *old(self),
            old(self).state is Unloaded ==> r == STATUS_NOT_LOADED && *final(self) == *old(self),
    {
        match self.state {
            LifecycleState::Loaded => {
                self.state = LifecycleState::Initialized;
                STATUS_OK
            },
            LifecycleState::Initialized => STATUS_ALREADY_INITIALIZED,
            LifecycleState::Unloaded => STATUS_NOT_LOADED,
        }
    }

    /// Constructs an instance; valid only once the module is initialized.
    pub fn construct(&mut self, kind: PluginKind) -> (r: Result<u64, ConstructError>)
        requires
            old(self).wf(),
        ensures
            final(self).wf(),
            final(self).state == old(self).state,
            !(old(self).state is Initialized) ==> r == Err::<u64, ConstructError>(
                ConstructError::ModuleNotReady,
            ) && *final(self) == *old(self),
            old(self).state is Initialized ==> construct_post(
                old(self).registry,
                final(self).registry,
                kind,
                r,
            ),
    {
        match self.state {
            LifecycleState::Initialized => self.registry.construct(kind),
            _ => Err(ConstructError::ModuleNotReady),
        }
    }

    /// Invokes an operation; valid only once the module is initialized.
    pub fn invoke(&mut self, h: u64, op: &Vec<u8>, args: &Vec<Value>) -> (r: Result<
        InvokeOutcome,
        InvokeError,
    >)
        requires
            old(self).wf(),
        ensures
            final(self).wf(),
            final(self).state == old(self).state,
            !(old(self).state is Initialized) ==> r == Err::<InvokeOutcome, InvokeError>(
                InvokeError::ModuleNotReady,
            ) && *final(self) == *old(self),
            old(self).state is Initialized ==> invoke_post(
                old(self).registry,
                final(self).registry,
                h,
                op@,
                args@,
                r,
            ),
    {
        match self.state {
            LifecycleState::Initialized => self.registry.invoke(h, op, args),
            _ => Err(InvokeError::ModuleNotReady),
        }
    }

    /// Destroys an instance; valid only once the module is initialized.
    pub fn destroy(&mut self, h: u64) -> (r: Result<(), InvokeError>)
        requires
            old(self).wf(),
        ensures
            final(self).wf(),
            final(self).state == old(self).state,
            !(old(self).state is Initialized) ==> r == Err::<(), InvokeError>(
                InvokeError::ModuleNotReady,
            ) && *final(self) == *old(self),
            old(self).state is Initialized ==> destroy_post(
                old(self).registry,
                final(self).registry,
                h,
                r,
            ),
    {
        match self.state {
            LifecycleState::Initialized => self.registry.destroy(h),
            _ => Err(InvokeError::ModuleNotReady),
        }
    }

    /// Unmaps the module: valid only once every instance is destroyed.
    pub fn unload(&mut self) -> (r: Result<(), LifecycleError>)
        requires
            old(self).wf(),
        ensures
            final(self).wf(),
            r is Ok <==> !(old(self).state is Unloaded) && old(self).registry.live@.len() == 0,
            r is Ok ==> final(self).state is Unloaded,
            r is Err ==> *final(self) == *old(self),
    {
        match self.state {
            LifecycleState::Unloaded => Err(LifecycleError::NotLoaded),
            _ => {
                if self.registry.live.len() > 0 {
                    Err(LifecycleError::InstancesStillLive)
                } else {
                    self.state = LifecycleState::Unloaded;
                    Ok(())
                }
            },
        }
    }
}

/// A stateless operation needs no handle: the sum of two boundary
/// integers.
pub fn add(a: i64, b: i64) -> (r: i64)
    requires
        i64::MIN <= a + b <= i64::MAX,
    ensures
        r == a + b,
{
    a + b
}

} // verus!
