use bash_builtins::args::Args;
use bash_builtins::errors::Error;
use bash_builtins::errors::EXECUTION_FAILURE;
use bash_builtins::errors::EXECUTION_SUCCESS;
use bash_builtins::errors::EX_USAGE;
use bash_builtins::errors::FAULT_SENTINEL;
use bash_builtins::lifecycle::CallOutcome;
use bash_builtins::lifecycle::CallRefusal;
use bash_builtins::lifecycle::GuardedStore;
use bash_builtins::lifecycle::UnloadDisposition;
use bash_builtins::Builtin;

struct Probe {
    calls: usize,
}

impl Builtin for Probe {
    fn call(&mut self, _args: &mut Args) -> Result<(), Error> {
        self.calls += 1;
        Ok(())
    }
}

#[test]
fn successful_call_keeps_store_loaded() {
    let mut store: GuardedStore<Probe> = GuardedStore::new();
    store.load(Probe { calls: 0 }).map_err(|_| ()).unwrap();

    let mut inst = store.begin_call().map_err(|_| ()).unwrap();
    let mut args = Args::new(Vec::new());
    let outcome = match inst.call(&mut args) {
        Ok(()) => CallOutcome::Completed(Ok(())),
        Err(e) => CallOutcome::Completed(Err(e)),
    };
    let d = store.settle_call(inst, outcome);
    assert_eq!(d.exit_code, EXECUTION_SUCCESS);
    assert!(d.message.is_none());
    assert!(!store.is_poisoned());
    assert!(store.is_loaded());
}

#[test]
fn declared_errors_map_to_exit_codes() {
    let mut store: GuardedStore<Probe> = GuardedStore::new();
    store.load(Probe { calls: 0 }).map_err(|_| ()).unwrap();

    let inst = store.begin_call().map_err(|_| ()).unwrap();
    let d = store.settle_call(inst, CallOutcome::Completed(Err(Error::Usage)));
    assert_eq!(d.exit_code, EX_USAGE);
    assert!(d.message.is_none());

    let inst = store.begin_call().map_err(|_| ()).unwrap();
    let d = store.settle_call(inst, CallOutcome::Completed(Err(Error::ExitCode(127))));
    assert_eq!(d.exit_code, 127);
    assert!(d.message.is_none());

    let inst = store.begin_call().map_err(|_| ()).unwrap();
    let d = store.settle_call(
        inst,
        CallOutcome::Completed(Err(Error::GenericError(b"boom".to_vec()))),
    );
    assert_eq!(d.exit_code, EXECUTION_FAILURE);
    assert_eq!(d.message, Some(b"boom".to_vec()));
}

#[test]
fn fault_poisons_store_and_yields_sentinel() {
    let mut store: GuardedStore<Probe> = GuardedStore::new();
    store.load(Probe { calls: 0 }).map_err(|_| ()).unwrap();

    // A call whose abnormal termination the supervising wrapper
    // intercepted.
    let inst = store.begin_call().map_err(|_| ()).unwrap();
    let d = store.settle_call(inst, CallOutcome::Fault);
    assert_eq!(d.exit_code, FAULT_SENTINEL);
    assert!(store.is_poisoned());

    // The next call is refused without touching the instance.
    match store.begin_call() {
        Err(CallRefusal::PoisonedState) => {}
        _ => panic!("a poisoned store must refuse the call"),
    }
    assert!(store.is_loaded());

    // Unload after poisoning does not run the release logic: the
    // instance comes back to be leaked.
    match store.unload() {
        UnloadDisposition::Leak(inst) => {
            std::mem::forget(inst);
        }
        _ => panic!("a poisoned store must leak its instance"),
    }
    assert!(!store.is_poisoned());
    assert!(!store.is_loaded());
}

#[test]
fn unload_releases_after_normal_operation() {
    let mut store: GuardedStore<Probe> = GuardedStore::new();
    store.load(Probe { calls: 0 }).map_err(|_| ()).unwrap();
    match store.unload() {
        UnloadDisposition::Release(inst) => drop(inst),
        _ => panic!("an unpoisoned store must release its instance"),
    }
    assert!(!store.is_loaded());

    let mut empty: GuardedStore<Probe> = GuardedStore::new();
    assert!(matches!(empty.unload(), UnloadDisposition::NothingStored));
}

#[test]
fn empty_store_refuses_calls_as_not_loaded() {
    let mut store: GuardedStore<Probe> = GuardedStore::new();
    match store.begin_call() {
        Err(CallRefusal::NotLoaded) => {}
        _ => panic!("an empty store must refuse the call"),
    }
    assert_eq!(CallRefusal::NotLoaded.exit_code(), EXECUTION_FAILURE);
}

#[test]
fn poisoned_store_refuses_load() {
    let mut store: GuardedStore<Probe> = GuardedStore::new();
    store.load(Probe { calls: 0 }).map_err(|_| ()).unwrap();
    let inst = store.begin_call().map_err(|_| ()).unwrap();
    let _ = store.settle_call(inst, CallOutcome::Fault);

    match store.load(Probe { calls: 7 }) {
        Err(refused) => assert_eq!(refused.calls, 7),
        Ok(()) => panic!("a poisoned store must refuse a load"),
    }
}

#[test]
fn error_exit_codes_and_printing() {
    assert_eq!(Error::Usage.exit_code(), EX_USAGE);
    assert_eq!(Error::ExitCode(3).exit_code(), 3);
    assert_eq!(Error::GenericError(b"m".to_vec()).exit_code(), EXECUTION_FAILURE);

    assert!(!Error::Usage.print_on_return());
    assert!(!Error::ExitCode(3).print_on_return());
    assert!(Error::GenericError(b"m".to_vec()).print_on_return());
}
