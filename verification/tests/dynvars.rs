use bash_builtins::dynvars::bind;
use bash_builtins::dynvars::DynRead;
use bash_builtins::dynvars::DynVarTable;
use bash_builtins::dynvars::DynWrite;
use bash_builtins::dynvars::DynamicVariable;
use bash_builtins::variables::VariableError;

struct Counter {
    n: u64,
}

impl DynamicVariable for Counter {
    fn get(&mut self) -> Option<Vec<u8>> {
        let value = format!("{}", self.n).into_bytes();
        self.n += 1;
        Some(value)
    }

    fn set(&mut self, value: &Vec<u8>) {
        if let Ok(text) = std::str::from_utf8(value) {
            if let Ok(n) = text.parse() {
                self.n = n;
            }
        }
    }
}

#[test]
fn counter_reads_strictly_increase() {
    let mut table: DynVarTable<Counter> = DynVarTable::new();
    bind(&mut table, &b"X".to_vec(), Counter { n: 0 }).unwrap();

    let first = match table.read_dispatch(&b"X".to_vec()) {
        DynRead::NewValue(v) => v,
        DynRead::Missing => panic!("the binding exists"),
    };
    assert_eq!(first, b"0".to_vec());

    let second = match table.read_dispatch(&b"X".to_vec()) {
        DynRead::NewValue(v) => v,
        DynRead::Missing => panic!("the binding exists"),
    };
    assert_eq!(second, b"1".to_vec());

    let a: u64 = String::from_utf8(first).unwrap().parse().unwrap();
    let b: u64 = String::from_utf8(second).unwrap().parse().unwrap();
    assert!(a < b);
}

#[test]
fn assignment_dispatches_to_the_handler() {
    let mut table: DynVarTable<Counter> = DynVarTable::new();
    bind(&mut table, &b"X".to_vec(), Counter { n: 0 }).unwrap();

    assert_eq!(
        table.write_dispatch(&b"X".to_vec(), &b"1000".to_vec()),
        DynWrite::Dispatched
    );
    match table.read_dispatch(&b"X".to_vec()) {
        DynRead::NewValue(v) => assert_eq!(v, b"1000".to_vec()),
        DynRead::Missing => panic!("the binding exists"),
    }
}

#[test]
fn missing_binding_is_reported() {
    let mut table: DynVarTable<Counter> = DynVarTable::new();
    assert!(matches!(
        table.read_dispatch(&b"NOPE".to_vec()),
        DynRead::Missing
    ));
    assert_eq!(
        table.write_dispatch(&b"NOPE".to_vec(), &b"1".to_vec()),
        DynWrite::Missing
    );
}

#[test]
fn bind_rejects_an_embedded_terminator() {
    let mut table: DynVarTable<Counter> = DynVarTable::new();
    assert_eq!(
        bind(&mut table, &b"A\0B".to_vec(), Counter { n: 0 }),
        Err(VariableError::InvalidName)
    );
    assert!(!table.is_bound(&b"A\0B".to_vec()));
}

#[test]
fn rebinding_replaces_the_handler() {
    let mut table: DynVarTable<Counter> = DynVarTable::new();
    bind(&mut table, &b"X".to_vec(), Counter { n: 10 }).unwrap();
    bind(&mut table, &b"X".to_vec(), Counter { n: 20 }).unwrap();
    match table.read_dispatch(&b"X".to_vec()) {
        DynRead::NewValue(v) => assert_eq!(v, b"20".to_vec()),
        DynRead::Missing => panic!("the binding exists"),
    }
}

#[test]
fn unload_cleanup_takes_every_tracked_name() {
    let mut table: DynVarTable<Counter> = DynVarTable::new();
    bind(&mut table, &b"A".to_vec(), Counter { n: 0 }).unwrap();
    bind(&mut table, &b"B".to_vec(), Counter { n: 0 }).unwrap();

    let names = table.take_all();
    assert_eq!(names, vec![b"A".to_vec(), b"B".to_vec()]);
    assert!(!table.is_bound(&b"A".to_vec()));
    assert!(!table.is_bound(&b"B".to_vec()));
}
