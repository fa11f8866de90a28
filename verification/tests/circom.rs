use circom_witness::witness::circom::{
    first_word, version_or_default, word_or_failure, Circom, Circom2, CircomBase, Wasm,
};
use circom_witness::witness::error::WitnessError;
use wasmer::sys::{BaseTunables, NativeEngineExt};
use wasmer::{wat2wasm, Engine, Imports, Instance, Module, Pages, Store};

const FIRST_GENERATION: &str = r#"
(module
  (memory (export "memory") 1)
  (global $seen (mut i32) (i32.const 7))
  (func (export "init") (param i32) (global.set $seen (local.get 0)))
  (func (export "getNVars") (result i32) (global.get $seen))
  (func (export "getWitnessBuffer") (result i32) (i32.const 1024))
  (func (export "getPWitness") (param i32) (result i32)
    (i32.add (i32.const 1024) (i32.mul (local.get 0) (i32.const 40))))
  (func (export "getFrLen") (result i32) (i32.const 40))
  (func (export "getPRawPrime") (result i32) (i32.const 8))
  (func (export "getSignalOffset32") (param i32 i32 i32 i32)
    (i32.store (local.get 0) (i32.const 99))
    (global.set $seen
      (i32.add (i32.mul (local.get 0) (i32.const 1000))
        (i32.add (i32.mul (local.get 1) (i32.const 100))
          (i32.add (i32.mul (local.get 2) (i32.const 10)) (local.get 3))))))
  (func (export "setSignal") (param i32 i32 i32 i32)
    (global.set $seen
      (i32.add (i32.mul (local.get 0) (i32.const 1000))
        (i32.add (i32.mul (local.get 1) (i32.const 100))
          (i32.add (i32.mul (local.get 2) (i32.const 10)) (local.get 3))))))
  (func (export "minusOne") (result i32) (i32.const -1))
  (func (export "wide") (result i64) (i64.const 5))
  (func (export "nothing"))
  (func (export "trap") (result i32) unreachable)
  (func (export "takesOne") (param i32) (result i32) (local.get 0))
)
"#;

const SECOND_GENERATION: &str = r#"
(module
  (global $slot (mut i32) (i32.const 0))
  (func (export "getVersion") (result i32) (i32.const 2))
  (func (export "getFieldNumLen32") (result i32) (i32.const 8))
  (func (export "getRawPrime") (global.set $slot (i32.const 77)))
  (func (export "readSharedRWMemory") (param i32) (result i32)
    (i32.add (global.get $slot) (local.get 0)))
  (func (export "writeSharedRWMemory") (param i32 i32)
    (global.set $slot (i32.add (i32.mul (local.get 0) (i32.const 100)) (local.get 1))))
  (func (export "setInputSignal") (param i32 i32 i32)
    (global.set $slot
      (i32.add (i32.mul (local.get 0) (i32.const 100))
        (i32.add (i32.mul (local.get 1) (i32.const 10)) (local.get 2)))))
  (func (export "getWitness") (param i32) (global.set $slot (i32.mul (local.get 0) (i32.const 3))))
  (func (export "getWitnessSize") (result i32) (i32.const 3))
)
"#;

const TRAPPING_VERSION: &str = r#"
(module
  (func (export "getVersion") (result i32) unreachable)
)
"#;

const VERSION_IS_A_GLOBAL: &str = r#"
(module
  (global (export "getVersion") i32 (i32.const 2))
)
"#;

// A store whose memories reserve no more address space than they hold.
fn module_store() -> Store {
    let mut engine = Engine::default();
    engine.set_tunables(BaseTunables {
        static_memory_bound: Pages(0),
        static_memory_offset_guard_size: 0,
        dynamic_memory_offset_guard_size: 0x1_0000,
    });
    Store::new(engine)
}

fn adapter(text: &str) -> Wasm {
    let mut store = module_store();
    let bytes = wat2wasm(text.as_bytes()).unwrap();
    let module = Module::new(&store, bytes).unwrap();
    let instance = Instance::new(&mut store, &module, &Imports::new()).unwrap();
    Wasm::new(instance, store)
}

fn missing(name: &str) -> WitnessError {
    WitnessError::MissingExport { name: name.to_string() }
}

fn failure(export: &str, args: Vec<u32>) -> WitnessError {
    WitnessError::ForeignCallFailure { export: export.to_string(), args }
}

#[test]
fn module_without_version_export_reports_version_one() {
    assert_eq!(adapter(FIRST_GENERATION).get_version(), Ok(1));
    assert_eq!(adapter("(module)").get_version(), Ok(1));
    assert_eq!(adapter(VERSION_IS_A_GLOBAL).get_version(), Ok(1));
}

#[test]
fn version_export_is_reported() {
    assert_eq!(adapter(SECOND_GENERATION).get_version(), Ok(2));
}

#[test]
fn trapping_version_export_is_a_failure() {
    assert_eq!(
        adapter(TRAPPING_VERSION).get_version(),
        Err(failure("getVersion", vec![]))
    );
}

#[test]
fn version_or_default_falls_back_to_one() {
    assert_eq!(version_or_default(None), 1);
    assert_eq!(version_or_default(Some(2)), 2);
    assert_eq!(version_or_default(Some(0)), 0);
}

#[test]
fn first_word_reads_the_bits_without_a_sign() {
    assert_eq!(first_word(&vec![]), None);
    assert_eq!(first_word(&vec![None]), None);
    assert_eq!(first_word(&vec![None, Some(1)]), None);
    assert_eq!(first_word(&vec![Some(0)]), Some(0));
    assert_eq!(first_word(&vec![Some(5), Some(6)]), Some(5));
    assert_eq!(first_word(&vec![Some(-1)]), Some(u32::MAX));
    assert_eq!(first_word(&vec![Some(i32::MIN)]), Some(0x8000_0000));
    assert_eq!(first_word(&vec![Some(i32::MAX)]), Some(0x7fff_ffff));
}

#[test]
fn init_hands_the_flag_over() {
    let wasm = adapter(FIRST_GENERATION);
    assert_eq!(wasm.get_n_vars(), Ok(7));
    assert_eq!(wasm.init(true), Ok(()));
    assert_eq!(wasm.get_n_vars(), Ok(1));
    assert_eq!(wasm.init(false), Ok(()));
    assert_eq!(wasm.get_n_vars(), Ok(0));
}

#[test]
fn witness_locations_come_from_the_exports() {
    let wasm = adapter(FIRST_GENERATION);
    assert_eq!(wasm.get_ptr_witness_buffer(), Ok(1024));
    assert_eq!(wasm.get_ptr_witness(0), Ok(1024));
    assert_eq!(wasm.get_ptr_witness(3), Ok(1144));
    assert_eq!(wasm.get_fr_len(), Ok(40));
    assert_eq!(wasm.get_ptr_raw_prime(), Ok(8));
}

#[test]
fn signal_calls_hand_four_arguments_over_in_order() {
    let wasm = adapter(FIRST_GENERATION);
    assert_eq!(wasm.get_signal_offset32(1, 2, 3, 4), Ok(()));
    assert_eq!(wasm.get_n_vars(), Ok(1234));
    assert_eq!(wasm.set_signal(5, 6, 7, 8), Ok(()));
    assert_eq!(wasm.get_n_vars(), Ok(5678));
    assert_eq!(
        wasm.get_signal_offset32(0x10_0000, 0, 0, 0),
        Err(failure("getSignalOffset32", vec![0x10_0000, 0, 0, 0]))
    );
}

#[test]
fn get_u32_reads_a_word() {
    let wasm = adapter(FIRST_GENERATION);
    assert_eq!(wasm.get_u32("getFrLen"), Ok(40));
    assert_eq!(wasm.get_u32("minusOne"), Ok(u32::MAX));
}

#[test]
fn missing_exports_are_named() {
    let wasm = adapter(FIRST_GENERATION);
    assert_eq!(wasm.get_u32("getWitnessSize"), Err(missing("getWitnessSize")));
    assert_eq!(wasm.get_field_num_len32(), Err(missing("getFieldNumLen32")));
    assert_eq!(wasm.get_raw_prime(), Err(missing("getRawPrime")));
    assert_eq!(wasm.read_shared_rw_memory(0), Err(missing("readSharedRWMemory")));
    assert_eq!(wasm.write_shared_rw_memory(0, 1), Err(missing("writeSharedRWMemory")));
    assert_eq!(wasm.set_input_signal(1, 2, 3), Err(missing("setInputSignal")));
    assert_eq!(wasm.get_witness(0), Err(missing("getWitness")));
    assert_eq!(wasm.get_witness_size(), Err(missing("getWitnessSize")));
    assert_eq!(wasm.get_u32("memory"), Err(missing("memory")));

    let wasm = adapter(SECOND_GENERATION);
    assert_eq!(wasm.init(true), Err(missing("init")));
    assert_eq!(wasm.get_ptr_witness_buffer(), Err(missing("getWitnessBuffer")));
    assert_eq!(wasm.get_ptr_witness(1), Err(missing("getPWitness")));
    assert_eq!(wasm.get_n_vars(), Err(missing("getNVars")));
    assert_eq!(wasm.get_signal_offset32(1, 2, 3, 4), Err(missing("getSignalOffset32")));
    assert_eq!(wasm.set_signal(1, 2, 3, 4), Err(missing("setSignal")));
    assert_eq!(wasm.get_fr_len(), Err(missing("getFrLen")));
    assert_eq!(wasm.get_ptr_raw_prime(), Err(missing("getPRawPrime")));
}

#[test]
fn func_finds_functions_only() {
    let wasm = adapter(FIRST_GENERATION);
    assert!(wasm.func("init").is_ok());
    assert!(wasm.func("trap").is_ok());
    assert_eq!(wasm.func("nope").err(), Some(missing("nope")));
    assert_eq!(wasm.func("memory").err(), Some(missing("memory")));
}

#[test]
fn failed_calls_carry_the_export_and_the_arguments() {
    let wasm = adapter(FIRST_GENERATION);
    assert_eq!(wasm.get_u32("trap"), Err(failure("trap", vec![])));
    assert_eq!(wasm.get_u32("wide"), Err(failure("wide", vec![])));
    assert_eq!(wasm.get_u32("nothing"), Err(failure("nothing", vec![])));
    assert_eq!(wasm.get_u32("takesOne"), Err(failure("takesOne", vec![])));
    assert_eq!(wasm.get_n_vars(), Ok(7));
}

#[test]
fn second_generation_moves_words_through_the_shared_channel() {
    let wasm = adapter(SECOND_GENERATION);
    assert_eq!(wasm.get_field_num_len32(), Ok(8));
    assert_eq!(wasm.get_witness_size(), Ok(3));
    assert_eq!(wasm.read_shared_rw_memory(0), Ok(0));
    assert_eq!(wasm.get_raw_prime(), Ok(()));
    assert_eq!(wasm.read_shared_rw_memory(0), Ok(77));
    assert_eq!(wasm.read_shared_rw_memory(5), Ok(82));
    assert_eq!(wasm.write_shared_rw_memory(4, 9), Ok(()));
    assert_eq!(wasm.read_shared_rw_memory(0), Ok(409));
    assert_eq!(wasm.set_input_signal(1, 2, 3), Ok(()));
    assert_eq!(wasm.read_shared_rw_memory(0), Ok(123));
    assert_eq!(wasm.get_witness(7), Ok(()));
    assert_eq!(wasm.read_shared_rw_memory(0), Ok(21));
    assert_eq!(wasm.read_shared_rw_memory(u32::MAX), Ok(20));
}

#[test]
fn calls_fail_where_the_instance_is_not_of_the_store() {
    let mut home = module_store();
    let bytes = wat2wasm(SECOND_GENERATION.as_bytes()).unwrap();
    let module = Module::new(&home, bytes).unwrap();
    let instance = Instance::new(&mut home, &module, &Imports::new()).unwrap();
    let wasm = Wasm::new(instance, module_store());
    assert_eq!(wasm.get_version(), Err(WitnessError::InvalidConfiguration));
    assert_eq!(wasm.get_witness(4), Err(WitnessError::InvalidConfiguration));
    assert_eq!(wasm.get_witness_size(), Err(WitnessError::InvalidConfiguration));
    assert_eq!(wasm.init(true), Err(missing("init")));
    assert!(wasm.func("getWitness").is_ok());
}

#[test]
fn func_gives_the_function_of_that_name() {
    let mut store = module_store();
    let bytes = wat2wasm(FIRST_GENERATION.as_bytes()).unwrap();
    let module = Module::new(&store, bytes).unwrap();
    let instance = Instance::new(&mut store, &module, &Imports::new()).unwrap();
    let exports = instance.exports.clone();
    let wasm = Wasm::new(instance, store);
    for name in ["init", "getFrLen", "getPRawPrime", "trap"] {
        assert_eq!(wasm.func(name).unwrap(), exports.get_function(name).unwrap());
    }
    assert_ne!(
        wasm.func("getFrLen").unwrap(),
        exports.get_function("getPRawPrime").unwrap()
    );
}

#[test]
fn word_or_failure_names_the_call() {
    assert_eq!(word_or_failure(&vec![Some(40)], "getFrLen", vec![]), Ok(40));
    assert_eq!(word_or_failure(&vec![Some(-1), None], "f", vec![1, 2]), Ok(u32::MAX));
    assert_eq!(
        word_or_failure(&vec![], "nothing", vec![]),
        Err(failure("nothing", vec![]))
    );
    assert_eq!(
        word_or_failure(&vec![None, Some(3)], "wide", vec![7, 8, 9]),
        Err(failure("wide", vec![7, 8, 9]))
    );
}
