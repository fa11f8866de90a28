//! The protocol adapter: one operation for each export of the module, in the
//! two generations of the exported contract.

use std::sync::Arc;
use std::sync::Mutex;
use vstd::prelude::*;
use wasmer::Function;
use wasmer::Instance;
use wasmer::Store;
use crate::witness::error::WitnessError;
use crate::witness::runtime::export_lookup;
use crate::witness::runtime::exported_function;
use crate::witness::runtime::exports_function;
use crate::witness::runtime::function_belongs;
use crate::witness::runtime::function_call;
use crate::witness::runtime::function_in_store;

verus! {

/// The word that a 32-bit result stands for: the same 32 bits, read without
/// a sign.
pub open spec fn word_of(value: i32) -> u32 {
    if value >= 0 {
        value as u32
    } else {
        (value + 0x1_0000_0000) as u32
    }
}

/// The 32-bit argument that a flag is handed over as.
pub open spec fn flag_word(flag: bool) -> u32 {
    if flag {
        1u32
    } else {
        0u32
    }
}

/// The word that the results of a call begin with, if they begin with a
/// 32-bit integer.
pub open spec fn leading_word(results: Seq<Option<i32>>) -> Option<u32> {
    if results.len() > 0 && results[0] is Some {
        Some(word_of(results[0]->Some_0))
    } else {
        None
    }
}

/// Whether `e` is `MissingExport` with the given name.
pub open spec fn names_missing(e: WitnessError, name: Seq<char>) -> bool {
    match e {
        WitnessError::MissingExport { name: missing } => missing@ == name,
        _ => false,
    }
}

/// Whether `e` is `ForeignCallFailure` with the given name and arguments.
pub open spec fn names_failure(e: WitnessError, name: Seq<char>, args: Seq<u32>) -> bool {
    match e {
        WitnessError::ForeignCallFailure { export, args: given } => export@ == name && given@
            == args,
        _ => false,
    }
}

/// How a call of the export `name` with `args` can end, where `exported`
/// says whether the module has the export and `runs` whether that function
/// is of the adapter's store: in `MissingExport` with the name exactly where
/// the module has no such export; in `InvalidConfiguration` exactly where it
/// has one that the store cannot run; and else, as the module decides, in a
/// result or in `ForeignCallFailure` with the name and the arguments.
pub open spec fn call_outcome<T>(
    r: Result<T, WitnessError>,
    exported: bool,
    runs: bool,
    name: Seq<char>,
    args: Seq<u32>,
) -> bool {
    match r {
        Ok(_) => exported && runs,
        Err(WitnessError::MissingExport { name: missing }) => !exported && missing@ == name,
        Err(WitnessError::InvalidConfiguration) => exported && !runs,
        Err(WitnessError::ForeignCallFailure { export, args: given }) => exported && runs
            && export@ == name && given@ == args,
        Err(_) => false,
    }
}

/// What a call of the export `name` with `args` gives where it came back
/// with `results`: the word that they begin with, or `ForeignCallFailure`
/// with the name and the arguments where they do not begin with a 32-bit
/// integer.
pub fn word_or_failure(results: &Vec<Option<i32>>, name: &str, args: Vec<u32>) -> (r: Result<
    u32,
    WitnessError,
>)
    ensures
        match leading_word(results@) {
            Some(word) => r == Ok::<u32, WitnessError>(word),
            None => r is Err && names_failure(r->Err_0, name@, args@),
        },
{
    match first_word(results) {
        Some(word) => Ok(word),
        None => Err(WitnessError::ForeignCallFailure { export: name.to_string(), args }),
    }
}

/// The word that the results of a call begin with.
pub fn first_word(results: &Vec<Option<i32>>) -> (r: Option<u32>)
    ensures
        r == leading_word(results@),
{
    if results.len() == 0 {
        return None;
    }
    match results[0] {
        Some(value) => {
            let word: u32 = if value >= 0 {
                value as u32
            } else {
                ((value as i64) + 0x1_0000_0000) as u32
            };
            Some(word)
        },
        None => None,
    }
}

/// The protocol version of a module: what its version export reports, and 1
/// for a module of the generation that has no such export.
pub fn version_or_default(reported: Option<u32>) -> (r: u32)
    ensures
        r == (match reported {
            Some(version) => version,
            None => 1u32,
        }),
{
    match reported {
        Some(version) => version,
        None => 1,
    }
}

/// A module instance and the store that runs it.
#[derive(Debug)]
pub struct Wasm {
    instance: Instance,
    store: Arc<Mutex<Store>>,
}

impl Wasm {
    /// An adapter over `instance`, which lives in `store`.
    pub fn new(instance: Instance, store: Store) -> (r: Wasm)
        ensures
            forall|name: Seq<char>| #[trigger] r.exports(name) == exports_function(instance, name),
            forall|name: Seq<char>| #[trigger] r.exported(name) == exported_function(instance, name),
    {
        Wasm { instance, store: Arc::new(Mutex::new(store)) }
    }

    /// Whether the module exports a function under `name`.
    pub closed spec fn exports(&self, name: Seq<char>) -> bool {
        exports_function(self.instance, name)
    }

    /// The function that the module exports under `name`.
    pub closed spec fn exported(&self, name: Seq<char>) -> Function {
        exported_function(self.instance, name)
    }

    /// Whether the function exported under `name` is of the adapter's store,
    /// so that the adapter can call it.
    pub closed spec fn runs(&self, name: Seq<char>) -> bool {
        function_in_store(self.store, exported_function(self.instance, name))
    }

    /// Calls the export `name` with `args` and hands back its results. A
    /// function that is not of the adapter's store is not called.
    fn invoke(&self, name: &str, args: Vec<u32>) -> (r: Result<Vec<Option<i32>>, WitnessError>)
        ensures
            call_outcome(r, self.exports(name@), self.runs(name@), name@, args@),
    {
        let function = match export_lookup(&self.instance, name) {
            Ok(function) => function,
            Err(_) => {
                return Err(WitnessError::MissingExport { name: name.to_string() });
            },
        };
        if !function_belongs(&self.store, function) {
            return Err(WitnessError::InvalidConfiguration);
        }
        match function_call(&self.store, function, &args) {
            Ok(results) => Ok(results),
            Err(_) => Err(WitnessError::ForeignCallFailure { export: name.to_string(), args }),
        }
    }

    /// Calls the export `name` with `args` for its effect.
    fn run(&self, name: &str, args: Vec<u32>) -> (r: Result<(), WitnessError>)
        ensures
            call_outcome(r, self.exports(name@), self.runs(name@), name@, args@),
    {
        match self.invoke(name, args) {
            Ok(_) => Ok(()),
            Err(e) => Err(e),
        }
    }

    /// Calls the export `name` with `args` for the word it returns. A result
    /// that does not begin with a 32-bit integer is a failure of the call.
    fn word(&self, name: &str, args: Vec<u32>) -> (r: Result<u32, WitnessError>)
        ensures
            call_outcome(r, self.exports(name@), self.runs(name@), name@, args@),
    {
        let kept = copy_words(&args);
        match self.invoke(name, args) {
            Ok(results) => word_or_failure(&results, name, kept),
            Err(e) => Err(e),
        }
    }
}

/// A copy of `words`.
fn copy_words(words: &Vec<u32>) -> (r: Vec<u32>)
    ensures
        r@ == words@,
{
    let mut out: Vec<u32> = Vec::new();
    let mut i: usize = 0;
    while i < words.len()
        invariant
            i <= words.len(),
            out@ == words@.subrange(0, i as int),
        decreases words.len() - i,
    {
        out.push(words[i]);
        proof {
            assert(out@ =~= words@.subrange(0, i + 1));
        }
        i += 1;
    }
    proof {
        assert(words@.subrange(0, words@.len() as int) =~= words@);
    }
    out
}

/// One, two, three and four arguments as a list.
fn args1(a: u32) -> (r: Vec<u32>)
    ensures
        r@ == seq![a],
{
    let mut args: Vec<u32> = Vec::new();
    args.push(a);
    proof {
        assert(args@ =~= seq![a]);
    }
    args
}

fn args2(a: u32, b: u32) -> (r: Vec<u32>)
    ensures
        r@ == seq![a, b],
{
    let mut args: Vec<u32> = Vec::new();
    args.push(a);
    args.push(b);
    proof {
        assert(args@ =~= seq![a, b]);
    }
    args
}

fn args3(a: u32, b: u32, c: u32) -> (r: Vec<u32>)
    ensures
        r@ == seq![a, b, c],
{
    let mut args: Vec<u32> = Vec::new();
    args.push(a);
    args.push(b);
    args.push(c);
    proof {
        assert(args@ =~= seq![a, b, c]);
    }
    args
}

fn args4(a: u32, b: u32, c: u32, d: u32) -> (r: Vec<u32>)
    ensures
        r@ == seq![a, b, c, d],
{
    let mut args: Vec<u32> = Vec::new();
    args.push(a);
    args.push(b);
    args.push(c);
    args.push(d);
    proof {
        assert(args@ =~= seq![a, b, c, d]);
    }
    args
}

/// The operations that every generation of the module offers.
pub trait CircomBase {
    /// Whether the module exports a function under `name`.
    spec fn has_export(&self, name: Seq<char>) -> bool;

    /// The function that the module exports under `name`.
    spec fn export(&self, name: Seq<char>) -> Function;

    /// Whether the adapter can call the function exported under `name`: it
    /// is of the adapter's store.
    spec fn can_run(&self, name: Seq<char>) -> bool;

    /// One-time setup: switches the module's own consistency checks on or off.
    fn init(&self, sanity_check: bool) -> (r: Result<(), WitnessError>)
        ensures
            call_outcome(
                r,
                self.has_export("init"@),
                self.can_run("init"@),
                "init"@,
                seq![flag_word(sanity_check)],
            ),
    ;

    /// The function exported under `name`, or `MissingExport` with the name.
    /// Nothing is called.
    fn func(&self, name: &str) -> (r: Result<&Function, WitnessError>)
        ensures
            match r {
                Ok(found) => self.has_export(name@) && *found == self.export(name@),
                Err(e) => !self.has_export(name@) && names_missing(e, name@),
            },
    ;

    /// Where the witness buffer starts.
    fn get_ptr_witness_buffer(&self) -> (r: Result<u32, WitnessError>)
        ensures
            call_outcome(
                r,
                self.has_export("getWitnessBuffer"@),
                self.can_run("getWitnessBuffer"@),
                "getWitnessBuffer"@,
                Seq::<u32>::empty(),
            ),
    ;

    /// Where the witness element `w` lies.
    fn get_ptr_witness(&self, w: u32) -> (r: Result<u32, WitnessError>)
        ensures
            call_outcome(
                r,
                self.has_export("getPWitness"@),
                self.can_run("getPWitness"@),
                "getPWitness"@,
                seq![w],
            ),
    ;

    /// The number of variables.
    fn get_n_vars(&self) -> (r: Result<u32, WitnessError>)
        ensures
            call_outcome(
                r,
                self.has_export("getNVars"@),
                self.can_run("getNVars"@),
                "getNVars"@,
                Seq::<u32>::empty(),
            ),
    ;

    /// Has the module write the offset of a signal, found by the two halves
    /// of its name's hash, through `p_sig_offset`.
    fn get_signal_offset32(&self, p_sig_offset: u32, component: u32, hash_msb: u32, hash_lsb: u32) -> (r:
        Result<(), WitnessError>)
        ensures
            call_outcome(
                r,
                self.has_export("getSignalOffset32"@),
                self.can_run("getSignalOffset32"@),
                "getSignalOffset32"@,
                seq![p_sig_offset, component, hash_msb, hash_lsb],
            ),
    ;

    /// Assigns the field element written at `p_val` to a signal.
    fn set_signal(&self, c_idx: u32, component: u32, signal: u32, p_val: u32) -> (r: Result<
        (),
        WitnessError,
    >)
        ensures
            call_outcome(
                r,
                self.has_export("setSignal"@),
                self.can_run("setSignal"@),
                "setSignal"@,
                seq![c_idx, component, signal, p_val],
            ),
    ;

    /// Calls the export `name`, which takes nothing, for the word it returns.
    fn get_u32(&self, name: &str) -> (r: Result<u32, WitnessError>)
        ensures
            call_outcome(
                r,
                self.has_export(name@),
                self.can_run(name@),
                name@,
                Seq::<u32>::empty(),
            ),
    ;

    /// The protocol version: 1 for a module without the version export, with
    /// nothing called, and else what a call of that export returns.
    fn get_version(&self) -> (r: Result<u32, WitnessError>)
        ensures
            !self.has_export("getVersion"@) ==> r == Ok::<u32, WitnessError>(1),
            self.has_export("getVersion"@) ==> call_outcome(
                r,
                true,
                self.can_run("getVersion"@),
                "getVersion"@,
                Seq::<u32>::empty(),
            ),
    ;
}

/// The operations of the first generation only.
pub trait Circom: CircomBase {
    /// The number of bytes of a field element.
    fn get_fr_len(&self) -> (r: Result<u32, WitnessError>)
        ensures
            call_outcome(
                r,
                self.has_export("getFrLen"@),
                self.can_run("getFrLen"@),
                "getFrLen"@,
                Seq::<u32>::empty(),
            ),
    ;

    /// Where the prime lies in memory.
    fn get_ptr_raw_prime(&self) -> (r: Result<u32, WitnessError>)
        ensures
            call_outcome(
                r,
                self.has_export("getPRawPrime"@),
                self.can_run("getPRawPrime"@),
                "getPRawPrime"@,
                Seq::<u32>::empty(),
            ),
    ;
}

/// The operations of the second generation only. Field elements pass through
/// a shared channel of word slots instead of through pointers.
pub trait Circom2: CircomBase {
    /// The number of 32-bit digits of a field element.
    fn get_field_num_len32(&self) -> (r: Result<u32, WitnessError>)
        ensures
            call_outcome(
                r,
                self.has_export("getFieldNumLen32"@),
                self.can_run("getFieldNumLen32"@),
                "getFieldNumLen32"@,
                Seq::<u32>::empty(),
            ),
    ;

    /// Loads the prime into the shared channel.
    fn get_raw_prime(&self) -> (r: Result<(), WitnessError>)
        ensures
            call_outcome(
                r,
                self.has_export("getRawPrime"@),
                self.can_run("getRawPrime"@),
                "getRawPrime"@,
                Seq::<u32>::empty(),
            ),
    ;

    /// The word in slot `i` of the shared channel.
    fn read_shared_rw_memory(&self, i: u32) -> (r: Result<u32, WitnessError>)
        ensures
            call_outcome(
                r,
                self.has_export("readSharedRWMemory"@),
                self.can_run("readSharedRWMemory"@),
                "readSharedRWMemory"@,
                seq![i],
            ),
    ;

    /// Puts `v` into slot `i` of the shared channel.
    fn write_shared_rw_memory(&self, i: u32, v: u32) -> (r: Result<(), WitnessError>)
        ensures
            call_outcome(
                r,
                self.has_export("writeSharedRWMemory"@),
                self.can_run("writeSharedRWMemory"@),
                "writeSharedRWMemory"@,
                seq![i, v],
            ),
    ;

    /// Sets the input named by the two halves of a hash, at a position of an
    /// array-valued input, to what the shared channel holds.
    fn set_input_signal(&self, hmsb: u32, hlsb: u32, pos: u32) -> (r: Result<(), WitnessError>)
        ensures
            call_outcome(
                r,
                self.has_export("setInputSignal"@),
                self.can_run("setInputSignal"@),
                "setInputSignal"@,
                seq![hmsb, hlsb, pos],
            ),
    ;

    /// Puts the witness element `i` into the shared channel.
    fn get_witness(&self, i: u32) -> (r: Result<(), WitnessError>)
        ensures
            call_outcome(
                r,
                self.has_export("getWitness"@),
                self.can_run("getWitness"@),
                "getWitness"@,
                seq![i],
            ),
    ;

    /// The number of witness elements.
    fn get_witness_size(&self) -> (r: Result<u32, WitnessError>)
        ensures
            call_outcome(
                r,
                self.has_export("getWitnessSize"@),
                self.can_run("getWitnessSize"@),
                "getWitnessSize"@,
                Seq::<u32>::empty(),
            ),
    ;
}

impl Circom for Wasm {
    fn get_fr_len(&self) -> (r: Result<u32, WitnessError>) {
        self.get_u32("getFrLen")
    }

    fn get_ptr_raw_prime(&self) -> (r: Result<u32, WitnessError>) {
        self.get_u32("getPRawPrime")
    }
}

impl Circom2 for Wasm {
    fn get_field_num_len32(&self) -> (r: Result<u32, WitnessError>) {
        self.get_u32("getFieldNumLen32")
    }

    fn get_raw_prime(&self) -> (r: Result<(), WitnessError>) {
        self.run("getRawPrime", Vec::new())
    }

    fn read_shared_rw_memory(&self, i: u32) -> (r: Result<u32, WitnessError>) {
        self.word("readSharedRWMemory", args1(i))
    }

    fn write_shared_rw_memory(&self, i: u32, v: u32) -> (r: Result<(), WitnessError>) {
        self.run("writeSharedRWMemory", args2(i, v))
    }

    fn set_input_signal(&self, hmsb: u32, hlsb: u32, pos: u32) -> (r: Result<(), WitnessError>) {
        self.run("setInputSignal", args3(hmsb, hlsb, pos))
    }

    fn get_witness(&self, i: u32) -> (r: Result<(), WitnessError>) {
        self.run("getWitness", args1(i))
    }

    fn get_witness_size(&self) -> (r: Result<u32, WitnessError>) {
        self.get_u32("getWitnessSize")
    }
}

impl CircomBase for Wasm {
    open spec fn has_export(&self, name: Seq<char>) -> bool {
        self.exports(name)
    }

    open spec fn export(&self, name: Seq<char>) -> Function {
        self.exported(name)
    }

    open spec fn can_run(&self, name: Seq<char>) -> bool {
        self.runs(name)
    }

    fn init(&self, sanity_check: bool) -> (r: Result<(), WitnessError>) {
        let flag: u32 = if sanity_check {
            1
        } else {
            0
        };
        self.run("init", args1(flag))
    }

    fn func(&self, name: &str) -> (r: Result<&Function, WitnessError>) {
        match export_lookup(&self.instance, name) {
            Ok(function) => Ok(function),
            Err(_) => Err(WitnessError::MissingExport { name: name.to_string() }),
        }
    }

    fn get_ptr_witness_buffer(&self) -> (r: Result<u32, WitnessError>) {
        self.get_u32("getWitnessBuffer")
    }

    fn get_ptr_witness(&self, w: u32) -> (r: Result<u32, WitnessError>) {
        self.word("getPWitness", args1(w))
    }

    fn get_n_vars(&self) -> (r: Result<u32, WitnessError>) {
        self.get_u32("getNVars")
    }

    fn get_signal_offset32(&self, p_sig_offset: u32, component: u32, hash_msb: u32, hash_lsb: u32) -> (r:
        Result<(), WitnessError>) {
        self.run("getSignalOffset32", args4(p_sig_offset, component, hash_msb, hash_lsb))
    }

    fn set_signal(&self, c_idx: u32, component: u32, signal: u32, p_val: u32) -> (r: Result<
        (),
        WitnessError,
    >) {
        self.run("setSignal", args4(c_idx, component, signal, p_val))
    }

    fn get_u32(&self, name: &str) -> (r: Result<u32, WitnessError>) {
        self.word(name, Vec::new())
    }

    fn get_version(&self) -> (r: Result<u32, WitnessError>) {
        match export_lookup(&self.instance, "getVersion") {
            Ok(_) => match self.get_u32("getVersion") {
                Ok(version) => Ok(version_or_default(Some(version))),
                Err(e) => Err(e),
            },
            Err(_) => Ok(version_or_default(None)),
        }
    }
}

} // verus!
