//! The exports of a module instance, as the runtime gives them: what is taken
//! on trust about finding and calling them.

use std::sync::Arc;
use std::sync::Mutex;
use vstd::prelude::*;
use wasmer::ExportError;
use wasmer::Function;
use wasmer::Instance;
use wasmer::RuntimeError;
use wasmer::Store;
use wasmer::Value;

verus! {

/// `wasmer::Instance`: an instantiated module. Opaque here.
#[verifier::external_type_specification]
#[verifier::external_body]
pub struct ExInstance(Instance);

/// `wasmer::Function`: a callable export. Opaque here.
#[verifier::external_type_specification]
#[verifier::external_body]
pub struct ExFunction(Function);

/// `wasmer::ExportError`: why an export was not found. Opaque here.
#[verifier::external_type_specification]
#[verifier::external_body]
pub struct ExExportError(ExportError);

/// `wasmer::RuntimeError`: why a call failed. Opaque here.
#[verifier::external_type_specification]
#[verifier::external_body]
pub struct ExRuntimeError(RuntimeError);

/// `std::sync::Mutex`: the lock around a store. Opaque here.
#[verifier::external_type_specification]
#[verifier::external_body]
#[verifier::reject_recursive_types(T)]
pub struct ExMutex<T: ?Sized>(Mutex<T>);

/// `Mutex::new`: a lock around a value. Nothing is said of it.
pub assume_specification<T>[ Mutex::<T>::new ](value: T) -> (r: Mutex<T>);

/// Whether the instance exports a function under `name`.
pub uninterp spec fn exports_function(instance: Instance, name: Seq<char>) -> bool;

/// The function that the instance exports under `name`, where it exports one.
pub uninterp spec fn exported_function(instance: Instance, name: Seq<char>) -> Function;

/// Whether `function` was made in `store`, so that the store can call it.
pub uninterp spec fn function_in_store(store: Arc<Mutex<Store>>, function: Function) -> bool;

/// `Exports::get_function` on the instance's exports: the function exported
/// under `name`, which is the same one at every call, or an error where there
/// is no export of that name or it is not a function.
#[verifier::external_body]
pub(crate) fn export_lookup<'a>(instance: &'a Instance, name: &str) -> (r: Result<
    &'a Function,
    ExportError,
>)
    ensures
        r is Ok <==> exports_function(*instance, name@),
        r matches Ok(found) ==> *found == exported_function(*instance, name@),
{
    instance.exports.get_function(name)
}

/// `Function::is_from_store`: whether the function belongs to the store.
#[verifier::external_body]
pub(crate) fn function_belongs(store: &Arc<Mutex<Store>>, function: &Function) -> (r: bool)
    ensures
        r == function_in_store(*store, *function),
{
    let guard = match store.lock() {
        Ok(guard) => guard,
        Err(poisoned) => poisoned.into_inner(),
    };
    function.is_from_store(&*guard)
}

/// `Function::call` with 32-bit integer arguments: the results, each as the
/// 32-bit integer it is or `None` for another type, or the runtime's error
/// where the call trapped or did not fit the function's signature. What comes
/// back is the module's doing: nothing is promised of it. The function
/// belongs to the store; the call panics where it does not.
#[verifier::external_body]
pub(crate) fn function_call(store: &Arc<Mutex<Store>>, function: &Function, args: &Vec<u32>) -> (r:
    Result<Vec<Option<i32>>, RuntimeError>)
    requires
        function_in_store(*store, *function),
{
    let mut guard = match store.lock() {
        Ok(guard) => guard,
        Err(poisoned) => poisoned.into_inner(),
    };
    let params: Vec<Value> = args.iter().map(|arg| Value::from(*arg)).collect();
    let results = function.call(&mut *guard, &params)?;
    Ok(results.iter().map(|value| value.i32()).collect())
}

} // verus!
