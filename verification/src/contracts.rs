//! What happens after a contract's procedure has run.

use vstd::prelude::*;

verus! {

/// The step after a contract's procedure ran.
pub enum ContractStep {
    /// Save the procedure's result as the record with this id.
    SaveResult(u64),
    /// Hand the result back; nothing is saved.
    ReturnResult,
    /// Record the failure in the chain and hand the error back.
    RecordFailure,
}

/// The step after a procedure that `succeeded` (or failed), given the
/// unsigned integer its `id` argument holds, if any: a result is saved
/// under that id, or only returned when there is none; a failure is
/// recorded.
pub fn after_procedure(succeeded: bool, id_arg: Option<u64>) -> (r: ContractStep)
    ensures
        succeeded && id_arg is Some ==> r == ContractStep::SaveResult(id_arg->0),
        succeeded && id_arg is None ==> r == ContractStep::ReturnResult,
        !succeeded ==> r == ContractStep::RecordFailure,
{
    if succeeded {
        match id_arg {
            Some(id) => ContractStep::SaveResult(id),
            None => ContractStep::ReturnResult,
        }
    } else {
        ContractStep::RecordFailure
    }
}

} // verus!
