//! The three-way outcome of a remote function call.
//!
//! A call returns a value, fails at the transport or validation level
//! with a message, or fails intentionally in server-side function logic
//! with a structured application error. The three are never conflated:
//! a transport failure is a failure, never a value; an application
//! error keeps its structured payload through every marshalling step.

use vstd::prelude::*;
use crate::host::{host_dict_model, HostModel, HostValue};
use crate::marshal::{val_to_host, value_to_host};
use crate::value::{ValModel, Value};

verus! {

broadcast use {vstd::seq::group_seq_axioms, vstd::std_specs::vec::group_vec_axioms};

/// Spec-level mirror of [`FunctionResult`].
pub enum OutcomeModel {
    /// The value returned by a successful run.
    Value(ValModel),
    /// The message of a transport- or validation-level failure.
    ErrorMessage(Seq<char>),
    /// A structured error raised intentionally by server-side logic.
    ApplicationError(Seq<char>, ValModel),
}

/// Result of invoking a remote query, mutation or action.
#[derive(Debug, PartialEq, Eq)]
pub enum FunctionResult {
    /// The value returned by a successful run.
    Value(Value),
    /// The message of a transport- or validation-level failure.
    ErrorMessage(String),
    /// A structured error raised intentionally by server-side logic,
    /// carrying both a message and a data payload.
    ApplicationError {
        /// The error message.
        message: String,
        /// The structured data payload.
        data: Value,
    },
}

impl View for FunctionResult {
    type V = OutcomeModel;

    open spec fn view(&self) -> OutcomeModel {
        match self {
            FunctionResult::Value(v) => OutcomeModel::Value(v@),
            FunctionResult::ErrorMessage(m) => OutcomeModel::ErrorMessage(m@),
            FunctionResult::ApplicationError { message, data } => OutcomeModel::ApplicationError(
                message@,
                data@,
            ),
        }
    }
}

/// The tagged host mapping that carries a successful value.
pub open spec fn wrapped_value_host(v: ValModel) -> HostModel {
    HostModel::Dict(
        seq![
            (HostModel::Text("type"@), HostModel::Text("value"@)),
            (HostModel::Text("value"@), val_to_host(v)),
        ],
    )
}

/// The tagged host mapping that carries an application error, message
/// and marshalled data payload side by side.
pub open spec fn wrapped_app_error_host(message: Seq<char>, data: ValModel) -> HostModel {
    HostModel::Dict(
        seq![
            (HostModel::Text("type"@), HostModel::Text("convexerror"@)),
            (HostModel::Text("message"@), HostModel::Text(message)),
            (HostModel::Text("data"@), val_to_host(data)),
        ],
    )
}

/// The tagged host mapping for a transport-level failure, used where an
/// outcome must be carried as data inside a snapshot.
pub open spec fn wrapped_error_message_host(message: Seq<char>) -> HostModel {
    HostModel::Dict(
        seq![
            (HostModel::Text("type"@), HostModel::Text("errormessage"@)),
            (HostModel::Text("message"@), HostModel::Text(message)),
        ],
    )
}

/// Host form of an outcome where failures must fail the call: a value
/// or an application error becomes a tagged host mapping, a transport
/// failure is returned as the failure message itself, never as a value.
pub fn result_to_host(r: &FunctionResult) -> (out: Result<HostValue, String>)
    ensures
        r@ is Value ==> out is Ok && (out->Ok_0)@ == wrapped_value_host(r@->Value_0),
        r@ is ApplicationError ==> out is Ok && (out->Ok_0)@ == wrapped_app_error_host(
            r@->ApplicationError_0,
            r@->ApplicationError_1,
        ),
        r@ is ErrorMessage ==> out is Err && (out->Err_0)@ == r@->ErrorMessage_0,
{
    match r {
        FunctionResult::Value(v) => {
            let hv = value_to_host(v);
            let mut entries: Vec<(HostValue, HostValue)> = Vec::new();
            entries.push(
                (HostValue::Text("type".to_owned()), HostValue::Text("value".to_owned())),
            );
            entries.push((HostValue::Text("value".to_owned()), hv));
            proof {
                crate::host::lemma_host_dict_model(entries@);
                assert(host_dict_model(entries@)[0] == (entries@[0].0@, entries@[0].1@));
                assert(host_dict_model(entries@)[1] == (entries@[1].0@, entries@[1].1@));
                assert(host_dict_model(entries@) =~= wrapped_value_host(r@->Value_0)->Dict_0);
            }
            Ok(HostValue::Dict(entries))
        },
        FunctionResult::ErrorMessage(m) => Err(m.clone()),
        FunctionResult::ApplicationError { message, data } => {
            let hd = value_to_host(data);
            let mut entries: Vec<(HostValue, HostValue)> = Vec::new();
            entries.push(
                (HostValue::Text("type".to_owned()), HostValue::Text("convexerror".to_owned())),
            );
            entries.push((HostValue::Text("message".to_owned()), HostValue::Text(
                message.clone(),
            )));
            entries.push((HostValue::Text("data".to_owned()), hd));
            proof {
                crate::host::lemma_host_dict_model(entries@);
                assert(host_dict_model(entries@)[0] == (entries@[0].0@, entries@[0].1@));
                assert(host_dict_model(entries@)[1] == (entries@[1].0@, entries@[1].1@));
                assert(host_dict_model(entries@)[2] == (entries@[2].0@, entries@[2].1@));
                assert(host_dict_model(entries@) =~= wrapped_app_error_host(
                    r@->ApplicationError_0,
                    r@->ApplicationError_1,
                )->Dict_0);
            }
            Ok(HostValue::Dict(entries))
        },
    }
}

/// Host form of an outcome carried inside a snapshot, where nothing may
/// fail: each of the three cases keeps its own tag, so a failure is
/// never mistaken for a value by a consumer of the snapshot.
pub fn result_to_host_entry(r: &FunctionResult) -> (h: HostValue)
    ensures
        h@ == entry_host(r@),
{
    match r {
        FunctionResult::Value(_) | FunctionResult::ApplicationError { .. } => {
            match result_to_host(r) {
                Ok(h) => h,
                Err(_) => HostValue::Absent,
            }
        },
        FunctionResult::ErrorMessage(m) => {
            let mut entries: Vec<(HostValue, HostValue)> = Vec::new();
            entries.push(
                (HostValue::Text("type".to_owned()), HostValue::Text("errormessage".to_owned())),
            );
            entries.push((HostValue::Text("message".to_owned()), HostValue::Text(m.clone())));
            proof {
                crate::host::lemma_host_dict_model(entries@);
                assert(host_dict_model(entries@)[0] == (entries@[0].0@, entries@[0].1@));
                assert(host_dict_model(entries@)[1] == (entries@[1].0@, entries@[1].1@));
                assert(host_dict_model(entries@) =~= wrapped_error_message_host(
                    r@->ErrorMessage_0,
                )->Dict_0);
            }
            HostValue::Dict(entries)
        },
    }
}

/// Host form of each of the three outcome kinds, tag and payload.
pub open spec fn entry_host(o: OutcomeModel) -> HostModel {
    match o {
        OutcomeModel::Value(v) => wrapped_value_host(v),
        OutcomeModel::ErrorMessage(m) => wrapped_error_message_host(m),
        OutcomeModel::ApplicationError(m, d) => wrapped_app_error_host(m, d),
    }
}

} // verus!
