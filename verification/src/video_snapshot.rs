//! The `video_snapshot` function that every SQL session offers.

use crate::text::joined;
use vstd::prelude::*;
use vstd::string::*;

verus! {

/// The type of an argument or result.
#[derive(Debug, Clone, Copy, PartialEq, Eq, Structural)]
pub enum ValueType {
    Binary,
    Int32,
    Int64,
}

/// How far a result depends on the arguments alone.
#[derive(Debug, Clone, Copy, PartialEq, Eq, Structural)]
pub enum Volatility {
    Immutable,
    Stable,
    Volatile,
}

/// A scalar function that sessions register.
#[derive(Debug)]
pub struct Builtin {
    /// The name in SQL.
    pub name: &'static str,
    /// The format of the images it gives.
    pub image_format: &'static str,
    /// The lists of argument types it takes.
    pub signatures: Vec<Vec<ValueType>>,
    /// The type of its result.
    pub returns: ValueType,
    pub volatility: Volatility,
}

/// The types of each list.
pub open spec fn signature_types(signatures: Seq<Vec<ValueType>>) -> Seq<Seq<ValueType>> {
    Seq::new(signatures.len(), |i: int| signatures[i]@)
}

/// The lists of types are those of the signatures, one for one.
pub proof fn law_signature_types_are_the_signatures(signatures: Seq<Vec<ValueType>>, i: int)
    ensures
        signature_types(signatures).len() == signatures.len(),
        0 <= i < signatures.len() ==> signature_types(signatures)[i] == signatures[i]@,
{
}

/// The `video_snapshot` function: it takes a binary value, alone or with a
/// 32-bit or 64-bit number, to a PNG image. Its results are not reused.
pub fn video_snapshot() -> (builtin: Builtin)
    ensures
        builtin.name@ == "video_snapshot"@,
        builtin.image_format@ == "PNG"@,
        signature_types(builtin.signatures@) == seq![
            seq![ValueType::Binary],
            seq![ValueType::Binary, ValueType::Int32],
            seq![ValueType::Binary, ValueType::Int64],
        ],
        builtin.returns == ValueType::Binary,
        builtin.volatility == Volatility::Volatile,
{
    let signatures: Vec<Vec<ValueType>> = vec![
        vec![ValueType::Binary],
        vec![ValueType::Binary, ValueType::Int32],
        vec![ValueType::Binary, ValueType::Int64],
    ];
    assert(signatures@[0]@ == seq![ValueType::Binary]);
    assert(signatures@[1]@ == seq![ValueType::Binary, ValueType::Int32]);
    assert(signatures@[2]@ == seq![ValueType::Binary, ValueType::Int64]);
    Builtin {
        name: "video_snapshot",
        image_format: "PNG",
        signatures,
        returns: ValueType::Binary,
        volatility: Volatility::Volatile,
    }
}

/// The warning to give after an attempt to register the function. A failure
/// is no reason to refuse the session.
pub fn registration_warning(outcome: Result<(), String>) -> (warning: Option<String>)
    ensures
        match outcome {
            Ok(_) => warning is None,
            Err(error) => warning matches Some(warning) && warning@
                == "video_snapshot built-in could not be registered: "@ + error@,
        },
{
    match outcome {
        Ok(_) => None,
        Err(error) => Some(
            joined("video_snapshot built-in could not be registered: ", error.as_str()),
        ),
    }
}

} // verus!
