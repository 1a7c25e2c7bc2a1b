//! What can go wrong with an action, and what the user is told.

use crate::text::{chars_of, decimal, push_decimal, text_of};
use vstd::prelude::*;

verus! {

/// Why an action failed.
#[derive(Debug, Clone, Copy, PartialEq, Eq, Structural)]
pub enum HistoryError {
    /// The shell's history holds no earlier command that can be saved.
    NoPreviousCommand,
    /// The log has no entry to remove at the position given.
    InvalidIndex,
    /// The log has no entry to read at the position `index`.
    NotFound { index: usize },
}

impl HistoryError {
    /// What the user is told.
    pub open spec fn message_text(self) -> Seq<char> {
        match self {
            HistoryError::NoPreviousCommand => "No se encontró un comando anterior válido."@,
            HistoryError::InvalidIndex => "Número inválido"@,
            HistoryError::NotFound { index } => "No existe el comando N="@ + decimal(
                index as nat,
            ),
        }
    }

    /// What the user is told.
    pub fn message(&self) -> (r: String)
        ensures
            r@ == self.message_text(),
    {
        match self {
            HistoryError::NoPreviousCommand => String::from_str(
                "No se encontró un comando anterior válido.",
            ),
            HistoryError::InvalidIndex => String::from_str("Número inválido"),
            HistoryError::NotFound { index } => {
                let mut out = chars_of("No existe el comando N=");
                push_decimal(&mut out, *index);
                text_of(out.as_slice())
            },
        }
    }

    /// The status with which the invocation ends: every failure ends it
    /// with 1.
    pub fn exit_code(&self) -> (code: i32)
        ensures
            code == 1,
    {
        1
    }
}

} // verus!
