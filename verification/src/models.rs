//! Request models and database text encodings.
//!
//! The category and transaction kinds travel as fixed text values in the
//! database; the conversions here are total only on those values. Request
//! payloads validate their fields before any handler runs.

use vstd::prelude::*;
use vstd::string::*;
use crate::ids::{ValidationError, parse_uuid_string, parsed_uuid, str_eq};

verus! {

/// The kind of a category.
#[derive(Clone, Copy, Debug, PartialEq, Eq, Structural)]
pub enum CategoryType {
    Incoming,
    Outgoing,
    Transfer,
}

/// The kind of a transaction.
#[derive(Clone, Copy, Debug, PartialEq, Eq, Structural)]
pub enum TransactionType {
    Incoming,
    Outgoing,
    Transfer,
}

/// The category kind a database text value denotes. The caller owes a known
/// value; anything else has no kind.
pub fn category_type_from_db(value: &str) -> (r: CategoryType)
    requires
        value@ == "Incoming"@ || value@ == "Outgoing"@ || value@ == "Transfer"@,
    ensures
        r == (if value@ == "Incoming"@ {
            CategoryType::Incoming
        } else if value@ == "Outgoing"@ {
            CategoryType::Outgoing
        } else {
            CategoryType::Transfer
        }),
{
    if str_eq(value, "Incoming") {
        CategoryType::Incoming
    } else if str_eq(value, "Outgoing") {
        CategoryType::Outgoing
    } else {
        CategoryType::Transfer
    }
}

/// The transaction kind a database text value denotes. The caller owes a
/// known value; anything else has no kind.
pub fn transaction_type_from_db(value: &str) -> (r: TransactionType)
    requires
        value@ == "Incoming"@ || value@ == "Outgoing"@ || value@ == "Transfer"@,
    ensures
        r == (if value@ == "Incoming"@ {
            TransactionType::Incoming
        } else if value@ == "Outgoing"@ {
            TransactionType::Outgoing
        } else {
            TransactionType::Transfer
        }),
{
    if str_eq(value, "Incoming") {
        TransactionType::Incoming
    } else if str_eq(value, "Outgoing") {
        TransactionType::Outgoing
    } else {
        TransactionType::Transfer
    }
}

impl CategoryType {
    /// The text value stored for this kind.
    pub fn category_type_to_db(&self) -> (r: String)
        ensures
            r@ == (match self {
                CategoryType::Incoming => "Incoming"@,
                CategoryType::Outgoing => "Outgoing"@,
                CategoryType::Transfer => "Transfer"@,
            }),
    {
        match self {
            CategoryType::Incoming => String::from_str("Incoming"),
            CategoryType::Outgoing => String::from_str("Outgoing"),
            CategoryType::Transfer => String::from_str("Transfer"),
        }
    }
}

impl TransactionType {
    /// The text value stored for this kind.
    pub fn transaction_type_to_db(&self) -> (r: String)
        ensures
            r@ == (match self {
                TransactionType::Incoming => "Incoming"@,
                TransactionType::Outgoing => "Outgoing"@,
                TransactionType::Transfer => "Transfer"@,
            }),
    {
        match self {
            TransactionType::Incoming => String::from_str("Incoming"),
            TransactionType::Outgoing => String::from_str("Outgoing"),
            TransactionType::Transfer => String::from_str("Transfer"),
        }
    }
}

/// Payload for creating a budget.
#[derive(Debug)]
pub struct CreateBudgetRequest {
    pub name: String,
}

/// Payload tying a category into a budget.
#[derive(Debug)]
pub struct BudgetCategoryRequest {
    /// The category's id, as a 36-character uuid string.
    pub category_id: String,
    /// The amount budgeted; never negative.
    pub budgeted_value: i32,
}

impl BudgetCategoryRequest {
    /// Whether the payload is acceptable: a 36-character uuid string and a
    /// non-negative amount. The first rule broken names the rejection.
    pub fn validate(&self) -> (r: Result<(), ValidationError>)
        ensures
            r is Ok <==> (self.category_id@.len() == 36 && parsed_uuid(self.category_id@) is Some
                && self.budgeted_value >= 0),
            r matches Err(e) ==> e.code@ == (if self.category_id@.len() != 36 {
                "length"@
            } else if parsed_uuid(self.category_id@) is None {
                "Valid Uuid"@
            } else {
                "range"@
            }),
    {
        if self.category_id.as_str().unicode_len() != 36 {
            return Err(ValidationError { code: String::from_str("length") });
        }
        match parse_uuid_string(self.category_id.as_str()) {
            Some(_) => {},
            None => {
                return Err(ValidationError { code: String::from_str("Valid Uuid") });
            },
        }
        if self.budgeted_value < 0 {
            return Err(ValidationError { code: String::from_str("range") });
        }
        Ok(())
    }
}

/// The body of the health endpoint.
#[derive(Debug)]
pub struct HealthResponse {
    pub status: &'static str,
}

} // verus!
