//! A bag of properties in serialisable form: each value's registered type
//! name with the value as JSON.

use serde_json::Value;
use std::collections::HashMap;
use vstd::prelude::*;

use crate::props::PropsData;

verus! {

#[verifier::external_type_specification]
#[verifier::external_body]
pub struct ExValue(Value);

/// Property values keyed by their registered type names.
#[derive(Debug, Clone)]
pub struct PropsGroupPrefab {
    pub data: HashMap<String, Value>,
}

impl Default for PropsGroupPrefab {
    /// No values.
    fn default() -> (r: Self)
        ensures
            r.data@.len() == 0,
    {
        PropsGroupPrefab { data: HashMap::new() }
    }
}

impl PropsData for PropsGroupPrefab {

}

} // verus!
