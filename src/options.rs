use vstd::prelude::*;
use vstd::string::StringExecFns;

verus! {

/// Where the data file is and how to reach the database.
#[derive(Clone, Debug)]
pub struct Options {
    pub data_file: String,
    pub database_conn: String,
}

/// The data file read when none is named.
pub fn default_data_file() -> (r: String)
    ensures
        r@ == "place.hldr"@,
{
    String::from_str("place.hldr")
}

} // verus!
