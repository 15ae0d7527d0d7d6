//! Where Auralux keeps its data.
use vstd::prelude::*;
use vstd::utf8::encode_utf8;
use crate::os_paths::{join_path, join_spec};
use crate::text::bytes_of;

verus! {

/// The data directory and the library database in it.
#[derive(Debug)]
pub struct AuraluxPaths {
    pub data_dir: Vec<u8>,
    pub database_path: Vec<u8>,
}

/// The data directory: the one given, else the platform's local data directory for Auralux,
/// else `.auralux`.
pub open spec fn data_dir_spec(explicit: Option<Seq<u8>>, platform_dir: Option<Seq<u8>>) -> Seq<
    u8,
> {
    match explicit {
        Some(d) => d,
        None => match platform_dir {
            Some(d) => d,
            None => encode_utf8(".auralux"@),
        },
    }
}

/// Chooses the data directory.
pub fn resolve_data_dir(explicit: Option<Vec<u8>>, platform_dir: Option<Vec<u8>>) -> (r: Vec<u8>)
    ensures
        r@ == data_dir_spec(
            match explicit {
                Some(d) => Some(d@),
                None => None,
            },
            match platform_dir {
                Some(d) => Some(d@),
                None => None,
            },
        ),
{
    match explicit {
        Some(d) => d,
        None => match platform_dir {
            Some(d) => d,
            None => bytes_of(".auralux"),
        },
    }
}

impl AuraluxPaths {
    /// The paths within a data directory: the database is `library.db` there.
    pub fn for_data_dir(data_dir: Vec<u8>) -> (r: Self)
        ensures
            r.data_dir@ == data_dir@,
            r.database_path@ == join_spec(data_dir@, encode_utf8("library.db"@)),
    {
        let database_path = join_path(&data_dir, &bytes_of("library.db"));
        AuraluxPaths { data_dir, database_path }
    }
}

} // verus!
