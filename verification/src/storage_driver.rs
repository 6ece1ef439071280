//! The kinds of content store that the registry can be set up with.

use crate::storage::LocalStorageDriver;
use crate::text::{chars_eq, chars_of, extend_chars, lower, string_of, to_lower};
use vstd::prelude::*;

verus! {

/// The kind of a content store.
#[derive(Clone, Copy, Debug, PartialEq, Eq, Structural)]
pub enum DriverType {
    Local,
    S3,
}

/// The content store of the registry. Only local storage is provided.
pub enum Backend {
    Local(LocalStorageDriver),
}

/// The kind that a name stands for: `local` or `s3`.
pub open spec fn driver_named(name: Seq<char>) -> Option<DriverType> {
    if name == "local"@ {
        Some(DriverType::Local)
    } else if name == "s3"@ {
        Some(DriverType::S3)
    } else {
        None
    }
}

impl DriverType {
    /// The name of the kind.
    pub open spec fn name(self) -> Seq<char> {
        match self {
            DriverType::Local => "local"@,
            DriverType::S3 => "s3"@,
        }
    }

    /// Reads the name of a kind, with `ignore_case` without regard to the case of its
    /// letters. Any other text is refused with `invalid storage driver: ` and the text.
    pub fn from_str(input: &str, ignore_case: bool) -> (out: Result<Self, String>)
        ensures
            match out {
                Ok(kind) => driver_named(
                    if ignore_case {
                        lower(input@)
                    } else {
                        input@
                    },
                ) == Some(kind),
                Err(msg) => driver_named(
                    if ignore_case {
                        lower(input@)
                    } else {
                        input@
                    },
                ).is_none() && msg@ == "invalid storage driver: "@ + input@,
            },
    {
        let given = chars_of(input);
        let text = if ignore_case {
            to_lower(given.as_slice())
        } else {
            chars_of(input)
        };
        let local = chars_of("local");
        let s3 = chars_of("s3");
        if chars_eq(text.as_slice(), local.as_slice()) {
            Ok(DriverType::Local)
        } else if chars_eq(text.as_slice(), s3.as_slice()) {
            Ok(DriverType::S3)
        } else {
            let mut msg = chars_of("invalid storage driver: ");
            extend_chars(&mut msg, given.as_slice());
            Err(string_of(msg.as_slice()))
        }
    }

    /// The two kinds.
    pub fn value_variants() -> (out: Vec<DriverType>)
        ensures
            out@ == seq![DriverType::Local, DriverType::S3],
    {
        let mut out: Vec<DriverType> = Vec::new();
        out.push(DriverType::Local);
        out.push(DriverType::S3);
        assert(out@ =~= seq![DriverType::Local, DriverType::S3]);
        out
    }

    /// The name of the kind, as it is given on the command line.
    pub fn to_possible_value(&self) -> (out: Option<&'static str>)
        ensures
            out.is_some(),
            out.unwrap()@ == self.name(),
    {
        match self {
            DriverType::S3 => Some("s3"),
            DriverType::Local => Some("local"),
        }
    }
}

impl Backend {
    /// The kind of the store.
    pub open spec fn driver_kind(&self) -> DriverType {
        match self {
            Backend::Local(_) => DriverType::Local,
        }
    }

    /// An empty store of kind `driver` at `base_path`. Only local storage is provided.
    pub fn new(driver: DriverType, base_path: &str) -> (out: Self)
        requires
            driver == DriverType::Local,
        ensures
            out.driver_kind() == driver,
            out.local().wf(),
            out.local().root() == base_path@,
            out.local().files() == Map::<Seq<char>, Seq<u8>>::empty(),
    {
        Backend::Local(LocalStorageDriver::new(base_path))
    }

    /// An empty store of kind `driver` at `base_path`, if that kind is provided.
    pub fn open(driver: DriverType, base_path: &str) -> (out: Option<Self>)
        ensures
            out.is_some() == (driver == DriverType::Local),
            out matches Some(b) ==> b.driver_kind() == driver && b.local().wf() && b.local().root()
                == base_path@ && b.local().files() == Map::<Seq<char>, Seq<u8>>::empty(),
    {
        match driver {
            DriverType::Local => Some(Backend::new(driver, base_path)),
            DriverType::S3 => None,
        }
    }

    /// The local store behind the backend.
    pub open spec fn local(&self) -> LocalStorageDriver {
        match self {
            Backend::Local(d) => *d,
        }
    }

    /// The kind of the store.
    pub fn kind(&self) -> (out: DriverType)
        ensures
            out == self.driver_kind(),
    {
        match self {
            Backend::Local(_) => DriverType::Local,
        }
    }

    /// The base path of the store.
    pub fn base_path(&self) -> (out: &String)
        ensures
            out@ == self.local().root(),
    {
        match self {
            Backend::Local(d) => d.base_path(),
        }
    }

    /// The local store behind the backend.
    pub fn driver(&self) -> (out: &LocalStorageDriver)
        ensures
            *out == self.local(),
    {
        match self {
            Backend::Local(d) => d,
        }
    }
}

} // verus!
