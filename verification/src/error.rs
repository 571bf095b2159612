use vstd::prelude::*;

verus! {

/// The error of an access to an absent value.
#[derive(Debug, PartialEq, Eq, Structural)]
pub enum Error {
    NoValue,
}

impl Error {
    /// The text of the error.
    pub fn to_string(&self) -> (r: String)
        ensures
            r@ == "Acess to None Object"@,
    {
        "Acess to None Object".to_owned()
    }
}

/// Conversion of an optional value into a result whose error is [`Error::NoValue`].
pub trait AsResult<T: Sized>: Sized {
    fn as_result(self) -> Result<T, Error>;
}

impl<T: Sized> AsResult<T> for Option<T> {
    fn as_result(self) -> (r: Result<T, Error>)
        ensures
            r == match self {
                Option::None => Err(Error::NoValue),
                Option::Some(obj) => Ok(obj),
            },
    {
        match self {
            Option::None => Err(Error::NoValue),
            Option::Some(obj) => Ok(obj),
        }
    }
}

} // verus!
