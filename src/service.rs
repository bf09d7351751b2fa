//! Small values that the service around the storage core passes around.
use itertools::Itertools;
use vstd::prelude::*;

verus! {

/// How the process ends when a command fails.
#[derive(Debug, Clone, Copy, PartialEq, Eq, Structural)]
pub enum ReturnCode {
    Failure,
}

impl ReturnCode {
    /// The process exit code.
    pub fn code(&self) -> (r: i32)
        ensures
            r == 1,
    {
        match self {
            ReturnCode::Failure => 1,
        }
    }
}

/// A `KEY:VALUE` pair of a command-line option.
#[derive(Debug, Clone)]
pub struct KeyValue<K, V> {
    pub key: K,
    pub value: V,
}

impl<K, V> KeyValue<K, V> {
    pub fn new(key: K, value: V) -> (r: Self)
        ensures
            r.key == key,
            r.value == value,
    {
        KeyValue { key, value }
    }
}

/// Relies on `str::splitn(2, ':')` and itertools' `collect_tuple`: with a
/// `:` in `s` the split yields exactly two parts, the text before the first
/// `:` and the rest, and `collect_tuple` returns them; without one it yields
/// a single part and `collect_tuple` returns `None`.
#[verifier::external_body]
fn split_pair(s: &str) -> (r: Option<(String, String)>)
    ensures
        r is None <==> !s@.contains(':'),
        r matches Some((k, v)) ==> s@ == k@ + seq![':'] + v@ && !k@.contains(':'),
{
    s.splitn(2, ':').collect_tuple().map(|(k, v): (&str, &str)| (k.to_string(), v.to_string()))
}

impl KeyValue<String, String> {
    /// Reads `KEY:VALUE`: the key is the text before the first `:`, the
    /// value the rest.
    pub fn parse(s: &str) -> (r: Result<KeyValue<String, String>, String>)
        ensures
            r is Ok <==> s@.contains(':'),
            r matches Ok(kv) ==> s@ == kv.key@ + seq![':'] + kv.value@ && !kv.key@.contains(':'),
            r matches Err(m) ==> m@ == "Invalid key value pair - expected 'KEY:VALUE' got '"@ + s@
                + "'"@,
    {
        match split_pair(s) {
            Some((key, value)) => Ok(KeyValue { key, value }),
            None => {
                let mut m = "Invalid key value pair - expected 'KEY:VALUE' got '".to_owned();
                m.append(s);
                m.append("'");
                Err(m)
            },
        }
    }
}

impl std::str::FromStr for KeyValue<String, String> {
    type Err = String;

    fn from_str(s: &str) -> Result<Self, Self::Err> {
        KeyValue::parse(s)
    }
}

/// The one HTTP error of a server that serves no HTTP API of its own.
#[derive(Debug, Clone, Copy, PartialEq, Eq, Structural)]
pub enum IoxHttpError {
    NotFound,
}

impl IoxHttpError {
    /// The HTTP status code.
    pub fn status_code(&self) -> (r: u16)
        ensures
            r == 404,
    {
        match self {
            IoxHttpError::NotFound => 404,
        }
    }

    /// The error as text: the variant's name.
    pub fn message(&self) -> (r: String)
        ensures
            r@ == "NotFound"@,
    {
        match self {
            IoxHttpError::NotFound => "NotFound".to_owned(),
        }
    }
}

} // verus!
