//! Access credentials for a tracker or wiki endpoint. A secret is either a
//! literal string or the name of an external command that produces it; only
//! the literal form can be resolved here, running a command is left to the
//! caller's process layer.

use vstd::prelude::*;

verus! {

/// A configured secret: a literal value, or a command that prints the value.
#[derive(Debug)]
pub enum Secret {
    String(String),
    Program(String),
}

#[verifier::ext_equal]
pub enum SecretV {
    Literal(Seq<char>),
    Command(Seq<char>),
}

impl View for Secret {
    type V = SecretV;

    open spec fn view(&self) -> SecretV {
        match *self {
            Secret::String(ref s) => SecretV::Literal(s@),
            Secret::Program(ref s) => SecretV::Command(s@),
        }
    }
}

impl Secret {
    /// The secret value, when it is available without running anything:
    /// `Some` exactly for the literal form, carrying the literal itself.
    pub fn get(&self) -> (r: Option<String>)
        ensures
            match *self {
                Secret::String(ref v) => r matches Some(s) && s@ == v@,
                Secret::Program(_) => r is None,
            },
    {
        match self {
            Secret::String(v) => Some(v.clone()),
            Secret::Program(_) => None,
        }
    }
}

impl Clone for Secret {
    fn clone(&self) -> (r: Self)
        ensures
            r@ == self@,
    {
        match self {
            Secret::String(v) => Secret::String(v.clone()),
            Secret::Program(v) => Secret::Program(v.clone()),
        }
    }
}

/// How requests to an endpoint are authenticated.
#[derive(Debug)]
pub enum Access {
    Token(Secret),
    JSessionID(Secret),
}

#[verifier::ext_equal]
pub enum AccessV {
    Token(SecretV),
    JSessionID(SecretV),
}

impl View for Access {
    type V = AccessV;

    open spec fn view(&self) -> AccessV {
        match *self {
            Access::Token(ref s) => AccessV::Token(s@),
            Access::JSessionID(ref s) => AccessV::JSessionID(s@),
        }
    }
}

impl Clone for Access {
    fn clone(&self) -> (r: Self)
        ensures
            r@ == self@,
    {
        match self {
            Access::Token(s) => Access::Token(s.clone()),
            Access::JSessionID(s) => Access::JSessionID(s.clone()),
        }
    }
}

} // verus!
