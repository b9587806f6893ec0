//! HTTP request methods.

use vstd::prelude::*;
use vstd::utf8::encode_utf8;

use crate::tokens::is_token_byte;

verus! {

/// Whether `text` names an HTTP method: a token of at least one byte.
pub open spec fn is_method(text: Seq<char>) -> bool {
    &&& text.len() > 0
    &&& forall|i: int|
        0 <= i < encode_utf8(text).len() ==> is_token_byte(#[trigger] encode_utf8(text)[i])
}

/// A valid HTTP request method. Methods are case sensitive.
#[derive(Debug)]
pub struct Method {
    pub(crate) text: String,
}

impl View for Method {
    type V = Seq<char>;

    closed spec fn view(&self) -> Seq<char> {
        self.text@
    }
}

impl Method {
    #[verifier::type_invariant]
    spec fn well_formed(self) -> bool {
        is_method(self.text@)
    }

    /// Reads a method from its text; `None` when the text is not a token.
    pub fn parse(text: &str) -> (result: Option<Method>)
        ensures
            match result {
                Some(method) => is_method(text@) && method@ == text@,
                None => !is_method(text@),
            },
    {
        if accepts_method(text) {
            Some(Method { text: text.to_owned() })
        } else {
            None
        }
    }

    /// The method's text.
    pub fn as_str(&self) -> (text: &str)
        ensures
            text@ == self@,
            is_method(text@),
    {
        proof {
            use_type_invariant(self);
        }
        self.text.as_str()
    }
}

impl Clone for Method {
    fn clone(&self) -> (result: Method)
        ensures
            result@ == self@,
    {
        proof {
            use_type_invariant(self);
        }
        Method { text: self.text.clone() }
    }
}

/// Calls `http::Method::from_bytes`, which accepts a byte string exactly when
/// it is not empty and holds only token bytes.
#[verifier::external_body]
fn accepts_method(text: &str) -> (accepted: bool)
    ensures
        accepted == is_method(text@),
{
    http::Method::from_bytes(text.as_bytes()).is_ok()
}

} // verus!
